//! What a sub gives back, in each of the two contexts Perl has, and the shape
//! of what it gives back in list context.

use vstd::prelude::*;

use crate::text::{append, push_char};
use crate::types::{
    all_equal, duplicate_all, join, join_strings, lemma_views, lemma_views_push, push_all_new,
    push_new, render_all, render_each, spec_render, spec_union, strings_view, views, Type, TypeV,
};

verus! {

/// The shape of what a sub returns in list context.
#[derive(Debug)]
pub enum ListShape {
    Unknown,
    /// `Returns: ()` — nothing.
    Nothing,
    /// `Returns: (Str, Int)` — a known length, and a type per slot.
    Fixed(Vec<Type>),
    /// `Returns: (Row ...)` — any length, one element type.
    Of(Type),
    /// `Returns: (Value, Undef) | (Undef, Error)` — several fixed shapes of
    /// one length, one of which a call hands back. Every alternative has the
    /// same number of slots, there are at least two of them, and no two are
    /// the same.
    Either(Vec<Vec<Type>>),
}

/// The value of a [`ListShape`].
pub enum ShapeV {
    Unknown,
    Nothing,
    Fixed(Seq<TypeV>),
    Of(TypeV),
    Either(Seq<Seq<TypeV>>),
}

pub open spec fn shape_views(shapes: Seq<Vec<Type>>) -> Seq<Seq<TypeV>> {
    shapes.map_values(|one: Vec<Type>| views(one@))
}

impl View for ListShape {
    type V = ShapeV;

    open spec fn view(&self) -> ShapeV {
        match self {
            ListShape::Unknown => ShapeV::Unknown,
            ListShape::Nothing => ShapeV::Nothing,
            ListShape::Fixed(types) => ShapeV::Fixed(views(types@)),
            ListShape::Of(ty) => ShapeV::Of(ty@),
            ListShape::Either(shapes) => ShapeV::Either(shape_views(shapes@)),
        }
    }
}

/// How many alternatives are worth keeping apart.
pub open spec fn alternatives_kept() -> int {
    3
}

/// A list of a known length, or `Unknown` when nothing is known about any
/// of its slots.
pub open spec fn spec_fixed(types: Seq<TypeV>) -> ShapeV {
    if types.len() > 0 && forall|i: int| 0 <= i < types.len() ==> (#[trigger] types[i]) is Unknown {
        ShapeV::Unknown
    } else {
        ShapeV::Fixed(types)
    }
}

/// Any number of one type, or `Unknown` when the type is not known.
pub open spec fn spec_of(ty: TypeV) -> ShapeV {
    if ty is Unknown {
        ShapeV::Unknown
    } else {
        ShapeV::Of(ty)
    }
}

/// How many slots the alternatives have: the first one's count.
pub open spec fn spec_width(shapes: Seq<Seq<TypeV>>) -> int {
    if shapes.len() == 0 {
        0
    } else {
        shapes[0].len() as int
    }
}

/// The type at `slot` of every alternative that has one.
pub open spec fn column(shapes: Seq<Seq<TypeV>>, slot: int) -> Seq<TypeV>
    decreases shapes.len(),
{
    if shapes.len() == 0 {
        Seq::empty()
    } else if 0 <= slot < shapes.last().len() {
        column(shapes.drop_last(), slot).push(shapes.last()[slot])
    } else {
        column(shapes.drop_last(), slot)
    }
}

/// The union at each position, which is what an alternation collapses to
/// when nothing can carry the correlation any further.
pub open spec fn spec_slotwise(shapes: Seq<Seq<TypeV>>) -> Seq<TypeV> {
    Seq::new(spec_width(shapes) as nat, |slot: int| spec_union(column(shapes, slot)))
}

/// The alternatives, deduplicated in the order they were first met.
pub open spec fn deduplicated(shapes: Seq<Seq<TypeV>>) -> Seq<Seq<TypeV>> {
    push_all_new(Seq::empty(), shapes)
}

/// Several fixed shapes of one length, or the one they collapse to.
pub open spec fn spec_either(shapes: Seq<Seq<TypeV>>) -> ShapeV {
    let kept = deduplicated(shapes);
    if kept.len() == 0 {
        ShapeV::Unknown
    } else if kept.len() == 1 {
        spec_fixed(kept[0])
    } else if spec_width(kept) <= 1 {
        spec_fixed(spec_slotwise(kept))
    } else if kept.len() > alternatives_kept() {
        spec_fixed(spec_slotwise(kept))
    } else {
        ShapeV::Either(kept)
    }
}

/// The shapes this may be, when the length is known.
pub open spec fn spec_alternatives(shape: ShapeV) -> Option<Seq<Seq<TypeV>>> {
    match shape {
        ShapeV::Nothing => Some(seq![Seq::<TypeV>::empty()]),
        ShapeV::Fixed(types) => Some(seq![types]),
        ShapeV::Either(shapes) => Some(shapes),
        _ => None,
    }
}

/// The slots, when the length is known — one type per position.
pub open spec fn spec_slots(shape: ShapeV) -> Option<Seq<TypeV>> {
    match shape {
        ShapeV::Nothing => Some(Seq::empty()),
        ShapeV::Fixed(types) => Some(types),
        ShapeV::Either(shapes) => Some(spec_slotwise(shapes)),
        _ => None,
    }
}

/// Every alternative's slots, one after another.
pub open spec fn concat(shapes: Seq<Seq<TypeV>>) -> Seq<TypeV>
    decreases shapes.len(),
{
    if shapes.len() == 0 {
        Seq::empty()
    } else {
        concat(shapes.drop_last()) + shapes.last()
    }
}

/// Every type an element of this list may have.
pub open spec fn spec_members(shape: ShapeV) -> Seq<TypeV> {
    match shape {
        ShapeV::Unknown => seq![TypeV::Unknown],
        ShapeV::Nothing => Seq::empty(),
        ShapeV::Fixed(types) => types,
        ShapeV::Of(ty) => seq![ty],
        ShapeV::Either(shapes) => concat(shapes),
    }
}

/// The join of two shapes: alternatives where both lengths are known and
/// agree, a list of every member otherwise, and `Unknown` against `Unknown`.
pub open spec fn spec_join(a: ShapeV, b: ShapeV) -> ShapeV {
    if a is Unknown || b is Unknown {
        ShapeV::Unknown
    } else {
        match (spec_alternatives(a), spec_alternatives(b)) {
            (Some(left), Some(right)) => if spec_width(left) == spec_width(right) {
                spec_either(left + right)
            } else {
                spec_of(spec_union(spec_members(a) + spec_members(b)))
            },
            _ => spec_of(spec_union(spec_members(a) + spec_members(b))),
        }
    }
}

/// One alternative as the annotation writes it: `(A, B)`.
pub open spec fn written_slots(types: Seq<TypeV>) -> Seq<char> {
    "("@ + join(render_all(types), ", "@) + ")"@
}

pub open spec fn written_each(shapes: Seq<Seq<TypeV>>) -> Seq<Seq<char>>
    decreases shapes.len(),
{
    if shapes.len() == 0 {
        Seq::empty()
    } else {
        written_each(shapes.drop_last()).push(written_slots(shapes.last()))
    }
}

/// How the annotation for this shape is written, which is how hover shows it
/// too.
pub open spec fn spec_written(shape: ShapeV) -> Option<Seq<char>> {
    match shape {
        ShapeV::Unknown => None,
        ShapeV::Nothing => Some("()"@),
        ShapeV::Fixed(types) => Some(written_slots(types)),
        ShapeV::Of(ty) => Some("("@ + spec_render(ty) + " ...)"@),
        ShapeV::Either(shapes) => Some(join(written_each(shapes), " | "@)),
    }
}

/// A copy of every alternative.
fn duplicate_shapes(shapes: &Vec<Vec<Type>>) -> (out: Vec<Vec<Type>>)
    ensures
        shape_views(out@) == shape_views(shapes@),
{
    let mut out: Vec<Vec<Type>> = Vec::new();
    let mut i: usize = 0;
    while i < shapes.len()
        invariant
            i <= shapes@.len(),
            shape_views(out@) == shape_views(shapes@).subrange(0, i as int),
        decreases shapes@.len() - i,
    {
        let one = duplicate_all(&shapes[i]);
        let ghost before = shape_views(out@);
        out.push(one);
        proof {
            assert(shape_views(out@) =~= before.push(views(shapes@[i as int]@)));
            assert(shape_views(out@) =~= shape_views(shapes@).subrange(0, i + 1));
        }
        i += 1;
    }
    assert(shape_views(shapes@).subrange(0, shapes@.len() as int) =~= shape_views(shapes@));
    out
}

/// Whether `shape` is one of `kept`.
fn holds_shape(kept: &Vec<Vec<Type>>, shape: &Vec<Type>) -> (r: bool)
    ensures
        r == shape_views(kept@).contains(views(shape@)),
{
    let mut i: usize = 0;
    while i < kept.len()
        invariant
            i <= kept@.len(),
            forall|j: int| 0 <= j < i ==> shape_views(kept@)[j] != views(shape@),
        decreases kept@.len() - i,
    {
        if all_equal(&kept[i], shape) {
            assert(shape_views(kept@)[i as int] == views(shape@));
            return true;
        }
        i += 1;
    }
    false
}

/// How many slots the alternatives have.
fn width(shapes: &Vec<Vec<Type>>) -> (w: usize)
    ensures
        w == spec_width(shape_views(shapes@)),
{
    if shapes.len() == 0 {
        0
    } else {
        proof {
            lemma_views(shapes@[0]@);
        }
        shapes[0].len()
    }
}

/// The union at each position.
fn slotwise(shapes: &Vec<Vec<Type>>) -> (out: Vec<Type>)
    ensures
        views(out@) == spec_slotwise(shape_views(shapes@)),
{
    let w = width(shapes);
    let ghost s = shape_views(shapes@);
    let mut out: Vec<Type> = Vec::new();
    let mut slot: usize = 0;
    while slot < w
        invariant
            slot <= w,
            w == spec_width(s),
            s == shape_views(shapes@),
            views(out@) == spec_slotwise(s).subrange(0, slot as int),
        decreases w - slot,
    {
        let mut members: Vec<Type> = Vec::new();
        let mut i: usize = 0;
        while i < shapes.len()
            invariant
                i <= shapes@.len(),
                s == shape_views(shapes@),
                views(members@) == column(s.subrange(0, i as int), slot as int),
            decreases shapes@.len() - i,
        {
            proof {
                lemma_views(shapes@[i as int]@);
                assert(s.subrange(0, i + 1).drop_last() =~= s.subrange(0, i as int));
                assert(s.subrange(0, i + 1).last() == views(shapes@[i as int]@));
            }
            if slot < shapes[i].len() {
                let one = shapes[i][slot].duplicate();
                proof {
                    lemma_views_push(members@, one);
                }
                members.push(one);
            }
            i += 1;
        }
        assert(s.subrange(0, shapes@.len() as int) =~= s);
        let ghost before = views(out@);
        let joined = Type::union(members);
        proof {
            lemma_views_push(out@, joined);
        }
        out.push(joined);
        proof {
            assert(views(out@) =~= spec_slotwise(s).subrange(0, slot + 1));
        }
        slot += 1;
    }
    assert(spec_slotwise(s).subrange(0, w as int) =~= spec_slotwise(s));
    out
}

/// Every alternative's slots, one after another.
fn concat_all(shapes: &Vec<Vec<Type>>) -> (out: Vec<Type>)
    ensures
        views(out@) == concat(shape_views(shapes@)),
{
    let ghost s = shape_views(shapes@);
    let mut out: Vec<Type> = Vec::new();
    let mut i: usize = 0;
    while i < shapes.len()
        invariant
            i <= shapes@.len(),
            s == shape_views(shapes@),
            views(out@) == concat(s.subrange(0, i as int)),
        decreases shapes@.len() - i,
    {
        let one = &shapes[i];
        let mut k: usize = 0;
        let ghost start = views(out@);
        proof {
            lemma_views(one@);
        }
        while k < one.len()
            invariant
                k <= one@.len(),
                views(out@) == start + views(one@).subrange(0, k as int),
            decreases one@.len() - k,
        {
            let t = one[k].duplicate();
            proof {
                lemma_views_push(out@, t);
                lemma_views(one@);
            }
            out.push(t);
            k += 1;
            proof {
                assert(views(out@) =~= start + views(one@).subrange(0, k as int));
            }
        }
        proof {
            assert(views(one@).subrange(0, one@.len() as int) =~= views(one@));
            assert(s.subrange(0, i + 1).drop_last() =~= s.subrange(0, i as int));
        }
        i += 1;
    }
    assert(s.subrange(0, shapes@.len() as int) =~= s);
    out
}

impl ListShape {
    /// How many alternatives are worth keeping apart: two is the idiom this
    /// exists for, and a five-way alternation reads worse than the union.
    pub fn alternatives_kept() -> (n: usize)
        ensures
            n == alternatives_kept(),
    {
        3
    }

    /// A list of a known length, or `Unknown` when nothing is known about any
    /// of its slots. An empty list is not this case: a length of zero is
    /// something.
    pub fn fixed(types: Vec<Type>) -> (r: ListShape)
        ensures
            r@ == spec_fixed(views(types@)),
    {
        proof {
            lemma_views(types@);
        }
        if types.len() == 0 {
            return ListShape::Fixed(types);
        }
        let mut i: usize = 0;
        while i < types.len()
            invariant
                i <= types@.len(),
                views(types@).len() == types@.len(),
                forall|j: int| 0 <= j < types@.len() ==> #[trigger] views(types@)[j] == types@[j]@,
                forall|j: int| 0 <= j < i ==> (#[trigger] views(types@)[j]) is Unknown,
            decreases types@.len() - i,
        {
            if !types[i].is_unknown() {
                assert(!(views(types@)[i as int] is Unknown));
                return ListShape::Fixed(types);
            }
            i += 1;
        }
        ListShape::Unknown
    }

    /// Any number of one type, or `Unknown` when the type is not known —
    /// which is "a list this pass can say nothing about" rather than "a list
    /// of nothing".
    pub fn of(ty: Type) -> (r: ListShape)
        ensures
            r@ == spec_of(ty@),
    {
        if ty.is_unknown() {
            ListShape::Unknown
        } else {
            ListShape::Of(ty)
        }
    }

    /// Several fixed shapes of one length, or the one they collapse to:
    /// deduplicated, collapsed to a single `Fixed` when that is all that is
    /// left, and collapsed slot-wise past [`ListShape::alternatives_kept`] or
    /// where there is at most one slot to correlate.
    pub fn either(shapes: Vec<Vec<Type>>) -> (r: ListShape)
        ensures
            r@ == spec_either(shape_views(shapes@)),
    {
        let ghost s = shape_views(shapes@);
        let mut kept: Vec<Vec<Type>> = Vec::new();
        let mut i: usize = 0;
        while i < shapes.len()
            invariant
                i <= shapes@.len(),
                s == shape_views(shapes@),
                shape_views(kept@) == push_all_new(Seq::<Seq<TypeV>>::empty(), s.subrange(0, i as int)),
            decreases shapes@.len() - i,
        {
            proof {
                assert(s.subrange(0, i + 1).drop_last() =~= s.subrange(0, i as int));
                assert(s.subrange(0, i + 1).last() == views(shapes@[i as int]@));
            }
            if !holds_shape(&kept, &shapes[i]) {
                let one = duplicate_all(&shapes[i]);
                let ghost before = shape_views(kept@);
                kept.push(one);
                proof {
                    assert(shape_views(kept@) =~= before.push(views(shapes@[i as int]@)));
                }
            }
            i += 1;
        }
        assert(s.subrange(0, shapes@.len() as int) =~= s);
        let n = kept.len();
        if n == 0 {
            ListShape::Unknown
        } else if n == 1 {
            let one = duplicate_all(&kept[0]);
            ListShape::fixed(one)
        } else if width(&kept) <= 1 {
            ListShape::fixed(slotwise(&kept))
        } else if n > ListShape::alternatives_kept() {
            ListShape::fixed(slotwise(&kept))
        } else {
            ListShape::Either(kept)
        }
    }

    /// The shapes this may be, when the length is known. `Returns: ()` is a
    /// list of none, which is what makes it agree with `(Str)` being a list
    /// of one.
    fn alternatives(&self) -> (r: Option<Vec<Vec<Type>>>)
        ensures
            match r {
                Some(a) => spec_alternatives(self@) == Some(shape_views(a@)),
                None => spec_alternatives(self@) is None,
            },
    {
        match self {
            ListShape::Nothing => {
                let mut out: Vec<Vec<Type>> = Vec::new();
                out.push(Vec::new());
                proof {
                    assert(views(Seq::<Type>::empty()) =~= Seq::<TypeV>::empty());
                    assert(shape_views(out@) =~= seq![Seq::<TypeV>::empty()]);
                }
                Some(out)
            },
            ListShape::Fixed(types) => {
                let mut out: Vec<Vec<Type>> = Vec::new();
                out.push(duplicate_all(types));
                proof {
                    assert(shape_views(out@) =~= seq![views(types@)]);
                }
                Some(out)
            },
            ListShape::Either(shapes) => Some(duplicate_shapes(shapes)),
            _ => None,
        }
    }

    /// The join of two shapes.
    ///
    /// Two shapes of the same length are kept *apart*, as alternatives:
    /// `return (undef, $err)` beside `return ($value, undef)` is
    /// `(Undef, Error) | (Value, Undef)`. A length that does not agree, or an
    /// `Of` on either side, is `Of` of every member joined. Anything against
    /// `Unknown` is `Unknown`, which is the same rule the scalar half's join
    /// has.
    pub fn join(self, other: ListShape) -> (r: ListShape)
        ensures
            r@ == spec_join(self@, other@),
    {
        if let ListShape::Unknown = self {
            return ListShape::Unknown;
        }
        if let ListShape::Unknown = other {
            return ListShape::Unknown;
        }
        match (self.alternatives(), other.alternatives()) {
            (Some(left), Some(right)) => {
                if width(&left) == width(&right) {
                    let mut shapes = left;
                    let ghost l = shape_views(shapes@);
                    let mut right = right;
                    let ghost r0 = shape_views(right@);
                    shapes.append(&mut right);
                    proof {
                        assert(shape_views(shapes@) =~= l + r0);
                    }
                    return ListShape::either(shapes);
                }
            },
            _ => {},
        }
        let mut members = self.members();
        let mut more = other.members();
        let ghost ma = members@;
        let ghost mb = more@;
        members.append(&mut more);
        proof {
            assert(members@ =~= ma + mb);
            lemma_views(ma);
            lemma_views(mb);
            lemma_views(ma + mb);
            assert(views(members@) =~= views(ma) + views(mb));
        }
        ListShape::of(Type::union(members))
    }

    /// The slots, when the length is known — one type per position. An
    /// alternation answers slot-wise here, which keeps every reader of a
    /// *position* working unchanged.
    pub fn slots(&self) -> (r: Option<Vec<Type>>)
        ensures
            match r {
                Some(t) => spec_slots(self@) == Some(views(t@)),
                None => spec_slots(self@) is None,
            },
    {
        match self {
            ListShape::Nothing => {
                let out: Vec<Type> = Vec::new();
                assert(views(out@) =~= Seq::<TypeV>::empty());
                Some(out)
            },
            ListShape::Fixed(types) => Some(duplicate_all(types)),
            ListShape::Either(shapes) => Some(slotwise(shapes)),
            _ => None,
        }
    }

    /// Every type an element of this list may have.
    pub fn members(&self) -> (r: Vec<Type>)
        ensures
            views(r@) == spec_members(self@),
    {
        match self {
            ListShape::Unknown => {
                let mut out: Vec<Type> = Vec::new();
                out.push(Type::Unknown);
                proof {
                    lemma_views(out@);
                    assert(views(out@) =~= seq![TypeV::Unknown]);
                }
                out
            },
            ListShape::Nothing => {
                let out: Vec<Type> = Vec::new();
                assert(views(out@) =~= Seq::<TypeV>::empty());
                out
            },
            ListShape::Fixed(types) => duplicate_all(types),
            ListShape::Of(ty) => {
                let mut out: Vec<Type> = Vec::new();
                out.push(ty.duplicate());
                proof {
                    lemma_views(out@);
                    assert(views(out@) =~= seq![ty@]);
                }
                out
            },
            ListShape::Either(shapes) => concat_all(shapes),
        }
    }

    /// How the annotation for this shape is written, which is how hover
    /// shows it too.
    pub fn written(&self) -> (r: Option<String>)
        ensures
            match r {
                Some(s) => spec_written(self@) == Some(s@),
                None => spec_written(self@) is None,
            },
    {
        match self {
            ListShape::Unknown => None,
            ListShape::Nothing => {
                let mut out = String::new();
                append(&mut out, "()");
                Some(out)
            },
            ListShape::Fixed(types) => Some(written_one(types)),
            ListShape::Of(ty) => {
                let mut out = String::new();
                append(&mut out, "(");
                let inner = ty.render();
                append(&mut out, inner.as_str());
                append(&mut out, " ...)");
                Some(out)
            },
            ListShape::Either(shapes) => {
                let mut parts: Vec<String> = Vec::new();
                let ghost s = shape_views(shapes@);
                let mut i: usize = 0;
                while i < shapes.len()
                    invariant
                        i <= shapes@.len(),
                        s == shape_views(shapes@),
                        strings_view(parts@) == written_each(s.subrange(0, i as int)),
                    decreases shapes@.len() - i,
                {
                    let one = written_one(&shapes[i]);
                    let ghost before = strings_view(parts@);
                    parts.push(one);
                    proof {
                        assert(strings_view(parts@) =~= before.push(written_slots(views(shapes@[i as int]@))));
                        assert(s.subrange(0, i + 1).drop_last() =~= s.subrange(0, i as int));
                        assert(s.subrange(0, i + 1).last() == views(shapes@[i as int]@));
                    }
                    i += 1;
                }
                assert(s.subrange(0, shapes@.len() as int) =~= s);
                Some(join_strings(&parts, " | "))
            },
        }
    }
}

/// `(A, B)`.
fn written_one(types: &Vec<Type>) -> (out: String)
    ensures
        out@ == written_slots(views(types@)),
{
    let parts = render_each(types);
    let inner = join_strings(&parts, ", ");
    let mut out = String::new();
    append(&mut out, "(");
    append(&mut out, inner.as_str());
    append(&mut out, ")");
    out
}

/// Whether two lists of alternatives hold the same shapes.
fn shapes_equal(a: &Vec<Vec<Type>>, b: &Vec<Vec<Type>>) -> (r: bool)
    ensures
        r == (shape_views(a@) == shape_views(b@)),
{
    if a.len() != b.len() {
        assert(shape_views(a@).len() != shape_views(b@).len());
        return false;
    }
    let mut i: usize = 0;
    while i < a.len()
        invariant
            i <= a@.len(),
            a@.len() == b@.len(),
            forall|j: int| 0 <= j < i ==> shape_views(a@)[j] == shape_views(b@)[j],
        decreases a@.len() - i,
    {
        if !all_equal(&a[i], &b[i]) {
            assert(shape_views(a@)[i as int] != shape_views(b@)[i as int]);
            return false;
        }
        i += 1;
    }
    assert(shape_views(a@) =~= shape_views(b@));
    true
}

impl ListShape {
    pub fn equals(&self, other: &ListShape) -> (r: bool)
        ensures
            r == (self@ == other@),
    {
        match self {
            ListShape::Unknown => matches!(other, ListShape::Unknown),
            ListShape::Nothing => matches!(other, ListShape::Nothing),
            ListShape::Fixed(a) => match other {
                ListShape::Fixed(b) => all_equal(a, b),
                _ => false,
            },
            ListShape::Of(a) => match other {
                ListShape::Of(b) => a.equals(b),
                _ => false,
            },
            ListShape::Either(a) => match other {
                ListShape::Either(b) => shapes_equal(a, b),
                _ => false,
            },
        }
    }

    pub fn duplicate(&self) -> (r: ListShape)
        ensures
            r@ == self@,
    {
        match self {
            ListShape::Unknown => ListShape::Unknown,
            ListShape::Nothing => ListShape::Nothing,
            ListShape::Fixed(a) => ListShape::Fixed(duplicate_all(a)),
            ListShape::Of(a) => ListShape::Of(a.duplicate()),
            ListShape::Either(a) => ListShape::Either(duplicate_shapes(a)),
        }
    }
}

impl PartialEq for ListShape {
    fn eq(&self, other: &ListShape) -> (r: bool) {
        self.equals(other)
    }
}

impl Eq for ListShape {
}

impl vstd::std_specs::cmp::PartialEqSpecImpl for ListShape {
    open spec fn obeys_eq_spec() -> bool {
        true
    }

    open spec fn eq_spec(&self, other: &ListShape) -> bool {
        self@ == other@
    }
}

impl Clone for ListShape {
    fn clone(&self) -> (r: ListShape)
        ensures
            r@ == self@,
    {
        self.duplicate()
    }
}

impl Default for ListShape {
    fn default() -> (r: ListShape)
        ensures
            r@ == ShapeV::Unknown,
    {
        ListShape::Unknown
    }
}

/// What a sub gives back, in each of the two contexts Perl has.
#[derive(Debug)]
pub struct Returns {
    pub scalar: Type,
    pub list: ListShape,
    /// Read off the body rather than written down.
    pub inferred: bool,
    /// The `InstanceOf[own package]` member of `scalar` stands for *the class
    /// the sub was called on* rather than the one it was written in.
    pub invocant: bool,
}

impl Default for Returns {
    fn default() -> (r: Returns)
        ensures
            r.scalar@ == TypeV::Unknown,
            r.list@ == ShapeV::Unknown,
            !r.inferred,
            !r.invocant,
    {
        Returns { scalar: Type::Unknown, list: ListShape::Unknown, inferred: false, invocant: false }
    }
}

impl Clone for Returns {
    fn clone(&self) -> (r: Returns)
        ensures
            r.scalar@ == self.scalar@,
            r.list@ == self.list@,
            r.inferred == self.inferred,
            r.invocant == self.invocant,
    {
        Returns {
            scalar: self.scalar.duplicate(),
            list: self.list.duplicate(),
            inferred: self.inferred,
            invocant: self.invocant,
        }
    }
}

impl Returns {
    /// What a sub returns, as the return walk read it off the body.
    pub fn inferred(scalar: Type, list: ListShape, invocant: bool) -> (r: Returns)
        ensures
            r.scalar@ == scalar@,
            r.list@ == list@,
            r.inferred,
            r.invocant == invocant,
    {
        Returns { scalar, list, inferred: true, invocant }
    }

    /// Whether the walk has anything left to say about this sub: an
    /// annotated sub is never inferred, and an inferred type is final once it
    /// is known.
    pub fn is_unresolved(&self) -> (r: bool)
        ensures
            r == (self.scalar@ is Unknown && self.list@ is Unknown),
    {
        self.scalar.is_unknown() && matches!(self.list, ListShape::Unknown)
    }

    /// Whether the walk may read this sub's return off its body at all: not
    /// a written `Returns:`, which wins over anything a body says.
    pub fn is_inferable(&self) -> (r: bool)
        ensures
            r == (self.inferred || (self.scalar@ is Unknown && self.list@ is Unknown)),
    {
        self.inferred || self.is_unresolved()
    }
}

/// No two elements are the same.
pub open spec fn no_duplicates<A>(s: Seq<A>) -> bool {
    forall|i: int, j: int| 0 <= i < j < s.len() ==> s[i] != s[j]
}

proof fn lemma_deduplicated<A>(flat: Seq<A>, more: Seq<A>)
    requires
        no_duplicates(flat),
    ensures
        no_duplicates(push_all_new(flat, more)),
        forall|x: A| push_all_new(flat, more).contains(x) ==> flat.contains(x) || more.contains(x),
        more.len() > 0 ==> push_all_new(flat, more).len() > 0,
    decreases more.len(),
{
    if more.len() > 0 {
        lemma_deduplicated(flat, more.drop_last());
        let before = push_all_new(flat, more.drop_last());
        assert forall|x: A| push_all_new(flat, more).contains(x) implies flat.contains(x) || more.contains(x) by {
            if before.contains(x) {
                if more.drop_last().contains(x) {
                    let k = choose|k: int| 0 <= k < more.drop_last().len() && more.drop_last()[k] == x;
                    assert(more[k] == x);
                }
            } else {
                assert(x == more.last());
                assert(more[more.len() - 1] == x);
            }
        }
        if !before.contains(more.last()) {
            assert forall|i: int, j: int| 0 <= i < j < before.push(more.last()).len() implies before.push(more.last())[i]
                != before.push(more.last())[j] by {
                if j == before.len() {
                    assert(before.push(more.last())[i] == before[i]);
                }
            }
        } else {
            assert(before.len() > 0);
        }
    }
}

/// Anything against `Unknown` is `Unknown`, on either side.
pub proof fn law_join_with_unknown_is_unknown(a: ShapeV)
    ensures
        spec_join(a, ShapeV::Unknown) == ShapeV::Unknown,
        spec_join(ShapeV::Unknown, a) == ShapeV::Unknown,
{
}

/// A fixed shape joined with itself is itself: two `return`s of the same
/// shape are one shape.
pub proof fn law_a_shape_joined_with_itself_is_itself(types: Seq<TypeV>)
    requires
        spec_fixed(types) == ShapeV::Fixed(types),
    ensures
        spec_join(ShapeV::Fixed(types), ShapeV::Fixed(types)) == ShapeV::Fixed(types),
{
    let both = seq![types] + seq![types];
    assert(both.drop_last() =~= seq![types]);
    assert(seq![types].drop_last() =~= Seq::<Seq<TypeV>>::empty());
    let e = Seq::<Seq<TypeV>>::empty();
    assert(push_all_new(e, e) == e);
    assert(!e.contains(types));
    assert(seq![types].last() == types);
    assert(push_new(e, types) =~= seq![types]);
    assert(push_all_new(e, seq![types]) == push_new(push_all_new(e, seq![types].drop_last()), types));
    assert(push_all_new(e, seq![types]) =~= seq![types]);
    assert(seq![types].contains(types)) by {
        assert(seq![types][0] == types);
    }
    assert(deduplicated(both) =~= seq![types]);
}

/// What an alternation keeps: two or three alternatives, no two the same,
/// each one of those it was given, and — where they were given one length —
/// all of that length, which is at least two slots.
pub proof fn law_an_alternation_is_a_real_choice(shapes: Seq<Seq<TypeV>>, w: int)
    requires
        forall|i: int| 0 <= i < shapes.len() ==> (#[trigger] shapes[i]).len() == w,
    ensures
        spec_either(shapes) matches ShapeV::Either(kept) ==> {
            &&& 2 <= kept.len() <= alternatives_kept()
            &&& no_duplicates(kept)
            &&& forall|i: int| 0 <= i < kept.len() ==> shapes.contains(#[trigger] kept[i])
            &&& forall|i: int| 0 <= i < kept.len() ==> (#[trigger] kept[i]).len() == w
            &&& w >= 2
        },
{
    lemma_deduplicated(Seq::<Seq<TypeV>>::empty(), shapes);
    let kept = deduplicated(shapes);
    assert forall|i: int| 0 <= i < kept.len() implies shapes.contains(#[trigger] kept[i]) by {
        assert(kept.contains(kept[i]));
    }
    assert forall|i: int| 0 <= i < kept.len() implies (#[trigger] kept[i]).len() == w by {
        assert(kept.contains(kept[i]));
        let k = choose|k: int| 0 <= k < shapes.len() && shapes[k] == kept[i];
    }
    if kept.len() > 0 {
        assert(kept.contains(kept[0]));
        let k = choose|k: int| 0 <= k < shapes.len() && shapes[k] == kept[0];
        assert(spec_width(kept) == w);
    }
}

/// What a sub's `Returns:` says of the list context: that it is nothing.
/// The flow pass and the declaration pass agree on the empty case by asking
/// this.
pub fn returns_nothing(summary: &Returns) -> (r: bool)
    ensures
        r == (summary.list@ is Nothing),
{
    match summary.list {
        ListShape::Nothing => true,
        _ => false,
    }
}

} // verus!
