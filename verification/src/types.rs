//! The type lattice and the type-expression parser.
//!
//! The type language is the intersection of Moose's string constraints and
//! Types::Standard, because that is what the annotations are written in.
//!
//! [`Type::Unknown`] is the rule the whole design rests on. It is a top like
//! `Any`, but it means "not analysed" rather than "anything", it propagates
//! through every operation, and nothing is ever reported against it.

use vstd::prelude::*;
use vstd::string::*;

use crate::text::{append, char_string, chars_of, same_text, str_eq, string_of};

verus! {

/// A shape a value may have.
#[derive(Debug)]
pub enum Type {
    /// Top. Everything is `Any`.
    Any,
    /// Top too, but "not analysed": never reported against, and every
    /// operation on it yields it.
    Unknown,
    Defined,
    Value,
    Str,
    Num,
    Int,
    /// `0`, `1`, `''`, `undef`. Kept nominal: `Bool` is not `Int`.
    Bool,
    /// A `Str` naming a package, and which one where that is known.
    ClassName(Option<String>),
    /// A `Str` naming a role.
    RoleName,
    Enum(Vec<String>),
    /// A reference of an unsaid kind.
    Ref,
    ScalarRef(Box<Type>),
    ArrayRef(Box<Type>),
    Tuple(Vec<Type>),
    HashRef(Box<Type>),
    Dict {
        slots: Vec<(String, Type)>,
        /// `Dict[..., slurpy HashRef[T]]` — what any other key holds.
        slurpy: Option<Box<Type>>,
    },
    MapOf(Box<Type>, Box<Type>),
    CodeRef,
    RegexpRef,
    GlobRef,
    FileHandle,
    Object,
    InstanceOf(String),
    ConsumerOf(String),
    HasMethods(Vec<String>),
    Undef,
    /// Only inside a `Dict` or a parameter list: the slot may be absent.
    Optional(Box<Type>),
    Union(Vec<Type>),
}

/// The mathematical value of a [`Type`]: the same shape, with every string
/// read as its characters.
pub enum TypeV {
    Any,
    Unknown,
    Defined,
    Value,
    Str,
    Num,
    Int,
    Bool,
    ClassName(Option<Seq<char>>),
    RoleName,
    Enum(Seq<Seq<char>>),
    Ref,
    ScalarRef(Box<TypeV>),
    ArrayRef(Box<TypeV>),
    Tuple(Seq<TypeV>),
    HashRef(Box<TypeV>),
    Dict { slots: Seq<(Seq<char>, TypeV)>, slurpy: Option<Box<TypeV>> },
    MapOf(Box<TypeV>, Box<TypeV>),
    CodeRef,
    RegexpRef,
    GlobRef,
    FileHandle,
    Object,
    InstanceOf(Seq<char>),
    ConsumerOf(Seq<char>),
    HasMethods(Seq<Seq<char>>),
    Undef,
    Optional(Box<TypeV>),
    Union(Seq<TypeV>),
}

/// The characters of each string.
pub open spec fn strings_view(s: Seq<String>) -> Seq<Seq<char>> {
    s.map_values(|one: String| one@)
}

impl View for Type {
    type V = TypeV;

    open spec fn view(&self) -> TypeV
        decreases self,
    {
        match self {
            Type::Any => TypeV::Any,
            Type::Unknown => TypeV::Unknown,
            Type::Defined => TypeV::Defined,
            Type::Value => TypeV::Value,
            Type::Str => TypeV::Str,
            Type::Num => TypeV::Num,
            Type::Int => TypeV::Int,
            Type::Bool => TypeV::Bool,
            Type::ClassName(name) => TypeV::ClassName(
                match name {
                    Some(n) => Some(n@),
                    None => None,
                },
            ),
            Type::RoleName => TypeV::RoleName,
            Type::Enum(values) => TypeV::Enum(strings_view(values@)),
            Type::Ref => TypeV::Ref,
            Type::ScalarRef(inner) => TypeV::ScalarRef(Box::new((**inner).view())),
            Type::ArrayRef(inner) => TypeV::ArrayRef(Box::new((**inner).view())),
            Type::Tuple(members) => TypeV::Tuple(views(members@)),
            Type::HashRef(inner) => TypeV::HashRef(Box::new((**inner).view())),
            Type::Dict { slots, slurpy } => TypeV::Dict {
                slots: slot_views(slots@),
                slurpy: match slurpy {
                    Some(rest) => Some(Box::new((**rest).view())),
                    None => None,
                },
            },
            Type::MapOf(key, value) => TypeV::MapOf(
                Box::new((**key).view()),
                Box::new((**value).view()),
            ),
            Type::CodeRef => TypeV::CodeRef,
            Type::RegexpRef => TypeV::RegexpRef,
            Type::GlobRef => TypeV::GlobRef,
            Type::FileHandle => TypeV::FileHandle,
            Type::Object => TypeV::Object,
            Type::InstanceOf(name) => TypeV::InstanceOf(name@),
            Type::ConsumerOf(name) => TypeV::ConsumerOf(name@),
            Type::HasMethods(names) => TypeV::HasMethods(strings_view(names@)),
            Type::Undef => TypeV::Undef,
            Type::Optional(inner) => TypeV::Optional(Box::new((**inner).view())),
            Type::Union(members) => TypeV::Union(views(members@)),
        }
    }
}

/// The value of every type in a sequence.
pub open spec fn views(s: Seq<Type>) -> Seq<TypeV>
    decreases s,
{
    if s.len() == 0 {
        Seq::empty()
    } else {
        views(s.drop_last()).push(s.last().view())
    }
}

/// The value of every `Dict` slot in a sequence.
pub open spec fn slot_views(s: Seq<(String, Type)>) -> Seq<(Seq<char>, TypeV)>
    decreases s,
{
    if s.len() == 0 {
        Seq::empty()
    } else {
        slot_views(s.drop_last()).push((s.last().0@, s.last().1.view()))
    }
}

pub proof fn lemma_views(s: Seq<Type>)
    ensures
        views(s).len() == s.len(),
        forall|i: int| 0 <= i < s.len() ==> #[trigger] views(s)[i] == s[i]@,
    decreases s.len(),
{
    if s.len() > 0 {
        lemma_views(s.drop_last());
        assert(views(s) == views(s.drop_last()).push(s.last().view()));
    } else {
        assert(views(s) == Seq::<TypeV>::empty());
    }
}

pub proof fn lemma_slot_views(s: Seq<(String, Type)>)
    ensures
        slot_views(s).len() == s.len(),
        forall|i: int|
            0 <= i < s.len() ==> #[trigger] slot_views(s)[i] == (s[i].0@, s[i].1@),
    decreases s.len(),
{
    if s.len() > 0 {
        lemma_slot_views(s.drop_last());
        assert(slot_views(s) == slot_views(s.drop_last()).push((s.last().0@, s.last().1.view())));
    } else {
        assert(slot_views(s) == Seq::<(Seq<char>, TypeV)>::empty());
    }
}

/// `views` of a vector built by pushing one type more.
pub proof fn lemma_views_push(s: Seq<Type>, t: Type)
    ensures
        views(s.push(t)) == views(s).push(t@),
{
    assert(s.push(t).drop_last() =~= s);
}

/// A copy of every string, each equal to its original.
pub fn copy_strings(values: &Vec<String>) -> (out: Vec<String>)
    ensures
        out@.len() == values@.len(),
        strings_view(out@) == strings_view(values@),
{
    let mut out: Vec<String> = Vec::new();
    let mut i: usize = 0;
    while i < values.len()
        invariant
            i <= values.len(),
            out@.len() == i,
            forall|j: int| 0 <= j < i ==> #[trigger] out@[j]@ == values@[j]@,
        decreases values.len() - i,
    {
        out.push(values[i].clone());
        i += 1;
    }
    assert(strings_view(out@) =~= strings_view(values@));
    out
}

/// Whether two lists of strings hold the same strings in the same order.
pub fn strings_equal(a: &Vec<String>, b: &Vec<String>) -> (r: bool)
    ensures
        r == (strings_view(a@) == strings_view(b@)),
{
    if a.len() != b.len() {
        assert(strings_view(a@).len() != strings_view(b@).len());
        return false;
    }
    let mut i: usize = 0;
    while i < a.len()
        invariant
            i <= a.len(),
            a.len() == b.len(),
            forall|j: int| 0 <= j < i ==> #[trigger] a@[j]@ == b@[j]@,
        decreases a.len() - i,
    {
        if !str_eq(&a[i], &b[i]) {
            assert(strings_view(a@)[i as int] != strings_view(b@)[i as int]);
            return false;
        }
        i += 1;
    }
    assert(strings_view(a@) =~= strings_view(b@));
    true
}

impl Type {
    /// A deep copy.
    #[verifier::loop_isolation(false)]
    pub fn duplicate(&self) -> (out: Type)
        ensures
            out@ == self@,
        decreases self,
    {
        match self {
            Type::Any => Type::Any,
            Type::Unknown => Type::Unknown,
            Type::Defined => Type::Defined,
            Type::Value => Type::Value,
            Type::Str => Type::Str,
            Type::Num => Type::Num,
            Type::Int => Type::Int,
            Type::Bool => Type::Bool,
            Type::ClassName(name) => Type::ClassName(
                match name {
                    Some(n) => Some(n.clone()),
                    None => None,
                },
            ),
            Type::RoleName => Type::RoleName,
            Type::Enum(values) => Type::Enum(copy_strings(values)),
            Type::Ref => Type::Ref,
            Type::ScalarRef(inner) => Type::ScalarRef(Box::new(inner.duplicate())),
            Type::ArrayRef(inner) => Type::ArrayRef(Box::new(inner.duplicate())),
            Type::Tuple(members) => {
                proof {
                    assert(decreases_to!(*self => *members));
                }
                let out = duplicate_all(members);
                Type::Tuple(out)
            },
            Type::HashRef(inner) => Type::HashRef(Box::new(inner.duplicate())),
            Type::Dict { slots, slurpy } => {
                proof {
                    assert(decreases_to!(*self => *slots));
                }
                let copied = duplicate_slots(slots);
                let rest = match slurpy {
                    Some(rest) => Some(Box::new(rest.duplicate())),
                    None => None,
                };
                Type::Dict { slots: copied, slurpy: rest }
            },
            Type::MapOf(key, value) => Type::MapOf(
                Box::new(key.duplicate()),
                Box::new(value.duplicate()),
            ),
            Type::CodeRef => Type::CodeRef,
            Type::RegexpRef => Type::RegexpRef,
            Type::GlobRef => Type::GlobRef,
            Type::FileHandle => Type::FileHandle,
            Type::Object => Type::Object,
            Type::InstanceOf(name) => Type::InstanceOf(name.clone()),
            Type::ConsumerOf(name) => Type::ConsumerOf(name.clone()),
            Type::HasMethods(names) => Type::HasMethods(copy_strings(names)),
            Type::Undef => Type::Undef,
            Type::Optional(inner) => Type::Optional(Box::new(inner.duplicate())),
            Type::Union(members) => {
                proof {
                    assert(decreases_to!(*self => *members));
                }
                let out = duplicate_all(members);
                Type::Union(out)
            },
        }
    }
}

/// A deep copy of every type in a vector.
pub fn duplicate_all(members: &Vec<Type>) -> (out: Vec<Type>)
    ensures
        views(out@) == views(members@),
    decreases members,
{
    let mut out: Vec<Type> = Vec::new();
    let mut i: usize = 0;
    proof {
        lemma_views(members@);
    }
    while i < members.len()
        invariant
            i <= members.len(),
            views(out@) == views(members@.subrange(0, i as int)),
        decreases members.len() - i,
    {
        proof {
            assert(decreases_to!(*members => members@));
            assert(decreases_to!(members@ => members@[i as int]));
        }
        let one = members[i].duplicate();
        proof {
            lemma_views_push(out@, one);
            assert(members@.subrange(0, i + 1) =~= members@.subrange(0, i as int).push(
                members@[i as int],
            ));
            lemma_views_push(members@.subrange(0, i as int), members@[i as int]);
        }
        out.push(one);
        i += 1;
    }
    assert(members@.subrange(0, members.len() as int) =~= members@);
    out
}

/// A deep copy of every `Dict` slot in a vector.
pub fn duplicate_slots(slots: &Vec<(String, Type)>) -> (out: Vec<(String, Type)>)
    ensures
        slot_views(out@) == slot_views(slots@),
    decreases slots,
{
    let mut out: Vec<(String, Type)> = Vec::new();
    let mut i: usize = 0;
    proof {
        lemma_slot_views(slots@);
    }
    while i < slots.len()
        invariant
            i <= slots.len(),
            out@.len() == i,
            forall|j: int|
                0 <= j < i ==> (#[trigger] out@[j]).0@ == slots@[j].0@ && out@[j].1@
                    == slots@[j].1@,
        decreases slots.len() - i,
    {
        proof {
            assert(decreases_to!(*slots => slots@));
            assert(decreases_to!(slots@ => slots@[i as int]));
            assert(decreases_to!(slots@[i as int] => slots@[i as int].1));
        }
        let name = slots[i].0.clone();
        let ty = slots[i].1.duplicate();
        out.push((name, ty));
        i += 1;
    }
    proof {
        lemma_slot_views(out@);
        assert(slot_views(out@) =~= slot_views(slots@));
    }
    out
}


// ===== Equality =====

/// Whether two optional names are the same.
fn option_string_equal(a: &Option<String>, b: &Option<String>) -> (r: bool)
    ensures
        r == ((match a {
            Some(n) => Some(n@),
            None => None::<Seq<char>>,
        }) == (match b {
            Some(n) => Some(n@),
            None => None::<Seq<char>>,
        })),
{
    match a {
        Some(x) => match b {
            Some(y) => str_eq(x, y),
            None => false,
        },
        None => match b {
            Some(_) => false,
            None => true,
        },
    }
}

/// Whether two vectors of types are the same types in the same order.
#[verifier::loop_isolation(false)]
pub fn all_equal(a: &Vec<Type>, b: &Vec<Type>) -> (r: bool)
    ensures
        r == (views(a@) == views(b@)),
    decreases a,
{
    proof {
        lemma_views(a@);
        lemma_views(b@);
    }
    if a.len() != b.len() {
        return false;
    }
    let mut i: usize = 0;
    while i < a.len()
        invariant
            i <= a.len(),
            a.len() == b.len(),
            forall|j: int| 0 <= j < i ==> #[trigger] a@[j]@ == b@[j]@,
        decreases a.len() - i,
    {
        proof {
            assert(decreases_to!(*a => a@));
            assert(decreases_to!(a@ => a@[i as int]));
        }
        if !a[i].equals(&b[i]) {
            assert(views(a@)[i as int] != views(b@)[i as int]);
            return false;
        }
        i += 1;
    }
    assert(views(a@) =~= views(b@));
    true
}

/// Whether two `Dict` slot lists are the same slots in the same order.
#[verifier::loop_isolation(false)]
pub fn slots_equal(a: &Vec<(String, Type)>, b: &Vec<(String, Type)>) -> (r: bool)
    ensures
        r == (slot_views(a@) == slot_views(b@)),
    decreases a,
{
    proof {
        lemma_slot_views(a@);
        lemma_slot_views(b@);
    }
    if a.len() != b.len() {
        return false;
    }
    let mut i: usize = 0;
    while i < a.len()
        invariant
            i <= a.len(),
            a.len() == b.len(),
            forall|j: int|
                0 <= j < i ==> (#[trigger] a@[j]).0@ == b@[j].0@ && a@[j].1@ == b@[j].1@,
        decreases a.len() - i,
    {
        proof {
            assert(decreases_to!(*a => a@));
            assert(decreases_to!(a@ => a@[i as int]));
            assert(decreases_to!(a@[i as int] => a@[i as int].1));
        }
        if !str_eq(&a[i].0, &b[i].0) {
            assert(slot_views(a@)[i as int] != slot_views(b@)[i as int]);
            return false;
        }
        if !a[i].1.equals(&b[i].1) {
            assert(slot_views(a@)[i as int] != slot_views(b@)[i as int]);
            return false;
        }
        i += 1;
    }
    assert(slot_views(a@) =~= slot_views(b@));
    true
}

impl Type {
    /// Structural equality: the same shape holding the same names.
    pub fn equals(&self, other: &Type) -> (r: bool)
        ensures
            r == (self@ == other@),
        decreases self,
    {
        match self {
            Type::Any => matches!(other, Type::Any),
            Type::Unknown => matches!(other, Type::Unknown),
            Type::Defined => matches!(other, Type::Defined),
            Type::Value => matches!(other, Type::Value),
            Type::Str => matches!(other, Type::Str),
            Type::Num => matches!(other, Type::Num),
            Type::Int => matches!(other, Type::Int),
            Type::Bool => matches!(other, Type::Bool),
            Type::ClassName(a) => match other {
                Type::ClassName(b) => option_string_equal(a, b),
                _ => false,
            },
            Type::RoleName => matches!(other, Type::RoleName),
            Type::Enum(a) => match other {
                Type::Enum(b) => strings_equal(a, b),
                _ => false,
            },
            Type::Ref => matches!(other, Type::Ref),
            Type::ScalarRef(a) => match other {
                Type::ScalarRef(b) => a.equals(b),
                _ => false,
            },
            Type::ArrayRef(a) => match other {
                Type::ArrayRef(b) => a.equals(b),
                _ => false,
            },
            Type::Tuple(a) => match other {
                Type::Tuple(b) => {
                    proof {
                        assert(decreases_to!(*self => *a));
                    }
                    all_equal(a, b)
                },
                _ => false,
            },
            Type::HashRef(a) => match other {
                Type::HashRef(b) => a.equals(b),
                _ => false,
            },
            Type::Dict { slots: a, slurpy: ra } => match other {
                Type::Dict { slots: b, slurpy: rb } => {
                    proof {
                        assert(decreases_to!(*self => *a));
                    }
                    if !slots_equal(a, b) {
                        return false;
                    }
                    match ra {
                        Some(x) => match rb {
                            Some(y) => x.equals(y),
                            None => false,
                        },
                        None => match rb {
                            Some(_) => false,
                            None => true,
                        },
                    }
                },
                _ => false,
            },
            Type::MapOf(ka, va) => match other {
                Type::MapOf(kb, vb) => ka.equals(kb) && va.equals(vb),
                _ => false,
            },
            Type::CodeRef => matches!(other, Type::CodeRef),
            Type::RegexpRef => matches!(other, Type::RegexpRef),
            Type::GlobRef => matches!(other, Type::GlobRef),
            Type::FileHandle => matches!(other, Type::FileHandle),
            Type::Object => matches!(other, Type::Object),
            Type::InstanceOf(a) => match other {
                Type::InstanceOf(b) => str_eq(a, b),
                _ => false,
            },
            Type::ConsumerOf(a) => match other {
                Type::ConsumerOf(b) => str_eq(a, b),
                _ => false,
            },
            Type::HasMethods(a) => match other {
                Type::HasMethods(b) => strings_equal(a, b),
                _ => false,
            },
            Type::Undef => matches!(other, Type::Undef),
            Type::Optional(a) => match other {
                Type::Optional(b) => a.equals(b),
                _ => false,
            },
            Type::Union(a) => match other {
                Type::Union(b) => {
                    proof {
                        assert(decreases_to!(*self => *a));
                    }
                    all_equal(a, b)
                },
                _ => false,
            },
        }
    }
}

impl PartialEq for Type {
    fn eq(&self, other: &Type) -> (r: bool) {
        self.equals(other)
    }
}

impl Eq for Type {
}

impl vstd::std_specs::cmp::PartialEqSpecImpl for Type {
    open spec fn obeys_eq_spec() -> bool {
        true
    }

    open spec fn eq_spec(&self, other: &Type) -> bool {
        self@ == other@
    }
}

impl Clone for Type {
    fn clone(&self) -> (out: Type)
        ensures
            out@ == self@,
    {
        self.duplicate()
    }
}


// ===== Unions =====

/// `flat` with `one` at the end, unless it already holds it.
pub open spec fn push_new<A>(flat: Seq<A>, one: A) -> Seq<A> {
    if flat.contains(one) {
        flat
    } else {
        flat.push(one)
    }
}

/// Every element of `more`, in order, added the way [`push_new`] adds one.
pub open spec fn push_all_new<A>(flat: Seq<A>, more: Seq<A>) -> Seq<A>
    decreases more.len(),
{
    if more.len() == 0 {
        flat
    } else {
        push_new(push_all_new(flat, more.drop_last()), more.last())
    }
}

/// Where the first `Enum` at or after `from` stands.
pub open spec fn first_enum_from(flat: Seq<TypeV>, from: int) -> Option<int>
    decreases flat.len() - from,
{
    if from < 0 || from >= flat.len() {
        None
    } else if flat[from] is Enum {
        Some(from)
    } else {
        first_enum_from(flat, from + 1)
    }
}

/// Two enums are one enum: the values join the first `Enum` already there.
pub open spec fn with_enum(flat: Seq<TypeV>, values: Seq<Seq<char>>) -> Seq<TypeV> {
    match first_enum_from(flat, 0) {
        Some(k) => flat.update(k, TypeV::Enum(push_all_new(flat[k]->Enum_0, values))),
        None => flat.push(TypeV::Enum(values)),
    }
}

/// One member folded into a union under construction; `None` once an
/// `Unknown` has been met.
pub open spec fn union_step(flat: Seq<TypeV>, member: TypeV) -> Option<Seq<TypeV>> {
    match member {
        TypeV::Unknown => None,
        TypeV::Union(inner) => Some(push_all_new(flat, inner)),
        TypeV::Enum(values) => Some(with_enum(flat, values)),
        one => Some(push_new(flat, one)),
    }
}

/// The members of a union, flattened one level and deduplicated, in the
/// order they were first met; `None` when one of them is `Unknown`.
pub open spec fn union_flat(members: Seq<TypeV>) -> Option<Seq<TypeV>>
    decreases members.len(),
{
    if members.len() == 0 {
        Some(Seq::empty())
    } else {
        match union_flat(members.drop_last()) {
            Some(flat) => union_step(flat, members.last()),
            None => None,
        }
    }
}

/// The union of `members`, collapsed when it holds one member or an `Unknown`.
pub open spec fn spec_union(members: Seq<TypeV>) -> TypeV {
    match union_flat(members) {
        None => TypeV::Unknown,
        Some(flat) => if flat.len() == 0 {
            TypeV::Unknown
        } else if flat.len() == 1 {
            flat[0]
        } else {
            TypeV::Union(flat)
        },
    }
}

/// `Maybe[T]`: `T | Undef`, and `Unknown` for an `Unknown`.
pub open spec fn spec_maybe(inner: TypeV) -> TypeV {
    if inner == TypeV::Unknown {
        TypeV::Unknown
    } else {
        spec_union(seq![inner, TypeV::Undef])
    }
}

/// Whether `undef` is one of the things a type may be.
pub open spec fn spec_is_maybe(ty: TypeV) -> bool
    decreases ty,
{
    match ty {
        TypeV::Undef => true,
        TypeV::Union(members) => any_maybe(members),
        _ => false,
    }
}

/// Whether some member may be `undef`.
pub open spec fn any_maybe(members: Seq<TypeV>) -> bool
    decreases members,
{
    if members.len() == 0 {
        false
    } else {
        any_maybe(members.drop_last()) || spec_is_maybe(members.last())
    }
}

/// `s` without any element equal to `x`, in order.
pub open spec fn without<A>(s: Seq<A>, x: A) -> Seq<A>
    decreases s.len(),
{
    if s.len() == 0 {
        s
    } else if s.last() == x {
        without(s.drop_last(), x)
    } else {
        without(s.drop_last(), x).push(s.last())
    }
}

/// The type with `undef` taken out, which is what a `defined` check leaves.
pub open spec fn spec_without_undef(ty: TypeV) -> TypeV {
    match ty {
        TypeV::Undef => TypeV::Unknown,
        TypeV::Union(members) => spec_union(without(members, TypeV::Undef)),
        other => other,
    }
}

/// The type inside an `Optional[T]`, or the type itself.
pub open spec fn spec_required(ty: TypeV) -> TypeV {
    match ty {
        TypeV::Optional(inner) => *inner,
        other => other,
    }
}

/// Whether a vector holds a type equal to `one`.
fn contains_type(flat: &Vec<Type>, one: &Type) -> (r: bool)
    ensures
        r == views(flat@).contains(one@),
{
    proof {
        lemma_views(flat@);
    }
    let mut i: usize = 0;
    while i < flat.len()
        invariant
            i <= flat.len(),
            views(flat@).len() == flat@.len(),
            forall|j: int| 0 <= j < flat@.len() ==> #[trigger] views(flat@)[j] == flat@[j]@,
            forall|j: int| 0 <= j < i ==> flat@[j]@ != one@,
        decreases flat.len() - i,
    {
        if flat[i].equals(one) {
            assert(views(flat@)[i as int] == one@);
            return true;
        }
        i += 1;
    }
    proof {
        if views(flat@).contains(one@) {
            let k = choose|k: int| 0 <= k < views(flat@).len() && views(flat@)[k] == one@;
            assert(flat@[k]@ == one@);
        }
    }
    false
}

/// Whether a vector holds a string equal to `one`.
pub fn contains_string(values: &Vec<String>, one: &String) -> (r: bool)
    ensures
        r == strings_view(values@).contains(one@),
{
    let mut i: usize = 0;
    while i < values.len()
        invariant
            i <= values.len(),
            forall|j: int| 0 <= j < i ==> values@[j]@ != one@,
        decreases values.len() - i,
    {
        if str_eq(&values[i], one) {
            assert(strings_view(values@)[i as int] == one@);
            return true;
        }
        i += 1;
    }
    proof {
        if strings_view(values@).contains(one@) {
            let k = choose|k: int|
                0 <= k < strings_view(values@).len() && strings_view(values@)[k] == one@;
            assert(values@[k]@ == one@);
        }
    }
    false
}

/// Add `one` unless it is already there.
fn push_new_type(flat: &mut Vec<Type>, one: Type)
    ensures
        views(final(flat)@) == push_new(views(old(flat)@), one@),
{
    if !contains_type(flat, &one) {
        proof {
            lemma_views_push(flat@, one);
        }
        flat.push(one);
    }
}

/// Add every string of `more` that is not already there, in order.
fn push_all_new_strings(into: &mut Vec<String>, more: &Vec<String>)
    ensures
        strings_view(final(into)@) == push_all_new(strings_view(old(into)@), strings_view(more@)),
{
    let mut i: usize = 0;
    while i < more.len()
        invariant
            i <= more.len(),
            strings_view(into@) == push_all_new(
                strings_view(old(into)@),
                strings_view(more@.subrange(0, i as int)),
            ),
        decreases more.len() - i,
    {
        let one = more[i].clone();
        proof {
            assert(strings_view(more@.subrange(0, i + 1)).drop_last() =~= strings_view(
                more@.subrange(0, i as int),
            ));
        }
        if !contains_string(into, &one) {
            into.push(one);
            assert(strings_view(into@) =~= strings_view(old(into)@).push(more@[i as int]@)
                || true);
        }
        proof {
            assert(strings_view(more@.subrange(0, i + 1)).last() == more@[i as int]@);
        }
        i += 1;
    }
    assert(more@.subrange(0, more.len() as int) =~= more@);
}

/// Add every type of `more` that is not already there, in order.
fn push_all_new_types(flat: &mut Vec<Type>, more: &Vec<Type>)
    ensures
        views(final(flat)@) == push_all_new(views(old(flat)@), views(more@)),
{
    proof {
        lemma_views(more@);
    }
    let mut i: usize = 0;
    while i < more.len()
        invariant
            i <= more.len(),
            views(more@).len() == more@.len(),
            forall|j: int| 0 <= j < more@.len() ==> #[trigger] views(more@)[j] == more@[j]@,
            views(flat@) == push_all_new(
                views(old(flat)@),
                views(more@).subrange(0, i as int),
            ),
        decreases more.len() - i,
    {
        let one = more[i].duplicate();
        proof {
            assert(views(more@).subrange(0, i + 1).drop_last() =~= views(more@).subrange(
                0,
                i as int,
            ));
        }
        push_new_type(flat, one);
        i += 1;
    }
    assert(views(more@).subrange(0, more.len() as int) =~= views(more@));
}

/// What [`first_enum_from`] finds is an `Enum`, at or after `from`.
pub proof fn lemma_first_enum(flat: Seq<TypeV>, from: int)
    ensures
        first_enum_from(flat, from) matches Some(k) ==> from <= k < flat.len() && flat[k] is Enum,
    decreases flat.len() - from,
{
    if 0 <= from < flat.len() && !(flat[from] is Enum) {
        lemma_first_enum(flat, from + 1);
    }
}

/// Where the first `Enum` stands.
fn first_enum(flat: &Vec<Type>) -> (r: Option<usize>)
    ensures
        match r {
            Some(k) => first_enum_from(views(flat@), 0) == Some(k as int) && k < flat@.len(),
            None => first_enum_from(views(flat@), 0) is None,
        },
{
    proof {
        lemma_views(flat@);
    }
    let mut i: usize = 0;
    while i < flat.len()
        invariant
            i <= flat.len(),
            views(flat@).len() == flat@.len(),
            forall|j: int| 0 <= j < flat@.len() ==> #[trigger] views(flat@)[j] == flat@[j]@,
            first_enum_from(views(flat@), 0) == first_enum_from(views(flat@), i as int),
        decreases flat.len() - i,
    {
        if let Type::Enum(_) = &flat[i] {
            assert(views(flat@)[i as int] is Enum);
            return Some(i);
        }
        assert(!(views(flat@)[i as int] is Enum));
        i += 1;
    }
    None
}

/// Fold an enum's values into the first enum already there, or add it.
fn add_enum(flat: &mut Vec<Type>, values: &Vec<String>)
    ensures
        views(final(flat)@) == with_enum(views(old(flat)@), strings_view(values@)),
{
    proof {
        lemma_views(flat@);
    }
    match first_enum(flat) {
        Some(k) => {
            proof {
                lemma_first_enum(views(flat@), 0);
            }
            let mut into = match &flat[k] {
                Type::Enum(existing) => copy_strings(existing),
                _ => Vec::new(),
            };
            assert(views(flat@)[k as int] == flat@[k as int]@);
            push_all_new_strings(&mut into, values);
            let ghost before = flat@;
            flat.set(k, Type::Enum(into));
            proof {
                lemma_views(flat@);
                lemma_views(before);
                assert(views(flat@) =~= views(before).update(
                    k as int,
                    TypeV::Enum(push_all_new(views(before)[k as int]->Enum_0, strings_view(values@))),
                ));
            }
        },
        None => {
            let copy = copy_strings(values);
            proof {
                lemma_views_push(flat@, Type::Enum(copy));
            }
            flat.push(Type::Enum(copy));
        },
    }
}

impl Type {
    /// `Maybe[T]`, which is `T | Undef` and is written that way here.
    pub fn maybe(inner: Type) -> (out: Type)
        ensures
            out@ == spec_maybe(inner@),
    {
        if let Type::Unknown = inner {
            return Type::Unknown;
        }
        let mut members: Vec<Type> = Vec::new();
        members.push(inner);
        members.push(Type::Undef);
        proof {
            lemma_views(members@);
            assert(views(members@) =~= seq![inner@, TypeV::Undef]);
        }
        Type::union(members)
    }

    /// A union, flattened and deduplicated, and collapsed when it holds one
    /// member or an `Unknown`.
    pub fn union(members: Vec<Type>) -> (out: Type)
        ensures
            out@ == spec_union(views(members@)),
    {
        proof {
            lemma_views(members@);
        }
        let mut flat: Vec<Type> = Vec::new();
        let mut i: usize = 0;
        while i < members.len()
            invariant
                i <= members.len(),
                views(members@).len() == members@.len(),
                forall|j: int|
                    0 <= j < members@.len() ==> #[trigger] views(members@)[j] == members@[j]@,
                union_flat(views(members@).subrange(0, i as int)) == Some(views(flat@)),
            decreases members.len() - i,
        {
            proof {
                assert(views(members@).subrange(0, i + 1).drop_last() =~= views(
                    members@,
                ).subrange(0, i as int));
                assert(views(members@).subrange(0, i + 1).last() == members@[i as int]@);
            }
            match &members[i] {
                Type::Unknown => {
                    proof {
                        assert(union_flat(views(members@).subrange(0, i + 1)) is None);
                        lemma_union_flat_none_prefix(views(members@), i + 1);
                    }
                    return Type::Unknown;
                },
                Type::Union(inner) => {
                    push_all_new_types(&mut flat, inner);
                },
                Type::Enum(values) => {
                    add_enum(&mut flat, values);
                },
                one => {
                    let copy = one.duplicate();
                    push_new_type(&mut flat, copy);
                },
            }
            i += 1;
        }
        proof {
            assert(views(members@).subrange(0, members.len() as int) =~= views(members@));
            lemma_views(flat@);
        }
        if flat.len() == 0 {
            Type::Unknown
        } else if flat.len() == 1 {
            flat.pop().unwrap()
        } else {
            Type::Union(flat)
        }
    }

    pub fn is_unknown(&self) -> (r: bool)
        ensures
            r == (self@ is Unknown),
    {
        matches!(self, Type::Unknown)
    }

    /// Whether `undef` is one of the things this may be.
    #[verifier::loop_isolation(false)]
    pub fn is_maybe(&self) -> (r: bool)
        ensures
            r == spec_is_maybe(self@),
        decreases self,
    {
        match self {
            Type::Undef => true,
            Type::Union(members) => {
                proof {
                    assert(decreases_to!(*self => *members));
                    lemma_views(members@);
                }
                let mut i: usize = 0;
                while i < members.len()
                    invariant
                        i <= members.len(),
                        decreases_to!(*self => *members),
                        views(members@).len() == members@.len(),
                        forall|j: int|
                            0 <= j < members@.len() ==> #[trigger] views(members@)[j]
                                == members@[j]@,
                        any_maybe(views(members@).subrange(0, i as int)) == false,
                    decreases members.len() - i,
                {
                    proof {
                        assert(decreases_to!(*members => members@));
                        assert(decreases_to!(members@ => members@[i as int]));
                        assert(views(members@).subrange(0, i + 1).drop_last() =~= views(
                            members@,
                        ).subrange(0, i as int));
                    }
                    if members[i].is_maybe() {
                        proof {
                            lemma_any_maybe_at(views(members@), i as int);
                        }
                        return true;
                    }
                    i += 1;
                }
                assert(views(members@).subrange(0, members.len() as int) =~= views(members@));
                false
            },
            _ => false,
        }
    }

    /// The same type with `undef` taken out of it, which is what a
    /// `defined` check leaves behind.
    pub fn without_undef(&self) -> (out: Type)
        ensures
            out@ == spec_without_undef(self@),
    {
        match self {
            Type::Undef => Type::Unknown,
            Type::Union(members) => {
                proof {
                    lemma_views(members@);
                }
                let mut kept: Vec<Type> = Vec::new();
                let mut i: usize = 0;
                while i < members.len()
                    invariant
                        i <= members.len(),
                        views(members@).len() == members@.len(),
                        forall|j: int|
                            0 <= j < members@.len() ==> #[trigger] views(members@)[j]
                                == members@[j]@,
                        views(kept@) == without(
                            views(members@).subrange(0, i as int),
                            TypeV::Undef,
                        ),
                    decreases members.len() - i,
                {
                    proof {
                        assert(views(members@).subrange(0, i + 1).drop_last() =~= views(
                            members@,
                        ).subrange(0, i as int));
                    }
                    if !matches!(&members[i], Type::Undef) {
                        let copy = members[i].duplicate();
                        proof {
                            lemma_views_push(kept@, copy);
                        }
                        kept.push(copy);
                    }
                    i += 1;
                }
                assert(views(members@).subrange(0, members.len() as int) =~= views(members@));
                Type::union(kept)
            },
            other => other.duplicate(),
        }
    }

    /// The type inside an `Optional[T]`, or the type itself.
    pub fn required(&self) -> (r: &Type)
        ensures
            r@ == spec_required(self@),
    {
        match self {
            Type::Optional(inner) => inner,
            other => other,
        }
    }

    pub fn is_optional(&self) -> (r: bool)
        ensures
            r == (self@ is Optional),
    {
        matches!(self, Type::Optional(_))
    }
}

/// Once an `Unknown` has been met, every longer prefix is `Unknown` too.
pub proof fn lemma_union_flat_none_prefix(members: Seq<TypeV>, n: int)
    requires
        0 <= n <= members.len(),
        union_flat(members.subrange(0, n)) is None,
    ensures
        union_flat(members) is None,
    decreases members.len() - n,
{
    if n < members.len() {
        assert(members.subrange(0, n + 1).drop_last() =~= members.subrange(0, n));
        lemma_union_flat_none_prefix(members, n + 1);
    } else {
        assert(members.subrange(0, n) =~= members);
    }
}

/// A member that may be `undef` makes the whole sequence one that may be.
pub proof fn lemma_any_maybe_at(members: Seq<TypeV>, k: int)
    requires
        0 <= k < members.len(),
        spec_is_maybe(members[k]),
    ensures
        any_maybe(members),
    decreases members.len(),
{
    if k < members.len() - 1 {
        lemma_any_maybe_at(members.drop_last(), k);
    }
}


// ===== How a type prints =====

/// The parts, with `sep` between each two.
pub open spec fn join(parts: Seq<Seq<char>>, sep: Seq<char>) -> Seq<char>
    decreases parts.len(),
{
    if parts.len() == 0 {
        Seq::empty()
    } else if parts.len() == 1 {
        parts[0]
    } else {
        join(parts.drop_last(), sep) + sep + parts.last()
    }
}

/// A type written the way it would be written in an annotation.
pub open spec fn spec_render(ty: TypeV) -> Seq<char>
    decreases ty,
{
    match ty {
        TypeV::Any => "Any"@,
        TypeV::Unknown => "Unknown"@,
        TypeV::Defined => "Defined"@,
        TypeV::Value => "Value"@,
        TypeV::Str => "Str"@,
        TypeV::Num => "Num"@,
        TypeV::Int => "Int"@,
        TypeV::Bool => "Bool"@,
        TypeV::ClassName(None) => "ClassName"@,
        TypeV::ClassName(Some(class)) => "ClassName['"@ + class + "']"@,
        TypeV::RoleName => "RoleName"@,
        TypeV::Enum(values) => "Enum["@ + join(values, ", "@) + "]"@,
        TypeV::Ref => "Ref"@,
        TypeV::ScalarRef(inner) => "ScalarRef["@ + spec_render(*inner) + "]"@,
        TypeV::ArrayRef(inner) => "ArrayRef["@ + spec_render(*inner) + "]"@,
        TypeV::Tuple(members) => "Tuple["@ + join(render_all(members), ", "@) + "]"@,
        TypeV::HashRef(inner) => "HashRef["@ + spec_render(*inner) + "]"@,
        TypeV::Dict { slots, slurpy } => "Dict["@ + join(
            match slurpy {
                Some(rest) => render_slots(slots).push("slurpy "@ + spec_render(*rest)),
                None => render_slots(slots),
            },
            ", "@,
        ) + "]"@,
        TypeV::MapOf(key, value) => "Map["@ + spec_render(*key) + ", "@ + spec_render(*value)
            + "]"@,
        TypeV::CodeRef => "CodeRef"@,
        TypeV::RegexpRef => "RegexpRef"@,
        TypeV::GlobRef => "GlobRef"@,
        TypeV::FileHandle => "FileHandle"@,
        TypeV::Object => "Object"@,
        TypeV::InstanceOf(name) => "InstanceOf['"@ + name + "']"@,
        TypeV::ConsumerOf(name) => "ConsumerOf['"@ + name + "']"@,
        TypeV::HasMethods(names) => "HasMethods["@ + join(names, ", "@) + "]"@,
        TypeV::Undef => "Undef"@,
        TypeV::Optional(inner) => "Optional["@ + spec_render(*inner) + "]"@,
        TypeV::Union(members) => join(render_all(members), "|"@),
    }
}

/// Every member, rendered.
pub open spec fn render_all(members: Seq<TypeV>) -> Seq<Seq<char>>
    decreases members,
{
    if members.len() == 0 {
        Seq::empty()
    } else {
        render_all(members.drop_last()).push(spec_render(members.last()))
    }
}

/// Every `Dict` slot, rendered `key => type`.
pub open spec fn render_slots(slots: Seq<(Seq<char>, TypeV)>) -> Seq<Seq<char>>
    decreases slots,
{
    if slots.len() == 0 {
        Seq::empty()
    } else {
        render_slots(slots.drop_last()).push(slots.last().0 + " => "@ + spec_render(slots.last().1))
    }
}

/// The strings with `sep` between each two.
pub fn join_strings(parts: &Vec<String>, sep: &str) -> (out: String)
    ensures
        out@ == join(strings_view(parts@), sep@),
{
    let mut out = String::new();
    let mut i: usize = 0;
    while i < parts.len()
        invariant
            i <= parts.len(),
            out@ == join(strings_view(parts@.subrange(0, i as int)), sep@),
        decreases parts.len() - i,
    {
        proof {
            assert(strings_view(parts@.subrange(0, i + 1)).drop_last() =~= strings_view(
                parts@.subrange(0, i as int),
            ));
        }
        if i > 0 {
            append(&mut out, sep);
        }
        append(&mut out, parts[i].as_str());
        proof {
            if i == 0 {
                assert(strings_view(parts@.subrange(0, 0)) =~= Seq::<Seq<char>>::empty());
                assert(out@ =~= strings_view(parts@.subrange(0, 1))[0]);
            }
        }
        i += 1;
    }
    assert(parts@.subrange(0, parts.len() as int) =~= parts@);
    out
}

/// `prefix`, then `middle`, then `suffix`.
pub fn wrapped(prefix: &str, middle: &str, suffix: &str) -> (out: String)
    ensures
        out@ == prefix@ + middle@ + suffix@,
{
    let mut out = String::from_str(prefix);
    append(&mut out, middle);
    append(&mut out, suffix);
    out
}

impl Type {
    /// The type written the way an annotation would write it.
    pub fn render(&self) -> (out: String)
        ensures
            out@ == spec_render(self@),
        decreases self,
    {
        match self {
            Type::Any => String::from_str("Any"),
            Type::Unknown => String::from_str("Unknown"),
            Type::Defined => String::from_str("Defined"),
            Type::Value => String::from_str("Value"),
            Type::Str => String::from_str("Str"),
            Type::Num => String::from_str("Num"),
            Type::Int => String::from_str("Int"),
            Type::Bool => String::from_str("Bool"),
            Type::ClassName(None) => String::from_str("ClassName"),
            Type::ClassName(Some(class)) => wrapped("ClassName['", class.as_str(), "']"),
            Type::RoleName => String::from_str("RoleName"),
            Type::Enum(values) => {
                let inner = join_strings(values, ", ");
                wrapped("Enum[", inner.as_str(), "]")
            },
            Type::Ref => String::from_str("Ref"),
            Type::ScalarRef(inner) => {
                let text = inner.render();
                wrapped("ScalarRef[", text.as_str(), "]")
            },
            Type::ArrayRef(inner) => {
                let text = inner.render();
                wrapped("ArrayRef[", text.as_str(), "]")
            },
            Type::Tuple(members) => {
                proof {
                    assert(decreases_to!(*self => *members));
                }
                let parts = render_each(members);
                let inner = join_strings(&parts, ", ");
                wrapped("Tuple[", inner.as_str(), "]")
            },
            Type::HashRef(inner) => {
                let text = inner.render();
                wrapped("HashRef[", text.as_str(), "]")
            },
            Type::Dict { slots, slurpy } => {
                proof {
                    assert(decreases_to!(*self => *slots));
                }
                let mut parts = render_each_slot(slots);
                match slurpy {
                    Some(rest) => {
                        let text = rest.render();
                        let mut part = String::from_str("slurpy ");
                        append(&mut part, text.as_str());
                        let ghost before = parts@;
                        parts.push(part);
                        assert(strings_view(parts@) =~= strings_view(before).push(part@));
                    },
                    None => {},
                }
                let inner = join_strings(&parts, ", ");
                wrapped("Dict[", inner.as_str(), "]")
            },
            Type::MapOf(key, value) => {
                let k = key.render();
                let v = value.render();
                let mut out = wrapped("Map[", k.as_str(), ", ");
                append(&mut out, v.as_str());
                append(&mut out, "]");
                out
            },
            Type::CodeRef => String::from_str("CodeRef"),
            Type::RegexpRef => String::from_str("RegexpRef"),
            Type::GlobRef => String::from_str("GlobRef"),
            Type::FileHandle => String::from_str("FileHandle"),
            Type::Object => String::from_str("Object"),
            Type::InstanceOf(name) => wrapped("InstanceOf['", name.as_str(), "']"),
            Type::ConsumerOf(name) => wrapped("ConsumerOf['", name.as_str(), "']"),
            Type::HasMethods(names) => {
                let inner = join_strings(names, ", ");
                wrapped("HasMethods[", inner.as_str(), "]")
            },
            Type::Undef => String::from_str("Undef"),
            Type::Optional(inner) => {
                let text = inner.render();
                wrapped("Optional[", text.as_str(), "]")
            },
            Type::Union(members) => {
                proof {
                    assert(decreases_to!(*self => *members));
                }
                let parts = render_each(members);
                join_strings(&parts, "|")
            },
        }
    }
}

/// Every member, rendered.
#[verifier::loop_isolation(false)]
pub fn render_each(members: &Vec<Type>) -> (out: Vec<String>)
    ensures
        strings_view(out@) == render_all(views(members@)),
    decreases members,
{
    proof {
        lemma_views(members@);
    }
    let mut out: Vec<String> = Vec::new();
    let mut i: usize = 0;
    while i < members.len()
        invariant
            i <= members.len(),
            strings_view(out@) == render_all(views(members@).subrange(0, i as int)),
        decreases members.len() - i,
    {
        proof {
            assert(decreases_to!(*members => members@));
            assert(decreases_to!(members@ => members@[i as int]));
            assert(views(members@).subrange(0, i + 1).drop_last() =~= views(members@).subrange(
                0,
                i as int,
            ));
        }
        let text = members[i].render();
        let ghost before = out@;
        out.push(text);
        assert(strings_view(out@) =~= strings_view(before).push(text@));
        i += 1;
    }
    assert(views(members@).subrange(0, members.len() as int) =~= views(members@));
    out
}

/// Every `Dict` slot, rendered `key => type`.
#[verifier::loop_isolation(false)]
pub fn render_each_slot(slots: &Vec<(String, Type)>) -> (out: Vec<String>)
    ensures
        strings_view(out@) == render_slots(slot_views(slots@)),
    decreases slots,
{
    proof {
        lemma_slot_views(slots@);
    }
    let mut out: Vec<String> = Vec::new();
    let mut i: usize = 0;
    while i < slots.len()
        invariant
            i <= slots.len(),
            strings_view(out@) == render_slots(slot_views(slots@).subrange(0, i as int)),
        decreases slots.len() - i,
    {
        proof {
            assert(decreases_to!(*slots => slots@));
            assert(decreases_to!(slots@ => slots@[i as int]));
            assert(decreases_to!(slots@[i as int] => slots@[i as int].1));
            assert(slot_views(slots@).subrange(0, i + 1).drop_last() =~= slot_views(
                slots@,
            ).subrange(0, i as int));
        }
        let text = slots[i].1.render();
        let mut part = String::from_str(slots[i].0.as_str());
        append(&mut part, " => ");
        append(&mut part, text.as_str());
        let ghost before = out@;
        out.push(part);
        assert(strings_view(out@) =~= strings_view(before).push(part@));
        i += 1;
    }
    assert(slot_views(slots@).subrange(0, slots.len() as int) =~= slot_views(slots@));
    out
}


// ===== The type-expression lexer =====

/// Why an annotation could not be read.
#[derive(Debug)]
pub struct ParseError {
    pub message: String,
}

/// One token of a type expression.
#[derive(Debug)]
pub enum Token {
    Name(String),
    Text(String),
    Open,
    Close,
    Comma,
    FatComma,
    Pipe,
    OpenParen,
    CloseParen,
}

pub enum TokenV {
    Name(Seq<char>),
    Text(Seq<char>),
    Open,
    Close,
    Comma,
    FatComma,
    Pipe,
    OpenParen,
    CloseParen,
}

impl View for Token {
    type V = TokenV;

    open spec fn view(&self) -> TokenV {
        match self {
            Token::Name(n) => TokenV::Name(n@),
            Token::Text(t) => TokenV::Text(t@),
            Token::Open => TokenV::Open,
            Token::Close => TokenV::Close,
            Token::Comma => TokenV::Comma,
            Token::FatComma => TokenV::FatComma,
            Token::Pipe => TokenV::Pipe,
            Token::OpenParen => TokenV::OpenParen,
            Token::CloseParen => TokenV::CloseParen,
        }
    }
}

pub open spec fn token_views(t: Seq<Token>) -> Seq<TokenV> {
    t.map_values(|one: Token| one@)
}

/// How a token is written back.
pub open spec fn token_text(t: TokenV) -> Seq<char> {
    match t {
        TokenV::Name(n) => n,
        TokenV::Text(text) => "'"@ + text + "'"@,
        TokenV::Open => "["@,
        TokenV::Close => "]"@,
        TokenV::Comma => ","@,
        TokenV::FatComma => "=>"@,
        TokenV::Pipe => "|"@,
        TokenV::OpenParen => "("@,
        TokenV::CloseParen => ")"@,
    }
}

pub open spec fn is_name_start_char(c: char) -> bool {
    ('a' <= c && c <= 'z') || ('A' <= c && c <= 'Z') || c == '_'
}

pub open spec fn is_digit_char(c: char) -> bool {
    '0' <= c && c <= '9'
}

pub open spec fn is_word_char(c: char) -> bool {
    is_name_start_char(c) || is_digit_char(c)
}

/// Where a run of word characters starting at `i` ends.
pub open spec fn word_end(c: Seq<char>, i: int) -> int
    decreases c.len() - i,
{
    if 0 <= i < c.len() && is_word_char(c[i]) {
        word_end(c, i + 1)
    } else {
        i
    }
}

pub proof fn lemma_word_end(c: Seq<char>, i: int)
    ensures
        i <= word_end(c, i),
        0 <= i ==> word_end(c, i) <= c.len() || word_end(c, i) == i,
        0 <= i <= c.len() ==> word_end(c, i) <= c.len(),
        forall|j: int| i <= j < word_end(c, i) ==> is_word_char(#[trigger] c[j]),
    decreases c.len() - i,
{
    if 0 <= i < c.len() && is_word_char(c[i]) {
        lemma_word_end(c, i + 1);
    }
}

/// Where a name starting at `i` ends: word characters, and `::` when more
/// word characters follow it.
pub open spec fn name_end(c: Seq<char>, i: int) -> int
    decreases c.len() - i,
{
    let e = word_end(c, i);
    if 0 <= e && e + 1 < c.len() && c[e] == ':' && c[e + 1] == ':' {
        proof {
            lemma_word_end(c, i);
        }
        name_end(c, e + 2)
    } else {
        e
    }
}

pub proof fn lemma_name_end(c: Seq<char>, i: int)
    requires
        0 <= i <= c.len(),
    ensures
        i <= name_end(c, i) <= c.len(),
        word_end(c, i) <= name_end(c, i),
        i < c.len() && is_word_char(c[i]) ==> i < name_end(c, i),
    decreases c.len() - i,
{
    lemma_word_end(c, i);
    let e = word_end(c, i);
    if 0 <= e && e + 1 < c.len() && c[e] == ':' && c[e + 1] == ':' {
        lemma_name_end(c, e + 2);
    }
    if i < c.len() && is_word_char(c[i]) {
        lemma_word_end(c, i + 1);
    }
}

/// Where a run of digits, `.` and `-` starting at `i` ends.
pub open spec fn number_end(c: Seq<char>, i: int) -> int
    decreases c.len() - i,
{
    if 0 <= i < c.len() && (is_digit_char(c[i]) || c[i] == '.' || c[i] == '-') {
        number_end(c, i + 1)
    } else {
        i
    }
}

pub proof fn lemma_number_end(c: Seq<char>, i: int)
    requires
        0 <= i <= c.len(),
    ensures
        i <= number_end(c, i) <= c.len(),
        i < c.len() && is_digit_char(c[i]) ==> i < number_end(c, i),
    decreases c.len() - i,
{
    if 0 <= i < c.len() && (is_digit_char(c[i]) || c[i] == '.' || c[i] == '-') {
        lemma_number_end(c, i + 1);
    }
}

/// Where a quoted string's closing `quote` is, looking from `e`; a
/// backslash escapes the character after it. Past the end when there is none.
pub open spec fn quote_end(c: Seq<char>, e: int, quote: char) -> int
    decreases c.len() + 1 - e,
{
    if 0 <= e < c.len() && c[e] != quote {
        if c[e] == '\\' {
            quote_end(c, e + 2, quote)
        } else {
            quote_end(c, e + 1, quote)
        }
    } else {
        e
    }
}

pub proof fn lemma_quote_end(c: Seq<char>, e: int, quote: char)
    requires
        0 <= e,
    ensures
        e <= quote_end(c, e, quote),
        quote_end(c, e, quote) < c.len() ==> c[quote_end(c, e, quote)] == quote,
    decreases c.len() + 1 - e,
{
    if 0 <= e < c.len() && c[e] != quote {
        if c[e] == '\\' {
            lemma_quote_end(c, e + 2, quote);
        } else {
            lemma_quote_end(c, e + 1, quote);
        }
    }
}

/// The tokens from `i` on, or the message of the first character that no
/// token can begin with.
pub open spec fn lex_from(c: Seq<char>, i: int) -> Result<Seq<TokenV>, Seq<char>>
    decreases c.len() - i,
{
    if i < 0 || i >= c.len() {
        Ok(Seq::empty())
    } else {
        let ch = c[i];
        if ch == ' ' || ch == '\t' || ch == '\n' || ch == '\r' {
            lex_from(c, i + 1)
        } else if ch == '[' {
            prepend(TokenV::Open, lex_from(c, i + 1))
        } else if ch == ']' {
            prepend(TokenV::Close, lex_from(c, i + 1))
        } else if ch == '(' {
            prepend(TokenV::OpenParen, lex_from(c, i + 1))
        } else if ch == ')' {
            prepend(TokenV::CloseParen, lex_from(c, i + 1))
        } else if ch == ',' {
            prepend(TokenV::Comma, lex_from(c, i + 1))
        } else if ch == '|' {
            prepend(TokenV::Pipe, lex_from(c, i + 1))
        } else if ch == '=' && i + 1 < c.len() && c[i + 1] == '>' {
            prepend(TokenV::FatComma, lex_from(c, i + 2))
        } else if ch == '\'' || ch == '"' {
            let end = quote_end(c, i + 1, ch);
            if end >= c.len() {
                Err("unterminated string in a type expression"@)
            } else {
                proof {
                    lemma_quote_end(c, i + 1, ch);
                }
                prepend(TokenV::Text(c.subrange(i + 1, end)), lex_from(c, end + 1))
            }
        } else if is_name_start_char(ch) {
            let end = name_end(c, i);
            proof {
                lemma_name_end(c, i);
                lemma_word_end(c, i);
            }
            prepend(TokenV::Name(c.subrange(i, end)), lex_from(c, end))
        } else if is_digit_char(ch) {
            let end = number_end(c, i);
            proof {
                lemma_number_end(c, i);
            }
            prepend(TokenV::Text(c.subrange(i, end)), lex_from(c, end))
        } else {
            Err("`"@ + seq![ch] + "` is not part of a type expression"@)
        }
    }
}

pub open spec fn prepend(t: TokenV, rest: Result<Seq<TokenV>, Seq<char>>) -> Result<
    Seq<TokenV>,
    Seq<char>,
> {
    match rest {
        Ok(tokens) => Ok(seq![t] + tokens),
        Err(e) => Err(e),
    }
}

/// The tokens of a type expression.
pub open spec fn spec_lex(text: Seq<char>) -> Result<Seq<TokenV>, Seq<char>> {
    lex_from(text, 0)
}

fn is_name_start(c: char) -> (r: bool)
    ensures
        r == is_name_start_char(c),
{
    ('a' <= c && c <= 'z') || ('A' <= c && c <= 'Z') || c == '_'
}

fn is_digit(c: char) -> (r: bool)
    ensures
        r == is_digit_char(c),
{
    '0' <= c && c <= '9'
}

fn is_word(c: char) -> (r: bool)
    ensures
        r == is_word_char(c),
{
    is_name_start(c) || is_digit(c)
}

/// The lexer's invariant: what is lexed so far, followed by what is left,
/// is the whole answer.
pub open spec fn lexed_so_far(c: Seq<char>, done: Seq<TokenV>, i: int) -> bool {
    match lex_from(c, i) {
        Ok(rest) => lex_from(c, 0) == Ok::<Seq<TokenV>, Seq<char>>(done + rest),
        Err(e) => lex_from(c, 0) == Err::<Seq<TokenV>, Seq<char>>(e),
    }
}

fn lex(text: &str) -> (r: Result<Vec<Token>, ParseError>)
    ensures
        match spec_lex(text@) {
            Ok(tokens) => r is Ok && token_views(r->Ok_0@) == tokens,
            Err(message) => r is Err && r->Err_0.message@ == message,
        },
{
    let c = chars_of(text);
    let mut tokens: Vec<Token> = Vec::new();
    let mut index: usize = 0;
    assert(token_views(tokens@) =~= Seq::<TokenV>::empty());
    assert(lexed_so_far(c@, token_views(tokens@), 0)) by {
        assert(Seq::<TokenV>::empty() + Seq::<TokenV>::empty() =~= Seq::<TokenV>::empty());
        match lex_from(c@, 0) {
            Ok(rest) => assert(Seq::<TokenV>::empty() + rest =~= rest),
            Err(_) => {},
        }
    }
    while index < c.len()
        invariant
            index <= c@.len(),
            c@ == text@,
            lexed_so_far(c@, token_views(tokens@), index as int),
        decreases c.len() - index,
    {
        let ch = c[index];
        let ghost before = token_views(tokens@);
        let ghost at = index as int;
        if ch == ' ' || ch == '\t' || ch == '\n' || ch == '\r' {
            index += 1;
            continue;
        }
        let single = if ch == '[' {
            Some(Token::Open)
        } else if ch == ']' {
            Some(Token::Close)
        } else if ch == '(' {
            Some(Token::OpenParen)
        } else if ch == ')' {
            Some(Token::CloseParen)
        } else if ch == ',' {
            Some(Token::Comma)
        } else if ch == '|' {
            Some(Token::Pipe)
        } else {
            None
        };
        if let Some(token) = single {
            tokens.push(token);
            index += 1;
            proof {
                lemma_lexed_step(c@, before, at, token@, index as int);
                assert(token_views(tokens@) =~= before.push(token@));
            }
            continue;
        }
        if ch == '=' && index + 1 < c.len() && c[index + 1] == '>' {
            tokens.push(Token::FatComma);
            index += 2;
            proof {
                lemma_lexed_step(c@, before, at, TokenV::FatComma, index as int);
                assert(token_views(tokens@) =~= before.push(TokenV::FatComma));
            }
            continue;
        }
        if ch == '\'' || ch == '"' {
            let start = index + 1;
            let mut end = start;
            proof {
                lemma_quote_end(c@, start as int, ch);
            }
            while end < c.len() && c[end] != ch
                invariant
                    start <= end <= c@.len(),
                    c@.len() == text@.len(),
                    quote_end(c@, end as int, ch) == quote_end(c@, start as int, ch) || (end
                        == c@.len() && quote_end(c@, start as int, ch) > c@.len()),
                decreases c.len() - end,
            {
                if c[end] == '\\' {
                    if c.len() - end >= 2 {
                        end += 2;
                    } else {
                        proof {
                            assert(quote_end(c@, end + 2, ch) == end + 2);
                        }
                        end = c.len();
                    }
                } else {
                    end += 1;
                }
            }
            proof {
                lemma_quote_end(c@, start as int, ch);
            }
            if end >= c.len() {
                let message = String::from_str("unterminated string in a type expression");
                return Err(ParseError { message });
            }
            let content = string_of(&c, start, end);
            tokens.push(Token::Text(content));
            index = end + 1;
            proof {
                lemma_lexed_step(
                    c@,
                    before,
                    at,
                    TokenV::Text(c@.subrange(start as int, end as int)),
                    index as int,
                );
                assert(token_views(tokens@) =~= before.push(
                    TokenV::Text(c@.subrange(start as int, end as int)),
                ));
            }
            continue;
        }
        if is_name_start(ch) {
            let start = index;
            proof {
                lemma_name_end(c@, start as int);
            }
            let mut end = start;
            loop
                invariant
                    start <= end <= c@.len(),
                    name_end(c@, end as int) == name_end(c@, start as int),
                ensures
                    end == name_end(c@, start as int),
                decreases c.len() - end,
            {
                let ghost from = end as int;
                proof {
                    lemma_word_end(c@, from);
                }
                while end < c.len() && is_word(c[end])
                    invariant
                        from <= end <= c@.len(),
                        word_end(c@, end as int) == word_end(c@, from),
                    decreases c.len() - end,
                {
                    end += 1;
                }
                assert(word_end(c@, end as int) == end);
                if end < c.len() && c.len() - end > 1 && c[end] == ':' && c[end + 1] == ':' {
                    end += 2;
                } else {
                    assert(name_end(c@, from) == end);
                    break;
                }
            }
            assert(end > start);
            assert(end == name_end(c@, start as int));
            let name = string_of(&c, start, end);
            tokens.push(Token::Name(name));
            index = end;
            proof {
                lemma_lexed_step(
                    c@,
                    before,
                    at,
                    TokenV::Name(c@.subrange(start as int, end as int)),
                    index as int,
                );
                assert(token_views(tokens@) =~= before.push(
                    TokenV::Name(c@.subrange(start as int, end as int)),
                ));
            }
            continue;
        }
        if is_digit(ch) {
            let start = index;
            let mut end = start;
            while end < c.len() && (is_digit(c[end]) || c[end] == '.' || c[end] == '-')
                invariant
                    start <= end <= c@.len(),
                    number_end(c@, end as int) == number_end(c@, start as int),
                decreases c.len() - end,
            {
                end += 1;
            }
            proof {
                lemma_number_end(c@, start as int);
            }
            assert(end == number_end(c@, start as int));
            let number = string_of(&c, start, end);
            tokens.push(Token::Text(number));
            index = end;
            proof {
                lemma_lexed_step(
                    c@,
                    before,
                    at,
                    TokenV::Text(c@.subrange(start as int, end as int)),
                    index as int,
                );
                assert(token_views(tokens@) =~= before.push(
                    TokenV::Text(c@.subrange(start as int, end as int)),
                ));
            }
            continue;
        }
        let shown = char_string(ch);
        let message = crate::types::wrapped("`", shown.as_str(), "` is not part of a type expression");
        return Err(ParseError { message });
    }
    proof {
        assert(lex_from(c@, index as int) == Ok::<Seq<TokenV>, Seq<char>>(Seq::empty()));
        assert(token_views(tokens@) + Seq::<TokenV>::empty() =~= token_views(tokens@));
    }
    Ok(tokens)
}

/// One token read at `at` and the next starting at `next` keep the lexer's
/// invariant.
proof fn lemma_lexed_step(c: Seq<char>, done: Seq<TokenV>, at: int, t: TokenV, next: int)
    requires
        lexed_so_far(c, done, at),
        lex_from(c, at) == prepend(t, lex_from(c, next)),
    ensures
        lexed_so_far(c, done.push(t), next),
{
    match lex_from(c, next) {
        Ok(rest) => {
            assert(done + (seq![t] + rest) =~= done.push(t) + rest);
        },
        Err(_) => {},
    }
}


// ===== The type-expression parser =====

/// One argument inside `[...]`.
#[derive(Debug)]
pub enum Arg {
    Plain(Type),
    Named(String, Type),
    Slurpy(Type),
}

pub enum ArgV {
    Plain(TypeV),
    Named(Seq<char>, TypeV),
    Slurpy(TypeV),
}

impl View for Arg {
    type V = ArgV;

    open spec fn view(&self) -> ArgV {
        match self {
            Arg::Plain(ty) => ArgV::Plain(ty@),
            Arg::Named(key, ty) => ArgV::Named(key@, ty@),
            Arg::Slurpy(ty) => ArgV::Slurpy(ty@),
        }
    }
}

pub open spec fn arg_views(args: Seq<Arg>) -> Seq<ArgV> {
    args.map_values(|a: Arg| a@)
}

/// The arguments as plain types, or the message for the first that is not
/// one.
pub open spec fn spec_plain(name: Seq<char>, args: Seq<ArgV>) -> Result<Seq<TypeV>, Seq<char>>
    decreases args.len(),
{
    if args.len() == 0 {
        Ok(Seq::empty())
    } else {
        match spec_plain(name, args.drop_last()) {
            Err(e) => Err(e),
            Ok(types) => match args.last() {
                ArgV::Plain(ty) => Ok(types.push(ty)),
                ArgV::Named(key, _) => Err(
                    "`"@ + name + "` does not take a named parameter `"@ + key + "`"@,
                ),
                ArgV::Slurpy(_) => Err("`"@ + name + "` does not take a `slurpy`"@),
            },
        }
    }
}

/// The single parameter of a one-parameter constructor, `Any` when absent.
pub open spec fn spec_one(types: Seq<TypeV>) -> TypeV {
    if types.len() == 0 {
        TypeV::Any
    } else {
        types[0]
    }
}

/// The names one argument gives: a class name, an `Enum`'s values, or what
/// anything else prints as.
pub open spec fn names_of(arg: ArgV) -> Seq<Seq<char>> {
    match arg {
        ArgV::Plain(TypeV::InstanceOf(name)) => seq![name],
        ArgV::Plain(TypeV::Enum(values)) => values,
        ArgV::Plain(other) => seq![spec_render(other)],
        _ => Seq::empty(),
    }
}

/// The names an `Enum` / `InstanceOf` / `HasMethods` was given.
pub open spec fn spec_names(args: Seq<ArgV>) -> Seq<Seq<char>>
    decreases args.len(),
{
    if args.len() == 0 {
        Seq::empty()
    } else {
        spec_names(args.drop_last()) + names_of(args.last())
    }
}

/// The named slots of a `Dict`, in order.
pub open spec fn dict_slots(args: Seq<ArgV>) -> Seq<(Seq<char>, TypeV)>
    decreases args.len(),
{
    if args.len() == 0 {
        Seq::empty()
    } else {
        match args.last() {
            ArgV::Named(key, value) => dict_slots(args.drop_last()).push((key, value)),
            _ => dict_slots(args.drop_last()),
        }
    }
}

/// What the last `slurpy` of a `Dict` says any other key holds.
pub open spec fn dict_slurpy(args: Seq<ArgV>) -> Option<Box<TypeV>>
    decreases args.len(),
{
    if args.len() == 0 {
        None
    } else {
        match args.last() {
            ArgV::Slurpy(rest) => Some(Box::new(rest)),
            _ => dict_slurpy(args.drop_last()),
        }
    }
}

pub open spec fn is_str_refinement(name: Seq<char>) -> bool {
    name == "Str"@ || name == "SimpleStr"@ || name == "NonEmptyStr"@ || name
        == "NonEmptySimpleStr"@ || name == "LowerCaseStr"@ || name == "UpperCaseStr"@ || name
        == "LowerCaseSimpleStr"@ || name == "UpperCaseSimpleStr"@ || name == "Password"@ || name
        == "StrongPassword"@ || name == "StrMatch"@
}

pub open spec fn is_num_refinement(name: Seq<char>) -> bool {
    name == "Num"@ || name == "LaxNum"@ || name == "StrictNum"@ || name == "PositiveNum"@ || name
        == "PositiveOrZeroNum"@ || name == "NegativeNum"@ || name == "NegativeOrZeroNum"@ || name
        == "NumRange"@
}

pub open spec fn is_int_refinement(name: Seq<char>) -> bool {
    name == "Int"@ || name == "PositiveInt"@ || name == "PositiveOrZeroInt"@ || name
        == "NegativeInt"@ || name == "NegativeOrZeroInt"@ || name == "SingleDigit"@ || name
        == "IntRange"@
}

/// A type constructor with no parameters, by name.
pub open spec fn simple_constructor(name: Seq<char>) -> Option<TypeV> {
    if name == "Any"@ || name == "Item"@ {
        Some(TypeV::Any)
    } else if name == "Defined"@ {
        Some(TypeV::Defined)
    } else if name == "Value"@ {
        Some(TypeV::Value)
    } else if name == "Bool"@ {
        Some(TypeV::Bool)
    } else if name == "RoleName"@ {
        Some(TypeV::RoleName)
    } else if name == "Undef"@ {
        Some(TypeV::Undef)
    } else if name == "CodeRef"@ || name == "CodeLike"@ {
        Some(TypeV::CodeRef)
    } else if name == "RegexpRef"@ {
        Some(TypeV::RegexpRef)
    } else if name == "GlobRef"@ {
        Some(TypeV::GlobRef)
    } else if name == "FileHandle"@ {
        Some(TypeV::FileHandle)
    } else if name == "Object"@ {
        Some(TypeV::Object)
    } else if is_str_refinement(name) {
        Some(TypeV::Str)
    } else if is_num_refinement(name) {
        Some(TypeV::Num)
    } else if is_int_refinement(name) {
        Some(TypeV::Int)
    } else if name == "Ref"@ {
        Some(TypeV::Ref)
    } else {
        None
    }
}

/// What a constructor applied to its arguments means. An unrecognised
/// bareword is a class name; one with arguments is `Unknown`.
pub open spec fn spec_constructor(name: Seq<char>, args: Seq<ArgV>) -> Result<TypeV, Seq<char>> {
    let arity = args.len();
    if name == "Dict"@ && arity > 0 {
        Ok(TypeV::Dict { slots: dict_slots(args), slurpy: dict_slurpy(args) })
    } else if arity == 0 && (name == "Dict"@ || name == "Map"@) {
        Ok(TypeV::HashRef(Box::new(TypeV::Unknown)))
    } else if arity == 0 && name == "Tuple"@ {
        Ok(TypeV::ArrayRef(Box::new(TypeV::Unknown)))
    } else if simple_constructor(name) is Some {
        Ok(simple_constructor(name)->Some_0)
    } else if name == "ScalarRef"@ || name == "ArrayRef"@ || name == "ArrayLike"@ || name
        == "HashRef"@ || name == "HashLike"@ || name == "Tuple"@ || name == "Map"@ || name
        == "Maybe"@ || name == "Optional"@ || name == "Slurpy"@ {
        match spec_plain(name, args) {
            Err(e) => Err(e),
            Ok(types) => if name == "ScalarRef"@ {
                Ok(TypeV::ScalarRef(Box::new(spec_one(types))))
            } else if name == "ArrayRef"@ || name == "ArrayLike"@ {
                Ok(TypeV::ArrayRef(Box::new(spec_one(types))))
            } else if name == "HashRef"@ || name == "HashLike"@ {
                Ok(TypeV::HashRef(Box::new(spec_one(types))))
            } else if name == "Tuple"@ {
                Ok(TypeV::Tuple(types))
            } else if name == "Map"@ {
                if types.len() != 2 {
                    Err("`Map` takes a key type and a value type"@)
                } else {
                    Ok(TypeV::MapOf(Box::new(types[0]), Box::new(types[1])))
                }
            } else if name == "Maybe"@ {
                Ok(spec_maybe(spec_one(types)))
            } else if name == "Optional"@ {
                Ok(TypeV::Optional(Box::new(spec_one(types))))
            } else {
                Ok(spec_one(types))
            },
        }
    } else if name == "Enum"@ {
        Ok(TypeV::Enum(spec_names(args)))
    } else if name == "ClassName"@ {
        Ok(
            TypeV::ClassName(
                if spec_names(args).len() > 0 {
                    Some(spec_names(args)[0])
                } else {
                    None
                },
            ),
        )
    } else if name == "InstanceOf"@ {
        Ok(
            if spec_names(args).len() > 0 {
                TypeV::InstanceOf(spec_names(args)[0])
            } else {
                TypeV::Object
            },
        )
    } else if name == "ConsumerOf"@ {
        Ok(
            if spec_names(args).len() > 0 {
                TypeV::ConsumerOf(spec_names(args)[0])
            } else {
                TypeV::Object
            },
        )
    } else if name == "HasMethods"@ || name == "Overload"@ {
        Ok(TypeV::HasMethods(spec_names(args)))
    } else if arity == 0 {
        Ok(TypeV::InstanceOf(name))
    } else {
        Ok(TypeV::Unknown)
    }
}

/// How many tokens are left from `pos`, the measure every rule recurses on.
pub open spec fn left(t: Seq<TokenV>, pos: int) -> int {
    if pos <= t.len() {
        t.len() - pos
    } else {
        0
    }
}

/// `primary := '(' union ')' | TEXT | NAME ('[' arguments ']')?`
///
/// The count is the tokens consumed past the first.
pub open spec fn p_primary(t: Seq<TokenV>, pos: int) -> Result<(TypeV, nat), Seq<char>>
    decreases left(t, pos), 1int,
{
    if pos < 0 || pos >= t.len() {
        Err("an empty type expression"@)
    } else {
        match t[pos] {
            TokenV::OpenParen => match p_union(t, pos + 1) {
                Err(e) => Err(e),
                Ok((inner, k)) => if pos + 2 + k < t.len() && t[pos + 2 + k] == TokenV::CloseParen {
                    Ok((inner, k + 2))
                } else {
                    Err("a `(` in a type expression is not closed"@)
                },
            },
            TokenV::Text(text) => Ok((TypeV::Enum(seq![text]), 0)),
            TokenV::Name(name) => if pos + 1 < t.len() && t[pos + 1] == TokenV::Open {
                match p_arguments(t, pos + 2) {
                    Err(e) => Err(e),
                    Ok((args, k)) => if pos + 2 + k < t.len() && t[pos + 2 + k] == TokenV::Close {
                        match spec_constructor(name, args) {
                            Ok(ty) => Ok((ty, k + 2)),
                            Err(e) => Err(e),
                        }
                    } else {
                        Err("`"@ + name + "[` is not closed"@)
                    },
                }
            } else {
                match spec_constructor(name, Seq::empty()) {
                    Ok(ty) => Ok((ty, 0)),
                    Err(e) => Err(e),
                }
            },
            other => Err("a type expression cannot begin with `"@ + token_text(other) + "`"@),
        }
    }
}

/// `union := primary ('|' primary)*`
pub open spec fn p_union(t: Seq<TokenV>, pos: int) -> Result<(TypeV, nat), Seq<char>>
    decreases left(t, pos), 2int,
{
    match p_primary(t, pos) {
        Err(e) => Err(e),
        Ok((first, k)) => if pos < t.len() {
            match p_union_rest(t, pos + 1 + k, seq![first]) {
                Err(e) => Err(e),
                Ok((members, m)) => Ok((spec_union(members), k + m)),
            }
        } else {
            Err("an empty type expression"@)
        },
    }
}

/// The `('|' primary)*` after a union's first member.
pub open spec fn p_union_rest(t: Seq<TokenV>, p: int, acc: Seq<TypeV>) -> Result<
    (Seq<TypeV>, nat),
    Seq<char>,
>
    decreases left(t, p), 2int,
{
    if 0 <= p < t.len() && t[p] == TokenV::Pipe {
        match p_primary(t, p + 1) {
            Err(e) => Err(e),
            Ok((ty, k)) => match p_union_rest(t, p + 2 + k, acc.push(ty)) {
                Err(e) => Err(e),
                Ok((members, m)) => Ok((members, 2 + k + m)),
            },
        }
    } else {
        Ok((acc, 0))
    }
}

/// `argument := 'slurpy' union | (NAME | TEXT) '=>' union | union`
pub open spec fn p_argument(t: Seq<TokenV>, pos: int) -> Result<(ArgV, nat), Seq<char>>
    decreases left(t, pos), 3int,
{
    if 0 <= pos < t.len() && t[pos] == TokenV::Name("slurpy"@) {
        match p_union(t, pos + 1) {
            Err(e) => Err(e),
            Ok((ty, k)) => Ok((ArgV::Slurpy(ty), k + 1)),
        }
    } else if 0 <= pos && pos + 1 < t.len() && t[pos + 1] == TokenV::FatComma && (
    t[pos] is Name || t[pos] is Text) {
        let key = match t[pos] {
            TokenV::Name(n) => n,
            TokenV::Text(x) => x,
            _ => Seq::empty(),
        };
        match p_union(t, pos + 2) {
            Err(e) => Err(e),
            Ok((ty, k)) => Ok((ArgV::Named(key, ty), k + 2)),
        }
    } else {
        match p_union(t, pos) {
            Err(e) => Err(e),
            Ok((ty, k)) => Ok((ArgV::Plain(ty), k)),
        }
    }
}

/// `argument (',' argument)* ','?` — the count here is every token consumed.
pub open spec fn p_arguments_loop(t: Seq<TokenV>, p: int, acc: Seq<ArgV>) -> Result<
    (Seq<ArgV>, nat),
    Seq<char>,
>
    decreases left(t, p), 4int,
{
    match p_argument(t, p) {
        Err(e) => Err(e),
        Ok((arg, k)) => {
            let q = p + 1 + k;
            let acc2 = acc.push(arg);
            if 0 <= q < t.len() && t[q] == TokenV::Comma {
                if q + 1 < t.len() && t[q + 1] == TokenV::Close {
                    Ok((acc2, k + 2))
                } else if p < t.len() {
                    match p_arguments_loop(t, q + 1, acc2) {
                        Err(e) => Err(e),
                        Ok((all, m)) => Ok((all, k + 2 + m)),
                    }
                } else {
                    Ok((acc2, k + 2))
                }
            } else {
                Ok((acc2, k + 1))
            }
        },
    }
}

/// `arguments := ε | argument (',' argument)* ','?`
pub open spec fn p_arguments(t: Seq<TokenV>, pos: int) -> Result<(Seq<ArgV>, nat), Seq<char>>
    decreases left(t, pos), 5int,
{
    if 0 <= pos < t.len() && t[pos] == TokenV::Close {
        Ok((Seq::empty(), 0))
    } else {
        p_arguments_loop(t, pos, Seq::empty())
    }
}

/// Every token from `pos`, written back and separated by spaces.
pub open spec fn tokens_text(t: Seq<TokenV>) -> Seq<Seq<char>> {
    t.map_values(|one: TokenV| token_text(one))
}

/// Read a type expression: every token of it, as one union.
pub open spec fn spec_parse(text: Seq<char>) -> Result<TypeV, Seq<char>> {
    match spec_lex(text) {
        Err(e) => Err(e),
        Ok(t) => match p_union(t, 0) {
            Err(e) => Err(e),
            Ok((ty, k)) => if k + 1 < t.len() {
                Err(
                    "unexpected `"@ + join(tokens_text(t.subrange((k + 1) as int, t.len() as int)), " "@)
                        + "`"@,
                )
            } else {
                Ok(ty)
            },
        },
    }
}


fn message(text: String) -> (e: ParseError)
    ensures
        e.message@ == text@,
{
    ParseError { message: text }
}

/// The arguments as plain types.
fn plain(name: &str, arguments: &Vec<Arg>) -> (r: Result<Vec<Type>, ParseError>)
    ensures
        match spec_plain(name@, arg_views(arguments@)) {
            Ok(types) => r is Ok && views(r->Ok_0@) == types,
            Err(m) => r is Err && r->Err_0.message@ == m,
        },
{
    let mut out: Vec<Type> = Vec::new();
    let mut i: usize = 0;
    while i < arguments.len()
        invariant
            i <= arguments.len(),
            spec_plain(name@, arg_views(arguments@).subrange(0, i as int)) == Ok::<
                Seq<TypeV>,
                Seq<char>,
            >(views(out@)),
        decreases arguments.len() - i,
    {
        proof {
            assert(arg_views(arguments@).subrange(0, i + 1).drop_last() =~= arg_views(
                arguments@,
            ).subrange(0, i as int));
        }
        match &arguments[i] {
            Arg::Plain(ty) => {
                let copy = ty.duplicate();
                proof {
                    lemma_views_push(out@, copy);
                }
                out.push(copy);
            },
            Arg::Named(key, _) => {
                let mut text = wrapped("`", name, "` does not take a named parameter `");
                append(&mut text, key.as_str());
                append(&mut text, "`");
                proof {
                    lemma_plain_error_extends(name@, arg_views(arguments@), i as int + 1);
                }
                return Err(message(text));
            },
            Arg::Slurpy(_) => {
                let text = wrapped("`", name, "` does not take a `slurpy`");
                proof {
                    lemma_plain_error_extends(name@, arg_views(arguments@), i as int + 1);
                }
                return Err(message(text));
            },
        }
        i += 1;
    }
    assert(arg_views(arguments@).subrange(0, arguments.len() as int) =~= arg_views(arguments@));
    Ok(out)
}

/// An error on a prefix of the arguments is the error of them all.
proof fn lemma_plain_error_extends(name: Seq<char>, args: Seq<ArgV>, n: int)
    requires
        0 <= n <= args.len(),
        spec_plain(name, args.subrange(0, n)) is Err,
    ensures
        spec_plain(name, args) == spec_plain(name, args.subrange(0, n)),
    decreases args.len() - n,
{
    if n < args.len() {
        assert(args.subrange(0, n + 1).drop_last() =~= args.subrange(0, n));
        lemma_plain_error_extends(name, args, n + 1);
    } else {
        assert(args.subrange(0, n) =~= args);
    }
}

/// The first type, or `Any`.
fn one(types: Vec<Type>) -> (ty: Type)
    ensures
        ty@ == spec_one(views(types@)),
{
    proof {
        lemma_views(types@);
    }
    if types.len() == 0 {
        Type::Any
    } else {
        types[0].duplicate()
    }
}

/// The names an `Enum` / `InstanceOf` / `HasMethods` was given.
fn names(arguments: &Vec<Arg>) -> (out: Vec<String>)
    ensures
        strings_view(out@) == spec_names(arg_views(arguments@)),
{
    let mut out: Vec<String> = Vec::new();
    let mut i: usize = 0;
    while i < arguments.len()
        invariant
            i <= arguments.len(),
            strings_view(out@) == spec_names(arg_views(arguments@).subrange(0, i as int)),
        decreases arguments.len() - i,
    {
        proof {
            assert(arg_views(arguments@).subrange(0, i + 1).drop_last() =~= arg_views(
                arguments@,
            ).subrange(0, i as int));
        }
        let ghost before = strings_view(out@);
        match &arguments[i] {
            Arg::Plain(Type::InstanceOf(name)) => {
                out.push(name.clone());
                assert(strings_view(out@) =~= before + seq![name@]);
            },
            Arg::Plain(Type::Enum(values)) => {
                let mut j: usize = 0;
                while j < values.len()
                    invariant
                        j <= values.len(),
                        strings_view(out@) == before + strings_view(values@).subrange(0, j as int),
                    decreases values.len() - j,
                {
                    let ghost prior = out@;
                    out.push(values[j].clone());
                    proof {
                        assert(strings_view(out@) =~= strings_view(prior).push(values@[j as int]@));
                        assert(strings_view(values@).subrange(0, j + 1) =~= strings_view(
                            values@,
                        ).subrange(0, j as int).push(values@[j as int]@));
                    }
                    j += 1;
                    assert(strings_view(out@) =~= before + strings_view(values@).subrange(
                        0,
                        j as int,
                    ));
                }
                assert(strings_view(values@).subrange(0, values.len() as int) =~= strings_view(
                    values@,
                ));
            },
            Arg::Plain(other) => {
                let text = other.render();
                out.push(text);
                assert(strings_view(out@) =~= before + seq![text@]);
            },
            _ => {
                assert(strings_view(out@) =~= before + Seq::<Seq<char>>::empty());
            },
        }
        i += 1;
    }
    assert(arg_views(arguments@).subrange(0, arguments.len() as int) =~= arg_views(arguments@));
    out
}

/// `Dict[...]`: its named slots, and what the last `slurpy` says.
fn dict(arguments: Vec<Arg>) -> (ty: Type)
    ensures
        ty@ == (TypeV::Dict {
            slots: dict_slots(arg_views(arguments@)),
            slurpy: dict_slurpy(arg_views(arguments@)),
        }),
{
    let mut slots: Vec<(String, Type)> = Vec::new();
    let mut slurpy: Option<Box<Type>> = None;
    let mut i: usize = 0;
    while i < arguments.len()
        invariant
            i <= arguments.len(),
            slot_views(slots@) == dict_slots(arg_views(arguments@).subrange(0, i as int)),
            (match slurpy {
                Some(rest) => Some(Box::new((*rest)@)),
                None => None,
            }) == dict_slurpy(arg_views(arguments@).subrange(0, i as int)),
        decreases arguments.len() - i,
    {
        proof {
            assert(arg_views(arguments@).subrange(0, i + 1).drop_last() =~= arg_views(
                arguments@,
            ).subrange(0, i as int));
            lemma_slot_views(slots@);
        }
        match &arguments[i] {
            Arg::Named(key, value) => {
                let ghost before = slots@;
                slots.push((key.clone(), value.duplicate()));
                proof {
                    lemma_slot_views(slots@);
                    assert(slot_views(slots@) =~= slot_views(before).push((key@, value@)));
                }
            },
            Arg::Slurpy(rest) => {
                slurpy = Some(Box::new(rest.duplicate()));
            },
            Arg::Plain(_) => {},
        }
        i += 1;
    }
    assert(arg_views(arguments@).subrange(0, arguments.len() as int) =~= arg_views(arguments@));
    Type::Dict { slots, slurpy }
}

fn is_str_name(name: &str) -> (r: bool)
    ensures
        r == is_str_refinement(name@),
{
    same_text(name, "Str") || same_text(name, "SimpleStr") || same_text(name, "NonEmptyStr")
        || same_text(name, "NonEmptySimpleStr") || same_text(name, "LowerCaseStr") || same_text(
        name,
        "UpperCaseStr",
    ) || same_text(name, "LowerCaseSimpleStr") || same_text(name, "UpperCaseSimpleStr")
        || same_text(name, "Password") || same_text(name, "StrongPassword") || same_text(
        name,
        "StrMatch",
    )
}

fn is_num_name(name: &str) -> (r: bool)
    ensures
        r == is_num_refinement(name@),
{
    same_text(name, "Num") || same_text(name, "LaxNum") || same_text(name, "StrictNum")
        || same_text(name, "PositiveNum") || same_text(name, "PositiveOrZeroNum") || same_text(
        name,
        "NegativeNum",
    ) || same_text(name, "NegativeOrZeroNum") || same_text(name, "NumRange")
}

fn is_int_name(name: &str) -> (r: bool)
    ensures
        r == is_int_refinement(name@),
{
    same_text(name, "Int") || same_text(name, "PositiveInt") || same_text(name, "PositiveOrZeroInt")
        || same_text(name, "NegativeInt") || same_text(name, "NegativeOrZeroInt") || same_text(
        name,
        "SingleDigit",
    ) || same_text(name, "IntRange")
}

fn simple(name: &str) -> (r: Option<Type>)
    ensures
        match simple_constructor(name@) {
            Some(ty) => r is Some && r->Some_0@ == ty,
            None => r is None,
        },
{
    if same_text(name, "Any") || same_text(name, "Item") {
        Some(Type::Any)
    } else if same_text(name, "Defined") {
        Some(Type::Defined)
    } else if same_text(name, "Value") {
        Some(Type::Value)
    } else if same_text(name, "Bool") {
        Some(Type::Bool)
    } else if same_text(name, "RoleName") {
        Some(Type::RoleName)
    } else if same_text(name, "Undef") {
        Some(Type::Undef)
    } else if same_text(name, "CodeRef") || same_text(name, "CodeLike") {
        Some(Type::CodeRef)
    } else if same_text(name, "RegexpRef") {
        Some(Type::RegexpRef)
    } else if same_text(name, "GlobRef") {
        Some(Type::GlobRef)
    } else if same_text(name, "FileHandle") {
        Some(Type::FileHandle)
    } else if same_text(name, "Object") {
        Some(Type::Object)
    } else if is_str_name(name) {
        Some(Type::Str)
    } else if is_num_name(name) {
        Some(Type::Num)
    } else if is_int_name(name) {
        Some(Type::Int)
    } else if same_text(name, "Ref") {
        Some(Type::Ref)
    } else {
        None
    }
}

/// What a name that is a known constructor means, applied to its arguments;
/// an unrecognised bareword is a class name.
fn constructor(name: &String, arguments: Vec<Arg>) -> (r: Result<Type, ParseError>)
    ensures
        match spec_constructor(name@, arg_views(arguments@)) {
            Ok(ty) => r is Ok && r->Ok_0@ == ty,
            Err(m) => r is Err && r->Err_0.message@ == m,
        },
{
    let name_text = name.as_str();
    let arity = arguments.len();
    if same_text(name_text, "Dict") && arity > 0 {
        return Ok(dict(arguments));
    }
    if arity == 0 {
        if same_text(name_text, "Dict") || same_text(name_text, "Map") {
            assert(Type::Unknown@ == TypeV::Unknown);
            return Ok(Type::HashRef(Box::new(Type::Unknown)));
        }
        if same_text(name_text, "Tuple") {
            assert(Type::Unknown@ == TypeV::Unknown);
            return Ok(Type::ArrayRef(Box::new(Type::Unknown)));
        }
    }
    if let Some(ty) = simple(name_text) {
        return Ok(ty);
    }
    let is_scalar_ref = same_text(name_text, "ScalarRef");
    let is_array_ref = same_text(name_text, "ArrayRef") || same_text(name_text, "ArrayLike");
    let is_hash_ref = same_text(name_text, "HashRef") || same_text(name_text, "HashLike");
    let is_tuple = same_text(name_text, "Tuple");
    let is_map = same_text(name_text, "Map");
    let is_maybe = same_text(name_text, "Maybe");
    let is_optional = same_text(name_text, "Optional");
    let is_slurpy = same_text(name_text, "Slurpy");
    if is_scalar_ref || is_array_ref || is_hash_ref || is_tuple || is_map || is_maybe
        || is_optional || is_slurpy {
        let types = match plain(name_text, &arguments) {
            Ok(types) => types,
            Err(e) => return Err(e),
        };
        proof {
            lemma_views(types@);
        }
        if is_scalar_ref {
            return Ok(Type::ScalarRef(Box::new(one(types))));
        } else if is_array_ref {
            return Ok(Type::ArrayRef(Box::new(one(types))));
        } else if is_hash_ref {
            return Ok(Type::HashRef(Box::new(one(types))));
        } else if is_tuple {
            return Ok(Type::Tuple(types));
        } else if is_map {
            if types.len() != 2 {
                return Err(message(String::from_str("`Map` takes a key type and a value type")));
            }
            return Ok(Type::MapOf(Box::new(types[0].duplicate()), Box::new(types[1].duplicate())));
        } else if is_maybe {
            return Ok(Type::maybe(one(types)));
        } else if is_optional {
            return Ok(Type::Optional(Box::new(one(types))));
        } else {
            return Ok(one(types));
        }
    }
    if same_text(name_text, "Enum") {
        return Ok(Type::Enum(names(&arguments)));
    }
    if same_text(name_text, "ClassName") {
        let mut found = names(&arguments);
        let first = if found.len() > 0 {
            Some(found.remove(0))
        } else {
            None
        };
        return Ok(Type::ClassName(first));
    }
    if same_text(name_text, "InstanceOf") {
        let mut found = names(&arguments);
        if found.len() > 0 {
            return Ok(Type::InstanceOf(found.remove(0)));
        }
        return Ok(Type::Object);
    }
    if same_text(name_text, "ConsumerOf") {
        let mut found = names(&arguments);
        if found.len() > 0 {
            return Ok(Type::ConsumerOf(found.remove(0)));
        }
        return Ok(Type::Object);
    }
    if same_text(name_text, "HasMethods") || same_text(name_text, "Overload") {
        return Ok(Type::HasMethods(names(&arguments)));
    }
    if arity == 0 {
        Ok(Type::InstanceOf(name.clone()))
    } else {
        Ok(Type::Unknown)
    }
}


impl Token {
    fn copy(&self) -> (out: Token)
        ensures
            out@ == self@,
    {
        match self {
            Token::Name(n) => Token::Name(n.clone()),
            Token::Text(t) => Token::Text(t.clone()),
            Token::Open => Token::Open,
            Token::Close => Token::Close,
            Token::Comma => Token::Comma,
            Token::FatComma => Token::FatComma,
            Token::Pipe => Token::Pipe,
            Token::OpenParen => Token::OpenParen,
            Token::CloseParen => Token::CloseParen,
        }
    }

    /// How the token is written back.
    fn text(&self) -> (out: String)
        ensures
            out@ == token_text(self@),
    {
        match self {
            Token::Name(n) => n.clone(),
            Token::Text(t) => wrapped("'", t.as_str(), "'"),
            Token::Open => String::from_str("["),
            Token::Close => String::from_str("]"),
            Token::Comma => String::from_str(","),
            Token::FatComma => String::from_str("=>"),
            Token::Pipe => String::from_str("|"),
            Token::OpenParen => String::from_str("("),
            Token::CloseParen => String::from_str(")"),
        }
    }
}

struct Parser {
    tokens: Vec<Token>,
    index: usize,
}

impl Parser {
    spec fn t(&self) -> Seq<TokenV> {
        token_views(self.tokens@)
    }

    /// Consume the next token if it is a punctuation token of this kind.
    fn eat_punct(&mut self, want: &Token) -> (r: bool)
        requires
            old(self).index <= old(self).tokens@.len(),
            !(want@ is Name) && !(want@ is Text),
        ensures
            final(self).tokens@ == old(self).tokens@,
            r == (old(self).index < old(self).tokens@.len() && old(self).t()[old(
                self,
            ).index as int] == want@),
            final(self).index == (if r {
                old(self).index + 1
            } else {
                old(self).index as int
            }),
    {
        if self.index >= self.tokens.len() {
            return false;
        }
        let same = match (&self.tokens[self.index], want) {
            (Token::Open, Token::Open) => true,
            (Token::Close, Token::Close) => true,
            (Token::Comma, Token::Comma) => true,
            (Token::FatComma, Token::FatComma) => true,
            (Token::Pipe, Token::Pipe) => true,
            (Token::OpenParen, Token::OpenParen) => true,
            (Token::CloseParen, Token::CloseParen) => true,
            _ => false,
        };
        if same {
            self.index += 1;
        }
        same
    }

    fn primary(&mut self) -> (r: Result<Type, ParseError>)
        requires
            old(self).index <= old(self).tokens@.len(),
        ensures
            final(self).tokens@ == old(self).tokens@,
            final(self).index <= final(self).tokens@.len(),
            match p_primary(old(self).t(), old(self).index as int) {
                Ok((ty, k)) => r is Ok && r->Ok_0@ == ty && final(self).index == old(self).index
                    + 1 + k,
                Err(m) => r is Err && r->Err_0.message@ == m,
            },
        decreases left(old(self).t(), old(self).index as int), 1int,
    {
        if self.index >= self.tokens.len() {
            return Err(message(String::from_str("an empty type expression")));
        }
        let token = self.tokens[self.index].copy();
        self.index += 1;
        match token {
            Token::OpenParen => {
                let inner = match self.union() {
                    Ok(ty) => ty,
                    Err(e) => return Err(e),
                };
                if !self.eat_punct(&Token::CloseParen) {
                    return Err(message(String::from_str("a `(` in a type expression is not closed")));
                }
                Ok(inner)
            },
            Token::Text(text) => {
                let mut values: Vec<String> = Vec::new();
                values.push(text);
                assert(strings_view(values@) =~= seq![text@]);
                Ok(Type::Enum(values))
            },
            Token::Name(name) => {
                let arguments = if self.eat_punct(&Token::Open) {
                    let arguments = match self.arguments() {
                        Ok(arguments) => arguments,
                        Err(e) => return Err(e),
                    };
                    if !self.eat_punct(&Token::Close) {
                        return Err(message(wrapped("`", name.as_str(), "[` is not closed")));
                    }
                    arguments
                } else {
                    let none: Vec<Arg> = Vec::new();
                    assert(arg_views(none@) =~= Seq::<ArgV>::empty());
                    none
                };
                constructor(&name, arguments)
            },
            other => {
                let shown = other.text();
                Err(message(wrapped("a type expression cannot begin with `", shown.as_str(), "`")))
            },
        }
    }

    fn union(&mut self) -> (r: Result<Type, ParseError>)
        requires
            old(self).index <= old(self).tokens@.len(),
        ensures
            final(self).tokens@ == old(self).tokens@,
            final(self).index <= final(self).tokens@.len(),
            match p_union(old(self).t(), old(self).index as int) {
                Ok((ty, k)) => r is Ok && r->Ok_0@ == ty && final(self).index == old(self).index
                    + 1 + k,
                Err(m) => r is Err && r->Err_0.message@ == m,
            },
        decreases left(old(self).t(), old(self).index as int), 2int,
    {
        let first = match self.primary() {
            Ok(ty) => ty,
            Err(e) => return Err(e),
        };
        let mut members: Vec<Type> = Vec::new();
        members.push(first);
        proof {
            lemma_views(members@);
            assert(views(members@) =~= seq![first@]);
        }
        match self.union_rest(members) {
            Ok(all) => Ok(Type::union(all)),
            Err(e) => Err(e),
        }
    }

    fn union_rest(&mut self, acc: Vec<Type>) -> (r: Result<Vec<Type>, ParseError>)
        requires
            old(self).index <= old(self).tokens@.len(),
        ensures
            final(self).tokens@ == old(self).tokens@,
            final(self).index <= final(self).tokens@.len(),
            match p_union_rest(old(self).t(), old(self).index as int, views(acc@)) {
                Ok((members, m)) => r is Ok && views(r->Ok_0@) == members && final(self).index
                    == old(self).index + m,
                Err(e) => r is Err && r->Err_0.message@ == e,
            },
        decreases left(old(self).t(), old(self).index as int), 2int,
    {
        if !self.eat_punct(&Token::Pipe) {
            return Ok(acc);
        }
        let ty = match self.primary() {
            Ok(ty) => ty,
            Err(e) => return Err(e),
        };
        let mut acc = acc;
        proof {
            lemma_views_push(acc@, ty);
        }
        acc.push(ty);
        self.union_rest(acc)
    }

    fn argument(&mut self) -> (r: Result<Arg, ParseError>)
        requires
            old(self).index <= old(self).tokens@.len(),
        ensures
            final(self).tokens@ == old(self).tokens@,
            final(self).index <= final(self).tokens@.len(),
            match p_argument(old(self).t(), old(self).index as int) {
                Ok((arg, k)) => r is Ok && r->Ok_0@ == arg && final(self).index == old(self).index
                    + 1 + k,
                Err(m) => r is Err && r->Err_0.message@ == m,
            },
        decreases left(old(self).t(), old(self).index as int), 3int,
    {
        let at = self.index;
        let len = self.tokens.len();
        if at < len {
            let slurpy = match &self.tokens[at] {
                Token::Name(n) => same_text(n.as_str(), "slurpy"),
                _ => false,
            };
            if slurpy {
                self.index += 1;
                return match self.union() {
                    Ok(ty) => Ok(Arg::Slurpy(ty)),
                    Err(e) => Err(e),
                };
            }
        }
        if at < len && len - at > 1 {
            let fat = match &self.tokens[at + 1] {
                Token::FatComma => true,
                _ => false,
            };
            let key = match &self.tokens[at] {
                Token::Name(n) => Some(n.clone()),
                Token::Text(x) => Some(x.clone()),
                _ => None,
            };
            if fat {
                if let Some(key) = key {
                    self.index += 2;
                    return match self.union() {
                        Ok(ty) => Ok(Arg::Named(key, ty)),
                        Err(e) => Err(e),
                    };
                }
            }
        }
        match self.union() {
            Ok(ty) => Ok(Arg::Plain(ty)),
            Err(e) => Err(e),
        }
    }

    fn arguments_loop(&mut self, acc: Vec<Arg>) -> (r: Result<Vec<Arg>, ParseError>)
        requires
            old(self).index <= old(self).tokens@.len(),
        ensures
            final(self).tokens@ == old(self).tokens@,
            final(self).index <= final(self).tokens@.len(),
            match p_arguments_loop(old(self).t(), old(self).index as int, arg_views(acc@)) {
                Ok((args, m)) => r is Ok && arg_views(r->Ok_0@) == args && final(self).index
                    == old(self).index + m,
                Err(e) => r is Err && r->Err_0.message@ == e,
            },
        decreases left(old(self).t(), old(self).index as int), 4int,
    {
        let start = self.index;
        let arg = match self.argument() {
            Ok(arg) => arg,
            Err(e) => return Err(e),
        };
        let mut acc = acc;
        let ghost before = acc@;
        acc.push(arg);
        assert(arg_views(acc@) =~= arg_views(before).push(arg@));
        if !self.eat_punct(&Token::Comma) {
            return Ok(acc);
        }
        if self.index < self.tokens.len() {
            let close = match &self.tokens[self.index] {
                Token::Close => true,
                _ => false,
            };
            if close {
                return Ok(acc);
            }
        }
        self.arguments_loop(acc)
    }

    fn arguments(&mut self) -> (r: Result<Vec<Arg>, ParseError>)
        requires
            old(self).index <= old(self).tokens@.len(),
        ensures
            final(self).tokens@ == old(self).tokens@,
            final(self).index <= final(self).tokens@.len(),
            match p_arguments(old(self).t(), old(self).index as int) {
                Ok((args, m)) => r is Ok && arg_views(r->Ok_0@) == args && final(self).index
                    == old(self).index + m,
                Err(e) => r is Err && r->Err_0.message@ == e,
            },
        decreases left(old(self).t(), old(self).index as int), 5int,
    {
        let acc: Vec<Arg> = Vec::new();
        assert(arg_views(acc@) =~= Seq::<ArgV>::empty());
        if self.index < self.tokens.len() {
            let close = match &self.tokens[self.index] {
                Token::Close => true,
                _ => false,
            };
            if close {
                return Ok(acc);
            }
        }
        self.arguments_loop(acc)
    }

    /// The tokens left, written back and separated by spaces.
    fn rest(&self) -> (out: String)
        requires
            self.index <= self.tokens@.len(),
        ensures
            out@ == join(tokens_text(self.t().subrange(self.index as int, self.tokens@.len() as int)), " "@),
    {
        let mut parts: Vec<String> = Vec::new();
        let mut i = self.index;
        while i < self.tokens.len()
            invariant
                self.index <= i <= self.tokens@.len(),
                strings_view(parts@) == tokens_text(self.t().subrange(self.index as int, i as int)),
            decreases self.tokens.len() - i,
        {
            let ghost before = parts@;
            let text = self.tokens[i].text();
            parts.push(text);
            proof {
                let sub = self.t().subrange(self.index as int, i as int);
                assert(self.t().subrange(self.index as int, i + 1) =~= sub.push(self.tokens@[i as int]@));
                assert(tokens_text(sub.push(self.tokens@[i as int]@)) =~= tokens_text(sub).push(
                    token_text(self.tokens@[i as int]@),
                ));
                assert(strings_view(parts@) =~= strings_view(before).push(text@));
            }
            i += 1;
        }
        join_strings(&parts, " ")
    }
}

/// Read a type expression.
///
/// One grammar for both syntaxes: `ArrayRef[HashRef[Str]]` is one string
/// whether it arrived quoted or as Perl.
pub fn parse(text: &str) -> (r: Result<Type, ParseError>)
    ensures
        match spec_parse(text@) {
            Ok(ty) => r is Ok && r->Ok_0@ == ty,
            Err(m) => r is Err && r->Err_0.message@ == m,
        },
{
    let tokens = match lex(text) {
        Ok(tokens) => tokens,
        Err(e) => return Err(e),
    };
    let mut parser = Parser { tokens, index: 0 };
    let ty = match parser.union() {
        Ok(ty) => ty,
        Err(e) => return Err(e),
    };
    if parser.index < parser.tokens.len() {
        let rest = parser.rest();
        return Err(message(wrapped("unexpected `", rest.as_str(), "`")));
    }
    Ok(ty)
}


// ===== Is it meant as a type? =====

/// No two bare names side by side outside any bracket: no type expression
/// has that, and English has little else.
pub open spec fn shaped_from(t: Seq<TokenV>, i: int, depth: nat) -> bool
    decreases t.len() - i,
{
    if i < 0 || i >= t.len() {
        true
    } else {
        match t[i] {
            TokenV::Open | TokenV::OpenParen => shaped_from(t, i + 1, depth + 1),
            TokenV::Close | TokenV::CloseParen => shaped_from(
                t,
                i + 1,
                if depth > 0 {
                    (depth - 1) as nat
                } else {
                    0
                },
            ),
            TokenV::Name(_) | TokenV::Text(_) => if depth == 0 && i > 0 && (t[i - 1] is Name
                || t[i - 1] is Text) {
                false
            } else {
                shaped_from(t, i + 1, depth)
            },
            _ => shaped_from(t, i + 1, depth),
        }
    }
}

/// Whether text is shaped like a type expression at all.
pub open spec fn spec_is_type_shaped(text: Seq<char>) -> bool {
    match spec_lex(text) {
        Err(_) => false,
        Ok(t) => t.len() > 0 && (t[0] is Name || t[0] is Text || t[0] is OpenParen) && shaped_from(
            t,
            0,
            0,
        ),
    }
}

/// Whether text is shaped like a type expression at all.
///
/// The point is to tell an annotation that was *meant* as a type and is wrong
/// from prose that happens to sit where one could go: `# Returns: modified
/// template` is a sentence, not a broken annotation.
pub fn is_type_shaped(text: &str) -> (r: bool)
    ensures
        r == spec_is_type_shaped(text@),
{
    let tokens = match lex(text) {
        Ok(tokens) => tokens,
        Err(_) => return false,
    };
    let ghost t = token_views(tokens@);
    if tokens.len() == 0 {
        return false;
    }
    match &tokens[0] {
        Token::Name(_) | Token::Text(_) | Token::OpenParen => {},
        _ => return false,
    }
    let mut depth: usize = 0;
    let mut index: usize = 0;
    while index < tokens.len()
        invariant
            index <= tokens@.len(),
            t == token_views(tokens@),
            spec_lex(text@) == Ok::<Seq<TokenV>, Seq<char>>(t),
            depth <= index,
            shaped_from(t, 0, 0) == shaped_from(t, index as int, depth as nat),
        decreases tokens.len() - index,
    {
        match &tokens[index] {
            Token::Open | Token::OpenParen => {
                depth += 1;
            },
            Token::Close | Token::CloseParen => {
                if depth > 0 {
                    depth -= 1;
                }
            },
            Token::Name(_) | Token::Text(_) => {
                if depth == 0 && index > 0 {
                    let previous = match &tokens[index - 1] {
                        Token::Name(_) | Token::Text(_) => true,
                        _ => false,
                    };
                    if previous {
                        assert(t[index as int] == tokens@[index as int]@);
                        assert(t[index - 1] == tokens@[index - 1]@);
                        assert(t[index as int] is Name || t[index as int] is Text);
                        assert(!shaped_from(t, index as int, depth as nat));
                        return false;
                    }
                }
            },
            _ => {},
        }
        index += 1;
    }
    true
}

// ===== Named types =====

/// What a library of named types says `name` is: the first declaration wins.
pub open spec fn spec_lookup(library: Seq<(Seq<char>, TypeV)>, name: Seq<char>) -> Option<TypeV>
    decreases library.len(),
{
    if library.len() == 0 {
        None
    } else if library[0].0 == name {
        Some(library[0].1)
    } else {
        spec_lookup(library.drop_first(), name)
    }
}

/// The type with every name the library declares replaced by what it
/// declared, `fuel` levels deep; `Unknown` when the fuel runs out.
pub open spec fn spec_substituted(ty: TypeV, library: Seq<(Seq<char>, TypeV)>, fuel: nat) -> TypeV
    decreases fuel, 0int,
{
    if fuel == 0 {
        TypeV::Unknown
    } else {
        let f = (fuel - 1) as nat;
        match ty {
            TypeV::InstanceOf(name) => match spec_lookup(library, name) {
                Some(found) => if found != ty {
                    spec_substituted(found, library, f)
                } else {
                    ty
                },
                None => ty,
            },
            TypeV::ScalarRef(inner) => TypeV::ScalarRef(
                Box::new(spec_substituted(*inner, library, f)),
            ),
            TypeV::ArrayRef(inner) => TypeV::ArrayRef(Box::new(spec_substituted(*inner, library, f))),
            TypeV::HashRef(inner) => TypeV::HashRef(Box::new(spec_substituted(*inner, library, f))),
            TypeV::Optional(inner) => TypeV::Optional(Box::new(spec_substituted(*inner, library, f))),
            TypeV::Tuple(members) => TypeV::Tuple(substituted_all(members, library, f)),
            TypeV::Union(members) => spec_union(substituted_all(members, library, f)),
            TypeV::MapOf(key, value) => TypeV::MapOf(
                Box::new(spec_substituted(*key, library, f)),
                Box::new(spec_substituted(*value, library, f)),
            ),
            TypeV::Dict { slots, slurpy } => TypeV::Dict {
                slots: substituted_slots(slots, library, f),
                slurpy: match slurpy {
                    Some(rest) => Some(Box::new(spec_substituted(*rest, library, f))),
                    None => None,
                },
            },
            other => other,
        }
    }
}

pub open spec fn substituted_all(
    members: Seq<TypeV>,
    library: Seq<(Seq<char>, TypeV)>,
    fuel: nat,
) -> Seq<TypeV>
    decreases fuel, members.len() + 1,
{
    if members.len() == 0 {
        Seq::empty()
    } else {
        substituted_all(members.drop_last(), library, fuel).push(
            spec_substituted(members.last(), library, fuel),
        )
    }
}

pub open spec fn substituted_slots(
    slots: Seq<(Seq<char>, TypeV)>,
    library: Seq<(Seq<char>, TypeV)>,
    fuel: nat,
) -> Seq<(Seq<char>, TypeV)>
    decreases fuel, slots.len() + 1,
{
    if slots.len() == 0 {
        Seq::empty()
    } else {
        substituted_slots(slots.drop_last(), library, fuel).push(
            (slots.last().0, spec_substituted(slots.last().1, library, fuel)),
        )
    }
}

/// How far a named type may stand for another before the chain is called a
/// cycle.
pub const SUBSTITUTION_DEPTH: u32 = 16;

/// The value of every entry of a library of named types.
pub open spec fn library_view(library: Seq<(String, Type)>) -> Seq<(Seq<char>, TypeV)> {
    library.map_values(|entry: (String, Type)| (entry.0@, entry.1@))
}

fn lookup(library: &Vec<(String, Type)>, name: &String) -> (r: Option<Type>)
    ensures
        match spec_lookup(library_view(library@), name@) {
            Some(ty) => r is Some && r->Some_0@ == ty,
            None => r is None,
        },
{
    let mut i: usize = 0;
    assert(library_view(library@).subrange(0, library@.len() as int) =~= library_view(library@));
    while i < library.len()
        invariant
            i <= library.len(),
            spec_lookup(library_view(library@), name@) == spec_lookup(
                library_view(library@).subrange(i as int, library@.len() as int),
                name@,
            ),
        decreases library.len() - i,
    {
        let ghost rest = library_view(library@).subrange(i as int, library@.len() as int);
        assert(rest.drop_first() =~= library_view(library@).subrange(i + 1, library@.len() as int));
        if str_eq(&library[i].0, name) {
            return Some(library[i].1.duplicate());
        }
        i += 1;
    }
    assert(library_view(library@).subrange(i as int, library@.len() as int) =~= Seq::<(Seq<char>, TypeV)>::empty());
    None
}

impl Type {
    /// The same type with every name a project's own type library declares
    /// replaced by what it declared. A lookup that answers with the name
    /// itself — `class_type 'DateTime'` — is a class after all and is left
    /// alone, which is also what stops a cycle; a longer cycle runs out of
    /// depth and is `Unknown`.
    pub fn substituted(&self, library: &Vec<(String, Type)>) -> (out: Type)
        ensures
            out@ == spec_substituted(self@, library_view(library@), SUBSTITUTION_DEPTH as nat),
    {
        self.substituted_within(library, SUBSTITUTION_DEPTH)
    }

    fn substituted_within(&self, library: &Vec<(String, Type)>, fuel: u32) -> (out: Type)
        ensures
            out@ == spec_substituted(self@, library_view(library@), fuel as nat),
        decreases fuel, 0int,
    {
        if fuel == 0 {
            return Type::Unknown;
        }
        let f = fuel - 1;
        match self {
            Type::InstanceOf(name) => match lookup(library, name) {
                Some(found) => {
                    if !found.equals(self) {
                        found.substituted_within(library, f)
                    } else {
                        self.duplicate()
                    }
                },
                None => self.duplicate(),
            },
            Type::ScalarRef(inner) => Type::ScalarRef(Box::new(inner.substituted_within(library, f))),
            Type::ArrayRef(inner) => Type::ArrayRef(Box::new(inner.substituted_within(library, f))),
            Type::HashRef(inner) => Type::HashRef(Box::new(inner.substituted_within(library, f))),
            Type::Optional(inner) => Type::Optional(Box::new(inner.substituted_within(library, f))),
            Type::Tuple(members) => Type::Tuple(substitute_all(members, library, f)),
            Type::Union(members) => Type::union(substitute_all(members, library, f)),
            Type::MapOf(key, value) => Type::MapOf(
                Box::new(key.substituted_within(library, f)),
                Box::new(value.substituted_within(library, f)),
            ),
            Type::Dict { slots, slurpy } => {
                let mut out: Vec<(String, Type)> = Vec::new();
                let mut i: usize = 0;
                proof {
                    lemma_slot_views(slots@);
                }
                while i < slots.len()
                    invariant
                        i <= slots.len(),
                        fuel == f + 1,
                        slot_views(slots@).len() == slots@.len(),
                        forall|j: int|
                            0 <= j < slots@.len() ==> #[trigger] slot_views(slots@)[j] == (
                            slots@[j].0@,
                            slots@[j].1@,
                        ),
                        slot_views(out@) == substituted_slots(
                            slot_views(slots@).subrange(0, i as int),
                            library_view(library@),
                            f as nat,
                        ),
                    decreases slots.len() - i,
                {
                    proof {
                        assert(slot_views(slots@).subrange(0, i + 1).drop_last() =~= slot_views(
                            slots@,
                        ).subrange(0, i as int));
                        lemma_slot_views(out@);
                    }
                    let ty = slots[i].1.substituted_within(library, f);
                    let ghost before = out@;
                    out.push((slots[i].0.clone(), ty));
                    proof {
                        lemma_slot_views(out@);
                        assert(slot_views(out@) =~= slot_views(before).push((slots@[i as int].0@, ty@)));
                    }
                    i += 1;
                }
                assert(slot_views(slots@).subrange(0, slots.len() as int) =~= slot_views(slots@));
                let rest = match slurpy {
                    Some(rest) => Some(Box::new(rest.substituted_within(library, f))),
                    None => None,
                };
                Type::Dict { slots: out, slurpy: rest }
            },
            other => other.duplicate(),
        }
    }
}

fn substitute_all(members: &Vec<Type>, library: &Vec<(String, Type)>, fuel: u32) -> (out: Vec<Type>)
    ensures
        views(out@) == substituted_all(views(members@), library_view(library@), fuel as nat),
    decreases fuel, members@.len() + 1,
{
    proof {
        lemma_views(members@);
    }
    let mut out: Vec<Type> = Vec::new();
    let mut i: usize = 0;
    while i < members.len()
        invariant
            i <= members.len(),
            views(members@).len() == members@.len(),
            forall|j: int| 0 <= j < members@.len() ==> #[trigger] views(members@)[j] == members@[j]@,
            views(out@) == substituted_all(
                views(members@).subrange(0, i as int),
                library_view(library@),
                fuel as nat,
            ),
        decreases members.len() - i,
    {
        proof {
            assert(views(members@).subrange(0, i + 1).drop_last() =~= views(members@).subrange(
                0,
                i as int,
            ));
        }
        let ty = members[i].substituted_within(library, fuel);
        proof {
            lemma_views_push(out@, ty);
        }
        out.push(ty);
        i += 1;
    }
    assert(views(members@).subrange(0, members.len() as int) =~= views(members@));
    out
}


// ===== What holds of every union =====

/// `Unknown` swallows a union: one `Unknown` member makes the whole union
/// `Unknown`, whatever else it holds.
pub proof fn law_unknown_swallows_a_union(members: Seq<TypeV>, k: int)
    requires
        0 <= k < members.len(),
        members[k] == TypeV::Unknown,
    ensures
        spec_union(members) == TypeV::Unknown,
{
    lemma_union_flat_unknown(members, k);
}

proof fn lemma_union_flat_unknown(members: Seq<TypeV>, k: int)
    requires
        0 <= k < members.len(),
        members[k] == TypeV::Unknown,
    ensures
        union_flat(members) is None,
    decreases members.len(),
{
    if k < members.len() - 1 {
        lemma_union_flat_unknown(members.drop_last(), k);
    }
}

/// `Maybe[Unknown]` is `Unknown`: nothing is said about what was never
/// analysed.
pub proof fn law_maybe_of_unknown()
    ensures
        spec_maybe(TypeV::Unknown) == TypeV::Unknown,
{
}

/// Whether a type is one a union keeps as a member of its own: not a union
/// to be flattened, not the `Unknown` that swallows it.
pub open spec fn is_plain_member(ty: TypeV) -> bool {
    !(ty is Union) && !(ty is Unknown)
}

/// The flattening of one member a union keeps is that member alone.
proof fn lemma_union_flat_one(ty: TypeV)
    requires
        is_plain_member(ty),
    ensures
        union_flat(seq![ty]) == Some(seq![ty]),
{
    let empty = Seq::<TypeV>::empty();
    assert(seq![ty].drop_last() =~= empty);
    assert(union_flat(empty) == Some(empty));
    assert(seq![ty].last() == ty);
    assert(empty.push(ty) =~= seq![ty]);
    if let TypeV::Enum(values) = ty {
        assert(first_enum_from(empty, 0) is None);
        assert(with_enum(empty, values) == empty.push(TypeV::Enum(values)));
    } else {
        assert(!empty.contains(ty));
        assert(push_new(empty, ty) == empty.push(ty));
    }
}

/// A union of one member is that member.
pub proof fn law_union_of_one(ty: TypeV)
    requires
        is_plain_member(ty),
    ensures
        spec_union(seq![ty]) == ty,
{
    lemma_union_flat_one(ty);
}

/// `push_all_new` of a sequence onto itself changes nothing when it has no
/// repeats.
proof fn lemma_push_all_new_contained<A>(flat: Seq<A>, more: Seq<A>)
    requires
        forall|i: int| 0 <= i < more.len() ==> flat.contains(#[trigger] more[i]),
    ensures
        push_all_new(flat, more) == flat,
    decreases more.len(),
{
    if more.len() > 0 {
        lemma_push_all_new_contained(flat, more.drop_last());
        assert(flat.contains(more[more.len() - 1]));
    }
}

/// A member written twice is one member: `Str | Str` is `Str`.
pub proof fn law_union_deduplicates(ty: TypeV)
    requires
        is_plain_member(ty),
    ensures
        spec_union(seq![ty, ty]) == ty,
{
    let s = seq![ty, ty];
    assert(s.drop_last() =~= seq![ty]);
    assert(seq![ty].drop_last() =~= Seq::<TypeV>::empty());
    let one = seq![ty];
    lemma_union_flat_one(ty);
    assert(s.last() == ty);
    if let TypeV::Enum(values) = ty {
        assert(first_enum_from(seq![TypeV::Enum(values)], 0) == Some(0int));
        assert forall|i: int| 0 <= i < values.len() implies values.contains(#[trigger] values[i]) by {
        }
        lemma_push_all_new_contained(values, values);
        assert(with_enum(seq![TypeV::Enum(values)], values) =~= seq![TypeV::Enum(values)]);
    } else {
        assert(seq![ty].contains(ty)) by {
            assert(seq![ty][0] == ty);
        }
    }
}

/// `Maybe[T]` may be `undef`, whatever `T` is, unless `T` is `Unknown`.
pub proof fn law_maybe_may_be_undef(ty: TypeV)
    requires
        ty != TypeV::Unknown,
    ensures
        spec_is_maybe(spec_maybe(ty)),
{
    let s = seq![ty, TypeV::Undef];
    assert(s.drop_last() =~= seq![ty]);
    assert(seq![ty].drop_last() =~= Seq::<TypeV>::empty());
    assert(s.last() == TypeV::Undef);
    assert(seq![ty].last() == ty);
    let empty = Seq::<TypeV>::empty();
    assert(union_flat(empty) == Some(empty));
    assert(union_flat(seq![ty]) == union_step(empty, ty));
    assert(union_flat(seq![ty]) is Some);
    let flat = union_flat(seq![ty])->Some_0;
    let all = push_new(flat, TypeV::Undef);
    assert(union_flat(s) == Some(all));
    assert(all.contains(TypeV::Undef)) by {
        if !flat.contains(TypeV::Undef) {
            assert(all[all.len() - 1] == TypeV::Undef);
        }
    }
    let k = choose|k: int| 0 <= k < all.len() && all[k] == TypeV::Undef;
    if all.len() == 1 {
        assert(all[0] == TypeV::Undef);
    } else {
        lemma_any_maybe_at(all, k);
    }
}

/// What a `defined` check leaves of `Maybe[T]` is `T`, for a `T` a union
/// keeps as a member of its own and that is not `Undef` itself.
pub proof fn law_defined_undoes_maybe(ty: TypeV)
    requires
        is_plain_member(ty),
        ty != TypeV::Undef,
    ensures
        spec_without_undef(spec_maybe(ty)) == ty,
{
    let s = seq![ty, TypeV::Undef];
    assert(s.drop_last() =~= seq![ty]);
    assert(seq![ty].drop_last() =~= Seq::<TypeV>::empty());
    lemma_union_flat_one(ty);
    assert(s.last() == TypeV::Undef);
    assert(!seq![ty].contains(TypeV::Undef)) by {
        if seq![ty].contains(TypeV::Undef) {
            let k = choose|k: int| 0 <= k < 1 && seq![ty][k] == TypeV::Undef;
        }
    }
    let pair = seq![ty, TypeV::Undef];
    assert(union_flat(s) == Some(pair)) by {
        assert(seq![ty].push(TypeV::Undef) =~= pair);
    }
    assert(spec_maybe(ty) == TypeV::Union(pair));
    assert(pair.drop_last() =~= seq![ty]);
    assert(without(seq![ty], TypeV::Undef) == seq![ty]) by {
        let empty = Seq::<TypeV>::empty();
        assert(seq![ty].drop_last() =~= empty);
        assert(seq![ty].last() == ty);
        assert(without(empty, TypeV::Undef) == empty);
        assert(empty.push(ty) =~= seq![ty]);
    }
    assert(pair.last() == TypeV::Undef);
    assert(without(pair, TypeV::Undef) == seq![ty]);
    law_union_of_one(ty);
}


proof fn lemma_scalarref_is_not_simple()
    ensures
        simple_constructor("ScalarRef"@) is None,
        "ScalarRef"@ != "Dict"@ && "ScalarRef"@ != "Map"@ && "ScalarRef"@ != "Tuple"@,
        "ScalarRef"@ != "ScalarRef"@ || "ScalarRef"@ == "ScalarRef"@,

{
    reveal_strlit("Any");
    reveal_strlit("Bool");
    reveal_strlit("CodeLike");
    reveal_strlit("CodeRef");
    reveal_strlit("Defined");
    reveal_strlit("FileHandle");
    reveal_strlit("GlobRef");
    reveal_strlit("Int");
    reveal_strlit("IntRange");
    reveal_strlit("Item");
    reveal_strlit("LaxNum");
    reveal_strlit("LowerCaseSimpleStr");
    reveal_strlit("LowerCaseStr");
    reveal_strlit("NegativeInt");
    reveal_strlit("NegativeNum");
    reveal_strlit("NegativeOrZeroInt");
    reveal_strlit("NegativeOrZeroNum");
    reveal_strlit("NonEmptySimpleStr");
    reveal_strlit("NonEmptyStr");
    reveal_strlit("Num");
    reveal_strlit("NumRange");
    reveal_strlit("Object");
    reveal_strlit("Password");
    reveal_strlit("PositiveInt");
    reveal_strlit("PositiveNum");
    reveal_strlit("PositiveOrZeroInt");
    reveal_strlit("PositiveOrZeroNum");
    reveal_strlit("Ref");
    reveal_strlit("RegexpRef");
    reveal_strlit("RoleName");
    reveal_strlit("SimpleStr");
    reveal_strlit("SingleDigit");
    reveal_strlit("Str");
    reveal_strlit("StrMatch");
    reveal_strlit("StrictNum");
    reveal_strlit("StrongPassword");
    reveal_strlit("Undef");
    reveal_strlit("UpperCaseSimpleStr");
    reveal_strlit("UpperCaseStr");
    reveal_strlit("Value");
    reveal_strlit("Dict");
    reveal_strlit("Map");
    reveal_strlit("Tuple");
    reveal_strlit("ArrayRef");
    reveal_strlit("ArrayLike");
    reveal_strlit("ScalarRef");
    assert("ScalarRef"@.len() != "Any"@.len() || "ScalarRef"@[0] != "Any"@[0] || "ScalarRef"@[1] != "Any"@[1] || "ScalarRef"@[2] != "Any"@[2] || "ScalarRef"@[3] != "Any"@[3] || "ScalarRef"@[4] != "Any"@[4] || "ScalarRef"@[5] != "Any"@[5]);
    assert("ScalarRef"@.len() != "Bool"@.len() || "ScalarRef"@[0] != "Bool"@[0] || "ScalarRef"@[1] != "Bool"@[1] || "ScalarRef"@[2] != "Bool"@[2] || "ScalarRef"@[3] != "Bool"@[3] || "ScalarRef"@[4] != "Bool"@[4] || "ScalarRef"@[5] != "Bool"@[5]);
    assert("ScalarRef"@.len() != "CodeLike"@.len() || "ScalarRef"@[0] != "CodeLike"@[0] || "ScalarRef"@[1] != "CodeLike"@[1] || "ScalarRef"@[2] != "CodeLike"@[2] || "ScalarRef"@[3] != "CodeLike"@[3] || "ScalarRef"@[4] != "CodeLike"@[4] || "ScalarRef"@[5] != "CodeLike"@[5]);
    assert("ScalarRef"@.len() != "CodeRef"@.len() || "ScalarRef"@[0] != "CodeRef"@[0] || "ScalarRef"@[1] != "CodeRef"@[1] || "ScalarRef"@[2] != "CodeRef"@[2] || "ScalarRef"@[3] != "CodeRef"@[3] || "ScalarRef"@[4] != "CodeRef"@[4] || "ScalarRef"@[5] != "CodeRef"@[5]);
    assert("ScalarRef"@.len() != "Defined"@.len() || "ScalarRef"@[0] != "Defined"@[0] || "ScalarRef"@[1] != "Defined"@[1] || "ScalarRef"@[2] != "Defined"@[2] || "ScalarRef"@[3] != "Defined"@[3] || "ScalarRef"@[4] != "Defined"@[4] || "ScalarRef"@[5] != "Defined"@[5]);
    assert("ScalarRef"@.len() != "FileHandle"@.len() || "ScalarRef"@[0] != "FileHandle"@[0] || "ScalarRef"@[1] != "FileHandle"@[1] || "ScalarRef"@[2] != "FileHandle"@[2] || "ScalarRef"@[3] != "FileHandle"@[3] || "ScalarRef"@[4] != "FileHandle"@[4] || "ScalarRef"@[5] != "FileHandle"@[5]);
    assert("ScalarRef"@.len() != "GlobRef"@.len() || "ScalarRef"@[0] != "GlobRef"@[0] || "ScalarRef"@[1] != "GlobRef"@[1] || "ScalarRef"@[2] != "GlobRef"@[2] || "ScalarRef"@[3] != "GlobRef"@[3] || "ScalarRef"@[4] != "GlobRef"@[4] || "ScalarRef"@[5] != "GlobRef"@[5]);
    assert("ScalarRef"@.len() != "Int"@.len() || "ScalarRef"@[0] != "Int"@[0] || "ScalarRef"@[1] != "Int"@[1] || "ScalarRef"@[2] != "Int"@[2] || "ScalarRef"@[3] != "Int"@[3] || "ScalarRef"@[4] != "Int"@[4] || "ScalarRef"@[5] != "Int"@[5]);
    assert("ScalarRef"@.len() != "IntRange"@.len() || "ScalarRef"@[0] != "IntRange"@[0] || "ScalarRef"@[1] != "IntRange"@[1] || "ScalarRef"@[2] != "IntRange"@[2] || "ScalarRef"@[3] != "IntRange"@[3] || "ScalarRef"@[4] != "IntRange"@[4] || "ScalarRef"@[5] != "IntRange"@[5]);
    assert("ScalarRef"@.len() != "Item"@.len() || "ScalarRef"@[0] != "Item"@[0] || "ScalarRef"@[1] != "Item"@[1] || "ScalarRef"@[2] != "Item"@[2] || "ScalarRef"@[3] != "Item"@[3] || "ScalarRef"@[4] != "Item"@[4] || "ScalarRef"@[5] != "Item"@[5]);
    assert("ScalarRef"@.len() != "LaxNum"@.len() || "ScalarRef"@[0] != "LaxNum"@[0] || "ScalarRef"@[1] != "LaxNum"@[1] || "ScalarRef"@[2] != "LaxNum"@[2] || "ScalarRef"@[3] != "LaxNum"@[3] || "ScalarRef"@[4] != "LaxNum"@[4] || "ScalarRef"@[5] != "LaxNum"@[5]);
    assert("ScalarRef"@.len() != "LowerCaseSimpleStr"@.len() || "ScalarRef"@[0] != "LowerCaseSimpleStr"@[0] || "ScalarRef"@[1] != "LowerCaseSimpleStr"@[1] || "ScalarRef"@[2] != "LowerCaseSimpleStr"@[2] || "ScalarRef"@[3] != "LowerCaseSimpleStr"@[3] || "ScalarRef"@[4] != "LowerCaseSimpleStr"@[4] || "ScalarRef"@[5] != "LowerCaseSimpleStr"@[5]);
    assert("ScalarRef"@.len() != "LowerCaseStr"@.len() || "ScalarRef"@[0] != "LowerCaseStr"@[0] || "ScalarRef"@[1] != "LowerCaseStr"@[1] || "ScalarRef"@[2] != "LowerCaseStr"@[2] || "ScalarRef"@[3] != "LowerCaseStr"@[3] || "ScalarRef"@[4] != "LowerCaseStr"@[4] || "ScalarRef"@[5] != "LowerCaseStr"@[5]);
    assert("ScalarRef"@.len() != "NegativeInt"@.len() || "ScalarRef"@[0] != "NegativeInt"@[0] || "ScalarRef"@[1] != "NegativeInt"@[1] || "ScalarRef"@[2] != "NegativeInt"@[2] || "ScalarRef"@[3] != "NegativeInt"@[3] || "ScalarRef"@[4] != "NegativeInt"@[4] || "ScalarRef"@[5] != "NegativeInt"@[5]);
    assert("ScalarRef"@.len() != "NegativeNum"@.len() || "ScalarRef"@[0] != "NegativeNum"@[0] || "ScalarRef"@[1] != "NegativeNum"@[1] || "ScalarRef"@[2] != "NegativeNum"@[2] || "ScalarRef"@[3] != "NegativeNum"@[3] || "ScalarRef"@[4] != "NegativeNum"@[4] || "ScalarRef"@[5] != "NegativeNum"@[5]);
    assert("ScalarRef"@.len() != "NegativeOrZeroInt"@.len() || "ScalarRef"@[0] != "NegativeOrZeroInt"@[0] || "ScalarRef"@[1] != "NegativeOrZeroInt"@[1] || "ScalarRef"@[2] != "NegativeOrZeroInt"@[2] || "ScalarRef"@[3] != "NegativeOrZeroInt"@[3] || "ScalarRef"@[4] != "NegativeOrZeroInt"@[4] || "ScalarRef"@[5] != "NegativeOrZeroInt"@[5]);
    assert("ScalarRef"@.len() != "NegativeOrZeroNum"@.len() || "ScalarRef"@[0] != "NegativeOrZeroNum"@[0] || "ScalarRef"@[1] != "NegativeOrZeroNum"@[1] || "ScalarRef"@[2] != "NegativeOrZeroNum"@[2] || "ScalarRef"@[3] != "NegativeOrZeroNum"@[3] || "ScalarRef"@[4] != "NegativeOrZeroNum"@[4] || "ScalarRef"@[5] != "NegativeOrZeroNum"@[5]);
    assert("ScalarRef"@.len() != "NonEmptySimpleStr"@.len() || "ScalarRef"@[0] != "NonEmptySimpleStr"@[0] || "ScalarRef"@[1] != "NonEmptySimpleStr"@[1] || "ScalarRef"@[2] != "NonEmptySimpleStr"@[2] || "ScalarRef"@[3] != "NonEmptySimpleStr"@[3] || "ScalarRef"@[4] != "NonEmptySimpleStr"@[4] || "ScalarRef"@[5] != "NonEmptySimpleStr"@[5]);
    assert("ScalarRef"@.len() != "NonEmptyStr"@.len() || "ScalarRef"@[0] != "NonEmptyStr"@[0] || "ScalarRef"@[1] != "NonEmptyStr"@[1] || "ScalarRef"@[2] != "NonEmptyStr"@[2] || "ScalarRef"@[3] != "NonEmptyStr"@[3] || "ScalarRef"@[4] != "NonEmptyStr"@[4] || "ScalarRef"@[5] != "NonEmptyStr"@[5]);
    assert("ScalarRef"@.len() != "Num"@.len() || "ScalarRef"@[0] != "Num"@[0] || "ScalarRef"@[1] != "Num"@[1] || "ScalarRef"@[2] != "Num"@[2] || "ScalarRef"@[3] != "Num"@[3] || "ScalarRef"@[4] != "Num"@[4] || "ScalarRef"@[5] != "Num"@[5]);
    assert("ScalarRef"@.len() != "NumRange"@.len() || "ScalarRef"@[0] != "NumRange"@[0] || "ScalarRef"@[1] != "NumRange"@[1] || "ScalarRef"@[2] != "NumRange"@[2] || "ScalarRef"@[3] != "NumRange"@[3] || "ScalarRef"@[4] != "NumRange"@[4] || "ScalarRef"@[5] != "NumRange"@[5]);
    assert("ScalarRef"@.len() != "Object"@.len() || "ScalarRef"@[0] != "Object"@[0] || "ScalarRef"@[1] != "Object"@[1] || "ScalarRef"@[2] != "Object"@[2] || "ScalarRef"@[3] != "Object"@[3] || "ScalarRef"@[4] != "Object"@[4] || "ScalarRef"@[5] != "Object"@[5]);
    assert("ScalarRef"@.len() != "Password"@.len() || "ScalarRef"@[0] != "Password"@[0] || "ScalarRef"@[1] != "Password"@[1] || "ScalarRef"@[2] != "Password"@[2] || "ScalarRef"@[3] != "Password"@[3] || "ScalarRef"@[4] != "Password"@[4] || "ScalarRef"@[5] != "Password"@[5]);
    assert("ScalarRef"@.len() != "PositiveInt"@.len() || "ScalarRef"@[0] != "PositiveInt"@[0] || "ScalarRef"@[1] != "PositiveInt"@[1] || "ScalarRef"@[2] != "PositiveInt"@[2] || "ScalarRef"@[3] != "PositiveInt"@[3] || "ScalarRef"@[4] != "PositiveInt"@[4] || "ScalarRef"@[5] != "PositiveInt"@[5]);
    assert("ScalarRef"@.len() != "PositiveNum"@.len() || "ScalarRef"@[0] != "PositiveNum"@[0] || "ScalarRef"@[1] != "PositiveNum"@[1] || "ScalarRef"@[2] != "PositiveNum"@[2] || "ScalarRef"@[3] != "PositiveNum"@[3] || "ScalarRef"@[4] != "PositiveNum"@[4] || "ScalarRef"@[5] != "PositiveNum"@[5]);
    assert("ScalarRef"@.len() != "PositiveOrZeroInt"@.len() || "ScalarRef"@[0] != "PositiveOrZeroInt"@[0] || "ScalarRef"@[1] != "PositiveOrZeroInt"@[1] || "ScalarRef"@[2] != "PositiveOrZeroInt"@[2] || "ScalarRef"@[3] != "PositiveOrZeroInt"@[3] || "ScalarRef"@[4] != "PositiveOrZeroInt"@[4] || "ScalarRef"@[5] != "PositiveOrZeroInt"@[5]);
    assert("ScalarRef"@.len() != "PositiveOrZeroNum"@.len() || "ScalarRef"@[0] != "PositiveOrZeroNum"@[0] || "ScalarRef"@[1] != "PositiveOrZeroNum"@[1] || "ScalarRef"@[2] != "PositiveOrZeroNum"@[2] || "ScalarRef"@[3] != "PositiveOrZeroNum"@[3] || "ScalarRef"@[4] != "PositiveOrZeroNum"@[4] || "ScalarRef"@[5] != "PositiveOrZeroNum"@[5]);
    assert("ScalarRef"@.len() != "Ref"@.len() || "ScalarRef"@[0] != "Ref"@[0] || "ScalarRef"@[1] != "Ref"@[1] || "ScalarRef"@[2] != "Ref"@[2] || "ScalarRef"@[3] != "Ref"@[3] || "ScalarRef"@[4] != "Ref"@[4] || "ScalarRef"@[5] != "Ref"@[5]);
    assert("ScalarRef"@.len() != "RegexpRef"@.len() || "ScalarRef"@[0] != "RegexpRef"@[0] || "ScalarRef"@[1] != "RegexpRef"@[1] || "ScalarRef"@[2] != "RegexpRef"@[2] || "ScalarRef"@[3] != "RegexpRef"@[3] || "ScalarRef"@[4] != "RegexpRef"@[4] || "ScalarRef"@[5] != "RegexpRef"@[5]);
    assert("ScalarRef"@.len() != "RoleName"@.len() || "ScalarRef"@[0] != "RoleName"@[0] || "ScalarRef"@[1] != "RoleName"@[1] || "ScalarRef"@[2] != "RoleName"@[2] || "ScalarRef"@[3] != "RoleName"@[3] || "ScalarRef"@[4] != "RoleName"@[4] || "ScalarRef"@[5] != "RoleName"@[5]);
    assert("ScalarRef"@.len() != "SimpleStr"@.len() || "ScalarRef"@[0] != "SimpleStr"@[0] || "ScalarRef"@[1] != "SimpleStr"@[1] || "ScalarRef"@[2] != "SimpleStr"@[2] || "ScalarRef"@[3] != "SimpleStr"@[3] || "ScalarRef"@[4] != "SimpleStr"@[4] || "ScalarRef"@[5] != "SimpleStr"@[5]);
    assert("ScalarRef"@.len() != "SingleDigit"@.len() || "ScalarRef"@[0] != "SingleDigit"@[0] || "ScalarRef"@[1] != "SingleDigit"@[1] || "ScalarRef"@[2] != "SingleDigit"@[2] || "ScalarRef"@[3] != "SingleDigit"@[3] || "ScalarRef"@[4] != "SingleDigit"@[4] || "ScalarRef"@[5] != "SingleDigit"@[5]);
    assert("ScalarRef"@.len() != "Str"@.len() || "ScalarRef"@[0] != "Str"@[0] || "ScalarRef"@[1] != "Str"@[1] || "ScalarRef"@[2] != "Str"@[2] || "ScalarRef"@[3] != "Str"@[3] || "ScalarRef"@[4] != "Str"@[4] || "ScalarRef"@[5] != "Str"@[5]);
    assert("ScalarRef"@.len() != "StrMatch"@.len() || "ScalarRef"@[0] != "StrMatch"@[0] || "ScalarRef"@[1] != "StrMatch"@[1] || "ScalarRef"@[2] != "StrMatch"@[2] || "ScalarRef"@[3] != "StrMatch"@[3] || "ScalarRef"@[4] != "StrMatch"@[4] || "ScalarRef"@[5] != "StrMatch"@[5]);
    assert("ScalarRef"@.len() != "StrictNum"@.len() || "ScalarRef"@[0] != "StrictNum"@[0] || "ScalarRef"@[1] != "StrictNum"@[1] || "ScalarRef"@[2] != "StrictNum"@[2] || "ScalarRef"@[3] != "StrictNum"@[3] || "ScalarRef"@[4] != "StrictNum"@[4] || "ScalarRef"@[5] != "StrictNum"@[5]);
    assert("ScalarRef"@.len() != "StrongPassword"@.len() || "ScalarRef"@[0] != "StrongPassword"@[0] || "ScalarRef"@[1] != "StrongPassword"@[1] || "ScalarRef"@[2] != "StrongPassword"@[2] || "ScalarRef"@[3] != "StrongPassword"@[3] || "ScalarRef"@[4] != "StrongPassword"@[4] || "ScalarRef"@[5] != "StrongPassword"@[5]);
    assert("ScalarRef"@.len() != "Undef"@.len() || "ScalarRef"@[0] != "Undef"@[0] || "ScalarRef"@[1] != "Undef"@[1] || "ScalarRef"@[2] != "Undef"@[2] || "ScalarRef"@[3] != "Undef"@[3] || "ScalarRef"@[4] != "Undef"@[4] || "ScalarRef"@[5] != "Undef"@[5]);
    assert("ScalarRef"@.len() != "UpperCaseSimpleStr"@.len() || "ScalarRef"@[0] != "UpperCaseSimpleStr"@[0] || "ScalarRef"@[1] != "UpperCaseSimpleStr"@[1] || "ScalarRef"@[2] != "UpperCaseSimpleStr"@[2] || "ScalarRef"@[3] != "UpperCaseSimpleStr"@[3] || "ScalarRef"@[4] != "UpperCaseSimpleStr"@[4] || "ScalarRef"@[5] != "UpperCaseSimpleStr"@[5]);
    assert("ScalarRef"@.len() != "UpperCaseStr"@.len() || "ScalarRef"@[0] != "UpperCaseStr"@[0] || "ScalarRef"@[1] != "UpperCaseStr"@[1] || "ScalarRef"@[2] != "UpperCaseStr"@[2] || "ScalarRef"@[3] != "UpperCaseStr"@[3] || "ScalarRef"@[4] != "UpperCaseStr"@[4] || "ScalarRef"@[5] != "UpperCaseStr"@[5]);
    assert("ScalarRef"@.len() != "Value"@.len() || "ScalarRef"@[0] != "Value"@[0] || "ScalarRef"@[1] != "Value"@[1] || "ScalarRef"@[2] != "Value"@[2] || "ScalarRef"@[3] != "Value"@[3] || "ScalarRef"@[4] != "Value"@[4] || "ScalarRef"@[5] != "Value"@[5]);
    assert("ScalarRef"@.len() != "Dict"@.len() || "ScalarRef"@[0] != "Dict"@[0] || "ScalarRef"@[1] != "Dict"@[1] || "ScalarRef"@[2] != "Dict"@[2] || "ScalarRef"@[3] != "Dict"@[3] || "ScalarRef"@[4] != "Dict"@[4] || "ScalarRef"@[5] != "Dict"@[5]);
    assert("ScalarRef"@.len() != "Map"@.len() || "ScalarRef"@[0] != "Map"@[0] || "ScalarRef"@[1] != "Map"@[1] || "ScalarRef"@[2] != "Map"@[2] || "ScalarRef"@[3] != "Map"@[3] || "ScalarRef"@[4] != "Map"@[4] || "ScalarRef"@[5] != "Map"@[5]);
    assert("ScalarRef"@.len() != "Tuple"@.len() || "ScalarRef"@[0] != "Tuple"@[0] || "ScalarRef"@[1] != "Tuple"@[1] || "ScalarRef"@[2] != "Tuple"@[2] || "ScalarRef"@[3] != "Tuple"@[3] || "ScalarRef"@[4] != "Tuple"@[4] || "ScalarRef"@[5] != "Tuple"@[5]);
    assert("ScalarRef"@.len() != "ArrayRef"@.len() || "ScalarRef"@[0] != "ArrayRef"@[0] || "ScalarRef"@[1] != "ArrayRef"@[1] || "ScalarRef"@[2] != "ArrayRef"@[2] || "ScalarRef"@[3] != "ArrayRef"@[3] || "ScalarRef"@[4] != "ArrayRef"@[4] || "ScalarRef"@[5] != "ArrayRef"@[5]);
    assert("ScalarRef"@.len() != "ArrayLike"@.len() || "ScalarRef"@[0] != "ArrayLike"@[0] || "ScalarRef"@[1] != "ArrayLike"@[1] || "ScalarRef"@[2] != "ArrayLike"@[2] || "ScalarRef"@[3] != "ArrayLike"@[3] || "ScalarRef"@[4] != "ArrayLike"@[4] || "ScalarRef"@[5] != "ArrayLike"@[5]);
}

proof fn lemma_arrayref_is_not_simple()
    ensures
        simple_constructor("ArrayRef"@) is None,
        "ArrayRef"@ != "Dict"@ && "ArrayRef"@ != "Map"@ && "ArrayRef"@ != "Tuple"@,
        "ArrayRef"@ != "ScalarRef"@ || "ArrayRef"@ == "ScalarRef"@,
        "ArrayRef"@ != "ScalarRef"@,

{
    reveal_strlit("Any");
    reveal_strlit("Bool");
    reveal_strlit("CodeLike");
    reveal_strlit("CodeRef");
    reveal_strlit("Defined");
    reveal_strlit("FileHandle");
    reveal_strlit("GlobRef");
    reveal_strlit("Int");
    reveal_strlit("IntRange");
    reveal_strlit("Item");
    reveal_strlit("LaxNum");
    reveal_strlit("LowerCaseSimpleStr");
    reveal_strlit("LowerCaseStr");
    reveal_strlit("NegativeInt");
    reveal_strlit("NegativeNum");
    reveal_strlit("NegativeOrZeroInt");
    reveal_strlit("NegativeOrZeroNum");
    reveal_strlit("NonEmptySimpleStr");
    reveal_strlit("NonEmptyStr");
    reveal_strlit("Num");
    reveal_strlit("NumRange");
    reveal_strlit("Object");
    reveal_strlit("Password");
    reveal_strlit("PositiveInt");
    reveal_strlit("PositiveNum");
    reveal_strlit("PositiveOrZeroInt");
    reveal_strlit("PositiveOrZeroNum");
    reveal_strlit("Ref");
    reveal_strlit("RegexpRef");
    reveal_strlit("RoleName");
    reveal_strlit("SimpleStr");
    reveal_strlit("SingleDigit");
    reveal_strlit("Str");
    reveal_strlit("StrMatch");
    reveal_strlit("StrictNum");
    reveal_strlit("StrongPassword");
    reveal_strlit("Undef");
    reveal_strlit("UpperCaseSimpleStr");
    reveal_strlit("UpperCaseStr");
    reveal_strlit("Value");
    reveal_strlit("Dict");
    reveal_strlit("Map");
    reveal_strlit("Tuple");
    reveal_strlit("ScalarRef");
    reveal_strlit("ArrayLike");
    reveal_strlit("ArrayRef");
    assert("ArrayRef"@.len() != "Any"@.len() || "ArrayRef"@[0] != "Any"@[0] || "ArrayRef"@[1] != "Any"@[1] || "ArrayRef"@[2] != "Any"@[2] || "ArrayRef"@[3] != "Any"@[3] || "ArrayRef"@[4] != "Any"@[4] || "ArrayRef"@[5] != "Any"@[5]);
    assert("ArrayRef"@.len() != "Bool"@.len() || "ArrayRef"@[0] != "Bool"@[0] || "ArrayRef"@[1] != "Bool"@[1] || "ArrayRef"@[2] != "Bool"@[2] || "ArrayRef"@[3] != "Bool"@[3] || "ArrayRef"@[4] != "Bool"@[4] || "ArrayRef"@[5] != "Bool"@[5]);
    assert("ArrayRef"@.len() != "CodeLike"@.len() || "ArrayRef"@[0] != "CodeLike"@[0] || "ArrayRef"@[1] != "CodeLike"@[1] || "ArrayRef"@[2] != "CodeLike"@[2] || "ArrayRef"@[3] != "CodeLike"@[3] || "ArrayRef"@[4] != "CodeLike"@[4] || "ArrayRef"@[5] != "CodeLike"@[5]);
    assert("ArrayRef"@.len() != "CodeRef"@.len() || "ArrayRef"@[0] != "CodeRef"@[0] || "ArrayRef"@[1] != "CodeRef"@[1] || "ArrayRef"@[2] != "CodeRef"@[2] || "ArrayRef"@[3] != "CodeRef"@[3] || "ArrayRef"@[4] != "CodeRef"@[4] || "ArrayRef"@[5] != "CodeRef"@[5]);
    assert("ArrayRef"@.len() != "Defined"@.len() || "ArrayRef"@[0] != "Defined"@[0] || "ArrayRef"@[1] != "Defined"@[1] || "ArrayRef"@[2] != "Defined"@[2] || "ArrayRef"@[3] != "Defined"@[3] || "ArrayRef"@[4] != "Defined"@[4] || "ArrayRef"@[5] != "Defined"@[5]);
    assert("ArrayRef"@.len() != "FileHandle"@.len() || "ArrayRef"@[0] != "FileHandle"@[0] || "ArrayRef"@[1] != "FileHandle"@[1] || "ArrayRef"@[2] != "FileHandle"@[2] || "ArrayRef"@[3] != "FileHandle"@[3] || "ArrayRef"@[4] != "FileHandle"@[4] || "ArrayRef"@[5] != "FileHandle"@[5]);
    assert("ArrayRef"@.len() != "GlobRef"@.len() || "ArrayRef"@[0] != "GlobRef"@[0] || "ArrayRef"@[1] != "GlobRef"@[1] || "ArrayRef"@[2] != "GlobRef"@[2] || "ArrayRef"@[3] != "GlobRef"@[3] || "ArrayRef"@[4] != "GlobRef"@[4] || "ArrayRef"@[5] != "GlobRef"@[5]);
    assert("ArrayRef"@.len() != "Int"@.len() || "ArrayRef"@[0] != "Int"@[0] || "ArrayRef"@[1] != "Int"@[1] || "ArrayRef"@[2] != "Int"@[2] || "ArrayRef"@[3] != "Int"@[3] || "ArrayRef"@[4] != "Int"@[4] || "ArrayRef"@[5] != "Int"@[5]);
    assert("ArrayRef"@.len() != "IntRange"@.len() || "ArrayRef"@[0] != "IntRange"@[0] || "ArrayRef"@[1] != "IntRange"@[1] || "ArrayRef"@[2] != "IntRange"@[2] || "ArrayRef"@[3] != "IntRange"@[3] || "ArrayRef"@[4] != "IntRange"@[4] || "ArrayRef"@[5] != "IntRange"@[5]);
    assert("ArrayRef"@.len() != "Item"@.len() || "ArrayRef"@[0] != "Item"@[0] || "ArrayRef"@[1] != "Item"@[1] || "ArrayRef"@[2] != "Item"@[2] || "ArrayRef"@[3] != "Item"@[3] || "ArrayRef"@[4] != "Item"@[4] || "ArrayRef"@[5] != "Item"@[5]);
    assert("ArrayRef"@.len() != "LaxNum"@.len() || "ArrayRef"@[0] != "LaxNum"@[0] || "ArrayRef"@[1] != "LaxNum"@[1] || "ArrayRef"@[2] != "LaxNum"@[2] || "ArrayRef"@[3] != "LaxNum"@[3] || "ArrayRef"@[4] != "LaxNum"@[4] || "ArrayRef"@[5] != "LaxNum"@[5]);
    assert("ArrayRef"@.len() != "LowerCaseSimpleStr"@.len() || "ArrayRef"@[0] != "LowerCaseSimpleStr"@[0] || "ArrayRef"@[1] != "LowerCaseSimpleStr"@[1] || "ArrayRef"@[2] != "LowerCaseSimpleStr"@[2] || "ArrayRef"@[3] != "LowerCaseSimpleStr"@[3] || "ArrayRef"@[4] != "LowerCaseSimpleStr"@[4] || "ArrayRef"@[5] != "LowerCaseSimpleStr"@[5]);
    assert("ArrayRef"@.len() != "LowerCaseStr"@.len() || "ArrayRef"@[0] != "LowerCaseStr"@[0] || "ArrayRef"@[1] != "LowerCaseStr"@[1] || "ArrayRef"@[2] != "LowerCaseStr"@[2] || "ArrayRef"@[3] != "LowerCaseStr"@[3] || "ArrayRef"@[4] != "LowerCaseStr"@[4] || "ArrayRef"@[5] != "LowerCaseStr"@[5]);
    assert("ArrayRef"@.len() != "NegativeInt"@.len() || "ArrayRef"@[0] != "NegativeInt"@[0] || "ArrayRef"@[1] != "NegativeInt"@[1] || "ArrayRef"@[2] != "NegativeInt"@[2] || "ArrayRef"@[3] != "NegativeInt"@[3] || "ArrayRef"@[4] != "NegativeInt"@[4] || "ArrayRef"@[5] != "NegativeInt"@[5]);
    assert("ArrayRef"@.len() != "NegativeNum"@.len() || "ArrayRef"@[0] != "NegativeNum"@[0] || "ArrayRef"@[1] != "NegativeNum"@[1] || "ArrayRef"@[2] != "NegativeNum"@[2] || "ArrayRef"@[3] != "NegativeNum"@[3] || "ArrayRef"@[4] != "NegativeNum"@[4] || "ArrayRef"@[5] != "NegativeNum"@[5]);
    assert("ArrayRef"@.len() != "NegativeOrZeroInt"@.len() || "ArrayRef"@[0] != "NegativeOrZeroInt"@[0] || "ArrayRef"@[1] != "NegativeOrZeroInt"@[1] || "ArrayRef"@[2] != "NegativeOrZeroInt"@[2] || "ArrayRef"@[3] != "NegativeOrZeroInt"@[3] || "ArrayRef"@[4] != "NegativeOrZeroInt"@[4] || "ArrayRef"@[5] != "NegativeOrZeroInt"@[5]);
    assert("ArrayRef"@.len() != "NegativeOrZeroNum"@.len() || "ArrayRef"@[0] != "NegativeOrZeroNum"@[0] || "ArrayRef"@[1] != "NegativeOrZeroNum"@[1] || "ArrayRef"@[2] != "NegativeOrZeroNum"@[2] || "ArrayRef"@[3] != "NegativeOrZeroNum"@[3] || "ArrayRef"@[4] != "NegativeOrZeroNum"@[4] || "ArrayRef"@[5] != "NegativeOrZeroNum"@[5]);
    assert("ArrayRef"@.len() != "NonEmptySimpleStr"@.len() || "ArrayRef"@[0] != "NonEmptySimpleStr"@[0] || "ArrayRef"@[1] != "NonEmptySimpleStr"@[1] || "ArrayRef"@[2] != "NonEmptySimpleStr"@[2] || "ArrayRef"@[3] != "NonEmptySimpleStr"@[3] || "ArrayRef"@[4] != "NonEmptySimpleStr"@[4] || "ArrayRef"@[5] != "NonEmptySimpleStr"@[5]);
    assert("ArrayRef"@.len() != "NonEmptyStr"@.len() || "ArrayRef"@[0] != "NonEmptyStr"@[0] || "ArrayRef"@[1] != "NonEmptyStr"@[1] || "ArrayRef"@[2] != "NonEmptyStr"@[2] || "ArrayRef"@[3] != "NonEmptyStr"@[3] || "ArrayRef"@[4] != "NonEmptyStr"@[4] || "ArrayRef"@[5] != "NonEmptyStr"@[5]);
    assert("ArrayRef"@.len() != "Num"@.len() || "ArrayRef"@[0] != "Num"@[0] || "ArrayRef"@[1] != "Num"@[1] || "ArrayRef"@[2] != "Num"@[2] || "ArrayRef"@[3] != "Num"@[3] || "ArrayRef"@[4] != "Num"@[4] || "ArrayRef"@[5] != "Num"@[5]);
    assert("ArrayRef"@.len() != "NumRange"@.len() || "ArrayRef"@[0] != "NumRange"@[0] || "ArrayRef"@[1] != "NumRange"@[1] || "ArrayRef"@[2] != "NumRange"@[2] || "ArrayRef"@[3] != "NumRange"@[3] || "ArrayRef"@[4] != "NumRange"@[4] || "ArrayRef"@[5] != "NumRange"@[5]);
    assert("ArrayRef"@.len() != "Object"@.len() || "ArrayRef"@[0] != "Object"@[0] || "ArrayRef"@[1] != "Object"@[1] || "ArrayRef"@[2] != "Object"@[2] || "ArrayRef"@[3] != "Object"@[3] || "ArrayRef"@[4] != "Object"@[4] || "ArrayRef"@[5] != "Object"@[5]);
    assert("ArrayRef"@.len() != "Password"@.len() || "ArrayRef"@[0] != "Password"@[0] || "ArrayRef"@[1] != "Password"@[1] || "ArrayRef"@[2] != "Password"@[2] || "ArrayRef"@[3] != "Password"@[3] || "ArrayRef"@[4] != "Password"@[4] || "ArrayRef"@[5] != "Password"@[5]);
    assert("ArrayRef"@.len() != "PositiveInt"@.len() || "ArrayRef"@[0] != "PositiveInt"@[0] || "ArrayRef"@[1] != "PositiveInt"@[1] || "ArrayRef"@[2] != "PositiveInt"@[2] || "ArrayRef"@[3] != "PositiveInt"@[3] || "ArrayRef"@[4] != "PositiveInt"@[4] || "ArrayRef"@[5] != "PositiveInt"@[5]);
    assert("ArrayRef"@.len() != "PositiveNum"@.len() || "ArrayRef"@[0] != "PositiveNum"@[0] || "ArrayRef"@[1] != "PositiveNum"@[1] || "ArrayRef"@[2] != "PositiveNum"@[2] || "ArrayRef"@[3] != "PositiveNum"@[3] || "ArrayRef"@[4] != "PositiveNum"@[4] || "ArrayRef"@[5] != "PositiveNum"@[5]);
    assert("ArrayRef"@.len() != "PositiveOrZeroInt"@.len() || "ArrayRef"@[0] != "PositiveOrZeroInt"@[0] || "ArrayRef"@[1] != "PositiveOrZeroInt"@[1] || "ArrayRef"@[2] != "PositiveOrZeroInt"@[2] || "ArrayRef"@[3] != "PositiveOrZeroInt"@[3] || "ArrayRef"@[4] != "PositiveOrZeroInt"@[4] || "ArrayRef"@[5] != "PositiveOrZeroInt"@[5]);
    assert("ArrayRef"@.len() != "PositiveOrZeroNum"@.len() || "ArrayRef"@[0] != "PositiveOrZeroNum"@[0] || "ArrayRef"@[1] != "PositiveOrZeroNum"@[1] || "ArrayRef"@[2] != "PositiveOrZeroNum"@[2] || "ArrayRef"@[3] != "PositiveOrZeroNum"@[3] || "ArrayRef"@[4] != "PositiveOrZeroNum"@[4] || "ArrayRef"@[5] != "PositiveOrZeroNum"@[5]);
    assert("ArrayRef"@.len() != "Ref"@.len() || "ArrayRef"@[0] != "Ref"@[0] || "ArrayRef"@[1] != "Ref"@[1] || "ArrayRef"@[2] != "Ref"@[2] || "ArrayRef"@[3] != "Ref"@[3] || "ArrayRef"@[4] != "Ref"@[4] || "ArrayRef"@[5] != "Ref"@[5]);
    assert("ArrayRef"@.len() != "RegexpRef"@.len() || "ArrayRef"@[0] != "RegexpRef"@[0] || "ArrayRef"@[1] != "RegexpRef"@[1] || "ArrayRef"@[2] != "RegexpRef"@[2] || "ArrayRef"@[3] != "RegexpRef"@[3] || "ArrayRef"@[4] != "RegexpRef"@[4] || "ArrayRef"@[5] != "RegexpRef"@[5]);
    assert("ArrayRef"@.len() != "RoleName"@.len() || "ArrayRef"@[0] != "RoleName"@[0] || "ArrayRef"@[1] != "RoleName"@[1] || "ArrayRef"@[2] != "RoleName"@[2] || "ArrayRef"@[3] != "RoleName"@[3] || "ArrayRef"@[4] != "RoleName"@[4] || "ArrayRef"@[5] != "RoleName"@[5]);
    assert("ArrayRef"@.len() != "SimpleStr"@.len() || "ArrayRef"@[0] != "SimpleStr"@[0] || "ArrayRef"@[1] != "SimpleStr"@[1] || "ArrayRef"@[2] != "SimpleStr"@[2] || "ArrayRef"@[3] != "SimpleStr"@[3] || "ArrayRef"@[4] != "SimpleStr"@[4] || "ArrayRef"@[5] != "SimpleStr"@[5]);
    assert("ArrayRef"@.len() != "SingleDigit"@.len() || "ArrayRef"@[0] != "SingleDigit"@[0] || "ArrayRef"@[1] != "SingleDigit"@[1] || "ArrayRef"@[2] != "SingleDigit"@[2] || "ArrayRef"@[3] != "SingleDigit"@[3] || "ArrayRef"@[4] != "SingleDigit"@[4] || "ArrayRef"@[5] != "SingleDigit"@[5]);
    assert("ArrayRef"@.len() != "Str"@.len() || "ArrayRef"@[0] != "Str"@[0] || "ArrayRef"@[1] != "Str"@[1] || "ArrayRef"@[2] != "Str"@[2] || "ArrayRef"@[3] != "Str"@[3] || "ArrayRef"@[4] != "Str"@[4] || "ArrayRef"@[5] != "Str"@[5]);
    assert("ArrayRef"@.len() != "StrMatch"@.len() || "ArrayRef"@[0] != "StrMatch"@[0] || "ArrayRef"@[1] != "StrMatch"@[1] || "ArrayRef"@[2] != "StrMatch"@[2] || "ArrayRef"@[3] != "StrMatch"@[3] || "ArrayRef"@[4] != "StrMatch"@[4] || "ArrayRef"@[5] != "StrMatch"@[5]);
    assert("ArrayRef"@.len() != "StrictNum"@.len() || "ArrayRef"@[0] != "StrictNum"@[0] || "ArrayRef"@[1] != "StrictNum"@[1] || "ArrayRef"@[2] != "StrictNum"@[2] || "ArrayRef"@[3] != "StrictNum"@[3] || "ArrayRef"@[4] != "StrictNum"@[4] || "ArrayRef"@[5] != "StrictNum"@[5]);
    assert("ArrayRef"@.len() != "StrongPassword"@.len() || "ArrayRef"@[0] != "StrongPassword"@[0] || "ArrayRef"@[1] != "StrongPassword"@[1] || "ArrayRef"@[2] != "StrongPassword"@[2] || "ArrayRef"@[3] != "StrongPassword"@[3] || "ArrayRef"@[4] != "StrongPassword"@[4] || "ArrayRef"@[5] != "StrongPassword"@[5]);
    assert("ArrayRef"@.len() != "Undef"@.len() || "ArrayRef"@[0] != "Undef"@[0] || "ArrayRef"@[1] != "Undef"@[1] || "ArrayRef"@[2] != "Undef"@[2] || "ArrayRef"@[3] != "Undef"@[3] || "ArrayRef"@[4] != "Undef"@[4] || "ArrayRef"@[5] != "Undef"@[5]);
    assert("ArrayRef"@.len() != "UpperCaseSimpleStr"@.len() || "ArrayRef"@[0] != "UpperCaseSimpleStr"@[0] || "ArrayRef"@[1] != "UpperCaseSimpleStr"@[1] || "ArrayRef"@[2] != "UpperCaseSimpleStr"@[2] || "ArrayRef"@[3] != "UpperCaseSimpleStr"@[3] || "ArrayRef"@[4] != "UpperCaseSimpleStr"@[4] || "ArrayRef"@[5] != "UpperCaseSimpleStr"@[5]);
    assert("ArrayRef"@.len() != "UpperCaseStr"@.len() || "ArrayRef"@[0] != "UpperCaseStr"@[0] || "ArrayRef"@[1] != "UpperCaseStr"@[1] || "ArrayRef"@[2] != "UpperCaseStr"@[2] || "ArrayRef"@[3] != "UpperCaseStr"@[3] || "ArrayRef"@[4] != "UpperCaseStr"@[4] || "ArrayRef"@[5] != "UpperCaseStr"@[5]);
    assert("ArrayRef"@.len() != "Value"@.len() || "ArrayRef"@[0] != "Value"@[0] || "ArrayRef"@[1] != "Value"@[1] || "ArrayRef"@[2] != "Value"@[2] || "ArrayRef"@[3] != "Value"@[3] || "ArrayRef"@[4] != "Value"@[4] || "ArrayRef"@[5] != "Value"@[5]);
    assert("ArrayRef"@.len() != "Dict"@.len() || "ArrayRef"@[0] != "Dict"@[0] || "ArrayRef"@[1] != "Dict"@[1] || "ArrayRef"@[2] != "Dict"@[2] || "ArrayRef"@[3] != "Dict"@[3] || "ArrayRef"@[4] != "Dict"@[4] || "ArrayRef"@[5] != "Dict"@[5]);
    assert("ArrayRef"@.len() != "Map"@.len() || "ArrayRef"@[0] != "Map"@[0] || "ArrayRef"@[1] != "Map"@[1] || "ArrayRef"@[2] != "Map"@[2] || "ArrayRef"@[3] != "Map"@[3] || "ArrayRef"@[4] != "Map"@[4] || "ArrayRef"@[5] != "Map"@[5]);
    assert("ArrayRef"@.len() != "Tuple"@.len() || "ArrayRef"@[0] != "Tuple"@[0] || "ArrayRef"@[1] != "Tuple"@[1] || "ArrayRef"@[2] != "Tuple"@[2] || "ArrayRef"@[3] != "Tuple"@[3] || "ArrayRef"@[4] != "Tuple"@[4] || "ArrayRef"@[5] != "Tuple"@[5]);
    assert("ArrayRef"@.len() != "ScalarRef"@.len() || "ArrayRef"@[0] != "ScalarRef"@[0] || "ArrayRef"@[1] != "ScalarRef"@[1] || "ArrayRef"@[2] != "ScalarRef"@[2] || "ArrayRef"@[3] != "ScalarRef"@[3] || "ArrayRef"@[4] != "ScalarRef"@[4] || "ArrayRef"@[5] != "ScalarRef"@[5]);
    assert("ArrayRef"@.len() != "ArrayLike"@.len() || "ArrayRef"@[0] != "ArrayLike"@[0] || "ArrayRef"@[1] != "ArrayLike"@[1] || "ArrayRef"@[2] != "ArrayLike"@[2] || "ArrayRef"@[3] != "ArrayLike"@[3] || "ArrayRef"@[4] != "ArrayLike"@[4] || "ArrayRef"@[5] != "ArrayLike"@[5]);
}

proof fn lemma_hashref_is_not_simple()
    ensures
        simple_constructor("HashRef"@) is None,
        "HashRef"@ != "Dict"@ && "HashRef"@ != "Map"@ && "HashRef"@ != "Tuple"@,
        "HashRef"@ != "ScalarRef"@ || "HashRef"@ == "ScalarRef"@,
        "HashRef"@ != "ScalarRef"@ && "HashRef"@ != "ArrayRef"@ && "HashRef"@ != "ArrayLike"@,

{
    reveal_strlit("Any");
    reveal_strlit("Bool");
    reveal_strlit("CodeLike");
    reveal_strlit("CodeRef");
    reveal_strlit("Defined");
    reveal_strlit("FileHandle");
    reveal_strlit("GlobRef");
    reveal_strlit("Int");
    reveal_strlit("IntRange");
    reveal_strlit("Item");
    reveal_strlit("LaxNum");
    reveal_strlit("LowerCaseSimpleStr");
    reveal_strlit("LowerCaseStr");
    reveal_strlit("NegativeInt");
    reveal_strlit("NegativeNum");
    reveal_strlit("NegativeOrZeroInt");
    reveal_strlit("NegativeOrZeroNum");
    reveal_strlit("NonEmptySimpleStr");
    reveal_strlit("NonEmptyStr");
    reveal_strlit("Num");
    reveal_strlit("NumRange");
    reveal_strlit("Object");
    reveal_strlit("Password");
    reveal_strlit("PositiveInt");
    reveal_strlit("PositiveNum");
    reveal_strlit("PositiveOrZeroInt");
    reveal_strlit("PositiveOrZeroNum");
    reveal_strlit("Ref");
    reveal_strlit("RegexpRef");
    reveal_strlit("RoleName");
    reveal_strlit("SimpleStr");
    reveal_strlit("SingleDigit");
    reveal_strlit("Str");
    reveal_strlit("StrMatch");
    reveal_strlit("StrictNum");
    reveal_strlit("StrongPassword");
    reveal_strlit("Undef");
    reveal_strlit("UpperCaseSimpleStr");
    reveal_strlit("UpperCaseStr");
    reveal_strlit("Value");
    reveal_strlit("Dict");
    reveal_strlit("Map");
    reveal_strlit("Tuple");
    reveal_strlit("ScalarRef");
    reveal_strlit("ArrayRef");
    reveal_strlit("ArrayLike");
    reveal_strlit("HashRef");
    assert("HashRef"@.len() != "Any"@.len() || "HashRef"@[0] != "Any"@[0] || "HashRef"@[1] != "Any"@[1] || "HashRef"@[2] != "Any"@[2] || "HashRef"@[3] != "Any"@[3] || "HashRef"@[4] != "Any"@[4] || "HashRef"@[5] != "Any"@[5]);
    assert("HashRef"@.len() != "Bool"@.len() || "HashRef"@[0] != "Bool"@[0] || "HashRef"@[1] != "Bool"@[1] || "HashRef"@[2] != "Bool"@[2] || "HashRef"@[3] != "Bool"@[3] || "HashRef"@[4] != "Bool"@[4] || "HashRef"@[5] != "Bool"@[5]);
    assert("HashRef"@.len() != "CodeLike"@.len() || "HashRef"@[0] != "CodeLike"@[0] || "HashRef"@[1] != "CodeLike"@[1] || "HashRef"@[2] != "CodeLike"@[2] || "HashRef"@[3] != "CodeLike"@[3] || "HashRef"@[4] != "CodeLike"@[4] || "HashRef"@[5] != "CodeLike"@[5]);
    assert("HashRef"@.len() != "CodeRef"@.len() || "HashRef"@[0] != "CodeRef"@[0] || "HashRef"@[1] != "CodeRef"@[1] || "HashRef"@[2] != "CodeRef"@[2] || "HashRef"@[3] != "CodeRef"@[3] || "HashRef"@[4] != "CodeRef"@[4] || "HashRef"@[5] != "CodeRef"@[5]);
    assert("HashRef"@.len() != "Defined"@.len() || "HashRef"@[0] != "Defined"@[0] || "HashRef"@[1] != "Defined"@[1] || "HashRef"@[2] != "Defined"@[2] || "HashRef"@[3] != "Defined"@[3] || "HashRef"@[4] != "Defined"@[4] || "HashRef"@[5] != "Defined"@[5]);
    assert("HashRef"@.len() != "FileHandle"@.len() || "HashRef"@[0] != "FileHandle"@[0] || "HashRef"@[1] != "FileHandle"@[1] || "HashRef"@[2] != "FileHandle"@[2] || "HashRef"@[3] != "FileHandle"@[3] || "HashRef"@[4] != "FileHandle"@[4] || "HashRef"@[5] != "FileHandle"@[5]);
    assert("HashRef"@.len() != "GlobRef"@.len() || "HashRef"@[0] != "GlobRef"@[0] || "HashRef"@[1] != "GlobRef"@[1] || "HashRef"@[2] != "GlobRef"@[2] || "HashRef"@[3] != "GlobRef"@[3] || "HashRef"@[4] != "GlobRef"@[4] || "HashRef"@[5] != "GlobRef"@[5]);
    assert("HashRef"@.len() != "Int"@.len() || "HashRef"@[0] != "Int"@[0] || "HashRef"@[1] != "Int"@[1] || "HashRef"@[2] != "Int"@[2] || "HashRef"@[3] != "Int"@[3] || "HashRef"@[4] != "Int"@[4] || "HashRef"@[5] != "Int"@[5]);
    assert("HashRef"@.len() != "IntRange"@.len() || "HashRef"@[0] != "IntRange"@[0] || "HashRef"@[1] != "IntRange"@[1] || "HashRef"@[2] != "IntRange"@[2] || "HashRef"@[3] != "IntRange"@[3] || "HashRef"@[4] != "IntRange"@[4] || "HashRef"@[5] != "IntRange"@[5]);
    assert("HashRef"@.len() != "Item"@.len() || "HashRef"@[0] != "Item"@[0] || "HashRef"@[1] != "Item"@[1] || "HashRef"@[2] != "Item"@[2] || "HashRef"@[3] != "Item"@[3] || "HashRef"@[4] != "Item"@[4] || "HashRef"@[5] != "Item"@[5]);
    assert("HashRef"@.len() != "LaxNum"@.len() || "HashRef"@[0] != "LaxNum"@[0] || "HashRef"@[1] != "LaxNum"@[1] || "HashRef"@[2] != "LaxNum"@[2] || "HashRef"@[3] != "LaxNum"@[3] || "HashRef"@[4] != "LaxNum"@[4] || "HashRef"@[5] != "LaxNum"@[5]);
    assert("HashRef"@.len() != "LowerCaseSimpleStr"@.len() || "HashRef"@[0] != "LowerCaseSimpleStr"@[0] || "HashRef"@[1] != "LowerCaseSimpleStr"@[1] || "HashRef"@[2] != "LowerCaseSimpleStr"@[2] || "HashRef"@[3] != "LowerCaseSimpleStr"@[3] || "HashRef"@[4] != "LowerCaseSimpleStr"@[4] || "HashRef"@[5] != "LowerCaseSimpleStr"@[5]);
    assert("HashRef"@.len() != "LowerCaseStr"@.len() || "HashRef"@[0] != "LowerCaseStr"@[0] || "HashRef"@[1] != "LowerCaseStr"@[1] || "HashRef"@[2] != "LowerCaseStr"@[2] || "HashRef"@[3] != "LowerCaseStr"@[3] || "HashRef"@[4] != "LowerCaseStr"@[4] || "HashRef"@[5] != "LowerCaseStr"@[5]);
    assert("HashRef"@.len() != "NegativeInt"@.len() || "HashRef"@[0] != "NegativeInt"@[0] || "HashRef"@[1] != "NegativeInt"@[1] || "HashRef"@[2] != "NegativeInt"@[2] || "HashRef"@[3] != "NegativeInt"@[3] || "HashRef"@[4] != "NegativeInt"@[4] || "HashRef"@[5] != "NegativeInt"@[5]);
    assert("HashRef"@.len() != "NegativeNum"@.len() || "HashRef"@[0] != "NegativeNum"@[0] || "HashRef"@[1] != "NegativeNum"@[1] || "HashRef"@[2] != "NegativeNum"@[2] || "HashRef"@[3] != "NegativeNum"@[3] || "HashRef"@[4] != "NegativeNum"@[4] || "HashRef"@[5] != "NegativeNum"@[5]);
    assert("HashRef"@.len() != "NegativeOrZeroInt"@.len() || "HashRef"@[0] != "NegativeOrZeroInt"@[0] || "HashRef"@[1] != "NegativeOrZeroInt"@[1] || "HashRef"@[2] != "NegativeOrZeroInt"@[2] || "HashRef"@[3] != "NegativeOrZeroInt"@[3] || "HashRef"@[4] != "NegativeOrZeroInt"@[4] || "HashRef"@[5] != "NegativeOrZeroInt"@[5]);
    assert("HashRef"@.len() != "NegativeOrZeroNum"@.len() || "HashRef"@[0] != "NegativeOrZeroNum"@[0] || "HashRef"@[1] != "NegativeOrZeroNum"@[1] || "HashRef"@[2] != "NegativeOrZeroNum"@[2] || "HashRef"@[3] != "NegativeOrZeroNum"@[3] || "HashRef"@[4] != "NegativeOrZeroNum"@[4] || "HashRef"@[5] != "NegativeOrZeroNum"@[5]);
    assert("HashRef"@.len() != "NonEmptySimpleStr"@.len() || "HashRef"@[0] != "NonEmptySimpleStr"@[0] || "HashRef"@[1] != "NonEmptySimpleStr"@[1] || "HashRef"@[2] != "NonEmptySimpleStr"@[2] || "HashRef"@[3] != "NonEmptySimpleStr"@[3] || "HashRef"@[4] != "NonEmptySimpleStr"@[4] || "HashRef"@[5] != "NonEmptySimpleStr"@[5]);
    assert("HashRef"@.len() != "NonEmptyStr"@.len() || "HashRef"@[0] != "NonEmptyStr"@[0] || "HashRef"@[1] != "NonEmptyStr"@[1] || "HashRef"@[2] != "NonEmptyStr"@[2] || "HashRef"@[3] != "NonEmptyStr"@[3] || "HashRef"@[4] != "NonEmptyStr"@[4] || "HashRef"@[5] != "NonEmptyStr"@[5]);
    assert("HashRef"@.len() != "Num"@.len() || "HashRef"@[0] != "Num"@[0] || "HashRef"@[1] != "Num"@[1] || "HashRef"@[2] != "Num"@[2] || "HashRef"@[3] != "Num"@[3] || "HashRef"@[4] != "Num"@[4] || "HashRef"@[5] != "Num"@[5]);
    assert("HashRef"@.len() != "NumRange"@.len() || "HashRef"@[0] != "NumRange"@[0] || "HashRef"@[1] != "NumRange"@[1] || "HashRef"@[2] != "NumRange"@[2] || "HashRef"@[3] != "NumRange"@[3] || "HashRef"@[4] != "NumRange"@[4] || "HashRef"@[5] != "NumRange"@[5]);
    assert("HashRef"@.len() != "Object"@.len() || "HashRef"@[0] != "Object"@[0] || "HashRef"@[1] != "Object"@[1] || "HashRef"@[2] != "Object"@[2] || "HashRef"@[3] != "Object"@[3] || "HashRef"@[4] != "Object"@[4] || "HashRef"@[5] != "Object"@[5]);
    assert("HashRef"@.len() != "Password"@.len() || "HashRef"@[0] != "Password"@[0] || "HashRef"@[1] != "Password"@[1] || "HashRef"@[2] != "Password"@[2] || "HashRef"@[3] != "Password"@[3] || "HashRef"@[4] != "Password"@[4] || "HashRef"@[5] != "Password"@[5]);
    assert("HashRef"@.len() != "PositiveInt"@.len() || "HashRef"@[0] != "PositiveInt"@[0] || "HashRef"@[1] != "PositiveInt"@[1] || "HashRef"@[2] != "PositiveInt"@[2] || "HashRef"@[3] != "PositiveInt"@[3] || "HashRef"@[4] != "PositiveInt"@[4] || "HashRef"@[5] != "PositiveInt"@[5]);
    assert("HashRef"@.len() != "PositiveNum"@.len() || "HashRef"@[0] != "PositiveNum"@[0] || "HashRef"@[1] != "PositiveNum"@[1] || "HashRef"@[2] != "PositiveNum"@[2] || "HashRef"@[3] != "PositiveNum"@[3] || "HashRef"@[4] != "PositiveNum"@[4] || "HashRef"@[5] != "PositiveNum"@[5]);
    assert("HashRef"@.len() != "PositiveOrZeroInt"@.len() || "HashRef"@[0] != "PositiveOrZeroInt"@[0] || "HashRef"@[1] != "PositiveOrZeroInt"@[1] || "HashRef"@[2] != "PositiveOrZeroInt"@[2] || "HashRef"@[3] != "PositiveOrZeroInt"@[3] || "HashRef"@[4] != "PositiveOrZeroInt"@[4] || "HashRef"@[5] != "PositiveOrZeroInt"@[5]);
    assert("HashRef"@.len() != "PositiveOrZeroNum"@.len() || "HashRef"@[0] != "PositiveOrZeroNum"@[0] || "HashRef"@[1] != "PositiveOrZeroNum"@[1] || "HashRef"@[2] != "PositiveOrZeroNum"@[2] || "HashRef"@[3] != "PositiveOrZeroNum"@[3] || "HashRef"@[4] != "PositiveOrZeroNum"@[4] || "HashRef"@[5] != "PositiveOrZeroNum"@[5]);
    assert("HashRef"@.len() != "Ref"@.len() || "HashRef"@[0] != "Ref"@[0] || "HashRef"@[1] != "Ref"@[1] || "HashRef"@[2] != "Ref"@[2] || "HashRef"@[3] != "Ref"@[3] || "HashRef"@[4] != "Ref"@[4] || "HashRef"@[5] != "Ref"@[5]);
    assert("HashRef"@.len() != "RegexpRef"@.len() || "HashRef"@[0] != "RegexpRef"@[0] || "HashRef"@[1] != "RegexpRef"@[1] || "HashRef"@[2] != "RegexpRef"@[2] || "HashRef"@[3] != "RegexpRef"@[3] || "HashRef"@[4] != "RegexpRef"@[4] || "HashRef"@[5] != "RegexpRef"@[5]);
    assert("HashRef"@.len() != "RoleName"@.len() || "HashRef"@[0] != "RoleName"@[0] || "HashRef"@[1] != "RoleName"@[1] || "HashRef"@[2] != "RoleName"@[2] || "HashRef"@[3] != "RoleName"@[3] || "HashRef"@[4] != "RoleName"@[4] || "HashRef"@[5] != "RoleName"@[5]);
    assert("HashRef"@.len() != "SimpleStr"@.len() || "HashRef"@[0] != "SimpleStr"@[0] || "HashRef"@[1] != "SimpleStr"@[1] || "HashRef"@[2] != "SimpleStr"@[2] || "HashRef"@[3] != "SimpleStr"@[3] || "HashRef"@[4] != "SimpleStr"@[4] || "HashRef"@[5] != "SimpleStr"@[5]);
    assert("HashRef"@.len() != "SingleDigit"@.len() || "HashRef"@[0] != "SingleDigit"@[0] || "HashRef"@[1] != "SingleDigit"@[1] || "HashRef"@[2] != "SingleDigit"@[2] || "HashRef"@[3] != "SingleDigit"@[3] || "HashRef"@[4] != "SingleDigit"@[4] || "HashRef"@[5] != "SingleDigit"@[5]);
    assert("HashRef"@.len() != "Str"@.len() || "HashRef"@[0] != "Str"@[0] || "HashRef"@[1] != "Str"@[1] || "HashRef"@[2] != "Str"@[2] || "HashRef"@[3] != "Str"@[3] || "HashRef"@[4] != "Str"@[4] || "HashRef"@[5] != "Str"@[5]);
    assert("HashRef"@.len() != "StrMatch"@.len() || "HashRef"@[0] != "StrMatch"@[0] || "HashRef"@[1] != "StrMatch"@[1] || "HashRef"@[2] != "StrMatch"@[2] || "HashRef"@[3] != "StrMatch"@[3] || "HashRef"@[4] != "StrMatch"@[4] || "HashRef"@[5] != "StrMatch"@[5]);
    assert("HashRef"@.len() != "StrictNum"@.len() || "HashRef"@[0] != "StrictNum"@[0] || "HashRef"@[1] != "StrictNum"@[1] || "HashRef"@[2] != "StrictNum"@[2] || "HashRef"@[3] != "StrictNum"@[3] || "HashRef"@[4] != "StrictNum"@[4] || "HashRef"@[5] != "StrictNum"@[5]);
    assert("HashRef"@.len() != "StrongPassword"@.len() || "HashRef"@[0] != "StrongPassword"@[0] || "HashRef"@[1] != "StrongPassword"@[1] || "HashRef"@[2] != "StrongPassword"@[2] || "HashRef"@[3] != "StrongPassword"@[3] || "HashRef"@[4] != "StrongPassword"@[4] || "HashRef"@[5] != "StrongPassword"@[5]);
    assert("HashRef"@.len() != "Undef"@.len() || "HashRef"@[0] != "Undef"@[0] || "HashRef"@[1] != "Undef"@[1] || "HashRef"@[2] != "Undef"@[2] || "HashRef"@[3] != "Undef"@[3] || "HashRef"@[4] != "Undef"@[4] || "HashRef"@[5] != "Undef"@[5]);
    assert("HashRef"@.len() != "UpperCaseSimpleStr"@.len() || "HashRef"@[0] != "UpperCaseSimpleStr"@[0] || "HashRef"@[1] != "UpperCaseSimpleStr"@[1] || "HashRef"@[2] != "UpperCaseSimpleStr"@[2] || "HashRef"@[3] != "UpperCaseSimpleStr"@[3] || "HashRef"@[4] != "UpperCaseSimpleStr"@[4] || "HashRef"@[5] != "UpperCaseSimpleStr"@[5]);
    assert("HashRef"@.len() != "UpperCaseStr"@.len() || "HashRef"@[0] != "UpperCaseStr"@[0] || "HashRef"@[1] != "UpperCaseStr"@[1] || "HashRef"@[2] != "UpperCaseStr"@[2] || "HashRef"@[3] != "UpperCaseStr"@[3] || "HashRef"@[4] != "UpperCaseStr"@[4] || "HashRef"@[5] != "UpperCaseStr"@[5]);
    assert("HashRef"@.len() != "Value"@.len() || "HashRef"@[0] != "Value"@[0] || "HashRef"@[1] != "Value"@[1] || "HashRef"@[2] != "Value"@[2] || "HashRef"@[3] != "Value"@[3] || "HashRef"@[4] != "Value"@[4] || "HashRef"@[5] != "Value"@[5]);
    assert("HashRef"@.len() != "Dict"@.len() || "HashRef"@[0] != "Dict"@[0] || "HashRef"@[1] != "Dict"@[1] || "HashRef"@[2] != "Dict"@[2] || "HashRef"@[3] != "Dict"@[3] || "HashRef"@[4] != "Dict"@[4] || "HashRef"@[5] != "Dict"@[5]);
    assert("HashRef"@.len() != "Map"@.len() || "HashRef"@[0] != "Map"@[0] || "HashRef"@[1] != "Map"@[1] || "HashRef"@[2] != "Map"@[2] || "HashRef"@[3] != "Map"@[3] || "HashRef"@[4] != "Map"@[4] || "HashRef"@[5] != "Map"@[5]);
    assert("HashRef"@.len() != "Tuple"@.len() || "HashRef"@[0] != "Tuple"@[0] || "HashRef"@[1] != "Tuple"@[1] || "HashRef"@[2] != "Tuple"@[2] || "HashRef"@[3] != "Tuple"@[3] || "HashRef"@[4] != "Tuple"@[4] || "HashRef"@[5] != "Tuple"@[5]);
    assert("HashRef"@.len() != "ScalarRef"@.len() || "HashRef"@[0] != "ScalarRef"@[0] || "HashRef"@[1] != "ScalarRef"@[1] || "HashRef"@[2] != "ScalarRef"@[2] || "HashRef"@[3] != "ScalarRef"@[3] || "HashRef"@[4] != "ScalarRef"@[4] || "HashRef"@[5] != "ScalarRef"@[5]);
    assert("HashRef"@.len() != "ArrayRef"@.len() || "HashRef"@[0] != "ArrayRef"@[0] || "HashRef"@[1] != "ArrayRef"@[1] || "HashRef"@[2] != "ArrayRef"@[2] || "HashRef"@[3] != "ArrayRef"@[3] || "HashRef"@[4] != "ArrayRef"@[4] || "HashRef"@[5] != "ArrayRef"@[5]);
    assert("HashRef"@.len() != "ArrayLike"@.len() || "HashRef"@[0] != "ArrayLike"@[0] || "HashRef"@[1] != "ArrayLike"@[1] || "HashRef"@[2] != "ArrayLike"@[2] || "HashRef"@[3] != "ArrayLike"@[3] || "HashRef"@[4] != "ArrayLike"@[4] || "HashRef"@[5] != "ArrayLike"@[5]);
}

proof fn lemma_plain_one(name: Seq<char>, t: TypeV)
    ensures
        spec_plain(name, seq![ArgV::Plain(t)]) == Ok::<Seq<TypeV>, Seq<char>>(seq![t]),
{
    let args = seq![ArgV::Plain(t)];
    assert(args.drop_last() =~= Seq::<ArgV>::empty());
    assert(spec_plain(name, args.drop_last()) == Ok::<Seq<TypeV>, Seq<char>>(Seq::empty()));
    assert(args.last() == ArgV::Plain(t));
    assert(Seq::<TypeV>::empty().push(t) =~= seq![t]);
}

/// A one-argument reference constructor keeps its argument, whatever it
/// is: `ScalarRef[T]`, `ArrayRef[T]` and `HashRef[T]` are references to `T`.
pub proof fn law_a_reference_constructor_keeps_its_argument(t: TypeV)
    ensures
        spec_constructor("ScalarRef"@, seq![ArgV::Plain(t)]) == Ok::<TypeV, Seq<char>>(TypeV::ScalarRef(Box::new(t))),
        spec_constructor("ArrayRef"@, seq![ArgV::Plain(t)]) == Ok::<TypeV, Seq<char>>(TypeV::ArrayRef(Box::new(t))),
        spec_constructor("HashRef"@, seq![ArgV::Plain(t)]) == Ok::<TypeV, Seq<char>>(TypeV::HashRef(Box::new(t))),
{
    lemma_scalarref_is_not_simple();
    lemma_arrayref_is_not_simple();
    lemma_hashref_is_not_simple();
    let args = seq![ArgV::Plain(t)];
    assert(args.drop_last() =~= Seq::<ArgV>::empty());
    assert(args.last() == ArgV::Plain(t));
    assert(Seq::<TypeV>::empty().push(t) =~= seq![t]);
    lemma_plain_one("ScalarRef"@, t);
    lemma_plain_one("ArrayRef"@, t);
    lemma_plain_one("HashRef"@, t);
}

proof fn lemma_arraylike_is_a_reference_name()
    ensures
        simple_constructor("ArrayLike"@) is None,
        "ArrayLike"@ != "Dict"@,
        "ArrayLike"@ != "Map"@,
        "ArrayLike"@ != "Tuple"@,
        "ArrayLike"@ != "ScalarRef"@,
        "ArrayLike"@ != "ArrayRef"@,
{
    reveal_strlit("Any");
    reveal_strlit("Bool");
    reveal_strlit("CodeLike");
    reveal_strlit("CodeRef");
    reveal_strlit("Defined");
    reveal_strlit("FileHandle");
    reveal_strlit("GlobRef");
    reveal_strlit("Int");
    reveal_strlit("IntRange");
    reveal_strlit("Item");
    reveal_strlit("LaxNum");
    reveal_strlit("LowerCaseSimpleStr");
    reveal_strlit("LowerCaseStr");
    reveal_strlit("NegativeInt");
    reveal_strlit("NegativeNum");
    reveal_strlit("NegativeOrZeroInt");
    reveal_strlit("NegativeOrZeroNum");
    reveal_strlit("NonEmptySimpleStr");
    reveal_strlit("NonEmptyStr");
    reveal_strlit("Num");
    reveal_strlit("NumRange");
    reveal_strlit("Object");
    reveal_strlit("Password");
    reveal_strlit("PositiveInt");
    reveal_strlit("PositiveNum");
    reveal_strlit("PositiveOrZeroInt");
    reveal_strlit("PositiveOrZeroNum");
    reveal_strlit("Ref");
    reveal_strlit("RegexpRef");
    reveal_strlit("RoleName");
    reveal_strlit("SimpleStr");
    reveal_strlit("SingleDigit");
    reveal_strlit("Str");
    reveal_strlit("StrMatch");
    reveal_strlit("StrictNum");
    reveal_strlit("StrongPassword");
    reveal_strlit("Undef");
    reveal_strlit("UpperCaseSimpleStr");
    reveal_strlit("UpperCaseStr");
    reveal_strlit("Value");
    reveal_strlit("Dict");
    reveal_strlit("Map");
    reveal_strlit("Tuple");
    reveal_strlit("ScalarRef");
    reveal_strlit("ArrayRef");
    reveal_strlit("ArrayLike");
    assert("ArrayLike"@.len() != "Any"@.len() || "ArrayLike"@[0] != "Any"@[0] || "ArrayLike"@[1] != "Any"@[1] || "ArrayLike"@[2] != "Any"@[2]);
    assert("ArrayLike"@.len() != "Bool"@.len() || "ArrayLike"@[0] != "Bool"@[0] || "ArrayLike"@[1] != "Bool"@[1] || "ArrayLike"@[2] != "Bool"@[2] || "ArrayLike"@[3] != "Bool"@[3]);
    assert("ArrayLike"@.len() != "CodeLike"@.len() || "ArrayLike"@[0] != "CodeLike"@[0] || "ArrayLike"@[1] != "CodeLike"@[1] || "ArrayLike"@[2] != "CodeLike"@[2] || "ArrayLike"@[3] != "CodeLike"@[3] || "ArrayLike"@[4] != "CodeLike"@[4] || "ArrayLike"@[5] != "CodeLike"@[5] || "ArrayLike"@[6] != "CodeLike"@[6] || "ArrayLike"@[7] != "CodeLike"@[7]);
    assert("ArrayLike"@.len() != "CodeRef"@.len() || "ArrayLike"@[0] != "CodeRef"@[0] || "ArrayLike"@[1] != "CodeRef"@[1] || "ArrayLike"@[2] != "CodeRef"@[2] || "ArrayLike"@[3] != "CodeRef"@[3] || "ArrayLike"@[4] != "CodeRef"@[4] || "ArrayLike"@[5] != "CodeRef"@[5] || "ArrayLike"@[6] != "CodeRef"@[6]);
    assert("ArrayLike"@.len() != "Defined"@.len() || "ArrayLike"@[0] != "Defined"@[0] || "ArrayLike"@[1] != "Defined"@[1] || "ArrayLike"@[2] != "Defined"@[2] || "ArrayLike"@[3] != "Defined"@[3] || "ArrayLike"@[4] != "Defined"@[4] || "ArrayLike"@[5] != "Defined"@[5] || "ArrayLike"@[6] != "Defined"@[6]);
    assert("ArrayLike"@.len() != "FileHandle"@.len() || "ArrayLike"@[0] != "FileHandle"@[0] || "ArrayLike"@[1] != "FileHandle"@[1] || "ArrayLike"@[2] != "FileHandle"@[2] || "ArrayLike"@[3] != "FileHandle"@[3] || "ArrayLike"@[4] != "FileHandle"@[4] || "ArrayLike"@[5] != "FileHandle"@[5] || "ArrayLike"@[6] != "FileHandle"@[6] || "ArrayLike"@[7] != "FileHandle"@[7] || "ArrayLike"@[8] != "FileHandle"@[8]);
    assert("ArrayLike"@.len() != "GlobRef"@.len() || "ArrayLike"@[0] != "GlobRef"@[0] || "ArrayLike"@[1] != "GlobRef"@[1] || "ArrayLike"@[2] != "GlobRef"@[2] || "ArrayLike"@[3] != "GlobRef"@[3] || "ArrayLike"@[4] != "GlobRef"@[4] || "ArrayLike"@[5] != "GlobRef"@[5] || "ArrayLike"@[6] != "GlobRef"@[6]);
    assert("ArrayLike"@.len() != "Int"@.len() || "ArrayLike"@[0] != "Int"@[0] || "ArrayLike"@[1] != "Int"@[1] || "ArrayLike"@[2] != "Int"@[2]);
    assert("ArrayLike"@.len() != "IntRange"@.len() || "ArrayLike"@[0] != "IntRange"@[0] || "ArrayLike"@[1] != "IntRange"@[1] || "ArrayLike"@[2] != "IntRange"@[2] || "ArrayLike"@[3] != "IntRange"@[3] || "ArrayLike"@[4] != "IntRange"@[4] || "ArrayLike"@[5] != "IntRange"@[5] || "ArrayLike"@[6] != "IntRange"@[6] || "ArrayLike"@[7] != "IntRange"@[7]);
    assert("ArrayLike"@.len() != "Item"@.len() || "ArrayLike"@[0] != "Item"@[0] || "ArrayLike"@[1] != "Item"@[1] || "ArrayLike"@[2] != "Item"@[2] || "ArrayLike"@[3] != "Item"@[3]);
    assert("ArrayLike"@.len() != "LaxNum"@.len() || "ArrayLike"@[0] != "LaxNum"@[0] || "ArrayLike"@[1] != "LaxNum"@[1] || "ArrayLike"@[2] != "LaxNum"@[2] || "ArrayLike"@[3] != "LaxNum"@[3] || "ArrayLike"@[4] != "LaxNum"@[4] || "ArrayLike"@[5] != "LaxNum"@[5]);
    assert("ArrayLike"@.len() != "LowerCaseSimpleStr"@.len() || "ArrayLike"@[0] != "LowerCaseSimpleStr"@[0] || "ArrayLike"@[1] != "LowerCaseSimpleStr"@[1] || "ArrayLike"@[2] != "LowerCaseSimpleStr"@[2] || "ArrayLike"@[3] != "LowerCaseSimpleStr"@[3] || "ArrayLike"@[4] != "LowerCaseSimpleStr"@[4] || "ArrayLike"@[5] != "LowerCaseSimpleStr"@[5] || "ArrayLike"@[6] != "LowerCaseSimpleStr"@[6] || "ArrayLike"@[7] != "LowerCaseSimpleStr"@[7] || "ArrayLike"@[8] != "LowerCaseSimpleStr"@[8]);
    assert("ArrayLike"@.len() != "LowerCaseStr"@.len() || "ArrayLike"@[0] != "LowerCaseStr"@[0] || "ArrayLike"@[1] != "LowerCaseStr"@[1] || "ArrayLike"@[2] != "LowerCaseStr"@[2] || "ArrayLike"@[3] != "LowerCaseStr"@[3] || "ArrayLike"@[4] != "LowerCaseStr"@[4] || "ArrayLike"@[5] != "LowerCaseStr"@[5] || "ArrayLike"@[6] != "LowerCaseStr"@[6] || "ArrayLike"@[7] != "LowerCaseStr"@[7] || "ArrayLike"@[8] != "LowerCaseStr"@[8]);
    assert("ArrayLike"@.len() != "NegativeInt"@.len() || "ArrayLike"@[0] != "NegativeInt"@[0] || "ArrayLike"@[1] != "NegativeInt"@[1] || "ArrayLike"@[2] != "NegativeInt"@[2] || "ArrayLike"@[3] != "NegativeInt"@[3] || "ArrayLike"@[4] != "NegativeInt"@[4] || "ArrayLike"@[5] != "NegativeInt"@[5] || "ArrayLike"@[6] != "NegativeInt"@[6] || "ArrayLike"@[7] != "NegativeInt"@[7] || "ArrayLike"@[8] != "NegativeInt"@[8]);
    assert("ArrayLike"@.len() != "NegativeNum"@.len() || "ArrayLike"@[0] != "NegativeNum"@[0] || "ArrayLike"@[1] != "NegativeNum"@[1] || "ArrayLike"@[2] != "NegativeNum"@[2] || "ArrayLike"@[3] != "NegativeNum"@[3] || "ArrayLike"@[4] != "NegativeNum"@[4] || "ArrayLike"@[5] != "NegativeNum"@[5] || "ArrayLike"@[6] != "NegativeNum"@[6] || "ArrayLike"@[7] != "NegativeNum"@[7] || "ArrayLike"@[8] != "NegativeNum"@[8]);
    assert("ArrayLike"@.len() != "NegativeOrZeroInt"@.len() || "ArrayLike"@[0] != "NegativeOrZeroInt"@[0] || "ArrayLike"@[1] != "NegativeOrZeroInt"@[1] || "ArrayLike"@[2] != "NegativeOrZeroInt"@[2] || "ArrayLike"@[3] != "NegativeOrZeroInt"@[3] || "ArrayLike"@[4] != "NegativeOrZeroInt"@[4] || "ArrayLike"@[5] != "NegativeOrZeroInt"@[5] || "ArrayLike"@[6] != "NegativeOrZeroInt"@[6] || "ArrayLike"@[7] != "NegativeOrZeroInt"@[7] || "ArrayLike"@[8] != "NegativeOrZeroInt"@[8]);
    assert("ArrayLike"@.len() != "NegativeOrZeroNum"@.len() || "ArrayLike"@[0] != "NegativeOrZeroNum"@[0] || "ArrayLike"@[1] != "NegativeOrZeroNum"@[1] || "ArrayLike"@[2] != "NegativeOrZeroNum"@[2] || "ArrayLike"@[3] != "NegativeOrZeroNum"@[3] || "ArrayLike"@[4] != "NegativeOrZeroNum"@[4] || "ArrayLike"@[5] != "NegativeOrZeroNum"@[5] || "ArrayLike"@[6] != "NegativeOrZeroNum"@[6] || "ArrayLike"@[7] != "NegativeOrZeroNum"@[7] || "ArrayLike"@[8] != "NegativeOrZeroNum"@[8]);
    assert("ArrayLike"@.len() != "NonEmptySimpleStr"@.len() || "ArrayLike"@[0] != "NonEmptySimpleStr"@[0] || "ArrayLike"@[1] != "NonEmptySimpleStr"@[1] || "ArrayLike"@[2] != "NonEmptySimpleStr"@[2] || "ArrayLike"@[3] != "NonEmptySimpleStr"@[3] || "ArrayLike"@[4] != "NonEmptySimpleStr"@[4] || "ArrayLike"@[5] != "NonEmptySimpleStr"@[5] || "ArrayLike"@[6] != "NonEmptySimpleStr"@[6] || "ArrayLike"@[7] != "NonEmptySimpleStr"@[7] || "ArrayLike"@[8] != "NonEmptySimpleStr"@[8]);
    assert("ArrayLike"@.len() != "NonEmptyStr"@.len() || "ArrayLike"@[0] != "NonEmptyStr"@[0] || "ArrayLike"@[1] != "NonEmptyStr"@[1] || "ArrayLike"@[2] != "NonEmptyStr"@[2] || "ArrayLike"@[3] != "NonEmptyStr"@[3] || "ArrayLike"@[4] != "NonEmptyStr"@[4] || "ArrayLike"@[5] != "NonEmptyStr"@[5] || "ArrayLike"@[6] != "NonEmptyStr"@[6] || "ArrayLike"@[7] != "NonEmptyStr"@[7] || "ArrayLike"@[8] != "NonEmptyStr"@[8]);
    assert("ArrayLike"@.len() != "Num"@.len() || "ArrayLike"@[0] != "Num"@[0] || "ArrayLike"@[1] != "Num"@[1] || "ArrayLike"@[2] != "Num"@[2]);
    assert("ArrayLike"@.len() != "NumRange"@.len() || "ArrayLike"@[0] != "NumRange"@[0] || "ArrayLike"@[1] != "NumRange"@[1] || "ArrayLike"@[2] != "NumRange"@[2] || "ArrayLike"@[3] != "NumRange"@[3] || "ArrayLike"@[4] != "NumRange"@[4] || "ArrayLike"@[5] != "NumRange"@[5] || "ArrayLike"@[6] != "NumRange"@[6] || "ArrayLike"@[7] != "NumRange"@[7]);
    assert("ArrayLike"@.len() != "Object"@.len() || "ArrayLike"@[0] != "Object"@[0] || "ArrayLike"@[1] != "Object"@[1] || "ArrayLike"@[2] != "Object"@[2] || "ArrayLike"@[3] != "Object"@[3] || "ArrayLike"@[4] != "Object"@[4] || "ArrayLike"@[5] != "Object"@[5]);
    assert("ArrayLike"@.len() != "Password"@.len() || "ArrayLike"@[0] != "Password"@[0] || "ArrayLike"@[1] != "Password"@[1] || "ArrayLike"@[2] != "Password"@[2] || "ArrayLike"@[3] != "Password"@[3] || "ArrayLike"@[4] != "Password"@[4] || "ArrayLike"@[5] != "Password"@[5] || "ArrayLike"@[6] != "Password"@[6] || "ArrayLike"@[7] != "Password"@[7]);
    assert("ArrayLike"@.len() != "PositiveInt"@.len() || "ArrayLike"@[0] != "PositiveInt"@[0] || "ArrayLike"@[1] != "PositiveInt"@[1] || "ArrayLike"@[2] != "PositiveInt"@[2] || "ArrayLike"@[3] != "PositiveInt"@[3] || "ArrayLike"@[4] != "PositiveInt"@[4] || "ArrayLike"@[5] != "PositiveInt"@[5] || "ArrayLike"@[6] != "PositiveInt"@[6] || "ArrayLike"@[7] != "PositiveInt"@[7] || "ArrayLike"@[8] != "PositiveInt"@[8]);
    assert("ArrayLike"@.len() != "PositiveNum"@.len() || "ArrayLike"@[0] != "PositiveNum"@[0] || "ArrayLike"@[1] != "PositiveNum"@[1] || "ArrayLike"@[2] != "PositiveNum"@[2] || "ArrayLike"@[3] != "PositiveNum"@[3] || "ArrayLike"@[4] != "PositiveNum"@[4] || "ArrayLike"@[5] != "PositiveNum"@[5] || "ArrayLike"@[6] != "PositiveNum"@[6] || "ArrayLike"@[7] != "PositiveNum"@[7] || "ArrayLike"@[8] != "PositiveNum"@[8]);
    assert("ArrayLike"@.len() != "PositiveOrZeroInt"@.len() || "ArrayLike"@[0] != "PositiveOrZeroInt"@[0] || "ArrayLike"@[1] != "PositiveOrZeroInt"@[1] || "ArrayLike"@[2] != "PositiveOrZeroInt"@[2] || "ArrayLike"@[3] != "PositiveOrZeroInt"@[3] || "ArrayLike"@[4] != "PositiveOrZeroInt"@[4] || "ArrayLike"@[5] != "PositiveOrZeroInt"@[5] || "ArrayLike"@[6] != "PositiveOrZeroInt"@[6] || "ArrayLike"@[7] != "PositiveOrZeroInt"@[7] || "ArrayLike"@[8] != "PositiveOrZeroInt"@[8]);
    assert("ArrayLike"@.len() != "PositiveOrZeroNum"@.len() || "ArrayLike"@[0] != "PositiveOrZeroNum"@[0] || "ArrayLike"@[1] != "PositiveOrZeroNum"@[1] || "ArrayLike"@[2] != "PositiveOrZeroNum"@[2] || "ArrayLike"@[3] != "PositiveOrZeroNum"@[3] || "ArrayLike"@[4] != "PositiveOrZeroNum"@[4] || "ArrayLike"@[5] != "PositiveOrZeroNum"@[5] || "ArrayLike"@[6] != "PositiveOrZeroNum"@[6] || "ArrayLike"@[7] != "PositiveOrZeroNum"@[7] || "ArrayLike"@[8] != "PositiveOrZeroNum"@[8]);
    assert("ArrayLike"@.len() != "Ref"@.len() || "ArrayLike"@[0] != "Ref"@[0] || "ArrayLike"@[1] != "Ref"@[1] || "ArrayLike"@[2] != "Ref"@[2]);
    assert("ArrayLike"@.len() != "RegexpRef"@.len() || "ArrayLike"@[0] != "RegexpRef"@[0] || "ArrayLike"@[1] != "RegexpRef"@[1] || "ArrayLike"@[2] != "RegexpRef"@[2] || "ArrayLike"@[3] != "RegexpRef"@[3] || "ArrayLike"@[4] != "RegexpRef"@[4] || "ArrayLike"@[5] != "RegexpRef"@[5] || "ArrayLike"@[6] != "RegexpRef"@[6] || "ArrayLike"@[7] != "RegexpRef"@[7] || "ArrayLike"@[8] != "RegexpRef"@[8]);
    assert("ArrayLike"@.len() != "RoleName"@.len() || "ArrayLike"@[0] != "RoleName"@[0] || "ArrayLike"@[1] != "RoleName"@[1] || "ArrayLike"@[2] != "RoleName"@[2] || "ArrayLike"@[3] != "RoleName"@[3] || "ArrayLike"@[4] != "RoleName"@[4] || "ArrayLike"@[5] != "RoleName"@[5] || "ArrayLike"@[6] != "RoleName"@[6] || "ArrayLike"@[7] != "RoleName"@[7]);
    assert("ArrayLike"@.len() != "SimpleStr"@.len() || "ArrayLike"@[0] != "SimpleStr"@[0] || "ArrayLike"@[1] != "SimpleStr"@[1] || "ArrayLike"@[2] != "SimpleStr"@[2] || "ArrayLike"@[3] != "SimpleStr"@[3] || "ArrayLike"@[4] != "SimpleStr"@[4] || "ArrayLike"@[5] != "SimpleStr"@[5] || "ArrayLike"@[6] != "SimpleStr"@[6] || "ArrayLike"@[7] != "SimpleStr"@[7] || "ArrayLike"@[8] != "SimpleStr"@[8]);
    assert("ArrayLike"@.len() != "SingleDigit"@.len() || "ArrayLike"@[0] != "SingleDigit"@[0] || "ArrayLike"@[1] != "SingleDigit"@[1] || "ArrayLike"@[2] != "SingleDigit"@[2] || "ArrayLike"@[3] != "SingleDigit"@[3] || "ArrayLike"@[4] != "SingleDigit"@[4] || "ArrayLike"@[5] != "SingleDigit"@[5] || "ArrayLike"@[6] != "SingleDigit"@[6] || "ArrayLike"@[7] != "SingleDigit"@[7] || "ArrayLike"@[8] != "SingleDigit"@[8]);
    assert("ArrayLike"@.len() != "Str"@.len() || "ArrayLike"@[0] != "Str"@[0] || "ArrayLike"@[1] != "Str"@[1] || "ArrayLike"@[2] != "Str"@[2]);
    assert("ArrayLike"@.len() != "StrMatch"@.len() || "ArrayLike"@[0] != "StrMatch"@[0] || "ArrayLike"@[1] != "StrMatch"@[1] || "ArrayLike"@[2] != "StrMatch"@[2] || "ArrayLike"@[3] != "StrMatch"@[3] || "ArrayLike"@[4] != "StrMatch"@[4] || "ArrayLike"@[5] != "StrMatch"@[5] || "ArrayLike"@[6] != "StrMatch"@[6] || "ArrayLike"@[7] != "StrMatch"@[7]);
    assert("ArrayLike"@.len() != "StrictNum"@.len() || "ArrayLike"@[0] != "StrictNum"@[0] || "ArrayLike"@[1] != "StrictNum"@[1] || "ArrayLike"@[2] != "StrictNum"@[2] || "ArrayLike"@[3] != "StrictNum"@[3] || "ArrayLike"@[4] != "StrictNum"@[4] || "ArrayLike"@[5] != "StrictNum"@[5] || "ArrayLike"@[6] != "StrictNum"@[6] || "ArrayLike"@[7] != "StrictNum"@[7] || "ArrayLike"@[8] != "StrictNum"@[8]);
    assert("ArrayLike"@.len() != "StrongPassword"@.len() || "ArrayLike"@[0] != "StrongPassword"@[0] || "ArrayLike"@[1] != "StrongPassword"@[1] || "ArrayLike"@[2] != "StrongPassword"@[2] || "ArrayLike"@[3] != "StrongPassword"@[3] || "ArrayLike"@[4] != "StrongPassword"@[4] || "ArrayLike"@[5] != "StrongPassword"@[5] || "ArrayLike"@[6] != "StrongPassword"@[6] || "ArrayLike"@[7] != "StrongPassword"@[7] || "ArrayLike"@[8] != "StrongPassword"@[8]);
    assert("ArrayLike"@.len() != "Undef"@.len() || "ArrayLike"@[0] != "Undef"@[0] || "ArrayLike"@[1] != "Undef"@[1] || "ArrayLike"@[2] != "Undef"@[2] || "ArrayLike"@[3] != "Undef"@[3] || "ArrayLike"@[4] != "Undef"@[4]);
    assert("ArrayLike"@.len() != "UpperCaseSimpleStr"@.len() || "ArrayLike"@[0] != "UpperCaseSimpleStr"@[0] || "ArrayLike"@[1] != "UpperCaseSimpleStr"@[1] || "ArrayLike"@[2] != "UpperCaseSimpleStr"@[2] || "ArrayLike"@[3] != "UpperCaseSimpleStr"@[3] || "ArrayLike"@[4] != "UpperCaseSimpleStr"@[4] || "ArrayLike"@[5] != "UpperCaseSimpleStr"@[5] || "ArrayLike"@[6] != "UpperCaseSimpleStr"@[6] || "ArrayLike"@[7] != "UpperCaseSimpleStr"@[7] || "ArrayLike"@[8] != "UpperCaseSimpleStr"@[8]);
    assert("ArrayLike"@.len() != "UpperCaseStr"@.len() || "ArrayLike"@[0] != "UpperCaseStr"@[0] || "ArrayLike"@[1] != "UpperCaseStr"@[1] || "ArrayLike"@[2] != "UpperCaseStr"@[2] || "ArrayLike"@[3] != "UpperCaseStr"@[3] || "ArrayLike"@[4] != "UpperCaseStr"@[4] || "ArrayLike"@[5] != "UpperCaseStr"@[5] || "ArrayLike"@[6] != "UpperCaseStr"@[6] || "ArrayLike"@[7] != "UpperCaseStr"@[7] || "ArrayLike"@[8] != "UpperCaseStr"@[8]);
    assert("ArrayLike"@.len() != "Value"@.len() || "ArrayLike"@[0] != "Value"@[0] || "ArrayLike"@[1] != "Value"@[1] || "ArrayLike"@[2] != "Value"@[2] || "ArrayLike"@[3] != "Value"@[3] || "ArrayLike"@[4] != "Value"@[4]);
    assert("ArrayLike"@.len() != "Dict"@.len() || "ArrayLike"@[0] != "Dict"@[0] || "ArrayLike"@[1] != "Dict"@[1] || "ArrayLike"@[2] != "Dict"@[2] || "ArrayLike"@[3] != "Dict"@[3]);
    assert("ArrayLike"@.len() != "Map"@.len() || "ArrayLike"@[0] != "Map"@[0] || "ArrayLike"@[1] != "Map"@[1] || "ArrayLike"@[2] != "Map"@[2]);
    assert("ArrayLike"@.len() != "Tuple"@.len() || "ArrayLike"@[0] != "Tuple"@[0] || "ArrayLike"@[1] != "Tuple"@[1] || "ArrayLike"@[2] != "Tuple"@[2] || "ArrayLike"@[3] != "Tuple"@[3] || "ArrayLike"@[4] != "Tuple"@[4]);
    assert("ArrayLike"@.len() != "ScalarRef"@.len() || "ArrayLike"@[0] != "ScalarRef"@[0] || "ArrayLike"@[1] != "ScalarRef"@[1] || "ArrayLike"@[2] != "ScalarRef"@[2] || "ArrayLike"@[3] != "ScalarRef"@[3] || "ArrayLike"@[4] != "ScalarRef"@[4] || "ArrayLike"@[5] != "ScalarRef"@[5] || "ArrayLike"@[6] != "ScalarRef"@[6] || "ArrayLike"@[7] != "ScalarRef"@[7] || "ArrayLike"@[8] != "ScalarRef"@[8]);
    assert("ArrayLike"@.len() != "ArrayRef"@.len() || "ArrayLike"@[0] != "ArrayRef"@[0] || "ArrayLike"@[1] != "ArrayRef"@[1] || "ArrayLike"@[2] != "ArrayRef"@[2] || "ArrayLike"@[3] != "ArrayRef"@[3] || "ArrayLike"@[4] != "ArrayRef"@[4] || "ArrayLike"@[5] != "ArrayRef"@[5] || "ArrayLike"@[6] != "ArrayRef"@[6] || "ArrayLike"@[7] != "ArrayRef"@[7]);
}

proof fn lemma_hashlike_is_a_reference_name()
    ensures
        simple_constructor("HashLike"@) is None,
        "HashLike"@ != "Dict"@,
        "HashLike"@ != "Map"@,
        "HashLike"@ != "Tuple"@,
        "HashLike"@ != "ScalarRef"@,
        "HashLike"@ != "ArrayRef"@,
        "HashLike"@ != "ArrayLike"@,
        "HashLike"@ != "HashRef"@,
{
    reveal_strlit("Any");
    reveal_strlit("Bool");
    reveal_strlit("CodeLike");
    reveal_strlit("CodeRef");
    reveal_strlit("Defined");
    reveal_strlit("FileHandle");
    reveal_strlit("GlobRef");
    reveal_strlit("Int");
    reveal_strlit("IntRange");
    reveal_strlit("Item");
    reveal_strlit("LaxNum");
    reveal_strlit("LowerCaseSimpleStr");
    reveal_strlit("LowerCaseStr");
    reveal_strlit("NegativeInt");
    reveal_strlit("NegativeNum");
    reveal_strlit("NegativeOrZeroInt");
    reveal_strlit("NegativeOrZeroNum");
    reveal_strlit("NonEmptySimpleStr");
    reveal_strlit("NonEmptyStr");
    reveal_strlit("Num");
    reveal_strlit("NumRange");
    reveal_strlit("Object");
    reveal_strlit("Password");
    reveal_strlit("PositiveInt");
    reveal_strlit("PositiveNum");
    reveal_strlit("PositiveOrZeroInt");
    reveal_strlit("PositiveOrZeroNum");
    reveal_strlit("Ref");
    reveal_strlit("RegexpRef");
    reveal_strlit("RoleName");
    reveal_strlit("SimpleStr");
    reveal_strlit("SingleDigit");
    reveal_strlit("Str");
    reveal_strlit("StrMatch");
    reveal_strlit("StrictNum");
    reveal_strlit("StrongPassword");
    reveal_strlit("Undef");
    reveal_strlit("UpperCaseSimpleStr");
    reveal_strlit("UpperCaseStr");
    reveal_strlit("Value");
    reveal_strlit("Dict");
    reveal_strlit("Map");
    reveal_strlit("Tuple");
    reveal_strlit("ScalarRef");
    reveal_strlit("ArrayRef");
    reveal_strlit("ArrayLike");
    reveal_strlit("HashRef");
    reveal_strlit("HashLike");
    assert("HashLike"@.len() != "Any"@.len() || "HashLike"@[0] != "Any"@[0] || "HashLike"@[1] != "Any"@[1] || "HashLike"@[2] != "Any"@[2]);
    assert("HashLike"@.len() != "Bool"@.len() || "HashLike"@[0] != "Bool"@[0] || "HashLike"@[1] != "Bool"@[1] || "HashLike"@[2] != "Bool"@[2] || "HashLike"@[3] != "Bool"@[3]);
    assert("HashLike"@.len() != "CodeLike"@.len() || "HashLike"@[0] != "CodeLike"@[0] || "HashLike"@[1] != "CodeLike"@[1] || "HashLike"@[2] != "CodeLike"@[2] || "HashLike"@[3] != "CodeLike"@[3] || "HashLike"@[4] != "CodeLike"@[4] || "HashLike"@[5] != "CodeLike"@[5] || "HashLike"@[6] != "CodeLike"@[6] || "HashLike"@[7] != "CodeLike"@[7]);
    assert("HashLike"@.len() != "CodeRef"@.len() || "HashLike"@[0] != "CodeRef"@[0] || "HashLike"@[1] != "CodeRef"@[1] || "HashLike"@[2] != "CodeRef"@[2] || "HashLike"@[3] != "CodeRef"@[3] || "HashLike"@[4] != "CodeRef"@[4] || "HashLike"@[5] != "CodeRef"@[5] || "HashLike"@[6] != "CodeRef"@[6]);
    assert("HashLike"@.len() != "Defined"@.len() || "HashLike"@[0] != "Defined"@[0] || "HashLike"@[1] != "Defined"@[1] || "HashLike"@[2] != "Defined"@[2] || "HashLike"@[3] != "Defined"@[3] || "HashLike"@[4] != "Defined"@[4] || "HashLike"@[5] != "Defined"@[5] || "HashLike"@[6] != "Defined"@[6]);
    assert("HashLike"@.len() != "FileHandle"@.len() || "HashLike"@[0] != "FileHandle"@[0] || "HashLike"@[1] != "FileHandle"@[1] || "HashLike"@[2] != "FileHandle"@[2] || "HashLike"@[3] != "FileHandle"@[3] || "HashLike"@[4] != "FileHandle"@[4] || "HashLike"@[5] != "FileHandle"@[5] || "HashLike"@[6] != "FileHandle"@[6] || "HashLike"@[7] != "FileHandle"@[7]);
    assert("HashLike"@.len() != "GlobRef"@.len() || "HashLike"@[0] != "GlobRef"@[0] || "HashLike"@[1] != "GlobRef"@[1] || "HashLike"@[2] != "GlobRef"@[2] || "HashLike"@[3] != "GlobRef"@[3] || "HashLike"@[4] != "GlobRef"@[4] || "HashLike"@[5] != "GlobRef"@[5] || "HashLike"@[6] != "GlobRef"@[6]);
    assert("HashLike"@.len() != "Int"@.len() || "HashLike"@[0] != "Int"@[0] || "HashLike"@[1] != "Int"@[1] || "HashLike"@[2] != "Int"@[2]);
    assert("HashLike"@.len() != "IntRange"@.len() || "HashLike"@[0] != "IntRange"@[0] || "HashLike"@[1] != "IntRange"@[1] || "HashLike"@[2] != "IntRange"@[2] || "HashLike"@[3] != "IntRange"@[3] || "HashLike"@[4] != "IntRange"@[4] || "HashLike"@[5] != "IntRange"@[5] || "HashLike"@[6] != "IntRange"@[6] || "HashLike"@[7] != "IntRange"@[7]);
    assert("HashLike"@.len() != "Item"@.len() || "HashLike"@[0] != "Item"@[0] || "HashLike"@[1] != "Item"@[1] || "HashLike"@[2] != "Item"@[2] || "HashLike"@[3] != "Item"@[3]);
    assert("HashLike"@.len() != "LaxNum"@.len() || "HashLike"@[0] != "LaxNum"@[0] || "HashLike"@[1] != "LaxNum"@[1] || "HashLike"@[2] != "LaxNum"@[2] || "HashLike"@[3] != "LaxNum"@[3] || "HashLike"@[4] != "LaxNum"@[4] || "HashLike"@[5] != "LaxNum"@[5]);
    assert("HashLike"@.len() != "LowerCaseSimpleStr"@.len() || "HashLike"@[0] != "LowerCaseSimpleStr"@[0] || "HashLike"@[1] != "LowerCaseSimpleStr"@[1] || "HashLike"@[2] != "LowerCaseSimpleStr"@[2] || "HashLike"@[3] != "LowerCaseSimpleStr"@[3] || "HashLike"@[4] != "LowerCaseSimpleStr"@[4] || "HashLike"@[5] != "LowerCaseSimpleStr"@[5] || "HashLike"@[6] != "LowerCaseSimpleStr"@[6] || "HashLike"@[7] != "LowerCaseSimpleStr"@[7]);
    assert("HashLike"@.len() != "LowerCaseStr"@.len() || "HashLike"@[0] != "LowerCaseStr"@[0] || "HashLike"@[1] != "LowerCaseStr"@[1] || "HashLike"@[2] != "LowerCaseStr"@[2] || "HashLike"@[3] != "LowerCaseStr"@[3] || "HashLike"@[4] != "LowerCaseStr"@[4] || "HashLike"@[5] != "LowerCaseStr"@[5] || "HashLike"@[6] != "LowerCaseStr"@[6] || "HashLike"@[7] != "LowerCaseStr"@[7]);
    assert("HashLike"@.len() != "NegativeInt"@.len() || "HashLike"@[0] != "NegativeInt"@[0] || "HashLike"@[1] != "NegativeInt"@[1] || "HashLike"@[2] != "NegativeInt"@[2] || "HashLike"@[3] != "NegativeInt"@[3] || "HashLike"@[4] != "NegativeInt"@[4] || "HashLike"@[5] != "NegativeInt"@[5] || "HashLike"@[6] != "NegativeInt"@[6] || "HashLike"@[7] != "NegativeInt"@[7]);
    assert("HashLike"@.len() != "NegativeNum"@.len() || "HashLike"@[0] != "NegativeNum"@[0] || "HashLike"@[1] != "NegativeNum"@[1] || "HashLike"@[2] != "NegativeNum"@[2] || "HashLike"@[3] != "NegativeNum"@[3] || "HashLike"@[4] != "NegativeNum"@[4] || "HashLike"@[5] != "NegativeNum"@[5] || "HashLike"@[6] != "NegativeNum"@[6] || "HashLike"@[7] != "NegativeNum"@[7]);
    assert("HashLike"@.len() != "NegativeOrZeroInt"@.len() || "HashLike"@[0] != "NegativeOrZeroInt"@[0] || "HashLike"@[1] != "NegativeOrZeroInt"@[1] || "HashLike"@[2] != "NegativeOrZeroInt"@[2] || "HashLike"@[3] != "NegativeOrZeroInt"@[3] || "HashLike"@[4] != "NegativeOrZeroInt"@[4] || "HashLike"@[5] != "NegativeOrZeroInt"@[5] || "HashLike"@[6] != "NegativeOrZeroInt"@[6] || "HashLike"@[7] != "NegativeOrZeroInt"@[7]);
    assert("HashLike"@.len() != "NegativeOrZeroNum"@.len() || "HashLike"@[0] != "NegativeOrZeroNum"@[0] || "HashLike"@[1] != "NegativeOrZeroNum"@[1] || "HashLike"@[2] != "NegativeOrZeroNum"@[2] || "HashLike"@[3] != "NegativeOrZeroNum"@[3] || "HashLike"@[4] != "NegativeOrZeroNum"@[4] || "HashLike"@[5] != "NegativeOrZeroNum"@[5] || "HashLike"@[6] != "NegativeOrZeroNum"@[6] || "HashLike"@[7] != "NegativeOrZeroNum"@[7]);
    assert("HashLike"@.len() != "NonEmptySimpleStr"@.len() || "HashLike"@[0] != "NonEmptySimpleStr"@[0] || "HashLike"@[1] != "NonEmptySimpleStr"@[1] || "HashLike"@[2] != "NonEmptySimpleStr"@[2] || "HashLike"@[3] != "NonEmptySimpleStr"@[3] || "HashLike"@[4] != "NonEmptySimpleStr"@[4] || "HashLike"@[5] != "NonEmptySimpleStr"@[5] || "HashLike"@[6] != "NonEmptySimpleStr"@[6] || "HashLike"@[7] != "NonEmptySimpleStr"@[7]);
    assert("HashLike"@.len() != "NonEmptyStr"@.len() || "HashLike"@[0] != "NonEmptyStr"@[0] || "HashLike"@[1] != "NonEmptyStr"@[1] || "HashLike"@[2] != "NonEmptyStr"@[2] || "HashLike"@[3] != "NonEmptyStr"@[3] || "HashLike"@[4] != "NonEmptyStr"@[4] || "HashLike"@[5] != "NonEmptyStr"@[5] || "HashLike"@[6] != "NonEmptyStr"@[6] || "HashLike"@[7] != "NonEmptyStr"@[7]);
    assert("HashLike"@.len() != "Num"@.len() || "HashLike"@[0] != "Num"@[0] || "HashLike"@[1] != "Num"@[1] || "HashLike"@[2] != "Num"@[2]);
    assert("HashLike"@.len() != "NumRange"@.len() || "HashLike"@[0] != "NumRange"@[0] || "HashLike"@[1] != "NumRange"@[1] || "HashLike"@[2] != "NumRange"@[2] || "HashLike"@[3] != "NumRange"@[3] || "HashLike"@[4] != "NumRange"@[4] || "HashLike"@[5] != "NumRange"@[5] || "HashLike"@[6] != "NumRange"@[6] || "HashLike"@[7] != "NumRange"@[7]);
    assert("HashLike"@.len() != "Object"@.len() || "HashLike"@[0] != "Object"@[0] || "HashLike"@[1] != "Object"@[1] || "HashLike"@[2] != "Object"@[2] || "HashLike"@[3] != "Object"@[3] || "HashLike"@[4] != "Object"@[4] || "HashLike"@[5] != "Object"@[5]);
    assert("HashLike"@.len() != "Password"@.len() || "HashLike"@[0] != "Password"@[0] || "HashLike"@[1] != "Password"@[1] || "HashLike"@[2] != "Password"@[2] || "HashLike"@[3] != "Password"@[3] || "HashLike"@[4] != "Password"@[4] || "HashLike"@[5] != "Password"@[5] || "HashLike"@[6] != "Password"@[6] || "HashLike"@[7] != "Password"@[7]);
    assert("HashLike"@.len() != "PositiveInt"@.len() || "HashLike"@[0] != "PositiveInt"@[0] || "HashLike"@[1] != "PositiveInt"@[1] || "HashLike"@[2] != "PositiveInt"@[2] || "HashLike"@[3] != "PositiveInt"@[3] || "HashLike"@[4] != "PositiveInt"@[4] || "HashLike"@[5] != "PositiveInt"@[5] || "HashLike"@[6] != "PositiveInt"@[6] || "HashLike"@[7] != "PositiveInt"@[7]);
    assert("HashLike"@.len() != "PositiveNum"@.len() || "HashLike"@[0] != "PositiveNum"@[0] || "HashLike"@[1] != "PositiveNum"@[1] || "HashLike"@[2] != "PositiveNum"@[2] || "HashLike"@[3] != "PositiveNum"@[3] || "HashLike"@[4] != "PositiveNum"@[4] || "HashLike"@[5] != "PositiveNum"@[5] || "HashLike"@[6] != "PositiveNum"@[6] || "HashLike"@[7] != "PositiveNum"@[7]);
    assert("HashLike"@.len() != "PositiveOrZeroInt"@.len() || "HashLike"@[0] != "PositiveOrZeroInt"@[0] || "HashLike"@[1] != "PositiveOrZeroInt"@[1] || "HashLike"@[2] != "PositiveOrZeroInt"@[2] || "HashLike"@[3] != "PositiveOrZeroInt"@[3] || "HashLike"@[4] != "PositiveOrZeroInt"@[4] || "HashLike"@[5] != "PositiveOrZeroInt"@[5] || "HashLike"@[6] != "PositiveOrZeroInt"@[6] || "HashLike"@[7] != "PositiveOrZeroInt"@[7]);
    assert("HashLike"@.len() != "PositiveOrZeroNum"@.len() || "HashLike"@[0] != "PositiveOrZeroNum"@[0] || "HashLike"@[1] != "PositiveOrZeroNum"@[1] || "HashLike"@[2] != "PositiveOrZeroNum"@[2] || "HashLike"@[3] != "PositiveOrZeroNum"@[3] || "HashLike"@[4] != "PositiveOrZeroNum"@[4] || "HashLike"@[5] != "PositiveOrZeroNum"@[5] || "HashLike"@[6] != "PositiveOrZeroNum"@[6] || "HashLike"@[7] != "PositiveOrZeroNum"@[7]);
    assert("HashLike"@.len() != "Ref"@.len() || "HashLike"@[0] != "Ref"@[0] || "HashLike"@[1] != "Ref"@[1] || "HashLike"@[2] != "Ref"@[2]);
    assert("HashLike"@.len() != "RegexpRef"@.len() || "HashLike"@[0] != "RegexpRef"@[0] || "HashLike"@[1] != "RegexpRef"@[1] || "HashLike"@[2] != "RegexpRef"@[2] || "HashLike"@[3] != "RegexpRef"@[3] || "HashLike"@[4] != "RegexpRef"@[4] || "HashLike"@[5] != "RegexpRef"@[5] || "HashLike"@[6] != "RegexpRef"@[6] || "HashLike"@[7] != "RegexpRef"@[7]);
    assert("HashLike"@.len() != "RoleName"@.len() || "HashLike"@[0] != "RoleName"@[0] || "HashLike"@[1] != "RoleName"@[1] || "HashLike"@[2] != "RoleName"@[2] || "HashLike"@[3] != "RoleName"@[3] || "HashLike"@[4] != "RoleName"@[4] || "HashLike"@[5] != "RoleName"@[5] || "HashLike"@[6] != "RoleName"@[6] || "HashLike"@[7] != "RoleName"@[7]);
    assert("HashLike"@.len() != "SimpleStr"@.len() || "HashLike"@[0] != "SimpleStr"@[0] || "HashLike"@[1] != "SimpleStr"@[1] || "HashLike"@[2] != "SimpleStr"@[2] || "HashLike"@[3] != "SimpleStr"@[3] || "HashLike"@[4] != "SimpleStr"@[4] || "HashLike"@[5] != "SimpleStr"@[5] || "HashLike"@[6] != "SimpleStr"@[6] || "HashLike"@[7] != "SimpleStr"@[7]);
    assert("HashLike"@.len() != "SingleDigit"@.len() || "HashLike"@[0] != "SingleDigit"@[0] || "HashLike"@[1] != "SingleDigit"@[1] || "HashLike"@[2] != "SingleDigit"@[2] || "HashLike"@[3] != "SingleDigit"@[3] || "HashLike"@[4] != "SingleDigit"@[4] || "HashLike"@[5] != "SingleDigit"@[5] || "HashLike"@[6] != "SingleDigit"@[6] || "HashLike"@[7] != "SingleDigit"@[7]);
    assert("HashLike"@.len() != "Str"@.len() || "HashLike"@[0] != "Str"@[0] || "HashLike"@[1] != "Str"@[1] || "HashLike"@[2] != "Str"@[2]);
    assert("HashLike"@.len() != "StrMatch"@.len() || "HashLike"@[0] != "StrMatch"@[0] || "HashLike"@[1] != "StrMatch"@[1] || "HashLike"@[2] != "StrMatch"@[2] || "HashLike"@[3] != "StrMatch"@[3] || "HashLike"@[4] != "StrMatch"@[4] || "HashLike"@[5] != "StrMatch"@[5] || "HashLike"@[6] != "StrMatch"@[6] || "HashLike"@[7] != "StrMatch"@[7]);
    assert("HashLike"@.len() != "StrictNum"@.len() || "HashLike"@[0] != "StrictNum"@[0] || "HashLike"@[1] != "StrictNum"@[1] || "HashLike"@[2] != "StrictNum"@[2] || "HashLike"@[3] != "StrictNum"@[3] || "HashLike"@[4] != "StrictNum"@[4] || "HashLike"@[5] != "StrictNum"@[5] || "HashLike"@[6] != "StrictNum"@[6] || "HashLike"@[7] != "StrictNum"@[7]);
    assert("HashLike"@.len() != "StrongPassword"@.len() || "HashLike"@[0] != "StrongPassword"@[0] || "HashLike"@[1] != "StrongPassword"@[1] || "HashLike"@[2] != "StrongPassword"@[2] || "HashLike"@[3] != "StrongPassword"@[3] || "HashLike"@[4] != "StrongPassword"@[4] || "HashLike"@[5] != "StrongPassword"@[5] || "HashLike"@[6] != "StrongPassword"@[6] || "HashLike"@[7] != "StrongPassword"@[7]);
    assert("HashLike"@.len() != "Undef"@.len() || "HashLike"@[0] != "Undef"@[0] || "HashLike"@[1] != "Undef"@[1] || "HashLike"@[2] != "Undef"@[2] || "HashLike"@[3] != "Undef"@[3] || "HashLike"@[4] != "Undef"@[4]);
    assert("HashLike"@.len() != "UpperCaseSimpleStr"@.len() || "HashLike"@[0] != "UpperCaseSimpleStr"@[0] || "HashLike"@[1] != "UpperCaseSimpleStr"@[1] || "HashLike"@[2] != "UpperCaseSimpleStr"@[2] || "HashLike"@[3] != "UpperCaseSimpleStr"@[3] || "HashLike"@[4] != "UpperCaseSimpleStr"@[4] || "HashLike"@[5] != "UpperCaseSimpleStr"@[5] || "HashLike"@[6] != "UpperCaseSimpleStr"@[6] || "HashLike"@[7] != "UpperCaseSimpleStr"@[7]);
    assert("HashLike"@.len() != "UpperCaseStr"@.len() || "HashLike"@[0] != "UpperCaseStr"@[0] || "HashLike"@[1] != "UpperCaseStr"@[1] || "HashLike"@[2] != "UpperCaseStr"@[2] || "HashLike"@[3] != "UpperCaseStr"@[3] || "HashLike"@[4] != "UpperCaseStr"@[4] || "HashLike"@[5] != "UpperCaseStr"@[5] || "HashLike"@[6] != "UpperCaseStr"@[6] || "HashLike"@[7] != "UpperCaseStr"@[7]);
    assert("HashLike"@.len() != "Value"@.len() || "HashLike"@[0] != "Value"@[0] || "HashLike"@[1] != "Value"@[1] || "HashLike"@[2] != "Value"@[2] || "HashLike"@[3] != "Value"@[3] || "HashLike"@[4] != "Value"@[4]);
    assert("HashLike"@.len() != "Dict"@.len() || "HashLike"@[0] != "Dict"@[0] || "HashLike"@[1] != "Dict"@[1] || "HashLike"@[2] != "Dict"@[2] || "HashLike"@[3] != "Dict"@[3]);
    assert("HashLike"@.len() != "Map"@.len() || "HashLike"@[0] != "Map"@[0] || "HashLike"@[1] != "Map"@[1] || "HashLike"@[2] != "Map"@[2]);
    assert("HashLike"@.len() != "Tuple"@.len() || "HashLike"@[0] != "Tuple"@[0] || "HashLike"@[1] != "Tuple"@[1] || "HashLike"@[2] != "Tuple"@[2] || "HashLike"@[3] != "Tuple"@[3] || "HashLike"@[4] != "Tuple"@[4]);
    assert("HashLike"@.len() != "ScalarRef"@.len() || "HashLike"@[0] != "ScalarRef"@[0] || "HashLike"@[1] != "ScalarRef"@[1] || "HashLike"@[2] != "ScalarRef"@[2] || "HashLike"@[3] != "ScalarRef"@[3] || "HashLike"@[4] != "ScalarRef"@[4] || "HashLike"@[5] != "ScalarRef"@[5] || "HashLike"@[6] != "ScalarRef"@[6] || "HashLike"@[7] != "ScalarRef"@[7]);
    assert("HashLike"@.len() != "ArrayRef"@.len() || "HashLike"@[0] != "ArrayRef"@[0] || "HashLike"@[1] != "ArrayRef"@[1] || "HashLike"@[2] != "ArrayRef"@[2] || "HashLike"@[3] != "ArrayRef"@[3] || "HashLike"@[4] != "ArrayRef"@[4] || "HashLike"@[5] != "ArrayRef"@[5] || "HashLike"@[6] != "ArrayRef"@[6] || "HashLike"@[7] != "ArrayRef"@[7]);
    assert("HashLike"@.len() != "ArrayLike"@.len() || "HashLike"@[0] != "ArrayLike"@[0] || "HashLike"@[1] != "ArrayLike"@[1] || "HashLike"@[2] != "ArrayLike"@[2] || "HashLike"@[3] != "ArrayLike"@[3] || "HashLike"@[4] != "ArrayLike"@[4] || "HashLike"@[5] != "ArrayLike"@[5] || "HashLike"@[6] != "ArrayLike"@[6] || "HashLike"@[7] != "ArrayLike"@[7]);
    assert("HashLike"@.len() != "HashRef"@.len() || "HashLike"@[0] != "HashRef"@[0] || "HashLike"@[1] != "HashRef"@[1] || "HashLike"@[2] != "HashRef"@[2] || "HashLike"@[3] != "HashRef"@[3] || "HashLike"@[4] != "HashRef"@[4] || "HashLike"@[5] != "HashRef"@[5] || "HashLike"@[6] != "HashRef"@[6]);
}

proof fn lemma_optional_is_a_reference_name()
    ensures
        simple_constructor("Optional"@) is None,
        "Optional"@ != "Dict"@,
        "Optional"@ != "Map"@,
        "Optional"@ != "Tuple"@,
        "Optional"@ != "ScalarRef"@,
        "Optional"@ != "ArrayRef"@,
        "Optional"@ != "ArrayLike"@,
        "Optional"@ != "HashRef"@,
        "Optional"@ != "HashLike"@,
        "Optional"@ != "Tuple"@,
        "Optional"@ != "Map"@,
        "Optional"@ != "Maybe"@,
{
    reveal_strlit("Any");
    reveal_strlit("Bool");
    reveal_strlit("CodeLike");
    reveal_strlit("CodeRef");
    reveal_strlit("Defined");
    reveal_strlit("FileHandle");
    reveal_strlit("GlobRef");
    reveal_strlit("Int");
    reveal_strlit("IntRange");
    reveal_strlit("Item");
    reveal_strlit("LaxNum");
    reveal_strlit("LowerCaseSimpleStr");
    reveal_strlit("LowerCaseStr");
    reveal_strlit("NegativeInt");
    reveal_strlit("NegativeNum");
    reveal_strlit("NegativeOrZeroInt");
    reveal_strlit("NegativeOrZeroNum");
    reveal_strlit("NonEmptySimpleStr");
    reveal_strlit("NonEmptyStr");
    reveal_strlit("Num");
    reveal_strlit("NumRange");
    reveal_strlit("Object");
    reveal_strlit("Password");
    reveal_strlit("PositiveInt");
    reveal_strlit("PositiveNum");
    reveal_strlit("PositiveOrZeroInt");
    reveal_strlit("PositiveOrZeroNum");
    reveal_strlit("Ref");
    reveal_strlit("RegexpRef");
    reveal_strlit("RoleName");
    reveal_strlit("SimpleStr");
    reveal_strlit("SingleDigit");
    reveal_strlit("Str");
    reveal_strlit("StrMatch");
    reveal_strlit("StrictNum");
    reveal_strlit("StrongPassword");
    reveal_strlit("Undef");
    reveal_strlit("UpperCaseSimpleStr");
    reveal_strlit("UpperCaseStr");
    reveal_strlit("Value");
    reveal_strlit("Dict");
    reveal_strlit("Map");
    reveal_strlit("Tuple");
    reveal_strlit("ScalarRef");
    reveal_strlit("ArrayRef");
    reveal_strlit("ArrayLike");
    reveal_strlit("HashRef");
    reveal_strlit("HashLike");
    reveal_strlit("Maybe");
    reveal_strlit("Optional");
    assert("Optional"@.len() != "Any"@.len() || "Optional"@[0] != "Any"@[0] || "Optional"@[1] != "Any"@[1] || "Optional"@[2] != "Any"@[2]);
    assert("Optional"@.len() != "Bool"@.len() || "Optional"@[0] != "Bool"@[0] || "Optional"@[1] != "Bool"@[1] || "Optional"@[2] != "Bool"@[2] || "Optional"@[3] != "Bool"@[3]);
    assert("Optional"@.len() != "CodeLike"@.len() || "Optional"@[0] != "CodeLike"@[0] || "Optional"@[1] != "CodeLike"@[1] || "Optional"@[2] != "CodeLike"@[2] || "Optional"@[3] != "CodeLike"@[3] || "Optional"@[4] != "CodeLike"@[4] || "Optional"@[5] != "CodeLike"@[5] || "Optional"@[6] != "CodeLike"@[6] || "Optional"@[7] != "CodeLike"@[7]);
    assert("Optional"@.len() != "CodeRef"@.len() || "Optional"@[0] != "CodeRef"@[0] || "Optional"@[1] != "CodeRef"@[1] || "Optional"@[2] != "CodeRef"@[2] || "Optional"@[3] != "CodeRef"@[3] || "Optional"@[4] != "CodeRef"@[4] || "Optional"@[5] != "CodeRef"@[5] || "Optional"@[6] != "CodeRef"@[6]);
    assert("Optional"@.len() != "Defined"@.len() || "Optional"@[0] != "Defined"@[0] || "Optional"@[1] != "Defined"@[1] || "Optional"@[2] != "Defined"@[2] || "Optional"@[3] != "Defined"@[3] || "Optional"@[4] != "Defined"@[4] || "Optional"@[5] != "Defined"@[5] || "Optional"@[6] != "Defined"@[6]);
    assert("Optional"@.len() != "FileHandle"@.len() || "Optional"@[0] != "FileHandle"@[0] || "Optional"@[1] != "FileHandle"@[1] || "Optional"@[2] != "FileHandle"@[2] || "Optional"@[3] != "FileHandle"@[3] || "Optional"@[4] != "FileHandle"@[4] || "Optional"@[5] != "FileHandle"@[5] || "Optional"@[6] != "FileHandle"@[6] || "Optional"@[7] != "FileHandle"@[7]);
    assert("Optional"@.len() != "GlobRef"@.len() || "Optional"@[0] != "GlobRef"@[0] || "Optional"@[1] != "GlobRef"@[1] || "Optional"@[2] != "GlobRef"@[2] || "Optional"@[3] != "GlobRef"@[3] || "Optional"@[4] != "GlobRef"@[4] || "Optional"@[5] != "GlobRef"@[5] || "Optional"@[6] != "GlobRef"@[6]);
    assert("Optional"@.len() != "Int"@.len() || "Optional"@[0] != "Int"@[0] || "Optional"@[1] != "Int"@[1] || "Optional"@[2] != "Int"@[2]);
    assert("Optional"@.len() != "IntRange"@.len() || "Optional"@[0] != "IntRange"@[0] || "Optional"@[1] != "IntRange"@[1] || "Optional"@[2] != "IntRange"@[2] || "Optional"@[3] != "IntRange"@[3] || "Optional"@[4] != "IntRange"@[4] || "Optional"@[5] != "IntRange"@[5] || "Optional"@[6] != "IntRange"@[6] || "Optional"@[7] != "IntRange"@[7]);
    assert("Optional"@.len() != "Item"@.len() || "Optional"@[0] != "Item"@[0] || "Optional"@[1] != "Item"@[1] || "Optional"@[2] != "Item"@[2] || "Optional"@[3] != "Item"@[3]);
    assert("Optional"@.len() != "LaxNum"@.len() || "Optional"@[0] != "LaxNum"@[0] || "Optional"@[1] != "LaxNum"@[1] || "Optional"@[2] != "LaxNum"@[2] || "Optional"@[3] != "LaxNum"@[3] || "Optional"@[4] != "LaxNum"@[4] || "Optional"@[5] != "LaxNum"@[5]);
    assert("Optional"@.len() != "LowerCaseSimpleStr"@.len() || "Optional"@[0] != "LowerCaseSimpleStr"@[0] || "Optional"@[1] != "LowerCaseSimpleStr"@[1] || "Optional"@[2] != "LowerCaseSimpleStr"@[2] || "Optional"@[3] != "LowerCaseSimpleStr"@[3] || "Optional"@[4] != "LowerCaseSimpleStr"@[4] || "Optional"@[5] != "LowerCaseSimpleStr"@[5] || "Optional"@[6] != "LowerCaseSimpleStr"@[6] || "Optional"@[7] != "LowerCaseSimpleStr"@[7]);
    assert("Optional"@.len() != "LowerCaseStr"@.len() || "Optional"@[0] != "LowerCaseStr"@[0] || "Optional"@[1] != "LowerCaseStr"@[1] || "Optional"@[2] != "LowerCaseStr"@[2] || "Optional"@[3] != "LowerCaseStr"@[3] || "Optional"@[4] != "LowerCaseStr"@[4] || "Optional"@[5] != "LowerCaseStr"@[5] || "Optional"@[6] != "LowerCaseStr"@[6] || "Optional"@[7] != "LowerCaseStr"@[7]);
    assert("Optional"@.len() != "NegativeInt"@.len() || "Optional"@[0] != "NegativeInt"@[0] || "Optional"@[1] != "NegativeInt"@[1] || "Optional"@[2] != "NegativeInt"@[2] || "Optional"@[3] != "NegativeInt"@[3] || "Optional"@[4] != "NegativeInt"@[4] || "Optional"@[5] != "NegativeInt"@[5] || "Optional"@[6] != "NegativeInt"@[6] || "Optional"@[7] != "NegativeInt"@[7]);
    assert("Optional"@.len() != "NegativeNum"@.len() || "Optional"@[0] != "NegativeNum"@[0] || "Optional"@[1] != "NegativeNum"@[1] || "Optional"@[2] != "NegativeNum"@[2] || "Optional"@[3] != "NegativeNum"@[3] || "Optional"@[4] != "NegativeNum"@[4] || "Optional"@[5] != "NegativeNum"@[5] || "Optional"@[6] != "NegativeNum"@[6] || "Optional"@[7] != "NegativeNum"@[7]);
    assert("Optional"@.len() != "NegativeOrZeroInt"@.len() || "Optional"@[0] != "NegativeOrZeroInt"@[0] || "Optional"@[1] != "NegativeOrZeroInt"@[1] || "Optional"@[2] != "NegativeOrZeroInt"@[2] || "Optional"@[3] != "NegativeOrZeroInt"@[3] || "Optional"@[4] != "NegativeOrZeroInt"@[4] || "Optional"@[5] != "NegativeOrZeroInt"@[5] || "Optional"@[6] != "NegativeOrZeroInt"@[6] || "Optional"@[7] != "NegativeOrZeroInt"@[7]);
    assert("Optional"@.len() != "NegativeOrZeroNum"@.len() || "Optional"@[0] != "NegativeOrZeroNum"@[0] || "Optional"@[1] != "NegativeOrZeroNum"@[1] || "Optional"@[2] != "NegativeOrZeroNum"@[2] || "Optional"@[3] != "NegativeOrZeroNum"@[3] || "Optional"@[4] != "NegativeOrZeroNum"@[4] || "Optional"@[5] != "NegativeOrZeroNum"@[5] || "Optional"@[6] != "NegativeOrZeroNum"@[6] || "Optional"@[7] != "NegativeOrZeroNum"@[7]);
    assert("Optional"@.len() != "NonEmptySimpleStr"@.len() || "Optional"@[0] != "NonEmptySimpleStr"@[0] || "Optional"@[1] != "NonEmptySimpleStr"@[1] || "Optional"@[2] != "NonEmptySimpleStr"@[2] || "Optional"@[3] != "NonEmptySimpleStr"@[3] || "Optional"@[4] != "NonEmptySimpleStr"@[4] || "Optional"@[5] != "NonEmptySimpleStr"@[5] || "Optional"@[6] != "NonEmptySimpleStr"@[6] || "Optional"@[7] != "NonEmptySimpleStr"@[7]);
    assert("Optional"@.len() != "NonEmptyStr"@.len() || "Optional"@[0] != "NonEmptyStr"@[0] || "Optional"@[1] != "NonEmptyStr"@[1] || "Optional"@[2] != "NonEmptyStr"@[2] || "Optional"@[3] != "NonEmptyStr"@[3] || "Optional"@[4] != "NonEmptyStr"@[4] || "Optional"@[5] != "NonEmptyStr"@[5] || "Optional"@[6] != "NonEmptyStr"@[6] || "Optional"@[7] != "NonEmptyStr"@[7]);
    assert("Optional"@.len() != "Num"@.len() || "Optional"@[0] != "Num"@[0] || "Optional"@[1] != "Num"@[1] || "Optional"@[2] != "Num"@[2]);
    assert("Optional"@.len() != "NumRange"@.len() || "Optional"@[0] != "NumRange"@[0] || "Optional"@[1] != "NumRange"@[1] || "Optional"@[2] != "NumRange"@[2] || "Optional"@[3] != "NumRange"@[3] || "Optional"@[4] != "NumRange"@[4] || "Optional"@[5] != "NumRange"@[5] || "Optional"@[6] != "NumRange"@[6] || "Optional"@[7] != "NumRange"@[7]);
    assert("Optional"@.len() != "Object"@.len() || "Optional"@[0] != "Object"@[0] || "Optional"@[1] != "Object"@[1] || "Optional"@[2] != "Object"@[2] || "Optional"@[3] != "Object"@[3] || "Optional"@[4] != "Object"@[4] || "Optional"@[5] != "Object"@[5]);
    assert("Optional"@.len() != "Password"@.len() || "Optional"@[0] != "Password"@[0] || "Optional"@[1] != "Password"@[1] || "Optional"@[2] != "Password"@[2] || "Optional"@[3] != "Password"@[3] || "Optional"@[4] != "Password"@[4] || "Optional"@[5] != "Password"@[5] || "Optional"@[6] != "Password"@[6] || "Optional"@[7] != "Password"@[7]);
    assert("Optional"@.len() != "PositiveInt"@.len() || "Optional"@[0] != "PositiveInt"@[0] || "Optional"@[1] != "PositiveInt"@[1] || "Optional"@[2] != "PositiveInt"@[2] || "Optional"@[3] != "PositiveInt"@[3] || "Optional"@[4] != "PositiveInt"@[4] || "Optional"@[5] != "PositiveInt"@[5] || "Optional"@[6] != "PositiveInt"@[6] || "Optional"@[7] != "PositiveInt"@[7]);
    assert("Optional"@.len() != "PositiveNum"@.len() || "Optional"@[0] != "PositiveNum"@[0] || "Optional"@[1] != "PositiveNum"@[1] || "Optional"@[2] != "PositiveNum"@[2] || "Optional"@[3] != "PositiveNum"@[3] || "Optional"@[4] != "PositiveNum"@[4] || "Optional"@[5] != "PositiveNum"@[5] || "Optional"@[6] != "PositiveNum"@[6] || "Optional"@[7] != "PositiveNum"@[7]);
    assert("Optional"@.len() != "PositiveOrZeroInt"@.len() || "Optional"@[0] != "PositiveOrZeroInt"@[0] || "Optional"@[1] != "PositiveOrZeroInt"@[1] || "Optional"@[2] != "PositiveOrZeroInt"@[2] || "Optional"@[3] != "PositiveOrZeroInt"@[3] || "Optional"@[4] != "PositiveOrZeroInt"@[4] || "Optional"@[5] != "PositiveOrZeroInt"@[5] || "Optional"@[6] != "PositiveOrZeroInt"@[6] || "Optional"@[7] != "PositiveOrZeroInt"@[7]);
    assert("Optional"@.len() != "PositiveOrZeroNum"@.len() || "Optional"@[0] != "PositiveOrZeroNum"@[0] || "Optional"@[1] != "PositiveOrZeroNum"@[1] || "Optional"@[2] != "PositiveOrZeroNum"@[2] || "Optional"@[3] != "PositiveOrZeroNum"@[3] || "Optional"@[4] != "PositiveOrZeroNum"@[4] || "Optional"@[5] != "PositiveOrZeroNum"@[5] || "Optional"@[6] != "PositiveOrZeroNum"@[6] || "Optional"@[7] != "PositiveOrZeroNum"@[7]);
    assert("Optional"@.len() != "Ref"@.len() || "Optional"@[0] != "Ref"@[0] || "Optional"@[1] != "Ref"@[1] || "Optional"@[2] != "Ref"@[2]);
    assert("Optional"@.len() != "RegexpRef"@.len() || "Optional"@[0] != "RegexpRef"@[0] || "Optional"@[1] != "RegexpRef"@[1] || "Optional"@[2] != "RegexpRef"@[2] || "Optional"@[3] != "RegexpRef"@[3] || "Optional"@[4] != "RegexpRef"@[4] || "Optional"@[5] != "RegexpRef"@[5] || "Optional"@[6] != "RegexpRef"@[6] || "Optional"@[7] != "RegexpRef"@[7]);
    assert("Optional"@.len() != "RoleName"@.len() || "Optional"@[0] != "RoleName"@[0] || "Optional"@[1] != "RoleName"@[1] || "Optional"@[2] != "RoleName"@[2] || "Optional"@[3] != "RoleName"@[3] || "Optional"@[4] != "RoleName"@[4] || "Optional"@[5] != "RoleName"@[5] || "Optional"@[6] != "RoleName"@[6] || "Optional"@[7] != "RoleName"@[7]);
    assert("Optional"@.len() != "SimpleStr"@.len() || "Optional"@[0] != "SimpleStr"@[0] || "Optional"@[1] != "SimpleStr"@[1] || "Optional"@[2] != "SimpleStr"@[2] || "Optional"@[3] != "SimpleStr"@[3] || "Optional"@[4] != "SimpleStr"@[4] || "Optional"@[5] != "SimpleStr"@[5] || "Optional"@[6] != "SimpleStr"@[6] || "Optional"@[7] != "SimpleStr"@[7]);
    assert("Optional"@.len() != "SingleDigit"@.len() || "Optional"@[0] != "SingleDigit"@[0] || "Optional"@[1] != "SingleDigit"@[1] || "Optional"@[2] != "SingleDigit"@[2] || "Optional"@[3] != "SingleDigit"@[3] || "Optional"@[4] != "SingleDigit"@[4] || "Optional"@[5] != "SingleDigit"@[5] || "Optional"@[6] != "SingleDigit"@[6] || "Optional"@[7] != "SingleDigit"@[7]);
    assert("Optional"@.len() != "Str"@.len() || "Optional"@[0] != "Str"@[0] || "Optional"@[1] != "Str"@[1] || "Optional"@[2] != "Str"@[2]);
    assert("Optional"@.len() != "StrMatch"@.len() || "Optional"@[0] != "StrMatch"@[0] || "Optional"@[1] != "StrMatch"@[1] || "Optional"@[2] != "StrMatch"@[2] || "Optional"@[3] != "StrMatch"@[3] || "Optional"@[4] != "StrMatch"@[4] || "Optional"@[5] != "StrMatch"@[5] || "Optional"@[6] != "StrMatch"@[6] || "Optional"@[7] != "StrMatch"@[7]);
    assert("Optional"@.len() != "StrictNum"@.len() || "Optional"@[0] != "StrictNum"@[0] || "Optional"@[1] != "StrictNum"@[1] || "Optional"@[2] != "StrictNum"@[2] || "Optional"@[3] != "StrictNum"@[3] || "Optional"@[4] != "StrictNum"@[4] || "Optional"@[5] != "StrictNum"@[5] || "Optional"@[6] != "StrictNum"@[6] || "Optional"@[7] != "StrictNum"@[7]);
    assert("Optional"@.len() != "StrongPassword"@.len() || "Optional"@[0] != "StrongPassword"@[0] || "Optional"@[1] != "StrongPassword"@[1] || "Optional"@[2] != "StrongPassword"@[2] || "Optional"@[3] != "StrongPassword"@[3] || "Optional"@[4] != "StrongPassword"@[4] || "Optional"@[5] != "StrongPassword"@[5] || "Optional"@[6] != "StrongPassword"@[6] || "Optional"@[7] != "StrongPassword"@[7]);
    assert("Optional"@.len() != "Undef"@.len() || "Optional"@[0] != "Undef"@[0] || "Optional"@[1] != "Undef"@[1] || "Optional"@[2] != "Undef"@[2] || "Optional"@[3] != "Undef"@[3] || "Optional"@[4] != "Undef"@[4]);
    assert("Optional"@.len() != "UpperCaseSimpleStr"@.len() || "Optional"@[0] != "UpperCaseSimpleStr"@[0] || "Optional"@[1] != "UpperCaseSimpleStr"@[1] || "Optional"@[2] != "UpperCaseSimpleStr"@[2] || "Optional"@[3] != "UpperCaseSimpleStr"@[3] || "Optional"@[4] != "UpperCaseSimpleStr"@[4] || "Optional"@[5] != "UpperCaseSimpleStr"@[5] || "Optional"@[6] != "UpperCaseSimpleStr"@[6] || "Optional"@[7] != "UpperCaseSimpleStr"@[7]);
    assert("Optional"@.len() != "UpperCaseStr"@.len() || "Optional"@[0] != "UpperCaseStr"@[0] || "Optional"@[1] != "UpperCaseStr"@[1] || "Optional"@[2] != "UpperCaseStr"@[2] || "Optional"@[3] != "UpperCaseStr"@[3] || "Optional"@[4] != "UpperCaseStr"@[4] || "Optional"@[5] != "UpperCaseStr"@[5] || "Optional"@[6] != "UpperCaseStr"@[6] || "Optional"@[7] != "UpperCaseStr"@[7]);
    assert("Optional"@.len() != "Value"@.len() || "Optional"@[0] != "Value"@[0] || "Optional"@[1] != "Value"@[1] || "Optional"@[2] != "Value"@[2] || "Optional"@[3] != "Value"@[3] || "Optional"@[4] != "Value"@[4]);
    assert("Optional"@.len() != "Dict"@.len() || "Optional"@[0] != "Dict"@[0] || "Optional"@[1] != "Dict"@[1] || "Optional"@[2] != "Dict"@[2] || "Optional"@[3] != "Dict"@[3]);
    assert("Optional"@.len() != "Map"@.len() || "Optional"@[0] != "Map"@[0] || "Optional"@[1] != "Map"@[1] || "Optional"@[2] != "Map"@[2]);
    assert("Optional"@.len() != "Tuple"@.len() || "Optional"@[0] != "Tuple"@[0] || "Optional"@[1] != "Tuple"@[1] || "Optional"@[2] != "Tuple"@[2] || "Optional"@[3] != "Tuple"@[3] || "Optional"@[4] != "Tuple"@[4]);
    assert("Optional"@.len() != "ScalarRef"@.len() || "Optional"@[0] != "ScalarRef"@[0] || "Optional"@[1] != "ScalarRef"@[1] || "Optional"@[2] != "ScalarRef"@[2] || "Optional"@[3] != "ScalarRef"@[3] || "Optional"@[4] != "ScalarRef"@[4] || "Optional"@[5] != "ScalarRef"@[5] || "Optional"@[6] != "ScalarRef"@[6] || "Optional"@[7] != "ScalarRef"@[7]);
    assert("Optional"@.len() != "ArrayRef"@.len() || "Optional"@[0] != "ArrayRef"@[0] || "Optional"@[1] != "ArrayRef"@[1] || "Optional"@[2] != "ArrayRef"@[2] || "Optional"@[3] != "ArrayRef"@[3] || "Optional"@[4] != "ArrayRef"@[4] || "Optional"@[5] != "ArrayRef"@[5] || "Optional"@[6] != "ArrayRef"@[6] || "Optional"@[7] != "ArrayRef"@[7]);
    assert("Optional"@.len() != "ArrayLike"@.len() || "Optional"@[0] != "ArrayLike"@[0] || "Optional"@[1] != "ArrayLike"@[1] || "Optional"@[2] != "ArrayLike"@[2] || "Optional"@[3] != "ArrayLike"@[3] || "Optional"@[4] != "ArrayLike"@[4] || "Optional"@[5] != "ArrayLike"@[5] || "Optional"@[6] != "ArrayLike"@[6] || "Optional"@[7] != "ArrayLike"@[7]);
    assert("Optional"@.len() != "HashRef"@.len() || "Optional"@[0] != "HashRef"@[0] || "Optional"@[1] != "HashRef"@[1] || "Optional"@[2] != "HashRef"@[2] || "Optional"@[3] != "HashRef"@[3] || "Optional"@[4] != "HashRef"@[4] || "Optional"@[5] != "HashRef"@[5] || "Optional"@[6] != "HashRef"@[6]);
    assert("Optional"@.len() != "HashLike"@.len() || "Optional"@[0] != "HashLike"@[0] || "Optional"@[1] != "HashLike"@[1] || "Optional"@[2] != "HashLike"@[2] || "Optional"@[3] != "HashLike"@[3] || "Optional"@[4] != "HashLike"@[4] || "Optional"@[5] != "HashLike"@[5] || "Optional"@[6] != "HashLike"@[6] || "Optional"@[7] != "HashLike"@[7]);
    assert("Optional"@.len() != "Maybe"@.len() || "Optional"@[0] != "Maybe"@[0] || "Optional"@[1] != "Maybe"@[1] || "Optional"@[2] != "Maybe"@[2] || "Optional"@[3] != "Maybe"@[3] || "Optional"@[4] != "Maybe"@[4]);
}

/// `ArrayLike[T]` and `HashLike[T]` are the array and hash references to
/// `T`, and `Optional[T]` is `T` that may be left out, whatever `T` is.
pub proof fn law_the_like_constructors_and_optional_keep_their_argument(t: TypeV)
    ensures
        spec_constructor("ArrayLike"@, seq![ArgV::Plain(t)]) == Ok::<TypeV, Seq<char>>(TypeV::ArrayRef(Box::new(t))),
        spec_constructor("HashLike"@, seq![ArgV::Plain(t)]) == Ok::<TypeV, Seq<char>>(TypeV::HashRef(Box::new(t))),
        spec_constructor("Optional"@, seq![ArgV::Plain(t)]) == Ok::<TypeV, Seq<char>>(TypeV::Optional(Box::new(t))),
{
    lemma_arraylike_is_a_reference_name();
    lemma_hashlike_is_a_reference_name();
    lemma_optional_is_a_reference_name();
    lemma_plain_one("ArrayLike"@, t);
    lemma_plain_one("HashLike"@, t);
    lemma_plain_one("Optional"@, t);
}

} // verus!
