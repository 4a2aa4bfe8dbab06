//! The `Returns:` annotation: a comment line above a `sub` saying what it
//! gives back.
//!
//! Grammar: within the comment block immediately preceding a `sub`, a line
//! whose comment text after `#` and whitespace starts with `Returns:` — in any
//! case. The rest is one of four things:
//!
//! ```text
//! # Returns: Str               scalar context: Str
//! # Returns: (Str, Int)        list context: exactly two, Str then Int
//! # Returns: (Row ...)         list context: any number of Row
//! # Returns: ()                nothing
//! ```
//!
//! and a list shape may be several fixed ones, `(Value, Undef) | (Undef,
//! Error)`. A sub with both halves writes two lines, one of each kind, in
//! either order; a second line of the same kind is a `bad-annotation`.

use vstd::prelude::*;

use crate::annotate::{annotated_views, bad_annotation, diagnostic_views, DiagV, Sink};
use crate::ast::{spec_leading_comments, SubDef};
use crate::syntax::{deref_tokens, SyntaxToken};
use crate::shape::{shape_views, spec_either, ListShape, Returns, ShapeV};
use crate::span::TextRange;
use crate::text::{
    append, chars_of, ends_with, is_whitespace, lemma_skip_white, skip_white, spec_ends_with,
    spec_trim, string_of, trim, trimmed_bounds,
};
use crate::types::{self, spec_is_type_shaped, spec_parse, strings_view, views, Type, TypeV};

verus! {

/// What one `Returns:` line says.
pub enum Written {
    Scalar(Type),
    List(ListShape),
    /// `Returns: ()`.
    Empty,
    /// Prose, or something already reported.
    Silent,
}

pub enum WrittenV {
    Scalar(TypeV),
    List(ShapeV),
    Empty,
    Silent,
}

impl View for Written {
    type V = WrittenV;

    open spec fn view(&self) -> WrittenV {
        match self {
            Written::Scalar(t) => WrittenV::Scalar(t@),
            Written::List(s) => WrittenV::List(s@),
            Written::Empty => WrittenV::Empty,
            Written::Silent => WrittenV::Silent,
        }
    }
}

/// What reading a line noted and reported: the types read, and the message
/// of every `bad-annotation`, all at the line's range.
pub struct Effects {
    pub notes: Seq<TypeV>,
    pub bads: Seq<Seq<char>>,
}

pub open spec fn no_effects() -> Effects {
    Effects { notes: Seq::empty(), bads: Seq::empty() }
}

pub open spec fn then(a: Effects, b: Effects) -> Effects {
    Effects { notes: a.notes + b.notes, bads: a.bads + b.bads }
}

pub open spec fn noted(ty: TypeV) -> Effects {
    Effects { notes: seq![ty], bads: Seq::empty() }
}

pub open spec fn reported(message: Seq<char>) -> Effects {
    Effects { notes: Seq::empty(), bads: seq![message] }
}

/// The sink after `e` happened at `range`, starting from `before`.
pub open spec fn happened(before: Sink, after: Sink, e: Effects, range: TextRange) -> bool {
    &&& annotated_views(after.annotations@) == annotated_views(before.annotations@) + e.notes.map_values(
        |t: TypeV| (t, range),
    )
    &&& diagnostic_views(after.diagnostics@) == diagnostic_views(before.diagnostics@) + e.bads.map_values(
        |m: Seq<char>| bad_annotation(range, m),
    )
}

pub open spec fn bad_returns_message(body: Seq<char>, message: Seq<char>) -> Seq<char> {
    "`Returns: "@ + body + "` does not parse: "@ + message
}

// ----- splitting -----

pub open spec fn is_open(c: char) -> bool {
    c == '[' || c == '('
}

pub open spec fn is_close(c: char) -> bool {
    c == ']' || c == ')'
}

/// The parts of `t[start..]` split on `sep` where no bracket is open, `depth`
/// brackets being open at `i`; a closing bracket never takes the count below
/// zero, and a last part that is only whitespace is dropped.
pub open spec fn split_from(t: Seq<char>, sep: char, i: int, depth: nat, start: int) -> Seq<Seq<char>>
    decreases t.len() - i,
{
    if i < 0 || i >= t.len() {
        if spec_trim(t.subrange(start, t.len() as int)).len() > 0 {
            seq![t.subrange(start, t.len() as int)]
        } else {
            Seq::empty()
        }
    } else if is_open(t[i]) {
        split_from(t, sep, i + 1, depth + 1, start)
    } else if is_close(t[i]) {
        split_from(t, sep, i + 1, if depth > 0 { (depth - 1) as nat } else { 0 }, start)
    } else if t[i] == sep && depth == 0 {
        seq![t.subrange(start, i)] + split_from(t, sep, i + 1, 0, i + 1)
    } else {
        split_from(t, sep, i + 1, depth, start)
    }
}

/// Split on separators that are not inside brackets.
pub open spec fn spec_split(t: Seq<char>, sep: char) -> Seq<Seq<char>> {
    split_from(t, sep, 0, 0, 0)
}

/// Split on `separator` where no bracket is open: `|` separates the
/// alternatives of a list shape and `,` its slots, and either is inside a
/// slot as often as it separates one.
pub fn split_top_level_on(text: &str, separator: char) -> (out: Vec<String>)
    ensures
        strings_view(out@) == spec_split(text@, separator),
{
    let c = chars_of(text);
    let n = c.len();
    let mut parts: Vec<String> = Vec::new();
    let mut depth: usize = 0;
    let mut start: usize = 0;
    let mut i: usize = 0;
    while i < n
        invariant
            n == c@.len(),
            c@ == text@,
            start <= i <= n,
            depth <= i,
            spec_split(c@, separator) == strings_view(parts@) + split_from(c@, separator, i as int, depth as nat, start as int),
        decreases n - i,
    {
        let ch = c[i];
        if ch == '[' || ch == '(' {
            depth += 1;
        } else if ch == ']' || ch == ')' {
            if depth > 0 {
                depth -= 1;
            }
        } else if ch == separator && depth == 0 {
            let part = string_of(&c, start, i);
            let ghost before = strings_view(parts@);
            parts.push(part);
            proof {
                assert(strings_view(parts@) =~= before.push(c@.subrange(start as int, i as int)));
                assert(before + (seq![c@.subrange(start as int, i as int)] + split_from(c@, separator, i + 1, 0, i + 1))
                    =~= before.push(c@.subrange(start as int, i as int)) + split_from(c@, separator, i + 1, 0, i + 1));
            }
            start = i + 1;
        }
        i += 1;
    }
    let last = string_of(&c, start, n);
    let trimmed = trim(last.as_str());
    if trimmed.unicode_len() > 0 {
        let ghost before = strings_view(parts@);
        parts.push(last);
        proof {
            assert(strings_view(parts@) =~= before + seq![c@.subrange(start as int, n as int)]);
        }
    } else {
        assert(strings_view(parts@) + Seq::<Seq<char>>::empty() =~= strings_view(parts@));
    }
    parts
}

/// Split on commas that are not inside brackets.
pub fn split_top_level(text: &str) -> (out: Vec<String>)
    ensures
        strings_view(out@) == spec_split(text@, ','),
{
    split_top_level_on(text, ',')
}

// ----- list bodies -----

/// Whether reading `t[i..]` with `depth` brackets open never closes one that
/// was not opened.
pub open spec fn closes_in_order(t: Seq<char>, i: int, depth: nat) -> bool
    decreases t.len() - i,
{
    if i < 0 || i >= t.len() {
        true
    } else if is_open(t[i]) {
        closes_in_order(t, i + 1, depth + 1)
    } else if is_close(t[i]) {
        depth > 0 && closes_in_order(t, i + 1, (depth - 1) as nat)
    } else {
        closes_in_order(t, i + 1, depth)
    }
}

/// The inside of a body that is parenthesised from its first character to
/// its last, which is what makes it a list shape.
pub open spec fn spec_list_body(b: Seq<char>) -> Option<Seq<char>> {
    if b.len() >= 2 && b[0] == '(' && b.last() == ')' && closes_in_order(b.subrange(1, b.len() - 1), 0, 0) {
        Some(b.subrange(1, b.len() - 1))
    } else {
        None
    }
}

/// The inside of a parenthesised list body. Parentheses *inside* a slot keep
/// grouping, which is why `(Str | Undef, Int)` is two slots and `(Str) |
/// (Int)` is not a list at all.
pub fn list_body(body: &str) -> (r: Option<String>)
    ensures
        match r {
            Some(s) => spec_list_body(body@) == Some(s@),
            None => spec_list_body(body@) is None,
        },
{
    let c = chars_of(body);
    let n = c.len();
    if n < 2 || c[0] != '(' || c[n - 1] != ')' {
        return None;
    }
    let ghost inner = c@.subrange(1, n - 1);
    let mut depth: usize = 0;
    let mut i: usize = 1;
    while i < n - 1
        invariant
            2 <= n,
            n == c@.len(),
            c@ == body@,
            c@[0] == '(' && c@[n - 1] == ')',
            inner == c@.subrange(1, n - 1),
            1 <= i <= n - 1,
            depth < i,
            closes_in_order(inner, 0, 0) == closes_in_order(inner, i - 1, depth as nat),
        decreases n - 1 - i,
    {
        let ch = c[i];
        assert(inner[i - 1] == ch);
        if ch == '(' || ch == '[' {
            depth += 1;
        } else if ch == ')' || ch == ']' {
            if depth == 0 {
                assert(!closes_in_order(inner, i - 1, 0));
                return None;
            }
            depth -= 1;
        }
        i += 1;
    }
    Some(string_of(&c, 1, n - 1))
}

// ----- slots -----

/// The slots `parts[k..]` read as types, stopping at the first that does
/// not parse, which is reported.
pub open spec fn slots_from(parts: Seq<Seq<char>>, k: int, body: Seq<char>) -> (Option<Seq<TypeV>>, Effects)
    decreases parts.len() - k,
{
    if k < 0 || k >= parts.len() {
        (Some(Seq::empty()), no_effects())
    } else {
        match spec_parse(spec_trim(parts[k])) {
            Ok(ty) => {
                let (rest, e) = slots_from(parts, k + 1, body);
                (
                    match rest {
                        Some(r) => Some(seq![ty] + r),
                        None => None,
                    },
                    then(noted(ty), e),
                )
            },
            Err(m) => (None, reported(bad_returns_message(body, m))),
        }
    }
}

/// The slots of one parenthesised list body, or `None` where it is prose —
/// `# Returns: (see below)` — or does not parse.
pub open spec fn spec_fixed_slots(inner: Seq<char>, body: Seq<char>) -> (Option<Seq<TypeV>>, Effects) {
    let parts = spec_split(inner, ',');
    if exists|k: int| 0 <= k < parts.len() && !spec_is_type_shaped(spec_trim(#[trigger] parts[k])) {
        (None, no_effects())
    } else {
        slots_from(parts, 0, body)
    }
}

proof fn lemma_then_assoc(a: Effects, b: Effects, c: Effects)
    ensures
        then(then(a, b), c) == then(a, then(b, c)),
{
    assert(then(then(a, b), c).notes =~= then(a, then(b, c)).notes);
    assert(then(then(a, b), c).bads =~= then(a, then(b, c)).bads);
}

proof fn lemma_then_none(a: Effects)
    ensures
        then(a, no_effects()) == a,
        then(no_effects(), a) == a,
{
    assert(then(a, no_effects()).notes =~= a.notes);
    assert(then(a, no_effects()).bads =~= a.bads);
    assert(then(no_effects(), a).notes =~= a.notes);
    assert(then(no_effects(), a).bads =~= a.bads);
}

proof fn lemma_happened_then(s0: Sink, s1: Sink, s2: Sink, a: Effects, b: Effects, range: TextRange)
    requires
        happened(s0, s1, a, range),
        happened(s1, s2, b, range),
    ensures
        happened(s0, s2, then(a, b), range),
{
    let n0 = annotated_views(s0.annotations@);
    let an = a.notes.map_values(|t: TypeV| (t, range));
    let bn = b.notes.map_values(|t: TypeV| (t, range));
    assert((a.notes + b.notes).map_values(|t: TypeV| (t, range)) =~= an + bn);
    assert(n0 + (an + bn) =~= (n0 + an) + bn);
    let d0 = diagnostic_views(s0.diagnostics@);
    let ad = a.bads.map_values(|m: Seq<char>| bad_annotation(range, m));
    let bd = b.bads.map_values(|m: Seq<char>| bad_annotation(range, m));
    assert((a.bads + b.bads).map_values(|m: Seq<char>| bad_annotation(range, m)) =~= ad + bd);
    assert(d0 + (ad + bd) =~= (d0 + ad) + bd);
}

proof fn lemma_happened_nothing(s: Sink, range: TextRange)
    ensures
        happened(s, s, no_effects(), range),
{
    assert(annotated_views(s.annotations@) + no_effects().notes.map_values(|t: TypeV| (t, range)) =~= annotated_views(s.annotations@));
    assert(diagnostic_views(s.diagnostics@) + no_effects().bads.map_values(|m: Seq<char>| bad_annotation(range, m))
        =~= diagnostic_views(s.diagnostics@));
}

fn note(into: &mut Sink, ty: &Type, range: TextRange)
    ensures
        happened(*old(into), *final(into), noted(ty@), range),
{
    let ghost before = *into;
    into.note(ty, range);
    proof {
        assert(noted(ty@).notes.map_values(|t: TypeV| (t, range)) =~= seq![(ty@, range)]);
        assert(annotated_views(into.annotations@) =~= annotated_views(before.annotations@) + noted(ty@).notes.map_values(
            |t: TypeV| (t, range),
        ));
        assert(diagnostic_views(into.diagnostics@) =~= diagnostic_views(before.diagnostics@) + noted(ty@).bads.map_values(
            |m: Seq<char>| bad_annotation(range, m),
        ));
    }
}

fn bad_returns(body: &str, range: TextRange, message: &str, into: &mut Sink)
    ensures
        happened(*old(into), *final(into), reported(bad_returns_message(body@, message@)), range),
{
    let mut text = String::new();
    append(&mut text, "`Returns: ");
    append(&mut text, body);
    append(&mut text, "` does not parse: ");
    append(&mut text, message);
    assert(text@ =~= bad_returns_message(body@, message@));
    let ghost before = *into;
    into.bad(range, text);
    proof {
        let m = bad_returns_message(body@, message@);
        assert(reported(m).bads.map_values(|x: Seq<char>| bad_annotation(range, x)) =~= seq![bad_annotation(range, m)]);
        assert(annotated_views(into.annotations@) =~= annotated_views(before.annotations@) + reported(m).notes.map_values(
            |t: TypeV| (t, range),
        ));
        assert(diagnostic_views(into.diagnostics@) =~= diagnostic_views(before.diagnostics@) + reported(m).bads.map_values(
            |x: Seq<char>| bad_annotation(range, x),
        ));
    }
}

fn fixed_slots(inner: &str, body: &str, range: TextRange, into: &mut Sink) -> (r: Option<Vec<Type>>)
    ensures
        ({
            let (want, e) = spec_fixed_slots(inner@, body@);
            &&& happened(*old(into), *final(into), e, range)
            &&& match r {
                Some(v) => want == Some(views(v@)),
                None => want is None,
            }
        }),
{
    let parts = split_top_level(inner);
    let ghost ps = strings_view(parts@);
    let mut k: usize = 0;
    while k < parts.len()
        invariant
            k <= parts@.len(),
            ps == strings_view(parts@),
            ps == spec_split(inner@, ','),
            *into == *old(into),
            forall|j: int| 0 <= j < k ==> spec_is_type_shaped(spec_trim(#[trigger] ps[j])),
        decreases parts@.len() - k,
    {
        let t = trim(parts[k].as_str());
        if !types::is_type_shaped(t.as_str()) {
            proof {
                assert(!spec_is_type_shaped(spec_trim(ps[k as int])));
                lemma_happened_nothing(*into, range);
            }
            return None;
        }
        k += 1;
    }
    assert(!(exists|j: int| 0 <= j < ps.len() && !spec_is_type_shaped(spec_trim(#[trigger] ps[j]))));
    let ghost start = *into;
    let mut members: Vec<Type> = Vec::new();
    let mut k: usize = 0;
    proof {
        lemma_happened_nothing(*into, range);
        lemma_then_none(slots_from(ps, 0, body@).1);
    }
    while k < parts.len()
        invariant
            k <= parts@.len(),
            ps == strings_view(parts@),
            ps == spec_split(inner@, ','),
            start == *old(into),
            !(exists|j: int| 0 <= j < ps.len() && !spec_is_type_shaped(spec_trim(#[trigger] ps[j]))),
            ({
                let (rest, e) = slots_from(ps, k as int, body@);
                let (all, total) = slots_from(ps, 0, body@);
                &&& total == then(noted_all(views(members@)), e)
                &&& all == (match rest {
                    Some(r) => Some(views(members@) + r),
                    None => None::<Seq<TypeV>>,
                })
                &&& happened(start, *into, noted_all(views(members@)), range)
            }),
        decreases parts@.len() - k,
    {
        let t = trim(parts[k].as_str());
        match types::parse(t.as_str()) {
            Ok(ty) => {
                let ghost s1 = *into;
                note(into, &ty, range);
                proof {
                    lemma_happened_then(start, s1, *into, noted_all(views(members@)), noted(ty@), range);
                    lemma_noted_all_push(views(members@), ty@);
                    lemma_views_push_type(members@, ty);
                    let (rest, e) = slots_from(ps, k + 1, body@);
                    lemma_then_assoc(noted_all(views(members@)), noted(ty@), e);
                    match rest {
                        Some(r) => {
                            assert(views(members@) + (seq![ty@] + r) =~= views(members@).push(ty@) + r);
                        },
                        None => {},
                    }
                }
                members.push(ty);
            },
            Err(error) => {
                let ghost s1 = *into;
                bad_returns(body, range, error.message.as_str(), into);
                proof {
                    lemma_happened_then(start, s1, *into, noted_all(views(members@)), reported(bad_returns_message(body@, error.message@)), range);
                }
                return None;
            },
        }
        k += 1;
    }
    proof {
        lemma_then_none(noted_all(views(members@)));
        assert(views(members@) + Seq::<TypeV>::empty() =~= views(members@));
    }
    Some(members)
}

/// Every type in `ts` noted, in order.
pub open spec fn noted_all(ts: Seq<TypeV>) -> Effects {
    Effects { notes: ts, bads: Seq::empty() }
}

proof fn lemma_noted_all_push(ts: Seq<TypeV>, t: TypeV)
    ensures
        then(noted_all(ts), noted(t)) == noted_all(ts.push(t)),
{
    assert(then(noted_all(ts), noted(t)).notes =~= ts.push(t));
    assert(then(noted_all(ts), noted(t)).bads =~= Seq::<Seq<char>>::empty());
}

proof fn lemma_views_push_type(s: Seq<Type>, t: Type)
    ensures
        views(s.push(t)) == views(s).push(t@),
{
    types::lemma_views_push(s, t);
}

// ----- alternation -----

/// Each of `inners[k..]` read as one alternative's slots, stopping at the
/// first that is prose or does not parse.
pub open spec fn shapes_from(inners: Seq<Seq<char>>, k: int, body: Seq<char>) -> (Option<Seq<Seq<TypeV>>>, Effects)
    decreases inners.len() - k,
{
    if k < 0 || k >= inners.len() {
        (Some(Seq::empty()), no_effects())
    } else {
        let (slots, e) = spec_fixed_slots(spec_trim(inners[k]), body);
        match slots {
            None => (None, e),
            Some(one) => {
                let (rest, e2) = shapes_from(inners, k + 1, body);
                (
                    match rest {
                        Some(r) => Some(seq![one] + r),
                        None => None,
                    },
                    then(e, e2),
                )
            },
        }
    }
}

pub open spec fn same_width_message() -> Seq<char> {
    "the alternatives of a list shape all have the same number of slots"@
}

/// `(Value, Undef) | (Undef, Error)` — only where *every* part is
/// parenthesised from its first character to its last: `Str | Undef` is a
/// scalar union.
pub open spec fn spec_alternation(body: Seq<char>) -> (Option<WrittenV>, Effects) {
    let parts = spec_split(body, '|');
    if parts.len() < 2 {
        (None, no_effects())
    } else if exists|k: int| 0 <= k < parts.len() && spec_list_body(spec_trim(#[trigger] parts[k])) is None {
        (None, no_effects())
    } else {
        let inners = Seq::new(parts.len(), |k: int| spec_list_body(spec_trim(parts[k]))->Some_0);
        let (shapes, e) = shapes_from(inners, 0, body);
        match shapes {
            None => (None, e),
            Some(ss) => if exists|i: int| 0 <= i < ss.len() && (#[trigger] ss[i]).len() != ss[0].len() {
                (Some(WrittenV::Silent), then(e, reported(bad_returns_message(body, same_width_message()))))
            } else {
                (Some(WrittenV::List(spec_either(ss))), e)
            },
        }
    }
}

#[verifier::loop_isolation(false)]
fn alternation(body: &str, range: TextRange, into: &mut Sink) -> (r: Option<Written>)
    ensures
        ({
            let (want, e) = spec_alternation(body@);
            &&& happened(*old(into), *final(into), e, range)
            &&& match r {
                Some(w) => want == Some(w@),
                None => want is None,
            }
        }),
{
    let ghost start = *into;
    proof {
        lemma_happened_nothing(*into, range);
    }
    let parts = split_top_level_on(body, '|');
    let ghost ps = strings_view(parts@);
    if parts.len() < 2 {
        return None;
    }
    let mut bodies: Vec<String> = Vec::new();
    let mut k: usize = 0;
    while k < parts.len()
        invariant
            k <= parts@.len(),
            ps == strings_view(parts@),
            ps == spec_split(body@, '|'),
            *into == start,
            bodies@.len() == k,
            forall|j: int| 0 <= j < k ==> spec_list_body(spec_trim(#[trigger] ps[j])) == Some(bodies@[j]@),
        decreases parts@.len() - k,
    {
        let t = trim(parts[k].as_str());
        match list_body(t.as_str()) {
            Some(inner) => bodies.push(inner),
            None => {
                assert(spec_list_body(spec_trim(ps[k as int])) is None);
                return None;
            },
        }
        k += 1;
    }
    let ghost inners = Seq::new(ps.len(), |j: int| spec_list_body(spec_trim(ps[j]))->Some_0);
    assert(!(exists|j: int| 0 <= j < ps.len() && spec_list_body(spec_trim(#[trigger] ps[j])) is None));
    assert forall|j: int| 0 <= j < ps.len() implies inners[j] == bodies@[j]@ by {}
    assert(inners =~= Seq::new(spec_split(body@, '|').len(), |j: int| spec_list_body(spec_trim(spec_split(body@, '|')[j]))->Some_0));
    let mut shapes: Vec<Vec<Type>> = Vec::new();
    let mut k: usize = 0;
    let ghost mut done = no_effects();
    proof {
        lemma_then_none(shapes_from(inners, 0, body@).1);
    }
    while k < bodies.len()
        invariant
            k <= bodies@.len(),
            bodies@.len() == inners.len(),
            forall|j: int| 0 <= j < inners.len() ==> inners[j] == bodies@[j]@,
            start == *old(into),
            shapes_from(inners, 0, body@).1 == then(done, shapes_from(inners, k as int, body@).1),
            happened(start, *into, done, range),
            shapes_from(inners, 0, body@).0 == (match shapes_from(inners, k as int, body@).0 {
                Some(r) => Some(shape_views(shapes@) + r),
                None => None::<Seq<Seq<TypeV>>>,
            }),
        decreases bodies@.len() - k,
    {
        let ghost s1 = *into;
        let t = trim(bodies[k].as_str());
        match fixed_slots(t.as_str(), body, range, into) {
            Some(one) => {
                proof {
                    let (slots, e1) = spec_fixed_slots(spec_trim(inners[k as int]), body@);
                    let (rest2, e2) = shapes_from(inners, k + 1, body@);
                    lemma_happened_then(start, s1, *into, done, e1, range);
                    lemma_then_assoc(done, e1, e2);
                    match rest2 {
                        Some(r) => {
                            assert(shape_views(shapes@) + (seq![views(one@)] + r) =~= shape_views(shapes@).push(views(one@)) + r);
                        },
                        None => {},
                    }
                    done = then(done, e1);
                }
                let ghost before = shape_views(shapes@);
                shapes.push(one);
                proof {
                    assert(shape_views(shapes@) =~= before.push(views(one@)));
                }
            },
            None => {
                proof {
                    let (slots, e1) = spec_fixed_slots(spec_trim(inners[k as int]), body@);
                    lemma_happened_then(start, s1, *into, done, e1, range);
                }
                return None;
            },
        }
        k += 1;
    }
    proof {
        lemma_then_none(done);
        assert(shape_views(shapes@) + Seq::<Seq<TypeV>>::empty() =~= shape_views(shapes@));
    }
    let n = shapes.len();
    let mut i: usize = 0;
    while i < n
        invariant
            i <= n,
            n == shapes@.len(),
            start == *old(into),
            happened(start, *into, done, range),
            n > 0 ==> forall|j: int| 0 <= j < i ==> (#[trigger] shape_views(shapes@)[j]).len() == shape_views(shapes@)[0].len(),
        decreases n - i,
    {
        proof {
            types::lemma_views(shapes@[i as int]@);
            types::lemma_views(shapes@[0]@);
        }
        if shapes[i].len() != shapes[0].len() {
            let ghost s1 = *into;
            bad_returns(body, range, "the alternatives of a list shape all have the same number of slots", into);
            proof {
                assert(shape_views(shapes@)[i as int].len() != shape_views(shapes@)[0].len());
                lemma_happened_then(start, s1, *into, done, reported(bad_returns_message(body@, same_width_message())), range);
            }
            return Some(Written::Silent);
        }
        i += 1;
    }
    Some(Written::List(ListShape::either(shapes)))
}

// ----- one line -----

/// `s` without the copies of `c` at its end.
pub open spec fn drop_trailing(s: Seq<char>, c: char) -> Seq<char>
    decreases s.len(),
{
    if s.len() > 0 && s.last() == c {
        drop_trailing(s.drop_last(), c)
    } else {
        s
    }
}

pub open spec fn list_form_message() -> Seq<char> {
    "a list shape is written `(T, U)` or `(T ...)`, on a `Returns:` line of its own"@
}

pub open spec fn repeats_one_message() -> Seq<char> {
    "`...` repeats one type, so there is one"@
}

/// What a `Returns:` line that is not an alternation says.
pub open spec fn spec_single(body: Seq<char>) -> (WrittenV, Effects) {
    match spec_list_body(body) {
        None => if !spec_is_type_shaped(body) {
            (WrittenV::Silent, no_effects())
        } else {
            match spec_parse(body) {
                Ok(ty) => (WrittenV::Scalar(ty), noted(ty)),
                Err(m) => (WrittenV::Silent, reported(bad_returns_message(body, m))),
            }
        },
        Some(inner0) => {
            let inner = spec_trim(inner0);
            if inner.len() == 0 {
                (WrittenV::Empty, no_effects())
            } else if spec_ends_with(inner, "..."@) {
                let repeated = spec_trim(drop_trailing(spec_trim(inner.subrange(0, inner.len() - 3)), ','));
                if repeated.len() == 0 || spec_split(repeated, ',').len() != 1 {
                    (WrittenV::Silent, reported(bad_returns_message(body, repeats_one_message())))
                } else if !spec_is_type_shaped(repeated) {
                    (WrittenV::Silent, no_effects())
                } else {
                    match spec_parse(repeated) {
                        Ok(ty) => (WrittenV::List(ShapeV::Of(ty)), noted(ty)),
                        Err(m) => (WrittenV::Silent, reported(bad_returns_message(body, m))),
                    }
                }
            } else {
                let (slots, e) = spec_fixed_slots(inner, body);
                match slots {
                    Some(ms) => (WrittenV::List(ShapeV::Fixed(ms)), e),
                    None => (WrittenV::Silent, e),
                }
            }
        },
    }
}

/// What one `Returns:` line says, and what reading it noted and reported.
pub open spec fn spec_parse_returns(text: Seq<char>) -> (WrittenV, Effects) {
    let body = spec_trim(text);
    if body.len() == 0 {
        (WrittenV::Silent, no_effects())
    } else if crate::text::spec_contains(body, "list:"@) {
        (WrittenV::Silent, reported(bad_returns_message(body, list_form_message())))
    } else {
        let (alt, e1) = spec_alternation(body);
        match alt {
            Some(w) => (w, e1),
            None => {
                let (w, e2) = spec_single(body);
                (w, then(e1, e2))
            },
        }
    }
}

fn single(body: &str, range: TextRange, into: &mut Sink) -> (r: Written)
    ensures
        ({
            let (want, e) = spec_single(body@);
            &&& happened(*old(into), *final(into), e, range)
            &&& r@ == want
        }),
{
    proof {
        lemma_happened_nothing(*into, range);
    }
    let inner = match list_body(body) {
        None => {
            if !types::is_type_shaped(body) {
                return Written::Silent;
            }
            return match types::parse(body) {
                Ok(ty) => {
                    note(into, &ty, range);
                    Written::Scalar(ty)
                },
                Err(error) => {
                    bad_returns(body, range, error.message.as_str(), into);
                    Written::Silent
                },
            };
        },
        Some(inner) => inner,
    };
    let inner = trim(inner.as_str());
    if inner.unicode_len() == 0 {
        return Written::Empty;
    }
    if ends_with(inner.as_str(), "...") {
        let c = chars_of(inner.as_str());
        proof {
            reveal_strlit("...");
        }
        let head = string_of(&c, 0, c.len() - 3);
        let head = trim(head.as_str());
        let hc = chars_of(head.as_str());
        let mut end = hc.len();
        assert(hc@.subrange(0, hc@.len() as int) =~= hc@);
        while end > 0 && hc[end - 1] == ','
            invariant
                end <= hc@.len(),
                drop_trailing(hc@, ',') == drop_trailing(hc@.subrange(0, end as int), ','),
            decreases end,
        {
            proof {
                assert(hc@.subrange(0, end as int).drop_last() =~= hc@.subrange(0, end - 1));
            }
            end -= 1;
        }
        proof {
            assert(hc@.subrange(0, hc@.len() as int) =~= hc@);
        }
        let stripped = string_of(&hc, 0, end);
        let repeated = trim(stripped.as_str());
        if repeated.unicode_len() == 0 || split_top_level(repeated.as_str()).len() != 1 {
            bad_returns(body, range, "`...` repeats one type, so there is one", into);
            return Written::Silent;
        }
        if !types::is_type_shaped(repeated.as_str()) {
            return Written::Silent;
        }
        return match types::parse(repeated.as_str()) {
            Ok(ty) => {
                note(into, &ty, range);
                Written::List(ListShape::Of(ty))
            },
            Err(error) => {
                bad_returns(body, range, error.message.as_str(), into);
                Written::Silent
            },
        };
    }
    match fixed_slots(inner.as_str(), body, range, into) {
        Some(members) => Written::List(ListShape::Fixed(members)),
        None => Written::Silent,
    }
}

fn parse_returns(text: &str, range: TextRange, into: &mut Sink) -> (r: Written)
    ensures
        ({
            let (want, e) = spec_parse_returns(text@);
            &&& happened(*old(into), *final(into), e, range)
            &&& r@ == want
        }),
{
    proof {
        lemma_happened_nothing(*into, range);
    }
    let trimmed = trim(text);
    let body = trimmed.as_str();
    if body.unicode_len() == 0 {
        return Written::Silent;
    }
    if crate::text::contains(body, "list:") {
        bad_returns(
            body,
            range,
            "a list shape is written `(T, U)` or `(T ...)`, on a `Returns:` line of its own",
            into,
        );
        return Written::Silent;
    }
    let ghost s0 = *into;
    match alternation(body, range, into) {
        Some(written) => written,
        None => {
            let ghost s1 = *into;
            let w = single(body, range, into);
            proof {
                lemma_happened_then(s0, s1, *into, spec_alternation(body@).1, spec_single(body@).1, range);
            }
            w
        },
    }
}

// ----- the comment block -----

/// Where the run of `#` that starts at `i` ends.
pub open spec fn skip_hashes(s: Seq<char>, i: int) -> int
    decreases s.len() - i,
{
    if 0 <= i < s.len() && s[i] == '#' {
        skip_hashes(s, i + 1)
    } else {
        i
    }
}

proof fn lemma_skip_hashes(s: Seq<char>, i: int)
    requires
        0 <= i <= s.len(),
    ensures
        i <= skip_hashes(s, i) <= s.len(),
    decreases s.len() - i,
{
    if i < s.len() && s[i] == '#' {
        lemma_skip_hashes(s, i + 1);
    }
}

/// A character with an ASCII capital read as its small letter.
pub open spec fn ascii_lower(c: char) -> char {
    if 'A' <= c && c <= 'Z' {
        ((c as u32) + 32) as char
    } else {
        c
    }
}

pub open spec fn returns_keyword() -> Seq<char> {
    seq!['r', 'e', 't', 'u', 'r', 'n', 's', ':']
}

/// The text after `# Returns:`, trimmed, if the comment is one; the keyword
/// is matched without regard to case.
pub open spec fn spec_annotation_body(text: Seq<char>) -> Option<Seq<char>> {
    let t = crate::text::spec_trim_start(text.subrange(skip_hashes(text, 0), text.len() as int));
    if t.len() >= 8 && forall|i: int| 0 <= i < 8 ==> ascii_lower(#[trigger] t[i]) == returns_keyword()[i] {
        Some(spec_trim(t.subrange(8, t.len() as int)))
    } else {
        None
    }
}

fn lower(c: char) -> (r: char)
    ensures
        r == ascii_lower(c),
{
    if 'A' <= c && c <= 'Z' {
        ((c as u8) + 32) as char
    } else {
        c
    }
}

/// The text after `# Returns:`, if this comment is one.
#[verifier::loop_isolation(false)]
pub fn annotation_body(text: &str) -> (r: Option<String>)
    ensures
        match r {
            Some(b) => spec_annotation_body(text@) == Some(b@),
            None => spec_annotation_body(text@) is None,
        },
{
    let c = chars_of(text);
    let n = c.len();
    let mut i: usize = 0;
    while i < n && c[i] == '#'
        invariant
            i <= n,
            n == c@.len(),
            skip_hashes(c@, 0) == skip_hashes(c@, i as int),
        decreases n - i,
    {
        i += 1;
    }
    proof {
        lemma_skip_hashes(c@, 0);
    }
    let rest = string_of(&c, i, n);
    let t = crate::text::trim_start(rest.as_str());
    let tc = chars_of(t.as_str());
    if tc.len() < 8 {
        return None;
    }
    let keyword: [char; 8] = ['r', 'e', 't', 'u', 'r', 'n', 's', ':'];
    assert(keyword@ =~= returns_keyword());
    let mut k: usize = 0;
    while k < 8
        invariant
            k <= 8,
            tc@.len() >= 8,
            keyword@ == returns_keyword(),
            forall|j: int| 0 <= j < k ==> ascii_lower(#[trigger] tc@[j]) == returns_keyword()[j],
        decreases 8 - k,
    {
        if lower(tc[k]) != keyword[k] {
            return None;
        }
        k += 1;
    }
    let tail = string_of(&tc, 8, tc.len());
    Some(trim(tail.as_str()))
}

/// Where reading a comment block has got to: the two halves, which of them
/// a line has named, and whether any line was an annotation at all.
pub struct ReadState {
    pub scalar: TypeV,
    pub list: ShapeV,
    pub scalar_seen: bool,
    pub list_seen: bool,
    pub found: bool,
}

pub open spec fn read_start() -> ReadState {
    ReadState { scalar: TypeV::Unknown, list: ShapeV::Unknown, scalar_seen: false, list_seen: false, found: false }
}

pub open spec fn twice_scalar_message() -> Seq<char> {
    "`Returns:` names a scalar type twice"@
}

pub open spec fn twice_list_message() -> Seq<char> {
    "`Returns:` names a list shape twice"@
}

pub open spec fn whole_answer_message() -> Seq<char> {
    "`Returns: ()` is the whole answer"@
}

/// One comment line read into the state.
pub open spec fn read_line(st: ReadState, text: Seq<char>) -> (ReadState, Effects) {
    match spec_annotation_body(text) {
        None => (st, no_effects()),
        Some(body) => {
            let (w, e) = spec_parse_returns(body);
            let st = ReadState { found: true, ..st };
            match w {
                WrittenV::Scalar(ty) => if st.scalar_seen {
                    (st, then(e, reported(bad_returns_message(body, twice_scalar_message()))))
                } else {
                    (ReadState { scalar: ty, scalar_seen: true, ..st }, e)
                },
                WrittenV::List(shape) => if st.list_seen {
                    (st, then(e, reported(bad_returns_message(body, twice_list_message()))))
                } else {
                    (ReadState { list: shape, list_seen: true, ..st }, e)
                },
                WrittenV::Empty => if st.scalar_seen || st.list_seen {
                    (st, then(e, reported(bad_returns_message(body, whole_answer_message()))))
                } else {
                    (ReadState { scalar: TypeV::Undef, list: ShapeV::Nothing, scalar_seen: true, list_seen: true, ..st }, e)
                },
                WrittenV::Silent => (st, e),
            }
        },
    }
}

/// The annotations and reports of reading `comments[..n]`, each at its
/// comment's range.
pub open spec fn read_lines(comments: Seq<(Seq<char>, TextRange)>, n: int) -> (ReadState, Seq<(TypeV, TextRange)>, Seq<DiagV>)
    decreases n,
{
    if n <= 0 {
        (read_start(), Seq::empty(), Seq::empty())
    } else {
        let (st, notes, bads) = read_lines(comments, n - 1);
        let (text, range) = comments[n - 1];
        let (st2, e) = read_line(st, text);
        (
            st2,
            notes + e.notes.map_values(|t: TypeV| (t, range)),
            bads + e.bads.map_values(|m: Seq<char>| bad_annotation(range, m)),
        )
    }
}

pub open spec fn comment_views(comments: Seq<(String, TextRange)>) -> Seq<(Seq<char>, TextRange)> {
    comments.map_values(|c: (String, TextRange)| (c.0@, c.1))
}

/// The state as it stands in the variables that carry it.
pub open spec fn state_of(answer: Returns, found: bool, scalar_seen: bool, list_seen: bool) -> ReadState {
    ReadState { scalar: answer.scalar@, list: answer.list@, scalar_seen, list_seen, found }
}

/// One comment line read into the state.
fn read_one(
    text: &str,
    range: TextRange,
    answer: &mut Returns,
    found: &mut bool,
    scalar_seen: &mut bool,
    list_seen: &mut bool,
    into: &mut Sink,
)
    ensures
        ({
            let (st, e) = read_line(state_of(*old(answer), *old(found), *old(scalar_seen), *old(list_seen)), text@);
            &&& happened(*old(into), *final(into), e, range)
            &&& st == state_of(*final(answer), *final(found), *final(scalar_seen), *final(list_seen))
            &&& final(answer).inferred == old(answer).inferred
            &&& final(answer).invocant == old(answer).invocant
        }),
{
    let body = match annotation_body(text) {
        Some(body) => body,
        None => {
            proof {
                lemma_happened_nothing(*into, range);
            }
            return;
        },
    };
    *found = true;
    let ghost s1 = *into;
    let written = parse_returns(body.as_str(), range, into);
    let ghost e = spec_parse_returns(body@).1;
    match written {
        Written::Scalar(ty) => {
            if *scalar_seen {
                let ghost s2 = *into;
                bad_returns(body.as_str(), range, "`Returns:` names a scalar type twice", into);
                proof {
                    lemma_happened_then(s1, s2, *into, e, reported(bad_returns_message(body@, twice_scalar_message())), range);
                }
            } else {
                *scalar_seen = true;
                answer.scalar = ty;
            }
        },
        Written::List(shape) => {
            if *list_seen {
                let ghost s2 = *into;
                bad_returns(body.as_str(), range, "`Returns:` names a list shape twice", into);
                proof {
                    lemma_happened_then(s1, s2, *into, e, reported(bad_returns_message(body@, twice_list_message())), range);
                }
            } else {
                *list_seen = true;
                answer.list = shape;
            }
        },
        Written::Empty => {
            if *scalar_seen || *list_seen {
                let ghost s2 = *into;
                bad_returns(body.as_str(), range, "`Returns: ()` is the whole answer", into);
                proof {
                    lemma_happened_then(s1, s2, *into, e, reported(bad_returns_message(body@, whole_answer_message())), range);
                }
            } else {
                *scalar_seen = true;
                *list_seen = true;
                answer.scalar = Type::Undef;
                answer.list = ListShape::Nothing;
            }
        },
        Written::Silent => {},
    }
}

/// Read the `Returns:` lines out of a comment block, each comment with its
/// range. Every line is read rather than the first, because a sub with both
/// halves writes two; `None` when no line was an annotation.
pub fn read_returns_in(comments: &Vec<(String, TextRange)>, into: &mut Sink) -> (r: Option<Returns>)
    ensures
        ({
            let (st, notes, bads) = read_lines(comment_views(comments@), comments@.len() as int);
            &&& annotated_views(final(into).annotations@) == annotated_views(old(into).annotations@) + notes
            &&& diagnostic_views(final(into).diagnostics@) == diagnostic_views(old(into).diagnostics@) + bads
            &&& match r {
                Some(ret) => st.found && ret.scalar@ == st.scalar && ret.list@ == st.list && !ret.inferred && !ret.invocant,
                None => !st.found,
            }
        }),
{
    let ghost cs = comment_views(comments@);
    let ghost start = *into;
    let mut answer = Returns::default();
    let mut found = false;
    let mut scalar_seen = false;
    let mut list_seen = false;
    let mut i: usize = 0;
    proof {
        assert(annotated_views(into.annotations@) + Seq::<(TypeV, TextRange)>::empty() =~= annotated_views(into.annotations@));
        assert(diagnostic_views(into.diagnostics@) + Seq::<DiagV>::empty() =~= diagnostic_views(into.diagnostics@));
    }
    while i < comments.len()
        invariant
            i <= comments@.len(),
            cs == comment_views(comments@),
            start == *old(into),
            !answer.inferred && !answer.invocant,
            read_lines(cs, i as int).0 == state_of(answer, found, scalar_seen, list_seen),
            annotated_views(into.annotations@) == annotated_views(start.annotations@) + read_lines(cs, i as int).1,
            diagnostic_views(into.diagnostics@) == diagnostic_views(start.diagnostics@) + read_lines(cs, i as int).2,
        decreases comments@.len() - i,
    {
        let ghost s0 = *into;
        let ghost prev = read_lines(cs, i as int);
        let text = comments[i].0.as_str();
        let range = comments[i].1;
        proof {
            assert(cs[i as int] == (text@, range));
        }
        read_one(text, range, &mut answer, &mut found, &mut scalar_seen, &mut list_seen, into);
        proof {
            let e = read_line(prev.0, text@).1;
            assert(annotated_views(into.annotations@) =~= annotated_views(start.annotations@) + (prev.1 + e.notes.map_values(|t: TypeV| (t, range))));
            assert(diagnostic_views(into.diagnostics@) =~= diagnostic_views(start.diagnostics@) + (prev.2 + e.bads.map_values(|m: Seq<char>| bad_annotation(range, m))));
        }
        i += 1;
    }
    if found {
        Some(answer)
    } else {
        None
    }
}

pub open spec fn token_lines(ts: Seq<SyntaxToken>) -> Seq<(Seq<char>, TextRange)> {
    ts.map_values(|t: SyntaxToken| (t.text@, t.range))
}

/// Read the `Returns:` lines out of a sub's leading comment block. `None`
/// when no line there is an annotation.
pub fn read_returns(definition: &SubDef, into: &mut Sink) -> (r: Option<Returns>)
    ensures
        ({
            let lines = token_lines(spec_leading_comments(*definition.0));
            let (st, notes, bads) = read_lines(lines, lines.len() as int);
            &&& annotated_views(final(into).annotations@) == annotated_views(old(into).annotations@) + notes
            &&& diagnostic_views(final(into).diagnostics@) == diagnostic_views(old(into).diagnostics@) + bads
            &&& match r {
                Some(ret) => st.found && ret.scalar@ == st.scalar && ret.list@ == st.list && !ret.inferred && !ret.invocant,
                None => !st.found,
            }
        }),
{
    let tokens = definition.leading_comments();
    let ghost ts = spec_leading_comments(*definition.0);
    let mut comments: Vec<(String, TextRange)> = Vec::new();
    let mut i: usize = 0;
    while i < tokens.len()
        invariant
            i <= tokens@.len(),
            deref_tokens(tokens@) == ts,
            comment_views(comments@) == token_lines(ts).subrange(0, i as int),
        decreases tokens@.len() - i,
    {
        let t = tokens[i];
        assert(deref_tokens(tokens@)[i as int] == *t);
        let ghost before = comment_views(comments@);
        comments.push((t.text.clone(), t.range));
        assert(comment_views(comments@) =~= before.push((t.text@, t.range)));
        assert(comment_views(comments@) =~= token_lines(ts).subrange(0, i + 1));
        i += 1;
    }
    assert(token_lines(ts).subrange(0, tokens@.len() as int) =~= token_lines(ts));
    read_returns_in(&comments, into)
}

} // verus!
