//! What holds of the two type relations, and of the class hierarchy they
//! consult.
use vstd::prelude::*;
use crate::flow::{
    dict_slot_held, dict_slot_met, edge, first_key, heads_family, heads_kind_family, is_path, is_reference_kind,
    is_value_kind, lemma_first_key, spec_assignable, spec_compatible, spec_isa, step_up,
};
use crate::types::{spec_required, TypeV};

verus! {

/// Whether a slot, read past any `Optional`, holds nothing but `undef`.
pub open spec fn holds_only_undef(s: TypeV) -> bool
    decreases s,
{
    let r = spec_required(s);
    if r is Unknown || r is Any {
        false
    } else if r is Union {
        forall|i: int| #![trigger r->Union_0[i]] 0 <= i < r->Union_0.len() ==> holds_only_undef(r->Union_0[i])
    } else {
        r is Undef
    }
}

/// Whether no two slots of a `Dict` share a key.
pub open spec fn keys_distinct(slots: Seq<(Seq<char>, TypeV)>) -> bool {
    forall|i: int, j: int| 0 <= i < j < slots.len() ==> slots[i].0 != slots[j].0
}

/// The types `compatible` is reflexive on: no union without members, no
/// `Dict` naming a key twice, and no `Optional` of an `Optional` or of what
/// holds only `undef` — wherever the relation would compare such a part
/// with itself.
pub open spec fn meets_itself(t: TypeV) -> bool
    decreases t,
{
    match t {
        TypeV::Union(ms) => ms.len() > 0 && forall|i: int| #![trigger ms[i]] 0 <= i < ms.len() ==> meets_itself(ms[i]),
        TypeV::Dict { slots, .. } => keys_distinct(slots) && forall|i: int|
            #![trigger slots[i]]
            0 <= i < slots.len() ==> meets_itself(slots[i].1),
        TypeV::Optional(y) => !(*y is Optional) && !holds_only_undef(*y),
        TypeV::ArrayRef(x) => meets_itself(*x),
        TypeV::HashRef(x) => meets_itself(*x),
        TypeV::MapOf(k, v) => meets_itself(*k) && meets_itself(*v),
        _ => true,
    }
}

/// Whether `a` is a member of the union `u`, or of a union among its members.
pub open spec fn within_union(a: TypeV, u: TypeV) -> bool
    decreases u,
{
    u is Union && exists|k: int|
        #![trigger u->Union_0[k]]
        0 <= k < u->Union_0.len() && (u->Union_0[k] == a || within_union(a, u->Union_0[k]))
}

proof fn lemma_within_trans(x: TypeV, a: TypeV, u: TypeV)
    requires
        within_union(x, a),
        within_union(a, u),
    ensures
        within_union(x, u),
    decreases u,
{
    let k = choose|k: int|
        #![trigger u->Union_0[k]]
        0 <= k < u->Union_0.len() && (u->Union_0[k] == a || within_union(a, u->Union_0[k]));
    if u->Union_0[k] != a {
        lemma_within_trans(x, a, u->Union_0[k]);
    }
}

/// An `Optional` value meets any slot that may hold more than `undef`.
proof fn lemma_optional_meets(g: Seq<(Seq<char>, Seq<Seq<char>>)>, x: TypeV, s: TypeV)
    requires
        !holds_only_undef(s),
    ensures
        spec_compatible(g, TypeV::Optional(Box::new(x)), s),
    decreases s,
{
    let r = spec_required(s);
    if r is Union {
        let i = choose|i: int| #![trigger r->Union_0[i]] 0 <= i < r->Union_0.len() && !holds_only_undef(r->Union_0[i]);
        lemma_optional_meets(g, x, r->Union_0[i]);
    }
}

/// A member of a union meets the union.
proof fn lemma_member_meets(g: Seq<(Seq<char>, Seq<Seq<char>>)>, a: TypeV, u: TypeV)
    requires
        meets_itself(a),
        within_union(a, u),
    ensures
        spec_compatible(g, a, u),
    decreases u, 0int, a,
{
    if a is Unknown || a is Any {
    } else if a is Union {
        let ns = a->Union_0;
        assert(within_union(ns[0], a)) by {
            assert(a->Union_0[0] == ns[0]);
        }
        lemma_within_trans(ns[0], a, u);
        lemma_member_meets(g, ns[0], u);
    } else {
        let k = choose|k: int|
            #![trigger u->Union_0[k]]
            0 <= k < u->Union_0.len() && (u->Union_0[k] == a || within_union(a, u->Union_0[k]));
        if u->Union_0[k] == a {
            lemma_compatible_reflexive(g, a);
        } else {
            lemma_member_meets(g, a, u->Union_0[k]);
        }
    }
}

#[verifier::rlimit(50)]
proof fn lemma_compatible_reflexive(g: Seq<(Seq<char>, Seq<Seq<char>>)>, t: TypeV)
    requires
        meets_itself(t),
    ensures
        spec_compatible(g, t, t),
    decreases t, 1int, t,
{
    match t {
        TypeV::Union(ms) => {
            assert(within_union(ms[0], t)) by {
                assert(t->Union_0[0] == ms[0]);
            }
            lemma_member_meets(g, ms[0], t);
            assert(t->Union_0[0] == ms[0]);
        },
        TypeV::ArrayRef(x) => {
            lemma_compatible_reflexive(g, *x);
        },
        TypeV::HashRef(x) => {
            lemma_compatible_reflexive(g, *x);
        },
        TypeV::MapOf(k, v) => {
            lemma_compatible_reflexive(g, *k);
            lemma_compatible_reflexive(g, *v);
        },
        TypeV::Dict { slots, slurpy } => {
            assert forall|k: int| #![trigger t->Dict_slots[k]] 0 <= k < slots.len() implies dict_slot_met(g, t, slots[k]) by {
                lemma_first_key(slots, slots[k].0, 0);
                assert(first_key(slots, slots[k].0, 0) == Some(k));
                assert(meets_itself(slots[k].1));
                match slots[k].1 {
                    TypeV::Optional(y) => {
                        lemma_optional_meets(g, *y, *y);
                    },
                    _ => {
                        lemma_compatible_reflexive(g, slots[k].1);
                    },
                }
            }
        },
        TypeV::Optional(y) => {
            lemma_optional_meets(g, *y, t);
        },
        TypeV::InstanceOf(c) => {
            let path = seq![c];
            assert(is_path(g, path));
            assert(spec_isa(g, c, c));
        },
        _ => {},
    }
}

/// Both relations are reflexive: a type meets itself, so long as it has no
/// part the relation would read as holding nothing at all — a union without
/// members, a `Dict` naming a key twice, or an `Optional` of only `undef`.
pub proof fn law_compatible_is_reflexive(classes: Seq<(Seq<char>, Seq<Seq<char>>)>, t: TypeV)
    requires
        meets_itself(t),
    ensures
        spec_compatible(classes, t, t),
{
    lemma_compatible_reflexive(classes, t);
}

/// Every type is assignable to itself.
pub proof fn law_assignable_is_reflexive(classes: Seq<(Seq<char>, Seq<Seq<char>>)>, t: TypeV)
    ensures
        spec_assignable(classes, t, t),
{
}

/// Whether no part of a type is an `Optional`.
pub open spec fn no_optional(t: TypeV) -> bool
    decreases t,
{
    match t {
        TypeV::Optional(_) => false,
        TypeV::Union(ms) => forall|i: int| #![trigger ms[i]] 0 <= i < ms.len() ==> no_optional(ms[i]),
        TypeV::Tuple(ms) => forall|i: int| #![trigger ms[i]] 0 <= i < ms.len() ==> no_optional(ms[i]),
        TypeV::Dict { slots, slurpy } => (forall|i: int| #![trigger slots[i]] 0 <= i < slots.len() ==> no_optional(slots[i].1))
            && match slurpy {
            Some(rest) => no_optional(*rest),
            None => true,
        },
        TypeV::ScalarRef(x) => no_optional(*x),
        TypeV::ArrayRef(x) => no_optional(*x),
        TypeV::HashRef(x) => no_optional(*x),
        TypeV::MapOf(k, v) => no_optional(*k) && no_optional(*v),
        _ => true,
    }
}

/// Whether no part of a type is a `ScalarRef` or a `Tuple`: the two
/// references `compatible` compares only for equality.
pub open spec fn no_exact_parts(t: TypeV) -> bool
    decreases t,
{
    match t {
        TypeV::ScalarRef(_) => false,
        TypeV::Tuple(_) => false,
        TypeV::Union(ms) => forall|i: int| #![trigger ms[i]] 0 <= i < ms.len() ==> no_exact_parts(ms[i]),
        TypeV::Dict { slots, slurpy } => (forall|i: int| #![trigger slots[i]] 0 <= i < slots.len() ==> no_exact_parts(slots[i].1))
            && match slurpy {
            Some(rest) => no_exact_parts(*rest),
            None => true,
        },
        TypeV::ArrayRef(x) => no_exact_parts(*x),
        TypeV::HashRef(x) => no_exact_parts(*x),
        TypeV::MapOf(k, v) => no_exact_parts(*k) && no_exact_parts(*v),
        TypeV::Optional(x) => no_exact_parts(*x),
        _ => true,
    }
}

proof fn lemma_required_parts(s: TypeV)
    ensures
        no_exact_parts(s) ==> no_exact_parts(spec_required(s)),
{
}

/// Whether `is_assignable` never weighs a `ScalarRef` against a `ScalarRef`
/// or a `Tuple` against a `Tuple` that differ: the one place `compatible`
/// asks for equality where `is_assignable` asks only for inclusion.
pub open spec fn exact_parts_agree(v: TypeV, s: TypeV) -> bool
    decreases v, s,
{
    let sa = spec_required(s);
    if v is Unknown || sa is Unknown || sa is Any || v is Any || v == sa {
        true
    } else if v is Union {
        forall|i: int| #![trigger v->Union_0[i]] 0 <= i < v->Union_0.len() ==> exact_parts_agree(v->Union_0[i], sa)
    } else if sa is Union {
        forall|j: int| #![trigger sa->Union_0[j]] 0 <= j < sa->Union_0.len() ==> exact_parts_agree(v, sa->Union_0[j])
    } else if (v is ScalarRef && sa is ScalarRef) || (v is Tuple && sa is Tuple) {
        false
    } else if v is ArrayRef && sa is ArrayRef {
        exact_parts_agree(*v->ArrayRef_0, *sa->ArrayRef_0)
    } else if v is HashRef && sa is HashRef {
        exact_parts_agree(*v->HashRef_0, *sa->HashRef_0)
    } else if v is HashRef && sa is MapOf {
        exact_parts_agree(*v->HashRef_0, *sa->MapOf_1)
    } else if v is MapOf && sa is HashRef {
        exact_parts_agree(*v->MapOf_1, *sa->HashRef_0)
    } else if v is MapOf && sa is MapOf {
        exact_parts_agree(*v->MapOf_0, *sa->MapOf_0) && exact_parts_agree(*v->MapOf_1, *sa->MapOf_1)
    } else if v is Dict && sa is Dict {
        forall|k: int| #![trigger sa->Dict_slots[k]] 0 <= k < sa->Dict_slots.len() ==> match first_key(v->Dict_slots, sa->Dict_slots[k].0, 0) {
            Some(j) => 0 <= j < v->Dict_slots.len() ==> exact_parts_agree(v->Dict_slots[j].1, spec_required(sa->Dict_slots[k].1)),
            None => true,
        }
    } else {
        true
    }
}

#[verifier::rlimit(60)]
proof fn lemma_agreeing_meets(g: Seq<(Seq<char>, Seq<Seq<char>>)>, v: TypeV, s: TypeV)
    requires
        meets_itself(v),
        no_optional(v),
        exact_parts_agree(v, s),
        spec_assignable(g, v, s),
    ensures
        spec_compatible(g, v, s),
    decreases v, s,
{
    let sa = spec_required(s);
    if v is Unknown || sa is Unknown || sa is Any || v is Any {
    } else if v == sa {
        lemma_compatible_reflexive(g, v);
        assert(spec_required(v) == v);
    } else if v is Union {
        let ms = v->Union_0;
        assert(no_optional(ms[0]) && meets_itself(ms[0]));
        assert(spec_assignable(g, v->Union_0[0], sa));
        assert(exact_parts_agree(v->Union_0[0], sa));
        lemma_agreeing_meets(g, ms[0], sa);
    } else if sa is Union {
        let ns = sa->Union_0;
        let j = choose|j: int| #![trigger sa->Union_0[j]] 0 <= j < ns.len() && spec_assignable(g, v, sa->Union_0[j]);
        assert(exact_parts_agree(v, sa->Union_0[j]));
        lemma_agreeing_meets(g, v, ns[j]);
    } else if v is ArrayRef && sa is ArrayRef {
        lemma_agreeing_meets(g, *v->ArrayRef_0, *sa->ArrayRef_0);
    } else if v is HashRef && sa is HashRef {
        lemma_agreeing_meets(g, *v->HashRef_0, *sa->HashRef_0);
    } else if v is HashRef && sa is MapOf {
        lemma_agreeing_meets(g, *v->HashRef_0, *sa->MapOf_1);
    } else if v is MapOf && sa is HashRef {
        lemma_agreeing_meets(g, *v->MapOf_1, *sa->HashRef_0);
    } else if v is MapOf && sa is MapOf {
        lemma_agreeing_meets(g, *v->MapOf_0, *sa->MapOf_0);
        lemma_agreeing_meets(g, *v->MapOf_1, *sa->MapOf_1);
    } else if v is Dict && sa is Dict {
        let held = v->Dict_slots;
        let wanted = sa->Dict_slots;
        assert forall|k: int| #![trigger sa->Dict_slots[k]] 0 <= k < wanted.len() implies dict_slot_met(g, v, sa->Dict_slots[k]) by {
            assert(dict_slot_held(g, v, sa->Dict_slots[k]));
            lemma_first_key(held, wanted[k].0, 0);
            match first_key(held, wanted[k].0, 0) {
                Some(j) => {
                    lemma_agreeing_meets(g, held[j].1, spec_required(wanted[k].1));
                },
                None => {},
            }
        }
    }
}

/// A slot with no `ScalarRef` or `Tuple` part, or a value that is the slot,
/// agrees with every value.
pub proof fn lemma_plain_slot_agrees(v: TypeV, s: TypeV)
    requires
        no_exact_parts(s) || v == spec_required(s),
    ensures
        exact_parts_agree(v, s),
    decreases v, s,
{
    let sa = spec_required(s);
    lemma_required_parts(s);
    if v is Unknown || sa is Unknown || sa is Any || v is Any || v == sa {
    } else if v is Union {
        assert forall|i: int| #![trigger v->Union_0[i]] 0 <= i < v->Union_0.len() implies exact_parts_agree(v->Union_0[i], sa) by {
            lemma_plain_slot_agrees(v->Union_0[i], sa);
        }
    } else if sa is Union {
        assert forall|j: int| #![trigger sa->Union_0[j]] 0 <= j < sa->Union_0.len() implies exact_parts_agree(v, sa->Union_0[j]) by {
            assert(no_exact_parts(sa->Union_0[j]));
            lemma_plain_slot_agrees(v, sa->Union_0[j]);
        }
    } else if v is ArrayRef && sa is ArrayRef {
        lemma_plain_slot_agrees(*v->ArrayRef_0, *sa->ArrayRef_0);
    } else if v is HashRef && sa is HashRef {
        lemma_plain_slot_agrees(*v->HashRef_0, *sa->HashRef_0);
    } else if v is HashRef && sa is MapOf {
        lemma_plain_slot_agrees(*v->HashRef_0, *sa->MapOf_1);
    } else if v is MapOf && sa is HashRef {
        lemma_plain_slot_agrees(*v->MapOf_1, *sa->HashRef_0);
    } else if v is MapOf && sa is MapOf {
        lemma_plain_slot_agrees(*v->MapOf_0, *sa->MapOf_0);
        lemma_plain_slot_agrees(*v->MapOf_1, *sa->MapOf_1);
    } else if v is Dict && sa is Dict {
        let held = v->Dict_slots;
        let wanted = sa->Dict_slots;
        assert forall|k: int| #![trigger sa->Dict_slots[k]] 0 <= k < wanted.len() implies match first_key(held, wanted[k].0, 0) {
            Some(j) => 0 <= j < held.len() ==> exact_parts_agree(held[j].1, spec_required(wanted[k].1)),
            None => true,
        } by {
            match first_key(held, wanted[k].0, 0) {
                Some(j) => {
                    if 0 <= j < held.len() {
                        assert(no_exact_parts(wanted[k].1));
                        lemma_required_parts(wanted[k].1);
                        lemma_plain_slot_agrees(held[j].1, spec_required(wanted[k].1));
                    }
                },
                None => {},
            }
        }
    }
}

/// If every value of one type is a value of the other, the two have a value
/// in common: `is_assignable` implies `compatible`. It holds of a value with
/// no degenerate part and no `Optional`, wherever the two relations never
/// weigh two different `ScalarRef`s or `Tuple`s against each other — the
/// one comparison `compatible` makes by equality.
pub proof fn law_assignable_implies_compatible(classes: Seq<(Seq<char>, Seq<Seq<char>>)>, value: TypeV, slot: TypeV)
    requires
        meets_itself(value),
        no_optional(value),
        exact_parts_agree(value, slot),
    ensures
        spec_assignable(classes, value, slot) ==> spec_compatible(classes, value, slot),
{
    if spec_assignable(classes, value, slot) {
        lemma_agreeing_meets(classes, value, slot);
    }
}

/// A kind meets its family from either side: a value known only as
/// `Defined`, `Value`, `Ref`, `Object` or `GlobRef` could be any member of
/// that family, and any member fits a slot of the head.
pub proof fn law_a_kind_meets_its_family(classes: Seq<(Seq<char>, Seq<Seq<char>>)>, head: TypeV, member: TypeV)
    requires
        heads_kind_family(head, member),
        !(member is Union),
        !(member is Optional),
    ensures
        spec_compatible(classes, member, head),
        spec_compatible(classes, head, member),
{
}

/// A family's head holds its family: every reference is a `Ref` and meets
/// one, and every defined non-reference but `Bool` is a `Value`.
pub proof fn law_a_family_head_holds_its_family(classes: Seq<(Seq<char>, Seq<Seq<char>>)>, t: TypeV)
    ensures
        is_reference_kind(t) ==> spec_assignable(classes, t, TypeV::Ref) && spec_compatible(classes, t, TypeV::Ref),
        is_value_kind(t) && !(t is Bool) ==> spec_assignable(classes, t, TypeV::Value),
{
}

/// A reference and a value are never the same thing: neither relation holds
/// between them, whichever side each is on.
pub proof fn law_a_reference_is_never_a_value(classes: Seq<(Seq<char>, Seq<Seq<char>>)>, reference: TypeV, value: TypeV)
    requires
        is_reference_kind(reference),
        is_value_kind(value),
    ensures
        !spec_compatible(classes, reference, value),
        !spec_compatible(classes, value, reference),
        !spec_assignable(classes, reference, value),
        !spec_assignable(classes, value, reference),
{
}

/// `undef` fits an `Undef` slot and a `Bool`, whose four values include it,
/// and no other slot that says anything.
pub proof fn law_undef_fits_only_undef_and_bool(classes: Seq<(Seq<char>, Seq<Seq<char>>)>, slot: TypeV)
    requires
        !(spec_required(slot) is Union),
        !(spec_required(slot) is Unknown),
        !(spec_required(slot) is Any),
    ensures
        spec_compatible(classes, TypeV::Undef, slot) <==> (spec_required(slot) is Undef || spec_required(slot) is Bool),
{
}

/// Every package is itself.
pub proof fn law_isa_is_reflexive(classes: Seq<(Seq<char>, Seq<Seq<char>>)>, name: Seq<char>)
    ensures
        spec_isa(classes, name, name),
{
    assert(is_path(classes, seq![name]));
}

/// What is above an ancestor is above the descendant too.
pub proof fn law_isa_is_transitive(classes: Seq<(Seq<char>, Seq<Seq<char>>)>, a: Seq<char>, b: Seq<char>, c: Seq<char>)
    requires
        spec_isa(classes, a, b),
        spec_isa(classes, b, c),
    ensures
        spec_isa(classes, a, c),
{
    let p = choose|p: Seq<Seq<char>>| #[trigger] is_path(classes, p) && p[0] == a && p.last() == b;
    let q = choose|q: Seq<Seq<char>>| #[trigger] is_path(classes, q) && q[0] == b && q.last() == c;
    let joined = p + q.drop_first();
    assert forall|k: int| 0 <= k < joined.len() - 1 implies #[trigger] step_up(classes, joined, k) by {
        if k < p.len() - 1 {
            assert(step_up(classes, p, k));
        } else {
            let m = k - (p.len() - 1);
            assert(step_up(classes, q, m));
            if k == p.len() - 1 {
                assert(joined[k] == p.last());
                assert(joined[k + 1] == q[1]);
            } else {
                assert(joined[k] == q[m]);
                assert(joined[k + 1] == q[m + 1]);
            }
        }
    }
    if q.len() == 1 {
        assert(joined =~= p);
    } else {
        assert(joined.last() == q.last());
    }
    assert(is_path(classes, joined));
}

/// Two array references could be the same value exactly when their
/// elements could: `ArrayRef[Str]` contradicts `ArrayRef[Int]` because `Str`
/// contradicts `Int`, and `ArrayRef[Int]` meets `ArrayRef[Num]` because an
/// `Int` is a `Num`.
pub proof fn law_array_references_meet_element_by_element(
    classes: Seq<(Seq<char>, Seq<Seq<char>>)>,
    a: TypeV,
    b: TypeV,
)
    ensures
        spec_compatible(classes, TypeV::ArrayRef(Box::new(a)), TypeV::ArrayRef(Box::new(b))) == spec_compatible(
            classes,
            a,
            b,
        ),
{
}

/// The same for hash references: their values decide.
pub proof fn law_hash_references_meet_value_by_value(
    classes: Seq<(Seq<char>, Seq<Seq<char>>)>,
    a: TypeV,
    b: TypeV,
)
    ensures
        spec_compatible(classes, TypeV::HashRef(Box::new(a)), TypeV::HashRef(Box::new(b))) == spec_compatible(
            classes,
            a,
            b,
        ),
{
}

/// A string is never a whole number and a reference is never a string, so
/// an array of either is never an array of the other, however deeply the
/// arrays nest.
pub proof fn law_a_contradiction_survives_wrapping_in_arrays(
    classes: Seq<(Seq<char>, Seq<Seq<char>>)>,
    a: TypeV,
    b: TypeV,
    depth: nat,
)
    requires
        !spec_compatible(classes, a, b),
    ensures
        !spec_compatible(classes, wrap_in_arrays(a, depth), wrap_in_arrays(b, depth)),
    decreases depth,
{
    if depth > 0 {
        law_a_contradiction_survives_wrapping_in_arrays(classes, a, b, (depth - 1) as nat);
        law_array_references_meet_element_by_element(
            classes,
            wrap_in_arrays(a, (depth - 1) as nat),
            wrap_in_arrays(b, (depth - 1) as nat),
        );
    }
}

/// `t` inside `depth` array references.
pub open spec fn wrap_in_arrays(t: TypeV, depth: nat) -> TypeV
    decreases depth,
{
    if depth == 0 {
        t
    } else {
        TypeV::ArrayRef(Box::new(wrap_in_arrays(t, (depth - 1) as nat)))
    }
}

/// `Str` and `Int` contradict, so a string element in an integer array is
/// one: at every depth of nesting, `ArrayRef[..[Str]..]` does not meet
/// `ArrayRef[..[Int]..]`.
pub proof fn law_string_arrays_are_not_integer_arrays(classes: Seq<(Seq<char>, Seq<Seq<char>>)>, depth: nat)
    ensures
        !spec_compatible(classes, wrap_in_arrays(TypeV::Str, depth), wrap_in_arrays(TypeV::Int, depth)),
{
    assert(!spec_compatible(classes, TypeV::Str, TypeV::Int));
    law_a_contradiction_survives_wrapping_in_arrays(classes, TypeV::Str, TypeV::Int, depth);
}

/// A map meets a map where both its keys and its values do.
pub proof fn law_maps_meet_key_and_value(classes: Seq<(Seq<char>, Seq<Seq<char>>)>, k1: TypeV, v1: TypeV, k2: TypeV, v2: TypeV)
    ensures
        spec_compatible(
            classes,
            TypeV::MapOf(Box::new(k1), Box::new(v1)),
            TypeV::MapOf(Box::new(k2), Box::new(v2)),
        ) == (spec_compatible(classes, k1, k2) && spec_compatible(classes, v1, v2)),
{
}

/// A reference is assignable to a reference of the same kind exactly when
/// what it refers to is: scalar, array and hash references alike.
pub proof fn law_references_are_assignable_element_by_element(
    classes: Seq<(Seq<char>, Seq<Seq<char>>)>,
    a: TypeV,
    b: TypeV,
)
    ensures
        spec_assignable(classes, TypeV::ScalarRef(Box::new(a)), TypeV::ScalarRef(Box::new(b))) == spec_assignable(
            classes,
            a,
            b,
        ),
        spec_assignable(classes, TypeV::ArrayRef(Box::new(a)), TypeV::ArrayRef(Box::new(b))) == spec_assignable(
            classes,
            a,
            b,
        ),
        spec_assignable(classes, TypeV::HashRef(Box::new(a)), TypeV::HashRef(Box::new(b))) == spec_assignable(
            classes,
            a,
            b,
        ),
{
}

} // verus!
