//! The two type relations the checker asks of a value and a slot, and the
//! class hierarchy they consult.

use vstd::prelude::*;

pub use crate::shape::returns_nothing;
use crate::text::{append, same_text};
use crate::types::{lemma_slot_views, lemma_views, slot_views, spec_required, strings_view, views, Type, TypeV};

verus! {

// ===== the class hierarchy =====

/// What the run knows of packages, as far as the type relations ask: each
/// package it read, with the parents and roles that file gave it. A package
/// opened in several files appears once per file.
pub struct Hierarchy {
    pub packages: Vec<(String, Vec<String>)>,
}

/// The value of a hierarchy: each package's name and its parents' names.
pub open spec fn packages_view(p: Seq<(String, Vec<String>)>) -> Seq<(Seq<char>, Seq<Seq<char>>)> {
    p.map_values(|e: (String, Vec<String>)| (e.0@, strings_view(e.1@)))
}

impl View for Hierarchy {
    type V = Seq<(Seq<char>, Seq<Seq<char>>)>;

    open spec fn view(&self) -> Seq<(Seq<char>, Seq<Seq<char>>)> {
        packages_view(self.packages@)
    }
}

/// Whether anything in the run declares the package.
pub open spec fn spec_knows(g: Seq<(Seq<char>, Seq<Seq<char>>)>, name: Seq<char>) -> bool {
    exists|i: int| 0 <= i < g.len() && (#[trigger] g[i]).0 == name
}

/// Whether some file gives `child` the parent (or role) `parent`.
pub open spec fn edge(g: Seq<(Seq<char>, Seq<Seq<char>>)>, child: Seq<char>, parent: Seq<char>) -> bool {
    exists|i: int| 0 <= i < g.len() && (#[trigger] g[i]).0 == child && g[i].1.contains(parent)
}

/// Whether the `k`th step of `path` goes from a package to one of its parents.
pub open spec fn step_up(g: Seq<(Seq<char>, Seq<Seq<char>>)>, path: Seq<Seq<char>>, k: int) -> bool {
    edge(g, path[k], path[k + 1])
}

/// A walk upwards through the hierarchy, one parent at a time.
pub open spec fn is_path(g: Seq<(Seq<char>, Seq<Seq<char>>)>, path: Seq<Seq<char>>) -> bool {
    &&& path.len() >= 1
    &&& forall|k: int| 0 <= k < path.len() - 1 ==> #[trigger] step_up(g, path, k)
}

/// Whether `descendant` is `ancestor`, or has it above it.
pub open spec fn spec_isa(g: Seq<(Seq<char>, Seq<Seq<char>>)>, descendant: Seq<char>, ancestor: Seq<char>) -> bool {
    exists|path: Seq<Seq<char>>|
        #[trigger] is_path(g, path) && path[0] == descendant && path.last() == ancestor
}

/// Every parent any file names, in order.
pub open spec fn all_parents(g: Seq<(Seq<char>, Seq<Seq<char>>)>) -> Seq<Seq<char>>
    decreases g.len(),
{
    if g.len() == 0 {
        Seq::empty()
    } else {
        all_parents(g.drop_last()) + g.last().1
    }
}

/// Every name an upward walk from `from` may meet.
pub open spec fn universe(g: Seq<(Seq<char>, Seq<Seq<char>>)>, from: Seq<char>) -> Seq<Seq<char>> {
    seq![from] + all_parents(g)
}

/// Whether every parent of a name in `s` is in `s` too.
pub open spec fn closed(g: Seq<(Seq<char>, Seq<Seq<char>>)>, s: Seq<Seq<char>>) -> bool {
    forall|i: int, q: Seq<char>|
        0 <= i < g.len() && s.contains(g[i].0) && #[trigger] g[i].1.contains(q) ==> s.contains(q)
}

proof fn lemma_parent_in_universe(g: Seq<(Seq<char>, Seq<Seq<char>>)>, i: int, q: Seq<char>)
    requires
        0 <= i < g.len(),
        g[i].1.contains(q),
    ensures
        all_parents(g).contains(q),
    decreases g.len(),
{
    let k = choose|k: int| 0 <= k < g[i].1.len() && g[i].1[k] == q;
    if i == g.len() - 1 {
        let before = all_parents(g.drop_last());
        assert(all_parents(g)[before.len() + k] == q);
    } else {
        lemma_parent_in_universe(g.drop_last(), i, q);
        let j = choose|j: int| 0 <= j < all_parents(g.drop_last()).len() && all_parents(g.drop_last())[j] == q;
        assert(all_parents(g)[j] == q);
    }
}

/// A set of distinct names drawn from `u` is no longer than `u`.
proof fn lemma_distinct_within(s: Seq<Seq<char>>, u: Seq<Seq<char>>)
    requires
        s.no_duplicates(),
        forall|x: Seq<char>| s.contains(x) ==> u.contains(x),
    ensures
        s.len() <= u.len(),
{
    s.unique_seq_to_set();
    u.lemma_cardinality_of_set();
    assert(s.to_set().subset_of(u.to_set()));
    vstd::set_lib::lemma_len_subset(s.to_set(), u.to_set());
}

/// Every name on a walk from a closed set's member stays in the set.
proof fn lemma_closed_path(g: Seq<(Seq<char>, Seq<Seq<char>>)>, s: Seq<Seq<char>>, path: Seq<Seq<char>>, k: int)
    requires
        closed(g, s),
        is_path(g, path),
        s.contains(path[0]),
        0 <= k < path.len(),
    ensures
        s.contains(path[k]),
    decreases k,
{
    if k > 0 {
        lemma_closed_path(g, s, path, k - 1);
        assert(step_up(g, path, k - 1));
        let i = choose|i: int| 0 <= i < g.len() && (#[trigger] g[i]).0 == path[k - 1] && g[i].1.contains(path[k]);
        assert(s.contains(g[i].0));
    }
}

/// A walk to `p` followed by a step to `q` is a walk to `q`.
proof fn lemma_extend_path(g: Seq<(Seq<char>, Seq<Seq<char>>)>, path: Seq<Seq<char>>, q: Seq<char>)
    requires
        is_path(g, path),
        edge(g, path.last(), q),
    ensures
        is_path(g, path.push(q)),
        path.push(q)[0] == path[0],
        path.push(q).last() == q,
{
    let longer = path.push(q);
    assert forall|k: int| 0 <= k < longer.len() - 1 implies #[trigger] step_up(g, longer, k) by {
        if k < path.len() - 1 {
            assert(step_up(g, path, k));
        }
    }
}

/// `spec_isa` is closed under one more step up.
proof fn lemma_isa_step(g: Seq<(Seq<char>, Seq<Seq<char>>)>, d: Seq<char>, p: Seq<char>, q: Seq<char>)
    requires
        spec_isa(g, d, p),
        edge(g, p, q),
    ensures
        spec_isa(g, d, q),
{
    let path = choose|path: Seq<Seq<char>>| #[trigger] is_path(g, path) && path[0] == d && path.last() == p;
    lemma_extend_path(g, path, q);
    assert(is_path(g, path.push(q)));
}

/// Whether a list of names holds `one`.
fn holds_name(names: &Vec<String>, one: &str) -> (r: bool)
    ensures
        r == strings_view(names@).contains(one@),
{
    let mut i: usize = 0;
    while i < names.len()
        invariant
            i <= names.len(),
            forall|j: int| 0 <= j < i ==> names@[j]@ != one@,
        decreases names.len() - i,
    {
        if same_text(names[i].as_str(), one) {
            assert(strings_view(names@)[i as int] == one@);
            return true;
        }
        i += 1;
    }
    proof {
        if strings_view(names@).contains(one@) {
            let k = choose|k: int| 0 <= k < strings_view(names@).len() && strings_view(names@)[k] == one@;
            assert(names@[k]@ == one@);
        }
    }
    false
}

impl Hierarchy {
    pub fn new(packages: Vec<(String, Vec<String>)>) -> (h: Hierarchy)
        ensures
            h@ == packages_view(packages@),
    {
        Hierarchy { packages }
    }

    /// Whether anything in the run declares this package.
    pub fn knows_package(&self, name: &str) -> (r: bool)
        ensures
            r == spec_knows(self@, name@),
    {
        let ghost g = self@;
        let mut i: usize = 0;
        while i < self.packages.len()
            invariant
                i <= self.packages@.len(),
                g == self@,
                forall|j: int| 0 <= j < i ==> (#[trigger] g[j]).0 != name@,
            decreases self.packages@.len() - i,
        {
            assert(g[i as int] == (self.packages@[i as int].0@, strings_view(self.packages@[i as int].1@)));
            if same_text(self.packages[i].0.as_str(), name) {
                return true;
            }
            i += 1;
        }
        false
    }

    /// Whether `descendant` is `ancestor`, or has it above it: whether a walk
    /// up through parents and roles leads from the one to the other.
    pub fn isa(&self, descendant: &str, ancestor: &str) -> (r: bool)
        ensures
            r == spec_isa(self@, descendant@, ancestor@),
    {
        let ghost g = self@;
        let ghost u = universe(g, descendant@);
        let mut first = String::new();
        append(&mut first, descendant);
        let mut seen: Vec<String> = Vec::new();
        seen.push(first);
        proof {
            assert(strings_view(seen@) =~= seq![descendant@]);
            let path = seq![descendant@];
            assert(is_path(g, path));
            assert(u[0] == descendant@);
        }
        let mut changed = true;
        while changed
            invariant
                g == self@,
                u == universe(g, descendant@),
                strings_view(seen@).len() >= 1,
                strings_view(seen@)[0] == descendant@,
                strings_view(seen@).no_duplicates(),
                forall|x: Seq<char>| strings_view(seen@).contains(x) ==> spec_isa(g, descendant@, x),
                forall|x: Seq<char>| strings_view(seen@).contains(x) ==> u.contains(x),
                !changed ==> closed(g, strings_view(seen@)),
            decreases u.len() - seen@.len() + (if changed { 1int } else { 0int }),
        {
            proof {
                lemma_distinct_within(strings_view(seen@), u);
            }
            let ghost start = strings_view(seen@);
            changed = false;
            let mut i: usize = 0;
            while i < self.packages.len()
                invariant
                    g == self@,
                    u == universe(g, descendant@),
                    i <= self.packages@.len(),
                    strings_view(seen@).len() >= 1,
                    strings_view(seen@)[0] == descendant@,
                    strings_view(seen@).no_duplicates(),
                    forall|x: Seq<char>| strings_view(seen@).contains(x) ==> spec_isa(g, descendant@, x),
                    forall|x: Seq<char>| strings_view(seen@).contains(x) ==> u.contains(x),
                    changed ==> seen@.len() > start.len(),
                    !changed ==> strings_view(seen@) == start,
                    !changed ==> forall|i2: int, q: Seq<char>|
                        0 <= i2 < i && start.contains(g[i2].0) && #[trigger] g[i2].1.contains(q) ==> start.contains(q),
                decreases self.packages@.len() - i,
            {
                assert(g[i as int] == (self.packages@[i as int].0@, strings_view(self.packages@[i as int].1@)));
                if holds_name(&seen, self.packages[i].0.as_str()) {
                    let parents = &self.packages[i].1;
                    let ghost child = g[i as int].0;
                    let mut j: usize = 0;
                    while j < parents.len()
                        invariant
                            g == self@,
                            u == universe(g, descendant@),
                            i < self.packages@.len(),
                            *parents == self.packages@[i as int].1,
                            child == g[i as int].0,
                            g[i as int].1 == strings_view(parents@),
                            j <= parents@.len(),
                            strings_view(seen@).contains(child),
                            strings_view(seen@).len() >= 1,
                            strings_view(seen@)[0] == descendant@,
                            strings_view(seen@).no_duplicates(),
                            forall|x: Seq<char>| strings_view(seen@).contains(x) ==> spec_isa(g, descendant@, x),
                            forall|x: Seq<char>| strings_view(seen@).contains(x) ==> u.contains(x),
                            changed ==> seen@.len() > start.len(),
                            !changed ==> strings_view(seen@) == start,
                            !changed ==> forall|i2: int, q: Seq<char>|
                                0 <= i2 < i && start.contains(g[i2].0) && #[trigger] g[i2].1.contains(q) ==> start.contains(q),
                            !changed ==> forall|k: int| 0 <= k < j ==> start.contains(#[trigger] strings_view(parents@)[k]),
                        decreases parents@.len() - j,
                    {
                        let ghost q = strings_view(parents@)[j as int];
                        assert(parents@[j as int]@ == q);
                        if !holds_name(&seen, parents[j].as_str()) {
                            let ghost before = strings_view(seen@);
                            seen.push(parents[j].clone());
                            proof {
                                assert(strings_view(seen@) =~= before.push(q));
                                assert(g[i as int].1.contains(q));
                                assert(edge(g, child, q));
                                lemma_isa_step(g, descendant@, child, q);
                                lemma_parent_in_universe(g, i as int, q);
                                assert(u =~= seq![descendant@] + all_parents(g));
                                let k = choose|k: int| 0 <= k < all_parents(g).len() && all_parents(g)[k] == q;
                                assert(u[k + 1] == q);
                                assert forall|x: Seq<char>| strings_view(seen@).contains(x) implies spec_isa(g, descendant@, x) && u.contains(x) by {
                                    if x != q {
                                        let m = choose|m: int| 0 <= m < strings_view(seen@).len() && strings_view(seen@)[m] == x;
                                        assert(before[m] == x);
                                    }
                                }
                                assert(strings_view(seen@)[0] == before[0]);
                                let m = choose|m: int| 0 <= m < before.len() && before[m] == child;
                                assert(strings_view(seen@)[m] == child);
                            }
                            changed = true;
                        }
                        j += 1;
                    }
                    proof {
                        if !changed {
                            assert forall|i2: int, q: Seq<char>|
                                0 <= i2 < i + 1 && start.contains(g[i2].0) && #[trigger] g[i2].1.contains(q) implies start.contains(q) by {
                                if i2 == i {
                                    let k = choose|k: int| 0 <= k < g[i2].1.len() && g[i2].1[k] == q;
                                    assert(start.contains(strings_view(parents@)[k]));
                                }
                            }
                        }
                    }
                } else {
                    proof {
                        if !changed {
                            assert forall|i2: int, q: Seq<char>|
                                0 <= i2 < i + 1 && start.contains(g[i2].0) && #[trigger] g[i2].1.contains(q) implies start.contains(q) by {
                                if i2 == i {
                                    assert(!start.contains(g[i as int].0));
                                }
                            }
                        }
                    }
                }
                i += 1;
            }
            proof {
                if changed {
                    lemma_distinct_within(strings_view(seen@), u);
                }
            }
        }
        let found = holds_name(&seen, ancestor);
        proof {
            if !found && spec_isa(g, descendant@, ancestor@) {
                let path = choose|path: Seq<Seq<char>>| #[trigger] is_path(g, path) && path[0] == descendant@ && path.last() == ancestor@;
                assert(strings_view(seen@).contains(strings_view(seen@)[0]));
                lemma_closed_path(g, strings_view(seen@), path, path.len() - 1);
            }
        }
        found
    }
}

// ===== the kinds of type =====

/// The reference types.
pub open spec fn is_reference_kind(t: TypeV) -> bool {
    t is Ref || t is ScalarRef || t is ArrayRef || t is Tuple || t is HashRef || t is Dict || t is MapOf
        || t is CodeRef || t is RegexpRef || t is GlobRef || t is Object || t is InstanceOf || t is ConsumerOf
        || t is HasMethods
}

/// The defined non-reference types.
pub open spec fn is_value_kind(t: TypeV) -> bool {
    t is Str || t is Num || t is Int || t is Bool || t is ClassName || t is RoleName || t is Enum
}

/// Whether a type says enough for a "no" to mean anything.
pub open spec fn is_settled(t: TypeV) -> bool {
    is_value_kind(t) || is_reference_kind(t) || t is Undef || t is Defined || t is Value
}

/// The half of `heads_family` that says what kind of thing a value is: true
/// read either way round.
pub open spec fn heads_kind_family(broad: TypeV, narrow: TypeV) -> bool {
    if broad is Defined {
        !(narrow is Undef)
    } else if broad is Value {
        is_value_kind(narrow)
    } else if broad is Ref {
        is_reference_kind(narrow)
    } else if broad is Object {
        narrow is Object || narrow is InstanceOf || narrow is ConsumerOf || narrow is HasMethods
    } else if broad is GlobRef {
        narrow is GlobRef || narrow is FileHandle
    } else {
        false
    }
}

/// Whether `broad` heads a family that `narrow` is in: a kind of thing, or a
/// step of the stringification chain `Int <: Num <: Str`.
pub open spec fn heads_family(broad: TypeV, narrow: TypeV) -> bool {
    heads_kind_family(broad, narrow) || (broad is Str && (narrow is Str || narrow is Num || narrow is Int
        || narrow is Enum || narrow is ClassName || narrow is RoleName)) || (broad is Num && (narrow is Num
        || narrow is Int))
}

/// `Int`, `Num`, `Str` or `Bool`: what an `Enum` meets from either side.
pub open spec fn is_plain_scalar(t: TypeV) -> bool {
    t is Int || t is Num || t is Str || t is Bool
}

/// The class Type::Tiny calls `RegexpRef` too.
pub open spec fn regexp_class() -> Seq<char> {
    seq!['R', 'e', 'g', 'e', 'x', 'p']
}

/// Whether `key` names none of `slots` before `end`.
pub open spec fn key_absent(slots: Seq<(Seq<char>, TypeV)>, key: Seq<char>, end: int) -> bool {
    forall|j: int| 0 <= j < end ==> (#[trigger] slots[j]).0 != key
}

/// Whether every value of the one enum is a value of the other.
pub open spec fn enum_within(values: Seq<Seq<char>>, allowed: Seq<Seq<char>>) -> bool {
    forall|i: int| 0 <= i < values.len() ==> allowed.contains(#[trigger] values[i])
}

// ===== compatible =====

/// Whether a value of `value` could be in a slot declared `slot`: "could
/// be", not "is", since the checker reports only what it can rule out. Each
/// rule is read in order, the first that applies deciding.
pub open spec fn spec_compatible(g: Seq<(Seq<char>, Seq<Seq<char>>)>, value: TypeV, declared: TypeV) -> bool
    decreases value, declared,
{
    let slot = spec_required(declared);
    if value is Unknown || slot is Unknown || slot is Any || value is Any {
        true
    } else if value is Union {
        // A union fits if any of its members might.
        exists|i: int| #![trigger value->Union_0[i]] 0 <= i < value->Union_0.len() && spec_compatible(g, value->Union_0[i], slot)
    } else if slot is Union {
        exists|i: int| #![trigger slot->Union_0[i]] 0 <= i < slot->Union_0.len() && spec_compatible(g, value, slot->Union_0[i])
    } else if (value is Undef && (slot is Undef || slot is Bool)) || (value is Bool && slot is Undef) {
        // `undef` fits an `Undef` slot, a `Maybe` and a `Bool`.
        true
    } else if value is Undef || slot is Undef {
        false
    } else if heads_family(slot, value) || heads_kind_family(value, slot) {
        true
    } else if (value is Int && (slot is Num || slot is Str || slot is Value)) || (value is Num && (slot is Str
        || slot is Value)) || (value is Str && slot is Value) {
        // Stringification.
        true
    } else if (is_plain_scalar(value) && slot is Enum) || (value is Enum && is_plain_scalar(slot)) {
        true
    } else if value is Enum && slot is Enum {
        enum_within(value->Enum_0, slot->Enum_0)
    } else if (value is Str && (slot is ClassName || slot is RoleName)) || ((value is ClassName
        || value is RoleName) && slot is Str) {
        true
    } else if (value is Bool && (slot is Int || slot is Num || slot is Str)) || ((value is Int || value is Num
        || value is Str) && slot is Bool) {
        true
    } else if is_reference_kind(value) && is_value_kind(slot) {
        // A reference and a value are never the same thing.
        false
    } else if is_value_kind(value) && is_reference_kind(slot) {
        false
    } else if (slot is Value && is_reference_kind(value)) || (value is Value && is_reference_kind(slot)) {
        false
    } else if ((value is ArrayRef || value is Tuple) && (slot is HashRef || slot is Dict)) || ((value is HashRef
        || value is Dict) && (slot is ArrayRef || slot is Tuple)) {
        false
    } else if (value is CodeRef && (slot is ArrayRef || slot is HashRef || slot is Dict)) || ((value is ArrayRef
        || value is HashRef || value is Dict) && slot is CodeRef) {
        false
    } else if value is ArrayRef && slot is ArrayRef {
        spec_compatible(g, *value->ArrayRef_0, *slot->ArrayRef_0)
    } else if value is HashRef && slot is HashRef {
        spec_compatible(g, *value->HashRef_0, *slot->HashRef_0)
    } else if (value is Dict && slot is HashRef) || (value is HashRef && slot is Dict) || (value is Tuple
        && slot is ArrayRef) || (value is ArrayRef && slot is Tuple) {
        true
    } else if value is MapOf && slot is MapOf {
        spec_compatible(g, *value->MapOf_0, *slot->MapOf_0) && spec_compatible(g, *value->MapOf_1, *slot->MapOf_1)
    } else if value is MapOf && slot is HashRef {
        spec_compatible(g, *value->MapOf_1, *slot->HashRef_0)
    } else if value is HashRef && slot is MapOf {
        spec_compatible(g, *value->HashRef_0, *slot->MapOf_1)
    } else if (value is Dict && slot is MapOf) || (value is MapOf && slot is Dict) {
        true
    } else if value is Dict && slot is Dict {
        // Every slot the declaration names has to be there and to fit; one
        // it may leave out, or one an open hash may hold after all, is fine.
        forall|k: int| #![trigger slot->Dict_slots[k]] 0 <= k < slot->Dict_slots.len() ==> dict_slot_met(g, value, slot->Dict_slots[k])
    } else if (value is RegexpRef && slot is InstanceOf && slot->InstanceOf_0 == regexp_class()) || (
    value is InstanceOf && value->InstanceOf_0 == regexp_class() && slot is RegexpRef) {
        true
    } else if value is InstanceOf && slot is InstanceOf {
        // Both classes have to be known before a "no" means anything.
        if !spec_knows(g, value->InstanceOf_0) || !spec_knows(g, slot->InstanceOf_0) {
            true
        } else {
            spec_isa(g, value->InstanceOf_0, slot->InstanceOf_0)
        }
    } else if (slot is InstanceOf && is_reference_kind(value) && !spec_knows(g, slot->InstanceOf_0)) || (
    value is InstanceOf && is_reference_kind(slot) && !spec_knows(g, value->InstanceOf_0)) {
        // Any reference could be an object of a class the program never saw.
        true
    } else if (value is InstanceOf && slot is Object) || (value is Object && slot is InstanceOf) {
        true
    } else {
        value == slot || !is_settled(value) || !is_settled(slot)
    }
}

/// Whether a `Dict` value meets one slot `(key, declared)` of a `Dict`
/// declaration: the first slot of that name fits it, or there is none and
/// either the slot is optional or the value is open.
pub open spec fn dict_slot_met(g: Seq<(Seq<char>, Seq<Seq<char>>)>, value: TypeV, wanted: (Seq<char>, TypeV)) -> bool
    decreases value, wanted.1,
{
    if value is Dict {
        let held = value->Dict_slots;
        match first_key(held, wanted.0, 0) {
            Some(j) => if 0 <= j < held.len() {
                spec_compatible(g, held[j].1, spec_required(wanted.1))
            } else {
                false
            },
            None => wanted.1 is Optional || value->Dict_slurpy is Some,
        }
    } else {
        false
    }
}

/// Where the first slot named `key` stands, from `i` on.
pub open spec fn first_key(slots: Seq<(Seq<char>, TypeV)>, key: Seq<char>, i: int) -> Option<int>
    decreases slots.len() - i,
{
    if i < 0 || i >= slots.len() {
        None
    } else if slots[i].0 == key {
        Some(i)
    } else {
        first_key(slots, key, i + 1)
    }
}

pub proof fn lemma_first_key(slots: Seq<(Seq<char>, TypeV)>, key: Seq<char>, i: int)
    requires
        0 <= i,
    ensures
        match first_key(slots, key, i) {
            Some(j) => i <= j < slots.len() && slots[j].0 == key && forall|m: int| i <= m < j ==> (#[trigger] slots[m]).0 != key,
            None => forall|m: int| i <= m < slots.len() ==> (#[trigger] slots[m]).0 != key,
        },
    decreases slots.len() - i,
{
    if i < slots.len() && slots[i].0 != key {
        lemma_first_key(slots, key, i + 1);
    }
}

fn is_reference(t: &Type) -> (r: bool)
    ensures
        r == is_reference_kind(t@),
{
    matches!(
        t,
        Type::Ref | Type::ScalarRef(_) | Type::ArrayRef(_) | Type::Tuple(_) | Type::HashRef(_) | Type::Dict { .. }
            | Type::MapOf(_, _) | Type::CodeRef | Type::RegexpRef | Type::GlobRef | Type::Object
            | Type::InstanceOf(_) | Type::ConsumerOf(_) | Type::HasMethods(_)
    )
}

fn is_value(t: &Type) -> (r: bool)
    ensures
        r == is_value_kind(t@),
{
    matches!(t, Type::Str | Type::Num | Type::Int | Type::Bool | Type::ClassName(_) | Type::RoleName | Type::Enum(_))
}

fn settled(t: &Type) -> (r: bool)
    ensures
        r == is_settled(t@),
{
    is_value(t) || is_reference(t) || matches!(t, Type::Undef | Type::Defined | Type::Value)
}

fn plain_scalar(t: &Type) -> (r: bool)
    ensures
        r == is_plain_scalar(t@),
{
    matches!(t, Type::Int | Type::Num | Type::Str | Type::Bool)
}

fn kind_family(broad: &Type, narrow: &Type) -> (r: bool)
    ensures
        r == heads_kind_family(broad@, narrow@),
{
    match broad {
        Type::Defined => !matches!(narrow, Type::Undef),
        Type::Value => is_value(narrow),
        Type::Ref => is_reference(narrow),
        Type::Object => matches!(narrow, Type::Object | Type::InstanceOf(_) | Type::ConsumerOf(_) | Type::HasMethods(_)),
        Type::GlobRef => matches!(narrow, Type::GlobRef | Type::FileHandle),
        _ => false,
    }
}

fn family(broad: &Type, narrow: &Type) -> (r: bool)
    ensures
        r == heads_family(broad@, narrow@),
{
    kind_family(broad, narrow) || match broad {
        Type::Str => matches!(
            narrow,
            Type::Str | Type::Num | Type::Int | Type::Enum(_) | Type::ClassName(_) | Type::RoleName
        ),
        Type::Num => matches!(narrow, Type::Num | Type::Int),
        _ => false,
    }
}

fn is_regexp_class(name: &String) -> (r: bool)
    ensures
        r == (name@ == regexp_class()),
{
    let r = same_text(name.as_str(), "Regexp");
    proof {
        reveal_strlit("Regexp");
        assert("Regexp"@ =~= regexp_class());
    }
    r
}

fn within(values: &Vec<String>, allowed: &Vec<String>) -> (r: bool)
    ensures
        r == enum_within(strings_view(values@), strings_view(allowed@)),
{
    let mut i: usize = 0;
    while i < values.len()
        invariant
            i <= values.len(),
            forall|j: int| 0 <= j < i ==> strings_view(allowed@).contains(#[trigger] strings_view(values@)[j]),
        decreases values.len() - i,
    {
        if !crate::types::contains_string(allowed, &values[i]) {
            assert(strings_view(values@)[i as int] == values@[i as int]@);
            return false;
        }
        assert(strings_view(values@)[i as int] == values@[i as int]@);
        i += 1;
    }
    true
}

/// Where the first slot named `key` stands, if one does.
fn find_key(slots: &Vec<(String, Type)>, key: &String) -> (r: Option<usize>)
    ensures
        match r {
            Some(j) => first_key(slot_views(slots@), key@, 0) == Some(j as int),
            None => first_key(slot_views(slots@), key@, 0) is None,
        },
{
    proof {
        lemma_slot_views(slots@);
    }
    let ghost sv = slot_views(slots@);
    let mut i: usize = 0;
    while i < slots.len()
        invariant
            i <= slots.len(),
            sv == slot_views(slots@),
            sv.len() == slots@.len(),
            forall|m: int| 0 <= m < slots@.len() ==> #[trigger] sv[m] == (slots@[m].0@, slots@[m].1@),
            first_key(sv, key@, 0) == first_key(sv, key@, i as int),
        decreases slots.len() - i,
    {
        assert(sv[i as int] == (slots@[i as int].0@, slots@[i as int].1@));
        if crate::text::str_eq(&slots[i].0, key) {
            return Some(i);
        }
        i += 1;
    }
    None
}

/// Whether a value of `value` could be in a slot declared `declared`.
///
/// "Could be", not "is": the checker reports only what it can rule out. Every
/// rule that answers "no" is a contradiction — two shapes that cannot be the
/// same value — and anything else is silence. [`is_assignable`] is the
/// stricter relation beside it.
#[verifier::loop_isolation(false)]
#[verifier::rlimit(50)]
pub fn compatible(value: &Type, declared: &Type, classes: &Hierarchy) -> (r: bool)
    ensures
        r == spec_compatible(classes@, value@, declared@),
    decreases value, declared,
{
    let ghost g = classes@;
    let slot: &Type = match declared {
        Type::Optional(inner) => inner,
        other => other,
    };
    if value.is_unknown() || slot.is_unknown() || matches!(slot, Type::Any) || matches!(value, Type::Any) {
        return true;
    }
    if let Type::Union(members) = value {
        proof {
            lemma_views(members@);
        }
        let mut i: usize = 0;
        while i < members.len()
            invariant
                i <= members.len(),
                forall|j: int| 0 <= j < i ==> !spec_compatible(g, #[trigger] views(members@)[j], slot@),
            decreases members.len() - i,
        {
            proof {
                assert(decreases_to!(*value => *members));
                assert(decreases_to!(*members => members@));
                assert(decreases_to!(members@ => members@[i as int]));
            }
            if compatible(&members[i], slot, classes) {
                assert(value@ == TypeV::Union(views(members@)));
                assert(slot@ == spec_required(declared@));
                assert(spec_compatible(g, views(members@)[i as int], slot@));
                assert(spec_compatible(g, value@->Union_0[i as int], spec_required(declared@)));
                assert(!(value@ is Unknown));
                assert(!(value@ is Any));
                assert(!(spec_required(declared@) is Unknown));
                assert(!(spec_required(declared@) is Any));
                assert(value@ is Union);
                assert(exists|i: int| 0 <= i < value@->Union_0.len() && #[trigger] spec_compatible(g, value@->Union_0[i], spec_required(declared@)));
                reveal_with_fuel(spec_compatible, 2);
                assert(spec_compatible(g, value@, declared@));
                return true;
            }
            i += 1;
        }
        return false;
    }
    if let Type::Union(members) = slot {
        proof {
            lemma_views(members@);
        }
        let mut i: usize = 0;
        while i < members.len()
            invariant
                i <= members.len(),
                forall|j: int| 0 <= j < i ==> !spec_compatible(g, value@, #[trigger] views(members@)[j]),
            decreases members.len() - i,
        {
            proof {
                if let Type::Optional(inner) = declared {
                    assert(decreases_to!(*declared => **inner));
                }
                assert(decreases_to!(*slot => *members));
                assert(decreases_to!(*members => members@));
                assert(decreases_to!(members@ => members@[i as int]));
            }
            if compatible(value, &members[i], classes) {
                assert(spec_compatible(g, value@, views(members@)[i as int]));
                return true;
            }
            i += 1;
        }
        return false;
    }
    if (matches!(value, Type::Undef) && matches!(slot, Type::Undef | Type::Bool)) || (matches!(value, Type::Bool)
        && matches!(slot, Type::Undef)) {
        return true;
    }
    if matches!(value, Type::Undef) || matches!(slot, Type::Undef) {
        return false;
    }
    if family(slot, value) || kind_family(value, slot) {
        return true;
    }
    if (matches!(value, Type::Int) && matches!(slot, Type::Num | Type::Str | Type::Value)) || (matches!(value, Type::Num)
        && matches!(slot, Type::Str | Type::Value)) || (matches!(value, Type::Str) && matches!(slot, Type::Value)) {
        return true;
    }
    if (plain_scalar(value) && matches!(slot, Type::Enum(_))) || (matches!(value, Type::Enum(_)) && plain_scalar(slot)) {
        return true;
    }
    if let (Type::Enum(held), Type::Enum(allowed)) = (value, slot) {
        return within(held, allowed);
    }
    if (matches!(value, Type::Str) && matches!(slot, Type::ClassName(_) | Type::RoleName)) || (matches!(
        value,
        Type::ClassName(_) | Type::RoleName
    ) && matches!(slot, Type::Str)) {
        return true;
    }
    if (matches!(value, Type::Bool) && matches!(slot, Type::Int | Type::Num | Type::Str)) || (matches!(
        value,
        Type::Int | Type::Num | Type::Str
    ) && matches!(slot, Type::Bool)) {
        return true;
    }
    if is_reference(value) && is_value(slot) {
        return false;
    }
    if is_value(value) && is_reference(slot) {
        return false;
    }
    if (matches!(slot, Type::Value) && is_reference(value)) || (matches!(value, Type::Value) && is_reference(slot)) {
        return false;
    }
    if (matches!(value, Type::ArrayRef(_) | Type::Tuple(_)) && matches!(slot, Type::HashRef(_) | Type::Dict { .. }))
        || (matches!(value, Type::HashRef(_) | Type::Dict { .. }) && matches!(slot, Type::ArrayRef(_) | Type::Tuple(_))) {
        return false;
    }
    if (matches!(value, Type::CodeRef) && matches!(slot, Type::ArrayRef(_) | Type::HashRef(_) | Type::Dict { .. }))
        || (matches!(value, Type::ArrayRef(_) | Type::HashRef(_) | Type::Dict { .. }) && matches!(slot, Type::CodeRef)) {
        return false;
    }
    if let (Type::ArrayRef(left), Type::ArrayRef(right)) = (value, slot) {
        return compatible(left, right, classes);
    }
    if let (Type::HashRef(left), Type::HashRef(right)) = (value, slot) {
        return compatible(left, right, classes);
    }
    if (matches!(value, Type::Dict { .. }) && matches!(slot, Type::HashRef(_))) || (matches!(value, Type::HashRef(_))
        && matches!(slot, Type::Dict { .. })) || (matches!(value, Type::Tuple(_)) && matches!(slot, Type::ArrayRef(_)))
        || (matches!(value, Type::ArrayRef(_)) && matches!(slot, Type::Tuple(_))) {
        return true;
    }
    if let (Type::MapOf(value_key, value_item), Type::MapOf(slot_key, slot_item)) = (value, slot) {
        return compatible(value_key, slot_key, classes) && compatible(value_item, slot_item, classes);
    }
    if let (Type::MapOf(_, left), Type::HashRef(right)) = (value, slot) {
        return compatible(left, right, classes);
    }
    if let (Type::HashRef(left), Type::MapOf(_, right)) = (value, slot) {
        return compatible(left, right, classes);
    }
    if (matches!(value, Type::Dict { .. }) && matches!(slot, Type::MapOf(_, _))) || (matches!(value, Type::MapOf(_, _))
        && matches!(slot, Type::Dict { .. })) {
        return true;
    }
    if let (Type::Dict { slots: held, slurpy: extra }, Type::Dict { slots: wanted, .. }) = (value, slot) {
        proof {
            lemma_slot_views(held@);
            lemma_slot_views(wanted@);
        }
        let mut k: usize = 0;
        while k < wanted.len()
            invariant
                k <= wanted.len(),
                forall|m: int| 0 <= m < k ==> dict_slot_met(g, value@, #[trigger] slot_views(wanted@)[m]),
            decreases wanted.len() - k,
        {
            let ghost want = slot_views(wanted@)[k as int];
            assert(want == (wanted@[k as int].0@, wanted@[k as int].1@));
            let met = match find_key(held, &wanted[k].0) {
                Some(j) => {
                    proof {
                        lemma_first_key(slot_views(held@), want.0, 0);
                        assert(decreases_to!(*value => *held));
                        assert(decreases_to!(*held => held@));
                        assert(decreases_to!(held@ => held@[j as int]));
                        assert(decreases_to!(held@[j as int] => held@[j as int].1));
                    }
                    compatible(&held[j].1, wanted[k].1.required(), classes)
                },
                None => wanted[k].1.is_optional() || extra.is_some(),
            };
            if !met {
                assert(!dict_slot_met(g, value@, want));
                assert(spec_required(declared@)->Dict_slots[k as int] == want);
                return false;
            }
            k += 1;
        }
        return true;
    }
    if (matches!(value, Type::RegexpRef) && match slot {
        Type::InstanceOf(class) => is_regexp_class(class),
        _ => false,
    }) || (match value {
        Type::InstanceOf(class) => is_regexp_class(class),
        _ => false,
    } && matches!(slot, Type::RegexpRef)) {
        return true;
    }
    if let (Type::InstanceOf(left), Type::InstanceOf(right)) = (value, slot) {
        if !classes.knows_package(left.as_str()) || !classes.knows_package(right.as_str()) {
            return true;
        }
        return classes.isa(left.as_str(), right.as_str());
    }
    if (match slot {
        Type::InstanceOf(class) => is_reference(value) && !classes.knows_package(class.as_str()),
        _ => false,
    }) || (match value {
        Type::InstanceOf(class) => is_reference(slot) && !classes.knows_package(class.as_str()),
        _ => false,
    }) {
        return true;
    }
    if (matches!(value, Type::InstanceOf(_)) && matches!(slot, Type::Object)) || (matches!(value, Type::Object)
        && matches!(slot, Type::InstanceOf(_))) {
        return true;
    }
    value.equals(slot) || !settled(value) || !settled(slot)
}

// ===== is_assignable =====

/// Whether some slot of `slots` is named `key`.
pub open spec fn names_key(slots: Seq<(Seq<char>, TypeV)>, key: Seq<char>) -> bool {
    exists|d: int| 0 <= d < slots.len() && (#[trigger] slots[d]).0 == key
}

/// Whether every value of `value` is a value of `declared`: set inclusion,
/// what an assignment would have to satisfy. Each rule is read in order, the
/// first that applies deciding.
pub open spec fn spec_assignable(g: Seq<(Seq<char>, Seq<Seq<char>>)>, given: TypeV, declared: TypeV) -> bool
    decreases given, declared,
{
    let slot = spec_required(declared);
    let value = spec_required(given);
    if value is Unknown || slot is Unknown || slot is Any || value is Any {
        true
    } else if value == slot {
        true
    } else if value is Union {
        // Every value the union may hold has to be one the slot takes.
        forall|i: int| #![trigger value->Union_0[i]] 0 <= i < value->Union_0.len() ==> spec_assignable(g, value->Union_0[i], slot)
    } else if slot is Union {
        exists|i: int| #![trigger slot->Union_0[i]] 0 <= i < slot->Union_0.len() && spec_assignable(g, value, slot->Union_0[i])
    } else if value is Undef && slot is Bool {
        true
    } else if value is Undef || value is Bool {
        // `Bool` holds an `undef`, which is why it is not a `Value`, not a
        // `Defined` and not a `Str`.
        false
    } else if heads_family(slot, value) {
        true
    } else if value is ScalarRef && slot is ScalarRef {
        spec_assignable(g, *value->ScalarRef_0, *slot->ScalarRef_0)
    } else if value is ArrayRef && slot is ArrayRef {
        spec_assignable(g, *value->ArrayRef_0, *slot->ArrayRef_0)
    } else if value is Tuple && slot is ArrayRef {
        forall|i: int| #![trigger value->Tuple_0[i]] 0 <= i < value->Tuple_0.len() ==> spec_assignable(g, value->Tuple_0[i], *slot->ArrayRef_0)
    } else if value is Tuple && slot is Tuple {
        value->Tuple_0.len() == slot->Tuple_0.len() && forall|i: int| #![trigger value->Tuple_0[i]] 0 <= i < value->Tuple_0.len()
            ==> spec_assignable(g, value->Tuple_0[i], slot->Tuple_0[i])
    } else if value is HashRef && slot is HashRef {
        spec_assignable(g, *value->HashRef_0, *slot->HashRef_0)
    } else if value is HashRef && slot is MapOf {
        spec_assignable(g, *value->HashRef_0, *slot->MapOf_1)
    } else if value is MapOf && slot is HashRef {
        spec_assignable(g, *value->MapOf_1, *slot->HashRef_0)
    } else if value is MapOf && slot is MapOf {
        spec_assignable(g, *value->MapOf_0, *slot->MapOf_0) && spec_assignable(g, *value->MapOf_1, *slot->MapOf_1)
    } else if value is Dict && slot is HashRef {
        dict_items_within(g, value, *slot->HashRef_0)
    } else if value is Dict && slot is MapOf {
        dict_items_within(g, value, *slot->MapOf_1)
    } else if value is Dict && slot is Dict {
        // Every key the slot names has to be there and to fit, and a key it
        // does not name has to be one it allows.
        (forall|k: int| #![trigger slot->Dict_slots[k]] 0 <= k < slot->Dict_slots.len() ==> dict_slot_held(g, value, slot->Dict_slots[k]))
            && (slot->Dict_slurpy is Some || (value->Dict_slurpy is None && forall|h: int|
            #![trigger value->Dict_slots[h]] 0 <= h < value->Dict_slots.len() ==> names_key(slot->Dict_slots, value->Dict_slots[h].0)))
    } else if value is RegexpRef && slot is InstanceOf {
        slot->InstanceOf_0 == regexp_class()
    } else if value is InstanceOf && slot is RegexpRef {
        value->InstanceOf_0 == regexp_class()
    } else if value is InstanceOf && slot is InstanceOf {
        // A class the run never read is one nothing can be shown about.
        if !spec_knows(g, value->InstanceOf_0) || !spec_knows(g, slot->InstanceOf_0) {
            true
        } else {
            spec_isa(g, value->InstanceOf_0, slot->InstanceOf_0)
        }
    } else if value is Enum && slot is Enum {
        enum_within(value->Enum_0, slot->Enum_0)
    } else {
        false
    }
}

/// Whether every item of a `Dict` value, its slurpy part included, is
/// assignable to `item`.
pub open spec fn dict_items_within(g: Seq<(Seq<char>, Seq<Seq<char>>)>, value: TypeV, item: TypeV) -> bool
    decreases value, item,
{
    if value is Dict {
        (forall|i: int| #![trigger value->Dict_slots[i]] 0 <= i < value->Dict_slots.len() ==> spec_assignable(g, value->Dict_slots[i].1, item))
            && match value->Dict_slurpy {
            Some(rest) => spec_assignable(g, *rest, item),
            None => true,
        }
    } else {
        false
    }
}

/// Whether a `Dict` value holds one slot `(key, declared)` of a `Dict`
/// declaration: the first slot of that name is assignable to it, or there is
/// none and the slot is optional.
pub open spec fn dict_slot_held(g: Seq<(Seq<char>, Seq<Seq<char>>)>, value: TypeV, wanted: (Seq<char>, TypeV)) -> bool
    decreases value, wanted.1,
{
    if value is Dict {
        let held = value->Dict_slots;
        match first_key(held, wanted.0, 0) {
            Some(j) => if 0 <= j < held.len() {
                spec_assignable(g, held[j].1, spec_required(wanted.1))
            } else {
                false
            },
            None => wanted.1 is Optional,
        }
    } else {
        false
    }
}

/// Whether every value of `given` is a value of `declared`: set inclusion,
/// which is what an assignment would have to satisfy.
///
/// The strict relation beside [`compatible`], and not the one the checker
/// reports against: the two differ wherever a type holds more than the slot
/// does without contradicting it.
#[verifier::loop_isolation(false)]
#[verifier::rlimit(50)]
pub fn is_assignable(given: &Type, declared: &Type, classes: &Hierarchy) -> (r: bool)
    ensures
        r == spec_assignable(classes@, given@, declared@),
    decreases given, declared,
{
    let ghost g = classes@;
    let slot: &Type = match declared {
        Type::Optional(inner) => inner,
        other => other,
    };
    let value: &Type = match given {
        Type::Optional(inner) => inner,
        other => other,
    };
    if value.is_unknown() || slot.is_unknown() || matches!(slot, Type::Any) || matches!(value, Type::Any) {
        return true;
    }
    if value.equals(slot) {
        return true;
    }
    if let Type::Union(members) = value {
        proof {
            lemma_views(members@);
        }
        let mut i: usize = 0;
        while i < members.len()
            invariant
                i <= members.len(),
                forall|j: int| 0 <= j < i ==> spec_assignable(g, #[trigger] views(members@)[j], slot@),
            decreases members.len() - i,
        {
            proof {
                if let Type::Optional(inner) = given {
                    assert(decreases_to!(*given => **inner));
                }
                assert(decreases_to!(*value => *members));
                assert(decreases_to!(*members => members@));
                assert(decreases_to!(members@ => members@[i as int]));
            }
            if !is_assignable(&members[i], slot, classes) {
                assert(!spec_assignable(g, views(members@)[i as int], slot@));
                return false;
            }
            i += 1;
        }
        return true;
    }
    if let Type::Union(members) = slot {
        proof {
            lemma_views(members@);
        }
        let mut i: usize = 0;
        while i < members.len()
            invariant
                i <= members.len(),
                forall|j: int| 0 <= j < i ==> !spec_assignable(g, value@, #[trigger] views(members@)[j]),
            decreases members.len() - i,
        {
            proof {
                if let Type::Optional(inner) = declared {
                    assert(decreases_to!(*declared => **inner));
                }
                if let Type::Optional(inner) = given {
                    assert(decreases_to!(*given => **inner));
                }
                assert(decreases_to!(*slot => *members));
                assert(decreases_to!(*members => members@));
                assert(decreases_to!(members@ => members@[i as int]));
            }
            if is_assignable(value, &members[i], classes) {
                assert(spec_assignable(g, value@, views(members@)[i as int]));
                return true;
            }
            i += 1;
        }
        return false;
    }
    if matches!(value, Type::Undef) && matches!(slot, Type::Bool) {
        return true;
    }
    if matches!(value, Type::Undef | Type::Bool) {
        return false;
    }
    if family(slot, value) {
        return true;
    }
    if let (Type::ScalarRef(inner), Type::ScalarRef(wanted)) = (value, slot) {
        return is_assignable(inner, wanted, classes);
    }
    if let (Type::ArrayRef(inner), Type::ArrayRef(wanted)) = (value, slot) {
        return is_assignable(inner, wanted, classes);
    }
    if let (Type::Tuple(members), Type::ArrayRef(wanted)) = (value, slot) {
        proof {
            lemma_views(members@);
        }
        let mut i: usize = 0;
        while i < members.len()
            invariant
                i <= members.len(),
                forall|j: int| 0 <= j < i ==> spec_assignable(g, #[trigger] views(members@)[j], wanted@),
            decreases members.len() - i,
        {
            proof {
                if let Type::Optional(inner) = given {
                    assert(decreases_to!(*given => **inner));
                }
                assert(decreases_to!(*value => *members));
                assert(decreases_to!(*members => members@));
                assert(decreases_to!(members@ => members@[i as int]));
            }
            if !is_assignable(&members[i], wanted, classes) {
                assert(!spec_assignable(g, views(members@)[i as int], wanted@));
                assert(spec_required(given@)->Tuple_0[i as int] == views(members@)[i as int]);
                return false;
            }
            i += 1;
        }
        return true;
    }
    if let (Type::Tuple(members), Type::Tuple(wanted)) = (value, slot) {
        proof {
            lemma_views(members@);
            lemma_views(wanted@);
        }
        if members.len() != wanted.len() {
            return false;
        }
        let mut i: usize = 0;
        while i < members.len()
            invariant
                i <= members.len(),
                members.len() == wanted.len(),
                forall|j: int| 0 <= j < i ==> spec_assignable(g, #[trigger] views(members@)[j], views(wanted@)[j]),
            decreases members.len() - i,
        {
            proof {
                if let Type::Optional(inner) = given {
                    assert(decreases_to!(*given => **inner));
                }
                assert(decreases_to!(*value => *members));
                assert(decreases_to!(*members => members@));
                assert(decreases_to!(members@ => members@[i as int]));
            }
            if !is_assignable(&members[i], &wanted[i], classes) {
                assert(!spec_assignable(g, views(members@)[i as int], views(wanted@)[i as int]));
                return false;
            }
            i += 1;
        }
        return true;
    }
    if let (Type::HashRef(inner), Type::HashRef(wanted)) = (value, slot) {
        return is_assignable(inner, wanted, classes);
    }
    if let (Type::HashRef(inner), Type::MapOf(_, wanted)) = (value, slot) {
        return is_assignable(inner, wanted, classes);
    }
    if let (Type::MapOf(_, inner), Type::HashRef(wanted)) = (value, slot) {
        return is_assignable(inner, wanted, classes);
    }
    if let (Type::MapOf(value_key, value_item), Type::MapOf(slot_key, slot_item)) = (value, slot) {
        return is_assignable(value_key, slot_key, classes) && is_assignable(value_item, slot_item, classes);
    }
    if let Type::Dict { slots: held, slurpy: extra } = value {
        let item: Option<&Type> = match slot {
            Type::HashRef(wanted) => Some(&**wanted),
            Type::MapOf(_, wanted) => Some(&**wanted),
            _ => None,
        };
        if let Some(item) = item {
            proof {
                lemma_slot_views(held@);
            }
            let mut i: usize = 0;
            while i < held.len()
                invariant
                    i <= held.len(),
                    forall|j: int| 0 <= j < i ==> spec_assignable(g, (#[trigger] slot_views(held@)[j]).1, item@),
                decreases held.len() - i,
            {
                proof {
                    if let Type::Optional(inner) = given {
                        assert(decreases_to!(*given => **inner));
                    }
                    assert(decreases_to!(*value => *held));
                    assert(decreases_to!(*held => held@));
                    assert(decreases_to!(held@ => held@[i as int]));
                    assert(decreases_to!(held@[i as int] => held@[i as int].1));
                }
                if !is_assignable(&held[i].1, item, classes) {
                    assert(!spec_assignable(g, slot_views(held@)[i as int].1, item@));
                    assert(value@->Dict_slots[i as int] == slot_views(held@)[i as int]);
                    assert(!dict_items_within(g, value@, item@));
                    return false;
                }
                i += 1;
            }
            let rest_fits = match extra {
                Some(rest) => {
                    proof {
                        if let Type::Optional(inner) = given {
                            assert(decreases_to!(*given => **inner));
                        }
                    }
                    is_assignable(rest, item, classes)
                },
                None => true,
            };
            assert(rest_fits == dict_items_within(g, value@, item@));
            return rest_fits;
        }
    }
    if let (Type::Dict { slots: held, slurpy: extra }, Type::Dict { slots: wanted, slurpy: allowed }) = (value, slot) {
        proof {
            lemma_slot_views(held@);
            lemma_slot_views(wanted@);
        }
        let mut k: usize = 0;
        while k < wanted.len()
            invariant
                k <= wanted.len(),
                forall|m: int| 0 <= m < k ==> dict_slot_held(g, value@, #[trigger] slot_views(wanted@)[m]),
            decreases wanted.len() - k,
        {
            let ghost want = slot_views(wanted@)[k as int];
            assert(want == (wanted@[k as int].0@, wanted@[k as int].1@));
            let held_here = match find_key(held, &wanted[k].0) {
                Some(j) => {
                    proof {
                        lemma_first_key(slot_views(held@), want.0, 0);
                        if let Type::Optional(inner) = given {
                            assert(decreases_to!(*given => **inner));
                        }
                        assert(decreases_to!(*value => *held));
                        assert(decreases_to!(*held => held@));
                        assert(decreases_to!(held@ => held@[j as int]));
                        assert(decreases_to!(held@[j as int] => held@[j as int].1));
                    }
                    is_assignable(&held[j].1, wanted[k].1.required(), classes)
                },
                None => wanted[k].1.is_optional(),
            };
            if !held_here {
                assert(!dict_slot_held(g, value@, want));
                assert(slot@->Dict_slots[k as int] == want);
                return false;
            }
            k += 1;
        }
        if allowed.is_some() {
            return true;
        }
        if extra.is_some() {
            return false;
        }
        let mut h: usize = 0;
        while h < held.len()
            invariant
                h <= held.len(),
                forall|m: int| 0 <= m < h ==> names_key(slot_views(wanted@), (#[trigger] slot_views(held@)[m]).0),
            decreases held.len() - h,
        {
            match find_key(wanted, &held[h].0) {
                Some(d) => {
                    proof {
                        lemma_first_key(slot_views(wanted@), held@[h as int].0@, 0);
                        assert(slot_views(wanted@)[d as int].0 == slot_views(held@)[h as int].0);
                    }
                },
                None => {
                    proof {
                        lemma_first_key(slot_views(wanted@), held@[h as int].0@, 0);
                        assert(value@->Dict_slots[h as int] == slot_views(held@)[h as int]);
                        assert(!names_key(slot_views(wanted@), slot_views(held@)[h as int].0));
                    }
                    return false;
                },
            }
            h += 1;
        }
        return true;
    }
    if let (Type::RegexpRef, Type::InstanceOf(class)) = (value, slot) {
        return is_regexp_class(class);
    }
    if let (Type::InstanceOf(class), Type::RegexpRef) = (value, slot) {
        return is_regexp_class(class);
    }
    if let (Type::InstanceOf(left), Type::InstanceOf(right)) = (value, slot) {
        if !classes.knows_package(left.as_str()) || !classes.knows_package(right.as_str()) {
            return true;
        }
        return classes.isa(left.as_str(), right.as_str());
    }
    if let (Type::Enum(held), Type::Enum(allowed)) = (value, slot) {
        return within(held, allowed);
    }
    false
}

} // verus!
