//! The annotation recognisers.
//!
//! Each is a match on a declaration shape that yields symbols or parameter
//! lists. Recognition is by callee name **and** by an import that could have
//! provided it, so a project's own `sub has` is not mistaken for Moose's. That
//! test is [`Frameworks`], which the declaration pass fills in per package
//! from the `use` statements written in it, before it reads anything else.

use vstd::prelude::*;

use crate::decl::{Annotation, Param, ParamSource, Params};
use crate::diag::{spec_default_severity, Code, Diagnostic};
use crate::span::TextRange;
use crate::text::{
    append, contains, ends_with, same_text, spec_contains, spec_ends_with, spec_starts_with,
    spec_trim, starts_with, str_eq, trim,
};
use crate::types::{self, spec_is_type_shaped, spec_parse, Type, TypeV};

pub use crate::shape::{ListShape, Returns};

verus! {

/// The object framework a package is written in, which decides whether `new`
/// exists and what it accepts.
#[derive(Debug, Clone, Copy, PartialEq, Eq, Structural)]
pub enum Framework {
    /// No framework: a plain package.
    Plain,
    /// Moose, Moo, Mouse and their `::Role` forms — `has` declares an
    /// attribute and `new` takes a `Dict` of them.
    Moose,
    /// `use Class::Accessor::Typed (rw => {...})`.
    AccessorTyped,
    /// `Class::Accessor::Lite` and the `mk_accessors` family it belongs to:
    /// accessors and, when asked for, a `new`, and no types anywhere.
    AccessorLite,
    /// A `bless` with no framework behind it.
    Bless,
}

impl Default for Framework {
    fn default() -> (f: Framework)
        ensures
            f == Framework::Plain,
    {
        Framework::Plain
    }
}

/// The keys of a dialect's table, in order: strictly increasing.
pub open spec fn keys_sorted(entries: Seq<(Seq<char>, Seq<char>)>) -> bool {
    forall|i: int, j: int| 0 <= i < j < entries.len() ==> seq_less(entries[i].0, entries[j].0)
}

/// Lexicographic order on characters, which is the order of the UTF-8 bytes
/// too.
pub open spec fn seq_less(a: Seq<char>, b: Seq<char>) -> bool
    decreases a.len(),
{
    if a.len() == 0 {
        b.len() > 0
    } else if b.len() == 0 {
        false
    } else if a[0] != b[0] {
        a[0] < b[0]
    } else {
        seq_less(a.drop_first(), b.drop_first())
    }
}

pub proof fn lemma_seq_less_irreflexive(a: Seq<char>)
    ensures
        !seq_less(a, a),
    decreases a.len(),
{
    if a.len() > 0 {
        lemma_seq_less_irreflexive(a.drop_first());
    }
}

pub proof fn lemma_seq_less_transitive(a: Seq<char>, b: Seq<char>, c: Seq<char>)
    requires
        seq_less(a, b),
        seq_less(b, c),
    ensures
        seq_less(a, c),
    decreases a.len(),
{
    if a.len() > 0 && b.len() > 0 && c.len() > 0 && a[0] == b[0] && b[0] == c[0] {
        lemma_seq_less_transitive(a.drop_first(), b.drop_first(), c.drop_first());
    }
}

pub proof fn lemma_seq_less_total(a: Seq<char>, b: Seq<char>)
    ensures
        a != b ==> (seq_less(a, b) || seq_less(b, a)),
    decreases a.len(),
{
    if a.len() > 0 && b.len() > 0 && a[0] == b[0] {
        lemma_seq_less_total(a.drop_first(), b.drop_first());
        if a.drop_first() == b.drop_first() {
            assert(a =~= seq![a[0]] + a.drop_first());
            assert(b =~= seq![b[0]] + b.drop_first());
        }
    } else if a.len() == 0 && b.len() == 0 {
        assert(a =~= b);
    }
}

/// Whether `a` sorts before `b`.
pub fn str_less(a: &str, b: &str) -> (r: bool)
    ensures
        r == seq_less(a@, b@),
{
    let na = a.unicode_len();
    let nb = b.unicode_len();
    let mut i: usize = 0;
    assert(a@.subrange(0, na as int) =~= a@);
    assert(b@.subrange(0, nb as int) =~= b@);
    while i < na && i < nb
        invariant
            na == a@.len(),
            nb == b@.len(),
            i <= na,
            i <= nb,
            seq_less(a@, b@) == seq_less(a@.subrange(i as int, na as int), b@.subrange(i as int, nb as int)),
        decreases na - i,
    {
        let x = a.get_char(i);
        let y = b.get_char(i);
        if x != y {
            proof {
                reveal_with_fuel(seq_less, 2);
            }
            return x < y;
        }
        proof {
            let sa = a@.subrange(i as int, na as int);
            let sb = b@.subrange(i as int, nb as int);
            assert(sa.drop_first() =~= a@.subrange(i + 1, na as int));
            assert(sb.drop_first() =~= b@.subrange(i + 1, nb as int));
        }
        i += 1;
    }
    proof {
        reveal_with_fuel(seq_less, 2);
    }
    i == na && i < nb
}

/// The value `key` maps to in a table, if any.
pub open spec fn lookup(entries: Seq<(Seq<char>, Seq<char>)>, key: Seq<char>) -> Option<Seq<char>>
    decreases entries.len(),
{
    if entries.len() == 0 {
        None
    } else if entries.last().0 == key {
        Some(entries.last().1)
    } else {
        lookup(entries.drop_last(), key)
    }
}

/// The table `pairs[..n]` builds, a later pair for a key replacing an
/// earlier one.
pub open spec fn table_of(pairs: Seq<(Seq<char>, Seq<char>)>, n: int) -> Map<Seq<char>, Seq<char>>
    decreases n,
{
    if n <= 0 {
        Map::empty()
    } else {
        table_of(pairs, n - 1).insert(pairs[n - 1].0, pairs[n - 1].1)
    }
}

pub open spec fn entries_map(entries: Seq<(Seq<char>, Seq<char>)>) -> Map<Seq<char>, Seq<char>> {
    Map::new(|k: Seq<char>| lookup(entries, k) is Some, |k: Seq<char>| lookup(entries, k)->Some_0)
}

pub open spec fn pair_views(v: Seq<(String, String)>) -> Seq<(Seq<char>, Seq<char>)> {
    v.map_values(|p: (String, String)| (p.0@, p.1@))
}

/// `from=to`, joined with commas.
pub open spec fn fingerprint_of(entries: Seq<(Seq<char>, Seq<char>)>) -> Seq<char>
    decreases entries.len(),
{
    if entries.len() == 0 {
        Seq::empty()
    } else if entries.len() == 1 {
        entries[0].0 + "="@ + entries[0].1
    } else {
        fingerprint_of(entries.drop_last()) + ","@ + entries.last().0 + "="@ + entries.last().1
    }
}

proof fn lemma_lookup_in(entries: Seq<(Seq<char>, Seq<char>)>, k: int)
    requires
        keys_sorted(entries),
        0 <= k < entries.len(),
    ensures
        lookup(entries, entries[k].0) == Some(entries[k].1),
    decreases entries.len(),
{
    if k < entries.len() - 1 {
        let last = entries.last();
        lemma_seq_less_irreflexive(entries[k].0);
        assert(seq_less(entries[k].0, last.0));
        assert(entries.drop_last()[k] == entries[k]);
        lemma_lookup_in(entries.drop_last(), k);
    }
}

proof fn lemma_lookup_absent(entries: Seq<(Seq<char>, Seq<char>)>, key: Seq<char>)
    requires
        forall|i: int| 0 <= i < entries.len() ==> entries[i].0 != key,
    ensures
        lookup(entries, key) is None,
    decreases entries.len(),
{
    if entries.len() > 0 {
        assert(entries.last().0 != key);
        assert forall|i: int| 0 <= i < entries.drop_last().len() implies entries.drop_last()[i].0 != key by {
            assert(entries.drop_last()[i] == entries[i]);
        }
        lemma_lookup_absent(entries.drop_last(), key);
    }
}

proof fn lemma_lookup_some(entries: Seq<(Seq<char>, Seq<char>)>, key: Seq<char>)
    requires
        lookup(entries, key) is Some,
    ensures
        exists|i: int| 0 <= i < entries.len() && entries[i].0 == key && entries[i].1 == lookup(entries, key)->Some_0,
    decreases entries.len(),
{
    if entries.last().0 != key {
        lemma_lookup_some(entries.drop_last(), key);
        let i = choose|i: int| 0 <= i < entries.drop_last().len() && entries.drop_last()[i].0 == key
            && entries.drop_last()[i].1 == lookup(entries.drop_last(), key)->Some_0;
        assert(entries[i] == entries.drop_last()[i]);
    } else {
        assert(entries[entries.len() - 1] == entries.last());
    }
}

/// Putting `(from, to)` at its place `i` in a sorted table, over the entry
/// with the same key where there is one (`skip == i + 1`), keeps the table
/// sorted and maps `from` to `to` and every other key as before.
proof fn lemma_insert_sorted(before: Seq<(Seq<char>, Seq<char>)>, i: int, skip: int, from: Seq<char>, to: Seq<char>)
    requires
        keys_sorted(before),
        0 <= i <= skip <= before.len(),
        skip == i || (skip == i + 1 && before[i].0 == from),
        forall|j: int| 0 <= j < i ==> seq_less(#[trigger] before[j].0, from),
        skip == i ==> (i == before.len() || seq_less(from, before[i].0)),
    ensures
        keys_sorted(before.subrange(0, i).push((from, to)) + before.subrange(skip, before.len() as int)),
        entries_map(before.subrange(0, i).push((from, to)) + before.subrange(skip, before.len() as int))
            == entries_map(before).insert(from, to),
{
    let n = before.len() as int;
    let after = before.subrange(0, i).push((from, to)) + before.subrange(skip, n);
    assert(after.len() == i + 1 + (n - skip));
    assert forall|j: int| skip <= j < n implies seq_less(from, #[trigger] before[j].0) by {
        if skip == i + 1 {
            assert(seq_less(before[i].0, before[j].0));
        } else if j > i {
            assert(seq_less(before[i].0, before[j].0));
            lemma_seq_less_transitive(from, before[i].0, before[j].0);
        }
    }
    assert forall|x: int, y: int| 0 <= x < y < after.len() implies seq_less(after[x].0, after[y].0) by {
        if y < i {
            assert(after[x] == before[x] && after[y] == before[y]);
        } else if y == i {
            assert(after[x] == before[x]);
        } else {
            let yy = y - i - 1 + skip;
            assert(after[y] == before[yy]);
            if x < i {
                assert(after[x] == before[x]);
                lemma_seq_less_transitive(before[x].0, from, before[yy].0);
            } else if x > i {
                let xx = x - i - 1 + skip;
                assert(after[x] == before[xx]);
            }
        }
    }
    assert forall|key: Seq<char>| lookup(after, key) == (if key == from { Some(to) } else { lookup(before, key) }) by {
        if key == from {
            assert(after[i] == (from, to));
            lemma_lookup_in(after, i);
        } else if lookup(before, key) is Some {
            lemma_lookup_some(before, key);
            let j = choose|j: int| 0 <= j < before.len() && before[j].0 == key && before[j].1 == lookup(before, key)->Some_0;
            lemma_lookup_in(before, j);
            if j < i {
                assert(after[j] == before[j]);
                lemma_lookup_in(after, j);
            } else {
                assert(j >= skip);
                let jj = j - skip + i + 1;
                assert(after[jj] == before[j]);
                lemma_lookup_in(after, jj);
            }
        } else {
            assert forall|j: int| 0 <= j < after.len() implies after[j].0 != key by {
                if j < i {
                    assert(after[j] == before[j]);
                    if before[j].0 == key {
                        lemma_lookup_in(before, j);
                    }
                } else if j > i {
                    let jj = j - i - 1 + skip;
                    assert(after[j] == before[jj]);
                    if before[jj].0 == key {
                        lemma_lookup_in(before, jj);
                    }
                }
            }
            lemma_lookup_absent(after, key);
        }
    }
    assert(entries_map(after) =~= entries_map(before).insert(from, to));
}

/// What a project's own modules re-export (`camello.toml`, `read-as`).
///
/// A project that wraps `Class::Accessor::Typed` in a module of its own has
/// taken away the import recognition goes by, so the project says which
/// module its own stands in for, once. It renames a module only for the
/// recognisers.
///
/// The table is kept sorted by the module it renames, one entry per module.
#[derive(Debug)]
pub struct Dialect {
    modules: Vec<(String, String)>,
}

impl Dialect {
    #[verifier::type_invariant]
    spec fn well_formed(self) -> bool {
        keys_sorted(pair_views(self.modules@))
    }

    /// Each renamed module and what it is read as, sorted by the first.
    pub closed spec fn entries(&self) -> Seq<(Seq<char>, Seq<char>)> {
        pair_views(self.modules@)
    }

    /// The dialect renaming nothing.
    pub fn empty() -> (d: Dialect)
        ensures
            d.entries() == Seq::<(Seq<char>, Seq<char>)>::empty(),
    {
        let d = Dialect { modules: Vec::new() };
        assert(d.entries() =~= Seq::<(Seq<char>, Seq<char>)>::empty());
        d
    }

    /// The dialect the pairs describe, a later pair for a module replacing an
    /// earlier one.
    pub fn new(modules: Vec<(String, String)>) -> (d: Dialect)
        ensures
            keys_sorted(d.entries()),
            entries_map(d.entries()) == table_of(pair_views(modules@), modules@.len() as int),
    {
        let mut d = Dialect::empty();
        let mut i: usize = 0;
        while i < modules.len()
            invariant
                i <= modules@.len(),
                keys_sorted(d.entries()),
                entries_map(d.entries()) == table_of(pair_views(modules@), i as int),
            decreases modules@.len() - i,
        {
            let (from, to) = &modules[i];
            d.insert(from.clone(), to.clone());
            i += 1;
        }
        proof {
            use_type_invariant(&d);
        }
        d
    }

    /// Read `from` as `to` from now on.
    pub fn insert(&mut self, from: String, to: String)
        ensures
            keys_sorted(final(self).entries()),
            entries_map(final(self).entries()) == entries_map(old(self).entries()).insert(from@, to@),
    {
        proof {
            use_type_invariant(&*self);
        }
        let ghost before = self.entries();
        let n = self.modules.len();
        let mut i: usize = 0;
        while i < n && str_less(self.modules[i].0.as_str(), from.as_str())
            invariant
                i <= n,
                n == self.modules@.len(),
                before == self.entries(),
                keys_sorted(before),
                forall|j: int| 0 <= j < i ==> seq_less(#[trigger] before[j].0, from@),
            decreases n - i,
        {
            i += 1;
        }
        let replace = i < n && str_eq(&self.modules[i].0, &from);
        let mut modules: Vec<(String, String)> = Vec::new();
        let mut k: usize = 0;
        while k < i
            invariant
                k <= i <= n,
                n == self.modules@.len(),
                before == self.entries(),
                before.len() == n,
                pair_views(modules@) == before.subrange(0, k as int),
            decreases i - k,
        {
            let (a, b) = &self.modules[k];
            let ghost v = pair_views(modules@);
            let pair = (a.clone(), b.clone());
            modules.push(pair);
            proof {
                assert(pair_views(modules@) =~= v.push((a@, b@)));
                assert(before[k as int] == (a@, b@));
            }
            k += 1;
            proof {
                assert(pair_views(modules@) =~= before.subrange(0, k as int));
            }
        }
        let ghost v0 = pair_views(modules@);
        let ghost from_v = from@;
        let ghost to_v = to@;
        modules.push((from, to));
        let mut k: usize = if replace { i + 1 } else { i };
        let ghost skip: int = k as int;
        proof {
            assert(pair_views(modules@) =~= v0.push((from_v, to_v)));
            assert(pair_views(modules@) =~= before.subrange(0, i as int).push((from_v, to_v)) + before.subrange(skip, k as int));
        }
        while k < n
            invariant
                i <= skip <= k <= n,
                skip <= i + 1,
                n == self.modules@.len(),
                before == self.entries(),
                before.len() == n,
                pair_views(modules@) == before.subrange(0, i as int).push((from_v, to_v)) + before.subrange(skip, k as int),
            decreases n - k,
        {
            let (a, b) = &self.modules[k];
            let ghost v = pair_views(modules@);
            let pair = (a.clone(), b.clone());
            modules.push(pair);
            proof {
                assert(pair_views(modules@) =~= v.push((a@, b@)));
                assert(before[k as int] == (a@, b@));
            }
            k += 1;
            proof {
                assert(pair_views(modules@) =~= before.subrange(0, i as int).push((from_v, to_v)) + before.subrange(skip, k as int));
            }
        }
        proof {
            let after = pair_views(modules@);
            assert(after =~= before.subrange(0, i as int).push((from_v, to_v)) + before.subrange(skip, n as int));
            if replace {
                assert(before[i as int].0 == from_v);
            } else if i < n {
                lemma_seq_less_total(from_v, before[i as int].0);
            }
            lemma_insert_sorted(before, i as int, skip, from_v, to_v);
        }
        self.modules = modules;
    }

    pub fn is_empty(&self) -> (r: bool)
        ensures
            r == (self.entries().len() == 0),
    {
        self.modules.len() == 0
    }

    /// The module a `use` is to be read as, which is itself unless the
    /// project said otherwise.
    pub fn read_as<'a>(&'a self, module: &'a str) -> (r: &'a str)
        ensures
            r@ == spec_read_as(self.entries(), module@),
    {
        let mut i: usize = self.modules.len();
        assert(self.entries().subrange(0, i as int) =~= self.entries());
        while i > 0
            invariant
                i <= self.modules@.len(),
                lookup(self.entries(), module@) == lookup(self.entries().subrange(0, i as int), module@),
            decreases i,
        {
            let ghost prefix = self.entries().subrange(0, i as int);
            if same_text(self.modules[i - 1].0.as_str(), module) {
                return self.modules[i - 1].1.as_str();
            }
            assert(prefix.drop_last() =~= self.entries().subrange(0, i - 1));
            i -= 1;
        }
        module
    }

    /// What the declaration cache has to be keyed by on top of the file: a
    /// cached declaration was read under one dialect, and the same bytes read
    /// under another are different declarations.
    pub fn fingerprint(&self) -> (out: String)
        ensures
            out@ == fingerprint_of(self.entries()),
    {
        let mut out = String::new();
        let mut i: usize = 0;
        while i < self.modules.len()
            invariant
                i <= self.modules@.len(),
                out@ == fingerprint_of(self.entries().subrange(0, i as int)),
            decreases self.modules@.len() - i,
        {
            let ghost prefix = self.entries().subrange(0, i + 1);
            if i > 0 {
                append(&mut out, ",");
            }
            append(&mut out, self.modules[i].0.as_str());
            append(&mut out, "=");
            append(&mut out, self.modules[i].1.as_str());
            proof {
                assert(prefix.drop_last() =~= self.entries().subrange(0, i as int));
                if i == 0 {
                    assert(out@ =~= fingerprint_of(prefix));
                } else {
                    assert(out@ =~= fingerprint_of(prefix));
                }
            }
            i += 1;
        }
        assert(self.entries().subrange(0, self.modules@.len() as int) =~= self.entries());
        out
    }
}

/// The module `module` is read as under a table.
pub open spec fn spec_read_as(entries: Seq<(Seq<char>, Seq<char>)>, module: Seq<char>) -> Seq<char> {
    match lookup(entries, module) {
        Some(to) => to,
        None => module,
    }
}

impl Clone for Dialect {
    fn clone(&self) -> (d: Dialect)
        ensures
            d.entries() == self.entries(),
    {
        proof {
            use_type_invariant(self);
        }
        let mut modules: Vec<(String, String)> = Vec::new();
        let mut k: usize = 0;
        while k < self.modules.len()
            invariant
                k <= self.modules@.len(),
                pair_views(modules@) == self.entries().subrange(0, k as int),
            decreases self.modules@.len() - k,
        {
            let (a, b) = &self.modules[k];
            let ghost v = pair_views(modules@);
            let pair = (a.clone(), b.clone());
            modules.push(pair);
            proof {
                assert(pair_views(modules@) =~= v.push((a@, b@)));
            }
            k += 1;
            proof {
                assert(pair_views(modules@) =~= self.entries().subrange(0, k as int));
            }
        }
        assert(self.entries().subrange(0, self.modules@.len() as int) =~= self.entries());
        Dialect { modules }
    }
}

impl Default for Dialect {
    fn default() -> (d: Dialect)
        ensures
            d.entries() == Seq::<(Seq<char>, Seq<char>)>::empty(),
    {
        Dialect::empty()
    }
}

// ===== Which modules are which =====

/// Moose and the dialects that read as it.
pub open spec fn is_moose_module(m: Seq<char>) -> bool {
    m == "Moose"@ || m == "Moo"@ || m == "Mouse"@ || m == "Moose::Role"@ || m == "Moo::Role"@ || m
        == "Mouse::Role"@ || m == "MooseX::Declare"@ || m == "Mojo::Base"@ || m
        == "Moose::Util::TypeConstraints"@ || m == "Mouse::Util::TypeConstraints"@
}

pub open spec fn is_smart_args_module(m: Seq<char>) -> bool {
    m == "Smart::Args"@ || m == "Smart::Args::TypeTiny"@
}

pub open spec fn is_accessor_typed_module(m: Seq<char>) -> bool {
    m == "Class::Accessor::Typed"@
}

/// `Class::Accessor::Lite`, and the `Class::Accessor` family whose
/// `mk_accessors` it shares.
pub open spec fn is_accessor_lite_module(m: Seq<char>) -> bool {
    m == "Class::Accessor::Lite"@ || m == "Class::Accessor::Lite::Lazy"@ || m == "Class::Accessor"@
        || m == "Class::Accessor::Fast"@ || m == "Class::Accessor::Faster"@
}

/// The modules the declaration pass reads statements of for itself, and the
/// XS loaders, whose meaning is that the package is dynamic.
pub open spec fn is_statement_module(m: Seq<char>) -> bool {
    m == "parent"@ || m == "base"@ || m == "constant"@ || m == "Exporter"@ || m == "XSLoader"@ || m
        == "DynaLoader"@ || m == "Inline"@ || m == "Alien::Base"@
}

/// Whether a module could have supplied the type-library DSL: a family
/// rather than a list — `Type`, `Types`, `MooseX::Types`, `MouseX::Types`
/// and everything under them, and any `::Util::TypeConstraints`.
pub open spec fn spec_supplies_the_type_dsl(m: Seq<char>) -> bool {
    m == "Type"@ || spec_starts_with(m, "Type::"@) || m == "Types"@ || spec_starts_with(m, "Types::"@)
        || m == "MooseX::Types"@ || spec_starts_with(m, "MooseX::Types::"@) || m == "MouseX::Types"@
        || spec_starts_with(m, "MouseX::Types::"@) || spec_ends_with(m, "::Util::TypeConstraints"@)
}

pub open spec fn spec_is_recognised(m: Seq<char>) -> bool {
    is_moose_module(m) || is_smart_args_module(m) || is_accessor_typed_module(m)
        || is_accessor_lite_module(m) || is_statement_module(m) || spec_supplies_the_type_dsl(m)
}

fn moose_module(m: &str) -> (r: bool)
    ensures
        r == is_moose_module(m@),
{
    same_text(m, "Moose") || same_text(m, "Moo") || same_text(m, "Mouse") || same_text(m, "Moose::Role")
        || same_text(m, "Moo::Role") || same_text(m, "Mouse::Role") || same_text(m, "MooseX::Declare")
        || same_text(m, "Mojo::Base") || same_text(m, "Moose::Util::TypeConstraints") || same_text(
        m,
        "Mouse::Util::TypeConstraints",
    )
}

fn smart_args_module(m: &str) -> (r: bool)
    ensures
        r == is_smart_args_module(m@),
{
    same_text(m, "Smart::Args") || same_text(m, "Smart::Args::TypeTiny")
}

fn accessor_lite_module(m: &str) -> (r: bool)
    ensures
        r == is_accessor_lite_module(m@),
{
    same_text(m, "Class::Accessor::Lite") || same_text(m, "Class::Accessor::Lite::Lazy") || same_text(
        m,
        "Class::Accessor",
    ) || same_text(m, "Class::Accessor::Fast") || same_text(m, "Class::Accessor::Faster")
}

fn statement_module(m: &str) -> (r: bool)
    ensures
        r == is_statement_module(m@),
{
    same_text(m, "parent") || same_text(m, "base") || same_text(m, "constant") || same_text(m, "Exporter")
        || same_text(m, "XSLoader") || same_text(m, "DynaLoader") || same_text(m, "Inline") || same_text(
        m,
        "Alien::Base",
    )
}

/// Whether a module could have supplied the type-library DSL.
pub fn supplies_the_type_dsl(m: &str) -> (r: bool)
    ensures
        r == spec_supplies_the_type_dsl(m@),
{
    same_text(m, "Type") || starts_with(m, "Type::") || same_text(m, "Types") || starts_with(m, "Types::")
        || same_text(m, "MooseX::Types") || starts_with(m, "MooseX::Types::") || same_text(m, "MouseX::Types")
        || starts_with(m, "MouseX::Types::") || ends_with(m, "::Util::TypeConstraints")
}

/// Whether a `use` of this module is one the checker understands without
/// reading it. A framework is recognised by *name*: the checker knows what
/// `use Moose` installs better than reading `Moose.pm` would tell it.
pub fn is_recognised(module: &str) -> (r: bool)
    ensures
        r == spec_is_recognised(module@),
{
    moose_module(module) || smart_args_module(module) || same_text(module, "Class::Accessor::Typed")
        || accessor_lite_module(module) || statement_module(module) || supplies_the_type_dsl(module)
}

/// What a package's imports say a bareword in it could mean: recognition is
/// by callee name *and* by an import that could have provided it.
#[derive(Debug, Clone)]
pub struct Frameworks {
    pub moose: bool,
    pub smart_args: bool,
    pub accessor_typed: bool,
    pub accessor_lite: bool,
    pub type_library: bool,
    pub dialect: Dialect,
}

/// Whether one of `names`, other than the `-norequire` flag, reads under
/// `entries` as a module `p` holds of.
pub open spec fn names_one(entries: Seq<(Seq<char>, Seq<char>)>, names: Seq<Seq<char>>, p: spec_fn(Seq<char>) -> bool) -> bool {
    exists|i: int|
        0 <= i < names.len() && #[trigger] names[i] != "-norequire"@ && names[i] != "norequire"@ && p(
            spec_read_as(entries, names[i]),
        )
}

pub open spec fn is_parent_or_base(m: Seq<char>) -> bool {
    m == "parent"@ || m == "base"@
}

/// `Class::Accessor` and its two speed variants, whose `antlers` import
/// exports `has`.
pub open spec fn is_accessor_class(m: Seq<char>) -> bool {
    m == "Class::Accessor"@ || m == "Class::Accessor::Fast"@ || m == "Class::Accessor::Faster"@
}

pub open spec fn asks_for_antlers(names: Seq<Seq<char>>) -> bool {
    exists|i: int| 0 <= i < names.len() && (#[trigger] names[i] == "antlers"@ || names[i] == "moose-like"@)
}

impl Frameworks {
    pub closed spec fn dialect(&self) -> Seq<(Seq<char>, Seq<char>)> {
        self.dialect.entries()
    }

    /// Nothing imported yet, under a project whose own modules stand in for
    /// these as `dialect` says.
    pub fn with_dialect(dialect: Dialect) -> (f: Frameworks)
        ensures
            !f.moose && !f.smart_args && !f.accessor_typed && !f.accessor_lite && !f.type_library,
            f.dialect() == dialect.entries(),
    {
        Frameworks {
            moose: false,
            smart_args: false,
            accessor_typed: false,
            accessor_lite: false,
            type_library: false,
            dialect,
        }
    }

    /// Fold one `use Foo` into what the file can be expected to mean.
    pub fn note(&mut self, module: &str)
        ensures
            ({
                let m = spec_read_as(old(self).dialect(), module@);
                &&& final(self).moose == (old(self).moose || is_moose_module(m))
                &&& final(self).smart_args == (old(self).smart_args || is_smart_args_module(m))
                &&& final(self).accessor_typed == (old(self).accessor_typed || is_accessor_typed_module(m))
                &&& final(self).accessor_lite == (old(self).accessor_lite || is_accessor_lite_module(m))
                &&& final(self).type_library == (old(self).type_library || spec_supplies_the_type_dsl(m))
            }),
            final(self).dialect() == old(self).dialect(),
    {
        let m = self.dialect.read_as(module);
        let moose = moose_module(m);
        let smart = smart_args_module(m);
        let typed = same_text(m, "Class::Accessor::Typed");
        let lite = accessor_lite_module(m);
        let dsl = supplies_the_type_dsl(m);
        if moose {
            self.moose = true;
        }
        if smart {
            self.smart_args = true;
        }
        if typed {
            self.accessor_typed = true;
        }
        if lite {
            self.accessor_lite = true;
        }
        if dsl {
            self.type_library = true;
        }
    }

    /// Fold what a `use` was *given* into the same picture: `use base
    /// 'Class::Accessor'` names the framework in its arguments, and `use
    /// Class::Accessor 'antlers'` is the one spelling of it that exports
    /// `has`.
    pub fn note_arguments(&mut self, module: &str, names: &[String])
        ensures
            ({
                let d = old(self).dialect();
                let m = spec_read_as(d, module@);
                let ns = names@.map_values(|n: String| n@);
                let listed = is_parent_or_base(m);
                &&& final(self).moose == (old(self).moose || (listed && names_one(d, ns, |x: Seq<char>| is_moose_module(x)))
                    || (!listed && is_accessor_class(m) && asks_for_antlers(ns)))
                &&& final(self).smart_args == (old(self).smart_args || (listed && names_one(d, ns, |x: Seq<char>| is_smart_args_module(x))))
                &&& final(self).accessor_typed == (old(self).accessor_typed || (listed && names_one(d, ns, |x: Seq<char>| is_accessor_typed_module(x))))
                &&& final(self).accessor_lite == (old(self).accessor_lite || (listed && names_one(d, ns, |x: Seq<char>| is_accessor_lite_module(x))))
                &&& final(self).type_library == (old(self).type_library || (listed && names_one(d, ns, |x: Seq<char>| spec_supplies_the_type_dsl(x))))
            }),
            final(self).dialect() == old(self).dialect(),
    {
        let ghost d = self.dialect();
        let ghost ns = names@.map_values(|n: String| n@);
        let read = self.dialect.read_as(module);
        let parent = same_text(read, "parent") || same_text(read, "base");
        let accessor = same_text(read, "Class::Accessor") || same_text(read, "Class::Accessor::Fast") || same_text(read, "Class::Accessor::Faster");
        if parent {
            let ghost start = *self;
            let mut i: usize = 0;
            while i < names.len()
                invariant
                    i <= names@.len(),
                    self.dialect() == d,
                    ns == names@.map_values(|n: String| n@),
                    self.moose == (start.moose || names_one(d, ns.subrange(0, i as int), |x: Seq<char>| is_moose_module(x))),
                    self.smart_args == (start.smart_args || names_one(d, ns.subrange(0, i as int), |x: Seq<char>| is_smart_args_module(x))),
                    self.accessor_typed == (start.accessor_typed || names_one(d, ns.subrange(0, i as int), |x: Seq<char>| is_accessor_typed_module(x))),
                    self.accessor_lite == (start.accessor_lite || names_one(d, ns.subrange(0, i as int), |x: Seq<char>| is_accessor_lite_module(x))),
                    self.type_library == (start.type_library || names_one(d, ns.subrange(0, i as int), |x: Seq<char>| spec_supplies_the_type_dsl(x))),
                decreases names@.len() - i,
            {
                let name = names[i].as_str();
                let ghost prefix = ns.subrange(0, i + 1);
                proof {
                    assert(prefix[i as int] == name@);
                    assert forall|j: int| 0 <= j < i implies #[trigger] prefix[j] == ns.subrange(0, i as int)[j] by {}
                }
                if !same_text(name, "-norequire") && !same_text(name, "norequire") {
                    self.note(name);
                }
                i += 1;
            }
            assert(ns.subrange(0, names@.len() as int) =~= ns);
        } else if accessor {
            let mut found = false;
            let mut i: usize = 0;
            while i < names.len()
                invariant
                    i <= names@.len(),
                    ns == names@.map_values(|n: String| n@),
                    found == asks_for_antlers(ns.subrange(0, i as int)),
                decreases names@.len() - i,
            {
                let ghost prefix = ns.subrange(0, i + 1);
                proof {
                    assert(prefix[i as int] == names@[i as int]@);
                    assert forall|j: int| 0 <= j < i implies #[trigger] prefix[j] == ns.subrange(0, i as int)[j] by {}
                }
                if same_text(names[i].as_str(), "antlers") || same_text(names[i].as_str(), "moose-like") {
                    found = true;
                }
                i += 1;
            }
            assert(ns.subrange(0, names@.len() as int) =~= ns);
            if found {
                self.moose = true;
            }
        }
    }

    /// The framework a package is written in, Moose first.
    pub fn framework(&self) -> (f: Framework)
        ensures
            f == (if self.moose {
                Framework::Moose
            } else if self.accessor_typed {
                Framework::AccessorTyped
            } else if self.accessor_lite {
                Framework::AccessorLite
            } else {
                Framework::Plain
            }),
    {
        if self.moose {
            Framework::Moose
        } else if self.accessor_typed {
            Framework::AccessorTyped
        } else if self.accessor_lite {
            Framework::AccessorLite
        } else {
            Framework::Plain
        }
    }
}

impl Default for Frameworks {
    fn default() -> (f: Frameworks)
        ensures
            !f.moose && !f.smart_args && !f.accessor_typed && !f.accessor_lite && !f.type_library,
            f.dialect() == Seq::<(Seq<char>, Seq<char>)>::empty(),
    {
        Frameworks::with_dialect(Dialect::empty())
    }
}

// ===== Attributes =====

/// How a reader may reach an attribute.
#[derive(Debug, Clone, Copy, PartialEq, Eq, Structural)]
pub enum Access {
    Ro,
    Rw,
    Wo,
}

/// What a generated method does, which is what decides its result type.
#[derive(Debug, Clone, Copy, PartialEq, Eq, Structural)]
pub enum AccessorRole {
    /// Gives the attribute's value back: the accessor itself, and `reader`.
    Reader,
    /// Sets the slot and gives back what it set, which Moose's writers do.
    Writer,
    /// `predicate`: whether the slot is filled.
    Predicate,
    /// `clearer`: empties the slot; what it gives back is not worth claiming.
    Clearer,
    /// `handles`: another object's method, which nothing here read.
    Delegated,
}

pub open spec fn spec_role_returns(role: AccessorRole, ty: TypeV) -> TypeV {
    match role {
        AccessorRole::Reader | AccessorRole::Writer => ty,
        AccessorRole::Predicate => TypeV::Bool,
        AccessorRole::Clearer | AccessorRole::Delegated => TypeV::Unknown,
    }
}

impl AccessorRole {
    /// What calling a method in this role gives back, for an attribute
    /// declared `ty`.
    pub fn result_type(self, ty: &Type) -> (r: Type)
        ensures
            r@ == spec_role_returns(self, ty@),
    {
        match self {
            AccessorRole::Reader | AccessorRole::Writer => ty.duplicate(),
            AccessorRole::Predicate => Type::Bool,
            AccessorRole::Clearer | AccessorRole::Delegated => Type::Unknown,
        }
    }
}

/// One method an attribute declaration generates, and what calling it says.
#[derive(Debug)]
pub struct GeneratedMethod {
    pub name: String,
    pub role: AccessorRole,
}

impl Clone for GeneratedMethod {
    fn clone(&self) -> (m: GeneratedMethod)
        ensures
            m.name@ == self.name@,
            m.role == self.role,
    {
        GeneratedMethod { name: self.name.clone(), role: self.role }
    }
}

pub open spec fn method_views(methods: Seq<GeneratedMethod>) -> Seq<(Seq<char>, AccessorRole)> {
    methods.map_values(|m: GeneratedMethod| (m.name@, m.role))
}

/// The first of `methods` from `i` on called `name`.
pub open spec fn find_method(methods: Seq<(Seq<char>, AccessorRole)>, name: Seq<char>, i: int) -> Option<AccessorRole>
    decreases methods.len() - i,
{
    if i < 0 || i >= methods.len() {
        None
    } else if methods[i].0 == name {
        Some(methods[i].1)
    } else {
        find_method(methods, name, i + 1)
    }
}

/// An attribute, from `has`, `Class::Accessor::Typed`, or the `mk_accessors`
/// family.
#[derive(Debug)]
pub struct AttributeDecl {
    pub name: String,
    pub ty: Type,
    pub access: Access,
    pub required: bool,
    /// A `default`, a `builder` or a `lazy` — anything that means `new` may
    /// leave the slot out.
    pub defaulted: bool,
    /// `coerce => 1`: what goes in may be anything; what comes back out is
    /// still the declared type.
    pub coerce: bool,
    /// The methods this attribute generates besides the accessor itself.
    pub methods: Vec<GeneratedMethod>,
    /// `handles` naming a regexp or a role: the delegated set is unknowable.
    pub opaque_delegation: bool,
    /// The sub that fills a lazy slot, where the declaration named one.
    pub builder: Option<String>,
    pub range: TextRange,
}

/// One parameter's value: its name, whether it may be left out, its type.
pub open spec fn param_view(name: Seq<char>, optional: bool, ty: TypeV) -> (Seq<char>, bool, TypeV) {
    (name, optional, ty)
}

/// The parameter list the method `name` of an attribute generates.
pub open spec fn spec_attribute_params(a: AttributeDecl, name: Seq<char>) -> Option<Seq<(Seq<char>, bool, TypeV)>> {
    let invocant = param_view("$self"@, false, TypeV::Any);
    let accepts = if a.coerce { TypeV::Any } else { a.ty@ };
    let value = |optional: bool| param_view(seq!['$'] + a.name@, optional, accepts);
    match find_method(method_views(a.methods@), name, 0) {
        Some(AccessorRole::Reader) | Some(AccessorRole::Predicate) | Some(AccessorRole::Clearer) => Some(seq![invocant]),
        Some(AccessorRole::Writer) => Some(seq![invocant, value(false)]),
        Some(AccessorRole::Delegated) => None,
        None => match a.access {
            Access::Ro => Some(seq![invocant]),
            Access::Wo => Some(seq![invocant, value(false)]),
            Access::Rw => Some(seq![invocant, value(true)]),
        },
    }
}

impl AttributeDecl {
    /// The role of the generated method `name`, if it is one.
    fn role_of(&self, name: &str) -> (r: Option<AccessorRole>)
        ensures
            r == find_method(method_views(self.methods@), name@, 0),
    {
        let mut i: usize = 0;
        while i < self.methods.len()
            invariant
                i <= self.methods@.len(),
                find_method(method_views(self.methods@), name@, 0) == find_method(method_views(self.methods@), name@, i as int),
            decreases self.methods@.len() - i,
        {
            if same_text(self.methods[i].name.as_str(), name) {
                return Some(self.methods[i].role);
            }
            i += 1;
        }
        None
    }

    /// Whether this attribute answers to `name`, as its accessor or as one of
    /// the methods it generates.
    pub fn answers_to(&self, name: &str) -> (r: bool)
        ensures
            r == (self.name@ == name@ || find_method(method_views(self.methods@), name@, 0) is Some),
    {
        same_text(self.name.as_str(), name) || self.role_of(name).is_some()
    }

    /// What may be put *into* the slot: anything, where a coercion stands
    /// between the caller and the declared type.
    pub fn accepts(&self) -> (r: Type)
        ensures
            r@ == (if self.coerce { TypeV::Any } else { self.ty@ }),
    {
        if self.coerce {
            Type::Any
        } else {
            self.ty.duplicate()
        }
    }

    /// The parameter list of the method `name` generates: the invocant, and
    /// the value where the method sets one.
    pub fn params(&self, name: &str) -> (r: Params)
        ensures
            match spec_attribute_params(*self, name@) {
                Some(ps) => r matches Params::Positional { params, slurpy, invocant, source } && !slurpy
                    && invocant && source == ParamSource::Generated && crate::decl::param_views(params@) == ps,
                None => r is Unknown,
            },
    {
        let role = self.role_of(name);
        let takes_value = match role {
            Some(AccessorRole::Reader) | Some(AccessorRole::Predicate) | Some(AccessorRole::Clearer) => None,
            Some(AccessorRole::Writer) => Some(false),
            Some(AccessorRole::Delegated) => return Params::Unknown,
            None => match self.access {
                Access::Ro => None,
                Access::Wo => Some(false),
                Access::Rw => Some(true),
            },
        };
        let mut self_name = String::new();
        append(&mut self_name, "$self");
        assert(self_name@ =~= "$self"@);
        let mut params: Vec<Param> = Vec::new();
        params.push(Param { name: self_name, optional: false, ty: Type::Any });
        if let Some(optional) = takes_value {
            let mut value_name = String::new();
            crate::text::push_char(&mut value_name, '$');
            append(&mut value_name, self.name.as_str());
            assert(value_name@ =~= seq!['$'] + self.name@);
            params.push(Param { name: value_name, optional, ty: self.accepts() });
        }
        proof {
            let ps = spec_attribute_params(*self, name@);
            assert(crate::decl::param_views(params@) =~= ps->Some_0);
        }
        Params::Positional { params, slurpy: false, invocant: true, source: ParamSource::Generated }
    }

    /// Whether calling `name` gives back what the slot holds: the accessor
    /// itself, a `reader` and a `writer` do.
    pub fn yields_the_slot(&self, name: &str) -> (r: bool)
        ensures
            r == (match find_method(method_views(self.methods@), name@, 0) {
                None => true,
                Some(role) => role == AccessorRole::Reader || role == AccessorRole::Writer,
            }),
    {
        match self.role_of(name) {
            None => true,
            Some(AccessorRole::Reader) | Some(AccessorRole::Writer) => true,
            _ => false,
        }
    }

    /// What calling `name` on it gives back: not the attribute's type for
    /// all of them.
    pub fn result_type(&self, name: &str) -> (r: Type)
        ensures
            r@ == (match find_method(method_views(self.methods@), name@, 0) {
                Some(role) => spec_role_returns(role, self.ty@),
                None => self.ty@,
            }),
    {
        match self.role_of(name) {
            Some(role) => role.result_type(&self.ty),
            None => self.ty.duplicate(),
        }
    }
}

// ===== Reading annotations =====

/// One annotation, as read, and where it was written.
#[derive(Debug)]
pub struct Annotated {
    pub ty: Type,
    pub range: TextRange,
}

/// What reading a file's annotations produced: the pass's own diagnostics,
/// and the ledger for the questions that need the whole program.
#[derive(Debug)]
pub struct Sink {
    pub diagnostics: Vec<Diagnostic>,
    pub annotations: Vec<Annotated>,
}

/// A diagnostic as a value: its code, severity, the code it is about, its
/// range and its message.
pub type DiagV = (Code, crate::diag::Severity, Option<Seq<char>>, TextRange, Seq<char>);

/// A diagnostic's value.
pub open spec fn diagnostic_view(d: Diagnostic) -> DiagV {
    (d.code, d.severity, match d.subject {
        Some(s) => Some(s@),
        None => None,
    }, d.range, d.message@)
}

pub open spec fn diagnostic_views(ds: Seq<Diagnostic>) -> Seq<DiagV> {
    ds.map_values(|d: Diagnostic| diagnostic_view(d))
}

pub open spec fn annotated_views(a: Seq<Annotated>) -> Seq<(TypeV, TextRange)> {
    a.map_values(|one: Annotated| (one.ty@, one.range))
}

/// A `bad-annotation` at `range` saying `message`.
pub open spec fn bad_annotation(range: TextRange, message: Seq<char>) -> DiagV {
    (Code::BadAnnotation, spec_default_severity(Code::BadAnnotation), None, range, message)
}

impl Sink {
    pub fn new() -> (s: Sink)
        ensures
            s.diagnostics@.len() == 0,
            s.annotations@.len() == 0,
    {
        Sink { diagnostics: Vec::new(), annotations: Vec::new() }
    }

    /// Record that `ty` was read at `range`.
    pub fn note(&mut self, ty: &Type, range: TextRange)
        ensures
            annotated_views(final(self).annotations@) == annotated_views(old(self).annotations@).push((ty@, range)),
            final(self).diagnostics@ == old(self).diagnostics@,
    {
        let ghost before = annotated_views(self.annotations@);
        self.annotations.push(Annotated { ty: ty.duplicate(), range });
        assert(annotated_views(self.annotations@) =~= before.push((ty@, range)));
    }

    /// Report a `bad-annotation`.
    pub fn bad(&mut self, range: TextRange, message: String)
        ensures
            diagnostic_views(final(self).diagnostics@) == diagnostic_views(old(self).diagnostics@).push(bad_annotation(range, message@)),
            final(self).annotations@ == old(self).annotations@,
    {
        let ghost before = diagnostic_views(self.diagnostics@);
        let ghost text = message@;
        self.diagnostics.push(Diagnostic::new(Code::BadAnnotation, range, message));
        assert(diagnostic_views(self.diagnostics@) =~= before.push(bad_annotation(range, text)));
    }
}

/// Whether text that failed to parse was nonetheless meant as a type: not
/// code — a sigil, an arrow, a call, a backslash — and shaped like a type.
pub open spec fn spec_looks_like_a_type(text: Seq<char>) -> bool {
    let t = spec_trim(text);
    t.len() > 0 && !spec_contains(t, "$"@) && !spec_contains(t, "@"@) && !spec_contains(t, "%"@)
        && !spec_contains(t, "->"@) && !spec_contains(t, "("@) && !spec_contains(t, "\\"@)
        && spec_is_type_shaped(t)
}

fn looks_like_a_type(text: &str) -> (r: bool)
    ensures
        r == spec_looks_like_a_type(text@),
{
    let trimmed = trim(text);
    let t = trimmed.as_str();
    if t.unicode_len() == 0 {
        return false;
    }
    if contains(t, "$") || contains(t, "@") || contains(t, "%") || contains(t, "->") || contains(t, "(")
        || contains(t, "\\") {
        return false;
    }
    types::is_type_shaped(t)
}

/// The message for an annotation that is not a type.
pub open spec fn not_a_type_message(text: Seq<char>, error: Seq<char>) -> Seq<char> {
    "`"@ + text + "` is not a type: "@ + error
}

/// Read a type annotation's text, reporting when it does not parse — but
/// only when the text was *meant* as a type. A `$type_object` is code the
/// checker cannot read, not an annotation it read wrongly, and it is
/// `Unknown` and silent.
pub fn read_annotation(annotation: &Annotation, into: &mut Sink) -> (r: Type)
    ensures
        match spec_parse(annotation.text@) {
            Ok(ty) => r@ == ty && annotated_views(final(into).annotations@) == annotated_views(old(into).annotations@).push((ty, annotation.range))
                && final(into).diagnostics@ == old(into).diagnostics@,
            Err(m) => r@ == TypeV::Unknown && final(into).annotations@ == old(into).annotations@
                && diagnostic_views(final(into).diagnostics@) == (if spec_looks_like_a_type(annotation.text@) {
                    diagnostic_views(old(into).diagnostics@).push(bad_annotation(annotation.range, not_a_type_message(annotation.text@, m)))
                } else {
                    diagnostic_views(old(into).diagnostics@)
                }),
        },
{
    match types::parse(annotation.text.as_str()) {
        Ok(ty) => {
            into.note(&ty, annotation.range);
            ty
        },
        Err(error) => {
            if looks_like_a_type(annotation.text.as_str()) {
                let mut message = String::new();
                append(&mut message, "`");
                append(&mut message, annotation.text.as_str());
                append(&mut message, "` is not a type: ");
                append(&mut message, error.message.as_str());
                into.bad(annotation.range, message);
            }
            Type::Unknown
        },
    }
}

// ===== The `mk_accessors` family =====

/// Which of the `mk_*` family a name is, and what it makes.
#[derive(Debug, Clone, Copy, PartialEq, Eq, Structural)]
pub enum AccessorMaker {
    /// Accessors, at this access, lazy or not.
    Accessors { access: Access, lazy: bool },
    /// `mk_new` — the constructor and nothing else.
    New,
    /// `mk_new_and_accessors` — both.
    NewAndAccessors,
    /// `follow_best_practice` — from here on the accessors are `get_x`/`set_x`.
    BestPractice,
}

pub open spec fn spec_maker_of(m: Seq<char>) -> Option<AccessorMaker> {
    if m == "mk_accessors"@ {
        Some(AccessorMaker::Accessors { access: Access::Rw, lazy: false })
    } else if m == "mk_ro_accessors"@ {
        Some(AccessorMaker::Accessors { access: Access::Ro, lazy: false })
    } else if m == "mk_wo_accessors"@ {
        Some(AccessorMaker::Accessors { access: Access::Wo, lazy: false })
    } else if m == "mk_lazy_accessors"@ {
        Some(AccessorMaker::Accessors { access: Access::Rw, lazy: true })
    } else if m == "mk_ro_lazy_accessors"@ {
        Some(AccessorMaker::Accessors { access: Access::Ro, lazy: true })
    } else if m == "mk_new"@ {
        Some(AccessorMaker::New)
    } else if m == "mk_new_and_accessors"@ {
        Some(AccessorMaker::NewAndAccessors)
    } else if m == "follow_best_practice"@ {
        Some(AccessorMaker::BestPractice)
    } else {
        None
    }
}

impl AccessorMaker {
    /// What a method name in the family makes, or `None` for a name outside
    /// it.
    pub fn of(method: &str) -> (r: Option<AccessorMaker>)
        ensures
            r == spec_maker_of(method@),
    {
        if same_text(method, "mk_accessors") {
            Some(AccessorMaker::Accessors { access: Access::Rw, lazy: false })
        } else if same_text(method, "mk_ro_accessors") {
            Some(AccessorMaker::Accessors { access: Access::Ro, lazy: false })
        } else if same_text(method, "mk_wo_accessors") {
            Some(AccessorMaker::Accessors { access: Access::Wo, lazy: false })
        } else if same_text(method, "mk_lazy_accessors") {
            Some(AccessorMaker::Accessors { access: Access::Rw, lazy: true })
        } else if same_text(method, "mk_ro_lazy_accessors") {
            Some(AccessorMaker::Accessors { access: Access::Ro, lazy: true })
        } else if same_text(method, "mk_new") {
            Some(AccessorMaker::New)
        } else if same_text(method, "mk_new_and_accessors") {
            Some(AccessorMaker::NewAndAccessors)
        } else if same_text(method, "follow_best_practice") {
            Some(AccessorMaker::BestPractice)
        } else {
            None
        }
    }
}

/// Where a lazy slot's builder is, as the declaration wrote it.
#[derive(Debug, Clone, PartialEq, Eq)]
pub enum Builder {
    /// Nothing written beside the name: `foo` is built with `_build_foo`.
    Implicit,
    /// `{ poyo => \&make_poyo }` or `{ poe => 'make_poe' }` — either way a
    /// name.
    Named(String),
    /// `{ yyy => sub { ... } }` — a builder with no name to ask about.
    Anonymous,
}

/// One accessor a declaration spells out, and the builder written beside it.
#[derive(Debug, Clone, PartialEq, Eq)]
pub struct AccessorName {
    pub name: String,
    pub builder: Builder,
}

impl AccessorName {
    /// A name with nothing written beside it.
    pub fn implicit(name: String) -> (a: AccessorName)
        ensures
            a.name == name,
            a.builder is Implicit,
    {
        AccessorName { name, builder: Builder::Implicit }
    }
}

/// The builder a lazy accessor named `name` is filled by.
pub open spec fn spec_builder_name(name: Seq<char>, builder: Builder) -> Option<Seq<char>> {
    match builder {
        Builder::Implicit => Some("_build_"@ + name),
        Builder::Named(b) => Some(b@),
        Builder::Anonymous => None,
    }
}

/// An attribute of the `mk_accessors` family: untyped, never required, and
/// always defaulted — this family's `new` requires nothing, and a lazy slot
/// is filled by its builder.
pub open spec fn is_listed_attribute(a: AttributeDecl, listed: AccessorName, access: Access, lazy: bool, range: TextRange) -> bool {
    &&& a.name@ == listed.name@
    &&& a.ty@ == TypeV::Unknown
    &&& a.access == access
    &&& !a.required
    &&& a.defaulted
    &&& !a.coerce
    &&& a.methods@.len() == 0
    &&& !a.opaque_delegation
    &&& (match a.builder {
        Some(b) => lazy && spec_builder_name(listed.name@, listed.builder) == Some(b@),
        None => !lazy || spec_builder_name(listed.name@, listed.builder) is None,
    })
    &&& a.range == range
}

/// One `mk_accessors` list, as attributes.
pub fn accessor_attributes(names: &[AccessorName], access: Access, lazy: bool, range: TextRange) -> (out: Vec<AttributeDecl>)
    ensures
        out@.len() == names@.len(),
        forall|i: int| 0 <= i < names@.len() ==> is_listed_attribute(#[trigger] out@[i], names@[i], access, lazy, range),
{
    let mut out: Vec<AttributeDecl> = Vec::new();
    let mut i: usize = 0;
    while i < names.len()
        invariant
            i <= names@.len(),
            out@.len() == i,
            forall|j: int| 0 <= j < i ==> is_listed_attribute(#[trigger] out@[j], names@[j], access, lazy, range),
        decreases names@.len() - i,
    {
        let listed = &names[i];
        let builder = if lazy {
            match &listed.builder {
                Builder::Implicit => {
                    let mut b = String::new();
                    append(&mut b, "_build_");
                    append(&mut b, listed.name.as_str());
                    Some(b)
                },
                Builder::Named(b) => Some(b.clone()),
                Builder::Anonymous => None,
            }
        } else {
            None
        };
        out.push(AttributeDecl {
            name: listed.name.clone(),
            ty: Type::Unknown,
            access,
            required: false,
            defaulted: true,
            coerce: false,
            methods: Vec::new(),
            opaque_delegation: false,
            builder,
            range,
        });
        i += 1;
    }
    out
}

/// The `get_x` / `set_x` names `follow_best_practice` puts an accessor
/// under: a getter unless write-only, a setter unless read-only.
pub fn best_practice_methods(name: &str, access: Access) -> (out: Vec<GeneratedMethod>)
    ensures
        method_views(out@) == (if access != Access::Wo {
            seq![("get_"@ + name@, AccessorRole::Reader)]
        } else {
            Seq::empty()
        }) + (if access != Access::Ro {
            seq![("set_"@ + name@, AccessorRole::Writer)]
        } else {
            Seq::empty()
        }),
{
    let mut out: Vec<GeneratedMethod> = Vec::new();
    if access != Access::Wo {
        let mut n = String::new();
        append(&mut n, "get_");
        append(&mut n, name);
        out.push(GeneratedMethod { name: n, role: AccessorRole::Reader });
    }
    let ghost mid = method_views(out@);
    if access != Access::Ro {
        let mut n = String::new();
        append(&mut n, "set_");
        append(&mut n, name);
        out.push(GeneratedMethod { name: n, role: AccessorRole::Writer });
    }
    proof {
        if access != Access::Wo {
            assert(mid =~= seq![("get_"@ + name@, AccessorRole::Reader)]);
        } else {
            assert(mid =~= Seq::<(Seq<char>, AccessorRole)>::empty());
        }
    }
    assert(method_views(out@) =~= (if access != Access::Wo {
        seq![("get_"@ + name@, AccessorRole::Reader)]
    } else {
        Seq::empty()
    }) + (if access != Access::Ro {
        seq![("set_"@ + name@, AccessorRole::Writer)]
    } else {
        Seq::empty()
    }));
    out
}

/// One type a project's own library declares.
#[derive(Debug)]
pub struct NamedType {
    pub name: String,
    pub ty: Type,
}

} // verus!
