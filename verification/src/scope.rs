//! What kind of binding a name has, which decides what is said of it.

use vstd::prelude::*;
use vstd::string::StringSliceAdditionalSpecFns;

use crate::annotate::{diagnostic_views, DiagV};
use crate::ast::{arguments_of, name_child_text, spec_sigil_text, NoStmt, Sigil, UseStmt};
use crate::diag::{spec_default_severity, Code, Diagnostic};
use crate::resolve::{decimal, decimal_string};
use crate::span::TextRange;
use crate::params::{descendants, preorder};
use crate::suppress::{all_tokens, tokens};
use crate::syntax::{child_tokens, deref_nodes, deref_tokens, NodeKind, SyntaxNode, SyntaxToken, TokenKind};
use crate::text::{append, chars_of, is_white_space, is_whitespace, same_text, string_of};

verus! {

/// How a lexical came to be bound.
#[derive(Debug, Clone, Copy, PartialEq, Eq, Structural)]
pub enum BindingKind {
    My,
    State,
    Our,
    /// `use vars qw($x)`.
    Vars,
    /// What a sub takes: a signature parameter, an `args` item, or a name in a
    /// `my (...) = @_` unpacking.
    Param,
    /// `catch ($e)` — bound by the construct whether the body wants it or not.
    Caught,
    /// The `class` feature's `field`.
    Field,
    /// `$_`, `@_`, `%ENV` — bound by perl, not by the file.
    Implicit,
}

impl BindingKind {
    /// What never reading it is reported as, or `None` when it is not worth
    /// saying: `our` may be read by another file, a `catch` variable is bound
    /// by the construct, and a parameter has its own code.
    pub fn unused_code(self) -> (r: Option<Code>)
        ensures
            r == (match self {
                BindingKind::My | BindingKind::State | BindingKind::Field => Some(Code::UnusedVariable),
                BindingKind::Param => Some(Code::UnusedParameter),
                _ => None,
            }),
    {
        match self {
            BindingKind::My | BindingKind::State | BindingKind::Field => Some(Code::UnusedVariable),
            BindingKind::Param => Some(Code::UnusedParameter),
            _ => None,
        }
    }

    /// Whether a name bound this way is reported for shadowing one bound
    /// further out.
    pub fn reports_shadowing(self) -> (r: bool)
        ensures
            r == (self == BindingKind::My || self == BindingKind::State),
    {
        match self {
            BindingKind::My | BindingKind::State => true,
            _ => false,
        }
    }
}

// ===== Where `strict` is in force =====

/// A module whose import turns `strict` on.
pub open spec fn is_strict_module(m: Seq<char>) -> bool {
    m == "strict"@ || m == "strictures"@ || m == "Modern::Perl"@ || m == "common::sense"@ || m == "Moose"@
        || m == "Moose::Role"@ || m == "Moose::Exporter"@ || m == "Moo"@ || m == "Moo::Role"@ || m == "Mouse"@
        || m == "Mouse::Role"@ || m == "Mojo::Base"@ || m == "Mojolicious::Lite"@ || m == "Dancer2"@
        || m == "Object::Pad"@ || m == "Test::Class::Moose"@ || m == "Class::Accessor::Typed"@
}

/// The modules whose import turns `strict` on, as a table.
pub open spec fn strict_by_import() -> Seq<Seq<char>> {
    seq![
        "strict"@,
        "strictures"@,
        "Modern::Perl"@,
        "common::sense"@,
        "Moose"@,
        "Moose::Role"@,
        "Moose::Exporter"@,
        "Moo"@,
        "Moo::Role"@,
        "Mouse"@,
        "Mouse::Role"@,
        "Mojo::Base"@,
        "Mojolicious::Lite"@,
        "Dancer2"@,
        "Object::Pad"@,
        "Test::Class::Moose"@,
        "Class::Accessor::Typed"@,
    ]
}

/// Every module of the table turns `strict` on when it is imported.
pub proof fn law_every_strict_module_turns_strict_on(i: int)
    requires
        0 <= i < strict_by_import().len(),
    ensures
        is_strict_module(strict_by_import()[i]),
{
    let t = strict_by_import();
        if i == 0 {
            assert(t[0] == "strict"@);
        } else if i == 1 {
            assert(t[1] == "strictures"@);
        } else if i == 2 {
            assert(t[2] == "Modern::Perl"@);
        } else if i == 3 {
            assert(t[3] == "common::sense"@);
        } else if i == 4 {
            assert(t[4] == "Moose"@);
        } else if i == 5 {
            assert(t[5] == "Moose::Role"@);
        } else if i == 6 {
            assert(t[6] == "Moose::Exporter"@);
        } else if i == 7 {
            assert(t[7] == "Moo"@);
        } else if i == 8 {
            assert(t[8] == "Moo::Role"@);
        } else if i == 9 {
            assert(t[9] == "Mouse"@);
        } else if i == 10 {
            assert(t[10] == "Mouse::Role"@);
        } else if i == 11 {
            assert(t[11] == "Mojo::Base"@);
        } else if i == 12 {
            assert(t[12] == "Mojolicious::Lite"@);
        } else if i == 13 {
            assert(t[13] == "Dancer2"@);
        } else if i == 14 {
            assert(t[14] == "Object::Pad"@);
        } else if i == 15 {
            assert(t[15] == "Test::Class::Moose"@);
        } else if i == 16 {
            assert(t[16] == "Class::Accessor::Typed"@);
        }
}

/// And nothing else does.
pub proof fn law_only_the_table_turns_strict_on(m: Seq<char>)
    requires
        is_strict_module(m),
    ensures
        strict_by_import().contains(m),
{
    let t = strict_by_import();
    if m == "strict"@ {
        assert(t[0] == m);
    }
    if m == "strictures"@ {
        assert(t[1] == m);
    }
    if m == "Modern::Perl"@ {
        assert(t[2] == m);
    }
    if m == "common::sense"@ {
        assert(t[3] == m);
    }
    if m == "Moose"@ {
        assert(t[4] == m);
    }
    if m == "Moose::Role"@ {
        assert(t[5] == m);
    }
    if m == "Moose::Exporter"@ {
        assert(t[6] == m);
    }
    if m == "Moo"@ {
        assert(t[7] == m);
    }
    if m == "Moo::Role"@ {
        assert(t[8] == m);
    }
    if m == "Mouse"@ {
        assert(t[9] == m);
    }
    if m == "Mouse::Role"@ {
        assert(t[10] == m);
    }
    if m == "Mojo::Base"@ {
        assert(t[11] == m);
    }
    if m == "Mojolicious::Lite"@ {
        assert(t[12] == m);
    }
    if m == "Dancer2"@ {
        assert(t[13] == m);
    }
    if m == "Object::Pad"@ {
        assert(t[14] == m);
    }
    if m == "Test::Class::Moose"@ {
        assert(t[15] == m);
    }
    if m == "Class::Accessor::Typed"@ {
        assert(t[16] == m);
    }
}

/// `use M;` for a module of the table is where `strict` comes on: from the
/// end of that statement.
pub proof fn law_importing_a_strict_module_turns_strict_on(n: SyntaxNode, i: int)
    requires
        0 <= i < strict_by_import().len(),
        n.kind == NodeKind::UseStmt,
        name_child_text(n) == Some(strict_by_import()[i]),
    ensures
        strict_event(n) == seq![(n.range.end, true)],
{
    law_every_strict_module_turns_strict_on(i);
}

pub fn strict_module(m: &str) -> (r: bool)
    ensures
        r == is_strict_module(m@),
{
    same_text(m, "strict") || same_text(m, "strictures") || same_text(m, "Modern::Perl") || same_text(m, "common::sense")
        || same_text(m, "Moose") || same_text(m, "Moose::Role") || same_text(m, "Moose::Exporter") || same_text(m, "Moo")
        || same_text(m, "Moo::Role") || same_text(m, "Mouse") || same_text(m, "Mouse::Role") || same_text(m, "Mojo::Base")
        || same_text(m, "Mojolicious::Lite") || same_text(m, "Dancer2") || same_text(m, "Object::Pad")
        || same_text(m, "Test::Class::Moose") || same_text(m, "Class::Accessor::Typed")
}

/// The text of tokens, one after another.
pub open spec fn text_of_tokens(ts: Seq<SyntaxToken>) -> Seq<char>
    decreases ts.len(),
{
    if ts.len() == 0 {
        Seq::empty()
    } else {
        text_of_tokens(ts.drop_last()) + ts.last().text@
    }
}

/// A node's source text, trivia included.
pub open spec fn full_text(n: SyntaxNode) -> Seq<char> {
    text_of_tokens(all_tokens(n))
}

/// Whether `w` stands somewhere in `t`.
pub open spec fn holds_text(t: Seq<char>, w: Seq<char>) -> bool {
    exists|i: int| 0 <= i && i + w.len() <= t.len() && #[trigger] t.subrange(i, i + w.len()) == w
}

/// Whether `t` is all whitespace: what is left once trimmed is nothing.
pub open spec fn all_whitespace(t: Seq<char>) -> bool {
    forall|i: int| 0 <= i < t.len() ==> is_white_space(#[trigger] t[i])
}

/// Whether a `no strict ...` turns off the part that names must be declared:
/// bare, or naming `vars`.
pub open spec fn spec_disables_vars(statement: SyntaxNode) -> bool {
    match arguments_of(statement) {
        None => true,
        Some(a) => holds_text(full_text(a), "vars"@) || all_whitespace(full_text(a)),
    }
}

/// The first version number among the tokens.
pub open spec fn first_version(ts: Seq<SyntaxToken>, i: int) -> Option<Seq<char>>
    decreases ts.len() - i,
{
    if i < 0 || i >= ts.len() {
        None
    } else if ts[i].kind == TokenKind::Version {
        Some(ts[i].text@)
    } else {
        first_version(ts, i + 1)
    }
}

/// The text with its leading `v`s taken off.
pub open spec fn without_vs(t: Seq<char>) -> Seq<char>
    decreases t.len(),
{
    if t.len() > 0 && t[0] == 'v' {
        without_vs(t.drop_first())
    } else {
        t
    }
}

/// Where the first `.` in `t` from `i` on stands, or its end.
pub open spec fn dot_at(t: Seq<char>, i: int) -> int
    decreases t.len() - i,
{
    if i < 0 || i >= t.len() {
        t.len() as int
    } else if t[i] == '.' {
        i
    } else {
        dot_at(t, i + 1)
    }
}

pub open spec fn is_digit(c: char) -> bool {
    '0' <= c && c <= '9'
}

/// The decimal value of a run of digits.
pub open spec fn decimal_value(d: Seq<char>) -> nat
    decreases d.len(),
{
    if d.len() == 0 {
        0
    } else {
        10 * decimal_value(d.drop_last()) + ((d.last() as u32 - '0' as u32) as nat)
    }
}

pub open spec fn all_digits(d: Seq<char>) -> bool {
    forall|i: int| 0 <= i < d.len() ==> is_digit(#[trigger] d[i])
}

/// A number read as `u32` reads one: an optional `+`, then digits, and no
/// more than `u32::MAX`; `None` where that fails.
pub open spec fn parse_u32(t: Seq<char>) -> Option<nat> {
    let d = if t.len() > 0 && t[0] == '+' {
        t.drop_first()
    } else {
        t
    };
    if d.len() > 0 && all_digits(d) && decimal_value(d) <= u32::MAX {
        Some(decimal_value(d))
    } else {
        None
    }
}

/// `use v5.12` and up imply `use strict`: the version's first two parts,
/// a three-digit minor (`5.012`) read in tenths.
pub open spec fn spec_version_enables_strict(node: SyntaxNode) -> bool {
    match first_version(child_tokens(node), 0) {
        None => false,
        Some(text) => {
            let t = without_vs(text);
            let d1 = dot_at(t, 0);
            let major = match parse_u32(t.subrange(0, d1)) {
                Some(v) => v,
                None => 0,
            };
            let minor0 = if d1 < t.len() {
                let rest = t.subrange(d1 + 1, t.len() as int);
                match parse_u32(rest.subrange(0, dot_at(rest, 0))) {
                    Some(v) => v,
                    None => 0,
                }
            } else {
                0
            };
            let minor = if minor0 >= 100 {
                minor0 / 10
            } else {
                minor0
            };
            major > 5 || (major == 5 && minor >= 11)
        },
    }
}

/// What one statement says about `strict`: on from its end, off from its
/// start, or nothing.
pub open spec fn strict_event(n: SyntaxNode) -> Seq<(u32, bool)> {
    if n.kind == NodeKind::UseStmt {
        let on = match name_child_text(n) {
            Some(m) => is_strict_module(m),
            None => spec_version_enables_strict(n),
        };
        if on {
            seq![(n.range.end, true)]
        } else {
            Seq::empty()
        }
    } else if n.kind == NodeKind::NoStmt {
        if name_child_text(n) == Some("strict"@) && spec_disables_vars(n) {
            seq![(n.range.start, false)]
        } else {
            Seq::empty()
        }
    } else {
        Seq::empty()
    }
}

/// The events of a run of nodes, in document order.
pub open spec fn strict_events(ns: Seq<SyntaxNode>) -> Seq<(u32, bool)>
    decreases ns.len(),
{
    if ns.len() == 0 {
        Seq::empty()
    } else {
        strict_events(ns.drop_last()) + strict_event(ns.last())
    }
}

/// The event in force at `offset`: the latest at or before it, the later of
/// two at one offset.
pub open spec fn last_event(es: Seq<(u32, bool)>, offset: int) -> Option<(u32, bool)>
    decreases es.len(),
{
    if es.len() == 0 {
        None
    } else {
        let b = last_event(es.drop_last(), offset);
        let e = es.last();
        if e.0 <= offset && match b {
            None => true,
            Some(x) => e.0 >= x.0,
        } {
            Some(e)
        } else {
            b
        }
    }
}

/// Whether `strict` is in force at `offset`.
pub open spec fn strict_at(es: Seq<(u32, bool)>, offset: int) -> bool {
    match last_event(es, offset) {
        Some(e) => e.1,
        None => false,
    }
}

fn text_of(n: &SyntaxNode) -> (r: Vec<char>)
    ensures
        r@ == full_text(*n),
{
    let ts = tokens(n);
    let ghost all = all_tokens(*n);
    let mut out = String::new();
    let mut i: usize = 0;
    assert(all.subrange(0, 0) =~= Seq::<SyntaxToken>::empty());
    while i < ts.len()
        invariant
            i <= ts@.len(),
            deref_tokens(ts@) == all,
            out@ == text_of_tokens(all.subrange(0, i as int)),
        decreases ts@.len() - i,
    {
        proof {
            assert(all.subrange(0, i + 1).drop_last() =~= all.subrange(0, i as int));
            assert(all.subrange(0, i + 1).last() == *ts@[i as int]);
        }
        append(&mut out, ts[i].text.as_str());
        i += 1;
    }
    assert(all.subrange(0, ts@.len() as int) =~= all);
    chars_of(out.as_str())
}

fn holds_vars(t: &Vec<char>) -> (r: bool)
    ensures
        r == holds_text(t@, "vars"@),
{
    let w = chars_of("vars");
    proof {
        reveal_strlit("vars");
    }
    assert(w@ =~= "vars"@);
    if t.len() < 4 {
        assert forall|i: int| 0 <= i && i + 4 <= t@.len() implies #[trigger] t@.subrange(i, i + 4) != w@ by {}
        return false;
    }
    let last = t.len() - 4;
    let mut i: usize = 0;
    while i <= last
        invariant
            t@.len() >= 4,
            last == t@.len() - 4,
            last + 4 == t.len(),
            w@ == "vars"@,
            w@.len() == 4,
            forall|k: int| 0 <= k < i ==> #[trigger] t@.subrange(k, k + 4) != w@,
        decreases last + 1 - i,
    {
        if t[i] == w[0] && t[i + 1] == w[1] && t[i + 2] == w[2] && t[i + 3] == w[3] {
            assert(t@.subrange(i as int, i + 4) =~= w@);
            return true;
        }
        assert(t@.subrange(i as int, i + 4)[0] == t@[i as int]);
        assert(t@.subrange(i as int, i + 4)[1] == t@[i + 1]);
        assert(t@.subrange(i as int, i + 4)[2] == t@[i + 2]);
        assert(t@.subrange(i as int, i + 4)[3] == t@[i + 3]);
        i += 1;
    }
    false
}

fn whitespace_only(t: &Vec<char>) -> (r: bool)
    ensures
        r == all_whitespace(t@),
{
    let mut i: usize = 0;
    while i < t.len()
        invariant
            i <= t@.len(),
            forall|k: int| 0 <= k < i ==> is_white_space(#[trigger] t@[k]),
        decreases t@.len() - i,
    {
        if !is_whitespace(t[i]) {
            return false;
        }
        i += 1;
    }
    true
}

/// Whether a `no strict ...` turns off the part this pass depends on.
pub fn disables_vars(statement: &SyntaxNode) -> (r: bool)
    requires
        statement.kind == NodeKind::NoStmt,
    ensures
        r == spec_disables_vars(*statement),
{
    let arguments = match NoStmt(statement).arguments() {
        None => return true,
        Some(a) => a,
    };
    let t = text_of(arguments);
    holds_vars(&t) || whitespace_only(&t)
}

/// A number as `u32` reads one, or `None`.
fn parse_number(t: &Vec<char>, from: usize, to: usize) -> (r: Option<u32>)
    requires
        from <= to <= t@.len(),
    ensures
        match parse_u32(t@.subrange(from as int, to as int)) {
            Some(v) => r == Some(v as u32),
            None => r is None,
        },
{
    let ghost s = t@.subrange(from as int, to as int);
    let start = if from < to && t[from] == '+' { from + 1 } else { from };
    let ghost d = t@.subrange(start as int, to as int);
    assert(d =~= (if s.len() > 0 && s[0] == '+' { s.drop_first() } else { s }));
    if start == to {
        return None;
    }
    let limit: u64 = 0xffff_ffff;
    let mut value: u64 = 0;
    let mut i: usize = start;
    assert(t@.subrange(start as int, start as int) =~= Seq::<char>::empty());
    while i < to
        invariant
            start <= i <= to <= t@.len(),
            d == t@.subrange(start as int, to as int),
            parse_u32(t@.subrange(from as int, to as int)) == (if d.len() > 0 && all_digits(d) && decimal_value(d) <= u32::MAX {
                Some(decimal_value(d))
            } else {
                None
            }),
            limit == 0xffff_ffffu64,
            all_digits(t@.subrange(start as int, i as int)),
            value as int == if decimal_value(t@.subrange(start as int, i as int)) <= limit {
                decimal_value(t@.subrange(start as int, i as int)) as int
            } else {
                limit + 1
            },
        decreases to - i,
    {
        let c = t[i];
        proof {
            assert(t@.subrange(start as int, i + 1).drop_last() =~= t@.subrange(start as int, i as int));
            assert(t@.subrange(start as int, i + 1).last() == c);
        }
        if !('0' <= c && c <= '9') {
            assert(d[i - start] == c);
            assert(!all_digits(d));
            return None;
        }
        let digit = (c as u32 - '0' as u32) as u64;
        value = if value > limit { limit + 1 } else if value * 10 + digit > limit { limit + 1 } else { value * 10 + digit };
        assert(all_digits(t@.subrange(start as int, i + 1))) by {
            assert forall|k: int| 0 <= k < i + 1 - start implies is_digit(#[trigger] t@.subrange(start as int, i + 1)[k]) by {
                if k < i - start {
                    assert(t@.subrange(start as int, i + 1)[k] == t@.subrange(start as int, i as int)[k]);
                }
            }
        }
        i += 1;
    }
    assert(t@.subrange(start as int, to as int) == d);
    if value > limit {
        None
    } else {
        Some(value as u32)
    }
}

/// Where the first `.` from `i` on stands, or the end.
fn find_dot(t: &Vec<char>, i: usize) -> (r: usize)
    requires
        i <= t@.len(),
    ensures
        r == dot_at(t@, i as int),
        i <= r <= t@.len(),
{
    let mut k = i;
    while k < t.len() && t[k] != '.'
        invariant
            i <= k <= t@.len(),
            dot_at(t@, i as int) == dot_at(t@, k as int),
        decreases t@.len() - k,
    {
        k += 1;
    }
    k
}

proof fn lemma_dot_shift(t: Seq<char>, from: int, i: int)
    requires
        0 <= from <= i <= t.len(),
    ensures
        dot_at(t.subrange(from, t.len() as int), i - from) + from == dot_at(t, i),
    decreases t.len() - i,
{
    if i < t.len() && t[i] != '.' {
        lemma_dot_shift(t, from, i + 1);
    }
}

/// The text of a statement's first version number.
fn version_text(node: &SyntaxNode) -> (r: Option<String>)
    ensures
        match first_version(child_tokens(*node), 0) {
            Some(t) => r matches Some(s) && s@ == t,
            None => r is None,
        },
{
    let ts = node.significant_tokens();
    let ghost all = child_tokens(*node);
    let mut i: usize = 0;
    while i < ts.len()
        invariant
            i <= ts@.len(),
            deref_tokens(ts@) == all,
            all == child_tokens(*node),
            first_version(all, 0) == first_version(all, i as int),
        decreases ts@.len() - i,
    {
        assert(all[i as int] == *ts@[i as int]);
        if ts[i].kind == TokenKind::Version {
            let found = ts[i].text.clone();
            assert(all[i as int].kind == TokenKind::Version);
            assert(first_version(all, i as int) == Some(all[i as int].text@));
            assert(found@ == all[i as int].text@);
            return Some(found);
        }
        i += 1;
    }
    None
}

/// `use v5.12` and up imply `use strict` (perl 5.11.0 onwards).
pub fn version_enables_strict(node: &SyntaxNode) -> (r: bool)
    ensures
        r == spec_version_enables_strict(*node),
{
    let text = match version_text(node) {
        Some(t) => t,
        None => return false,
    };
    let ghost all = child_tokens(*node);
    assert(first_version(all, 0) == Some(text@));
    let c = chars_of(text.as_str());
    let mut s: usize = 0;
    assert(c@.subrange(0, c@.len() as int) =~= c@);
    while s < c.len() && c[s] == 'v'
        invariant
            s <= c@.len(),
            c@ == text@,
            without_vs(c@) == without_vs(c@.subrange(s as int, c@.len() as int)),
        decreases c@.len() - s,
    {
        assert(c@.subrange(s as int, c@.len() as int).drop_first() =~= c@.subrange(s + 1, c@.len() as int));
        s += 1;
    }
    let ghost t = c@.subrange(s as int, c@.len() as int);
    assert(without_vs(c@) == t);
    let d1 = find_dot(&c, s);
    proof {
        lemma_dot_shift(c@, s as int, s as int);
        assert(t.subrange(0, d1 - s) =~= c@.subrange(s as int, d1 as int));
    }
    let major: u64 = match parse_number(&c, s, d1) {
        Some(v) => v as u64,
        None => 0,
    };
    let minor0: u64 = if d1 < c.len() {
        let d2 = find_dot(&c, d1 + 1);
        proof {
            let rest = t.subrange(d1 - s + 1, t.len() as int);
            assert(rest =~= c@.subrange(d1 + 1, c@.len() as int));
            lemma_dot_shift(c@, d1 + 1, d1 + 1);
            assert(rest.subrange(0, dot_at(rest, 0)) =~= c@.subrange(d1 + 1, d2 as int));
        }
        match parse_number(&c, d1 + 1, d2) {
            Some(v) => v as u64,
            None => 0,
        }
    } else {
        0
    };
    let minor = if minor0 >= 100 { minor0 / 10 } else { minor0 };
    major > 5 || (major == 5 && minor >= 11)
}

/// Where in the file an undeclared name becomes an error: `strict` read, not
/// assumed, and positional, as perl's lexical pragma is. `no strict` (bare,
/// or naming `vars`) turns it off from where it appears to the end of the
/// file.
pub struct StrictRegions {
    events: Vec<(u32, bool)>,
}

impl StrictRegions {
    /// What turns `strict` on and off, in document order.
    pub closed spec fn events(&self) -> Seq<(u32, bool)> {
        self.events@
    }

    /// Read where a file asks for `strict` and where it lets it go.
    pub fn of(root: &SyntaxNode) -> (r: StrictRegions)
        ensures
            r.events() == strict_events(preorder(*root)),
    {
        let all = descendants(root);
        let ghost ns = deref_nodes(all@);
        let mut events: Vec<(u32, bool)> = Vec::new();
        let mut i: usize = 0;
        assert(ns.subrange(0, 0) =~= Seq::<SyntaxNode>::empty());
        while i < all.len()
            invariant
                i <= all@.len(),
                ns == deref_nodes(all@),
                ns == preorder(*root),
                events@ == strict_events(ns.subrange(0, i as int)),
            decreases all@.len() - i,
        {
            let node = all[i];
            proof {
                assert(ns.subrange(0, i + 1).drop_last() =~= ns.subrange(0, i as int));
                assert(ns.subrange(0, i + 1).last() == *node);
            }
            let ghost before = events@;
            if node.kind == NodeKind::UseStmt {
                let on = match UseStmt(node).module() {
                    Some(module) => strict_module(module.as_str()),
                    None => version_enables_strict(node),
                };
                if on {
                    events.push((node.range.end, true));
                }
            } else if node.kind == NodeKind::NoStmt {
                let strict = match NoStmt(node).module() {
                    Some(module) => same_text(module.as_str(), "strict"),
                    None => false,
                };
                if strict && disables_vars(node) {
                    events.push((node.range.start, false));
                }
            }
            assert(events@ =~= before + strict_event(*node));
            i += 1;
        }
        assert(ns.subrange(0, all@.len() as int) =~= ns);
        StrictRegions { events }
    }

    /// Whether `strict` is in force at `offset`.
    pub fn at(&self, offset: u32) -> (r: bool)
        ensures
            r == strict_at(self.events(), offset as int),
    {
        let mut best: Option<(u32, bool)> = None;
        let mut i: usize = 0;
        assert(self.events@.subrange(0, 0) =~= Seq::<(u32, bool)>::empty());
        while i < self.events.len()
            invariant
                i <= self.events@.len(),
                best == last_event(self.events@.subrange(0, i as int), offset as int),
            decreases self.events@.len() - i,
        {
            proof {
                assert(self.events@.subrange(0, i + 1).drop_last() =~= self.events@.subrange(0, i as int));
            }
            let e = self.events[i];
            let take = e.0 <= offset && match best {
                None => true,
                Some(x) => e.0 >= x.0,
            };
            if take {
                best = Some(e);
            }
            i += 1;
        }
        assert(self.events@.subrange(0, self.events@.len() as int) =~= self.events@);
        match best {
            Some(e) => e.1,
            None => false,
        }
    }

    /// Whether `strict` is asked for anywhere in the file.
    pub fn anywhere(&self) -> (r: bool)
        ensures
            r == exists|i: int| 0 <= i < self.events().len() && (#[trigger] self.events()[i]).1,
    {
        let mut i: usize = 0;
        while i < self.events.len()
            invariant
                i <= self.events@.len(),
                forall|k: int| 0 <= k < i ==> !(#[trigger] self.events@[k]).1,
            decreases self.events@.len() - i,
        {
            if self.events[i].1 {
                assert(self.events()[i as int].1);
                return true;
            }
            i += 1;
        }
        false
    }
}


// ===== The scopes a walk keeps =====

/// Whether never reading this name is worth a word: a leading underscore
/// says "bound on purpose", and `$self` and `$class` are unpacked because the
/// shape of `@_` says to.
pub open spec fn spec_reports_unused_name(name: Seq<char>) -> bool {
    !(name.len() > 0 && name[0] == '_') && name != "self"@ && name != "class"@
}

pub fn reports_unused_name(name: &str) -> (r: bool)
    ensures
        r == spec_reports_unused_name(name@),
{
    let underscore = name.unicode_len() > 0 && name.get_char(0) == '_';
    !underscore && !same_text(name, "self") && !same_text(name, "class")
}

/// The names perl binds in every file.
pub open spec fn is_always_in_scope(name: Seq<char>) -> bool {
    name == "_"@ || name == "a"@ || name == "b"@ || name == "ARGV"@ || name == "ARGVOUT"@ || name == "ENV"@ || name
        == "INC"@ || name == "SIG"@ || name == "STDIN"@ || name == "STDOUT"@ || name == "STDERR"@ || name == "DATA"@
        || name == "AUTOLOAD"@ || name == "ISA"@ || name == "0"@
}

pub fn always_in_scope(name: &str) -> (r: bool)
    ensures
        r == is_always_in_scope(name@),
{
    same_text(name, "_") || same_text(name, "a") || same_text(name, "b") || same_text(name, "ARGV") || same_text(
        name,
        "ARGVOUT",
    ) || same_text(name, "ENV") || same_text(name, "INC") || same_text(name, "SIG") || same_text(name, "STDIN")
        || same_text(name, "STDOUT") || same_text(name, "STDERR") || same_text(name, "DATA") || same_text(
        name,
        "AUTOLOAD",
    ) || same_text(name, "ISA") || same_text(name, "0")
}

/// Those names, in the order they are bound.
pub open spec fn always_names() -> Seq<Seq<char>> {
    seq!["_"@, "a"@, "b"@, "ARGV"@, "ARGVOUT"@, "ENV"@, "INC"@, "SIG"@, "STDIN"@, "STDOUT"@, "STDERR"@, "DATA"@, "AUTOLOAD"@, "ISA"@, "0"@]
}

/// Every sigil, in the order perl's own names are bound under them.
pub open spec fn implicit_sigils() -> Seq<Sigil> {
    seq![Sigil::Scalar, Sigil::Array, Sigil::Hash, Sigil::Code, Sigil::Typeglob]
}

/// A name bound in a scope.
pub struct Binding {
    pub sigil: Sigil,
    pub name: String,
    pub range: TextRange,
    pub kind: BindingKind,
    pub used: bool,
    /// A value held for its destructor: bound on purpose, never read on
    /// purpose.
    pub guard: bool,
}

pub open spec fn key_matches(b: Binding, sigil: Sigil, name: Seq<char>) -> bool {
    b.sigil == sigil && b.name@ == name
}

/// The newest of the first `n` bindings of one scope that binds the name.
pub open spec fn find_in_scope(bs: Seq<Binding>, idxs: Seq<usize>, sigil: Sigil, name: Seq<char>, n: int) -> Option<usize>
    decreases n,
{
    if n <= 0 || n > idxs.len() {
        None
    } else if key_matches(bs[idxs[n - 1] as int], sigil, name) {
        Some(idxs[n - 1])
    } else {
        find_in_scope(bs, idxs, sigil, name, n - 1)
    }
}

/// The binding a name resolves to, looking from the innermost of the first
/// `n` scopes outward.
pub open spec fn find_in_scopes(bs: Seq<Binding>, ss: Seq<Seq<usize>>, sigil: Sigil, name: Seq<char>, n: int) -> Option<usize>
    decreases n,
{
    if n <= 0 || n > ss.len() {
        None
    } else {
        match find_in_scope(bs, ss[n - 1], sigil, name, ss[n - 1].len() as int) {
            Some(i) => Some(i),
            None => find_in_scopes(bs, ss, sigil, name, n - 1),
        }
    }
}

/// What never reading a binding is reported as, if anything.
pub open spec fn unused_report(b: Binding) -> Option<DiagV> {
    if b.used || b.guard || !spec_reports_unused_name(b.name@) {
        None
    } else {
        match b.kind {
            BindingKind::My | BindingKind::State | BindingKind::Field => Some(
                (
                    Code::UnusedVariable,
                    spec_default_severity(Code::UnusedVariable),
                    None,
                    b.range,
                    "`"@ + spec_sigil_text(b.sigil) + b.name@ + "` is declared and never read"@,
                ),
            ),
            BindingKind::Param => Some(
                (
                    Code::UnusedParameter,
                    spec_default_severity(Code::UnusedParameter),
                    None,
                    b.range,
                    "`"@ + spec_sigil_text(b.sigil) + b.name@ + "` is taken as a parameter and never read"@,
                ),
            ),
            _ => None,
        }
    }
}

/// What closing a scope reports, for the first `n` of its bindings in order.
pub open spec fn unused_reports(bs: Seq<Binding>, idxs: Seq<usize>, n: int) -> Seq<DiagV>
    decreases n,
{
    if n <= 0 || n > idxs.len() {
        Seq::empty()
    } else {
        unused_reports(bs, idxs, n - 1) + match unused_report(bs[idxs[n - 1] as int]) {
            Some(d) => seq![d],
            None => Seq::empty(),
        }
    }
}

/// A name `my` never declares: a sub, a glob, a package-qualified name, a
/// match variable, a `^` special, or one perl binds everywhere.
pub open spec fn never_declared(sigil: Sigil, name: Seq<char>) -> bool {
    sigil == Sigil::Code || sigil == Sigil::Typeglob || holds_text(name, "::"@) || (forall|i: int|
        0 <= i < name.len() ==> is_digit(#[trigger] name[i])) || (name.len() > 0 && name[0] == '^')
        || is_always_in_scope(name)
}

/// The line an offset is on: one more than the line breaks before it.
pub open spec fn newlines_before(bytes: Seq<u8>, n: int) -> nat
    decreases n,
{
    if n <= 0 || n > bytes.len() {
        0
    } else {
        newlines_before(bytes, n - 1) + if bytes[n - 1] == 10 { 1nat } else { 0nat }
    }
}

pub open spec fn spec_line_of(bytes: Seq<u8>, offset: int) -> nat {
    newlines_before(bytes, if offset <= bytes.len() { offset } else { bytes.len() as int }) + 1
}

/// What declaring a name reports: that it shadows the binding it would have
/// resolved to, where that is the user's own and the name is worth a word.
pub open spec fn shadow_report(
    bs: Seq<Binding>,
    outer: Option<usize>,
    sigil: Sigil,
    name: Seq<char>,
    range: TextRange,
    kind: BindingKind,
    bytes: Seq<u8>,
) -> Seq<DiagV> {
    match outer {
        Some(o) => if (kind == BindingKind::My || kind == BindingKind::State) && spec_reports_unused_name(name)
            && bs[o as int].kind != BindingKind::Implicit {
            seq![
                (
                    Code::ShadowedVariable,
                    spec_default_severity(Code::ShadowedVariable),
                    None,
                    range,
                    "`"@ + spec_sigil_text(sigil) + name + "` shadows the one declared on line "@ + decimal(
                        spec_line_of(bytes, bs[o as int].range.start as int),
                    ),
                ),
            ]
        } else {
            Seq::empty()
        },
        None => Seq::empty(),
    }
}

/// Every index a scope holds names a binding.
pub open spec fn scopes_in_range(bs: Seq<Binding>, ss: Seq<Vec<usize>>) -> bool {
    forall|i: int, k: int| 0 <= i < ss.len() && 0 <= k < ss[i]@.len() ==> (#[trigger] ss[i]@[k]) < bs.len()
}

/// The lexical scopes of a walk: every binding made, the scopes open now
/// (innermost last), and what has been reported.
pub struct ScopeTable {
    bindings: Vec<Binding>,
    scopes: Vec<Vec<usize>>,
    diagnostics: Vec<Diagnostic>,
}

impl ScopeTable {
    /// Every index an open scope holds names a binding.
    pub closed spec fn wf(&self) -> bool {
        scopes_in_range(self.bindings@, self.scopes@)
    }

    pub closed spec fn bindings_view(&self) -> Seq<Binding> {
        self.bindings@
    }

    pub closed spec fn scopes_view(&self) -> Seq<Seq<usize>> {
        self.scopes@.map_values(|v: Vec<usize>| v@)
    }

    pub closed spec fn reports(&self) -> Seq<DiagV> {
        diagnostic_views(self.diagnostics@)
    }

    /// What a name resolves to now.
    pub open spec fn spec_lookup(&self, sigil: Sigil, name: Seq<char>) -> Option<usize> {
        find_in_scopes(self.bindings_view(), self.scopes_view(), sigil, name, self.scopes_view().len() as int)
    }

    /// No binding, no scope, nothing said.
    pub fn new() -> (t: ScopeTable)
        ensures
            t.wf(),
            t.bindings_view().len() == 0,
            t.scopes_view().len() == 0,
            t.reports().len() == 0,
    {
        ScopeTable { bindings: Vec::new(), scopes: Vec::new(), diagnostics: Vec::new() }
    }

    /// Open the file's scope, where perl binds its own names under every
    /// sigil: `$_`, `@ARGV`, `%ENV` and the rest.
    pub fn open_file(&mut self)
        requires
            old(self).wf(),
            old(self).bindings_view().len() + 75 < usize::MAX,
        ensures
            final(self).wf(),
            final(self).scopes_view().len() == old(self).scopes_view().len() + 1,
            final(self).scopes_view().drop_last() == old(self).scopes_view(),
            final(self).scopes_view().last() == Seq::new(75, |i: int| (old(self).bindings_view().len() + i) as usize),
            final(self).bindings_view().len() == old(self).bindings_view().len() + 75,
            final(self).bindings_view().subrange(0, old(self).bindings_view().len() as int) == old(self).bindings_view(),
            forall|j: int, k: int| 0 <= j < 15 && 0 <= k < 5 ==> {
                let b = #[trigger] final(self).bindings_view()[old(self).bindings_view().len() + 5 * j + k];
                &&& b.sigil == implicit_sigils()[k]
                &&& b.name@ == always_names()[j]
                &&& b.range == TextRange { start: 0, end: 0 }
                &&& b.kind == BindingKind::Implicit
                &&& !b.used && !b.guard
            },
            final(self).reports() == old(self).reports(),
    {
        let ghost base = self.bindings@.len();
        let ghost old_bindings = self.bindings@;
        let ghost old_scopes = self.scopes_view();
        self.push_scope();
        let names: [&str; 15] = ["_", "a", "b", "ARGV", "ARGVOUT", "ENV", "INC", "SIG", "STDIN", "STDOUT", "STDERR", "DATA", "AUTOLOAD", "ISA", "0"];
        let sigils: [Sigil; 5] = [Sigil::Scalar, Sigil::Array, Sigil::Hash, Sigil::Code, Sigil::Typeglob];
        proof {
            assert(names@.map_values(|n: &str| n@) =~= always_names());
            assert(sigils@ =~= implicit_sigils());
        }
        let mut j: usize = 0;
        while j < 15
            invariant
                self.wf(),
                j <= 15,
                base == old_bindings.len(),
                base + 75 < usize::MAX,
                names@.map_values(|n: &str| n@) == always_names(),
                sigils@ == implicit_sigils(),
                self.bindings@.len() == base + 5 * j,
                self.bindings@.subrange(0, base as int) == old_bindings,
                self.scopes_view().len() == old_scopes.len() + 1,
                self.scopes_view().drop_last() == old_scopes,
                self.scopes_view().last() == Seq::new((5 * j) as nat, |i: int| (base + i) as usize),
                forall|jj: int, k: int| 0 <= jj < j && 0 <= k < 5 ==> {
                    let b = #[trigger] self.bindings@[base + 5 * jj + k];
                    &&& b.sigil == implicit_sigils()[k]
                    &&& b.name@ == always_names()[jj]
                    &&& b.range == TextRange { start: 0, end: 0 }
                    &&& b.kind == BindingKind::Implicit
                    &&& !b.used && !b.guard
                },
                self.reports() == old(self).reports(),
            decreases 15 - j,
        {
            let mut k: usize = 0;
            while k < 5
                invariant
                    self.wf(),
                    j < 15,
                    k <= 5,
                    base == old_bindings.len(),
                    base + 75 < usize::MAX,
                    names@.map_values(|n: &str| n@) == always_names(),
                    sigils@ == implicit_sigils(),
                    self.bindings@.len() == base + 5 * j + k,
                    self.bindings@.subrange(0, base as int) == old_bindings,
                    self.scopes_view().len() == old_scopes.len() + 1,
                    self.scopes_view().drop_last() == old_scopes,
                    self.scopes_view().last() == Seq::new((5 * j + k) as nat, |i: int| (base + i) as usize),
                    forall|jj: int, kk: int| (0 <= jj < j && 0 <= kk < 5) || (jj == j && 0 <= kk < k) ==> {
                        let b = #[trigger] self.bindings@[base + 5 * jj + kk];
                        &&& b.sigil == implicit_sigils()[kk]
                        &&& b.name@ == always_names()[jj]
                        &&& b.range == TextRange { start: 0, end: 0 }
                        &&& b.kind == BindingKind::Implicit
                        &&& !b.used && !b.guard
                    },
                    self.reports() == old(self).reports(),
                decreases 5 - k,
            {
                let ghost prev = self.bindings@;
                let ghost prev_scopes = self.scopes_view();
                assert(names@.map_values(|n: &str| n@)[j as int] == names@[j as int]@);
                let index = self.declare_raw(sigils[k], String::from_str(names[j]), TextRange { start: 0, end: 0 }, BindingKind::Implicit);
                proof {
                    assert(self.bindings@.subrange(0, index as int) == prev);
                    assert forall|jj: int, kk: int| (0 <= jj < j && 0 <= kk < 5) || (jj == j && 0 <= kk < k + 1) implies {
                        let b = #[trigger] self.bindings@[base + 5 * jj + kk];
                        &&& b.sigil == implicit_sigils()[kk]
                        &&& b.name@ == always_names()[jj]
                        &&& b.range == TextRange { start: 0, end: 0 }
                        &&& b.kind == BindingKind::Implicit
                        &&& !b.used && !b.guard
                    } by {
                        if !(jj == j && kk == k) {
                            assert(base + 5 * jj + kk < index);
                            assert(self.bindings@[base + 5 * jj + kk] == self.bindings@.subrange(0, index as int)[base + 5 * jj + kk]);
                        }
                    }
                    assert(self.bindings@.subrange(0, base as int) =~= prev.subrange(0, base as int));
                    assert(self.scopes_view().last() =~= Seq::new((5 * j + k + 1) as nat, |i: int| (base + i) as usize));
                    assert(self.scopes_view().drop_last() =~= prev_scopes.drop_last());
                }
                k += 1;
            }
            j += 1;
        }
    }

    /// What has been reported, in the order it was.
    pub fn diagnostics(&self) -> (r: &Vec<Diagnostic>)
        ensures
            diagnostic_views(r@) == self.reports(),
    {
        &self.diagnostics
    }

    /// Open a scope inside the innermost one.
    pub fn push_scope(&mut self)
        requires
            old(self).wf(),
        ensures
            final(self).wf(),
            final(self).scopes_view() == old(self).scopes_view().push(Seq::empty()),
            final(self).bindings_view() == old(self).bindings_view(),
            final(self).reports() == old(self).reports(),
    {
        let ghost old_scopes = self.scopes@;
        self.scopes.push(Vec::new());
        proof {
            assert forall|i: int, k: int| 0 <= i < self.scopes@.len() && 0 <= k < self.scopes@[i]@.len() implies (
            #[trigger] self.scopes@[i]@[k]) < self.bindings@.len() by {
                if i < old_scopes.len() {
                    assert(self.scopes@[i] == old_scopes[i]);
                }
            }
        }
    }

    /// Bind a name in the innermost scope; its index comes back.
    pub fn declare_raw(&mut self, sigil: Sigil, name: String, range: TextRange, kind: BindingKind) -> (index: usize)
        requires
            old(self).wf(),
            old(self).scopes_view().len() > 0,
            old(self).bindings_view().len() < usize::MAX,
        ensures
            final(self).wf(),
            index == old(self).bindings_view().len(),
            final(self).bindings_view().len() == index + 1,
            final(self).bindings_view().subrange(0, index as int) == old(self).bindings_view(),
            ({
                let b = final(self).bindings_view()[index as int];
                b.sigil == sigil && b.name@ == name@ && b.range == range && b.kind == kind && !b.used && !b.guard
            }),
            final(self).scopes_view().len() == old(self).scopes_view().len(),
            final(self).scopes_view().drop_last() == old(self).scopes_view().drop_last(),
            final(self).scopes_view().last() == old(self).scopes_view().last().push(index),
            final(self).reports() == old(self).reports(),
    {
        let ghost old_scopes = self.scopes@;
        let ghost old_bindings = self.bindings@;
        let index = self.bindings.len();
        self.bindings.push(Binding { sigil, name, range, kind, used: false, guard: false });
        let last = self.scopes.len() - 1;
        let mut scope = self.scopes.remove(last);
        scope.push(index);
        self.scopes.push(scope);
        proof {
            assert(self.bindings@.subrange(0, index as int) =~= old_bindings);
            assert(self.scopes@.drop_last() =~= old_scopes.drop_last());
            assert forall|i: int, k: int| 0 <= i < self.scopes@.len() && 0 <= k < self.scopes@[i]@.len() implies (
            #[trigger] self.scopes@[i]@[k]) < self.bindings@.len() by {
                if i < last {
                    assert(self.scopes@[i] == old_scopes[i]);
                } else if k < old_scopes[i]@.len() {
                    assert(self.scopes@[i]@[k] == old_scopes[i]@[k]);
                }
            }
        }
        index
    }

    fn find(&self, sigil: Sigil, name: &str) -> (r: Option<usize>)
        requires
            self.wf(),
        ensures
            r == self.spec_lookup(sigil, name@),
            r matches Some(i) ==> i < self.bindings_view().len(),
    {
        let mut s = self.scopes.len();
        while s > 0
            invariant
                s <= self.scopes@.len(),
                scopes_in_range(self.bindings@, self.scopes@),
                find_in_scopes(self.bindings@, self.scopes_view(), sigil, name@, self.scopes@.len() as int) == find_in_scopes(
                    self.bindings@,
                    self.scopes_view(),
                    sigil,
                    name@,
                    s as int,
                ),
            decreases s,
        {
            let scope = &self.scopes[s - 1];
            assert(self.scopes_view()[s - 1] == scope@);
            let mut k = scope.len();
            while k > 0
                invariant
                    0 < s <= self.scopes@.len(),
                    *scope == self.scopes@[s - 1],
                    self.scopes_view()[s - 1] == scope@,
                    find_in_scopes(self.bindings@, self.scopes_view(), sigil, name@, self.scopes@.len() as int) == find_in_scopes(
                        self.bindings@,
                        self.scopes_view(),
                        sigil,
                        name@,
                        s as int,
                    ),
                    k <= scope@.len(),
                    scopes_in_range(self.bindings@, self.scopes@),
                    find_in_scope(self.bindings@, scope@, sigil, name@, scope@.len() as int) == find_in_scope(
                        self.bindings@,
                        scope@,
                        sigil,
                        name@,
                        k as int,
                    ),
                decreases k,
            {
                let index = scope[k - 1];
                assert(index < self.bindings@.len());
                let b = &self.bindings[index];
                if b.sigil == sigil && same_text(b.name.as_str(), name) {
                    return Some(index);
                }
                k -= 1;
            }
            assert(find_in_scope(self.bindings@, scope@, sigil, name@, 0) is None);
            s -= 1;
        }
        None
    }

    /// The binding a name would have resolved to before a declaration: the
    /// first scope outward that binds it, unless perl bound it there.
    pub fn lookup_outer(&self, sigil: Sigil, name: &str) -> (r: Option<usize>)
        requires
            self.wf(),
        ensures
            r matches Some(i) ==> i < self.bindings_view().len(),
            r == match self.spec_lookup(sigil, name@) {
                Some(i) => if self.bindings_view()[i as int].kind == BindingKind::Implicit {
                    None
                } else {
                    Some(i)
                },
                None => None,
            },
    {
        match self.find(sigil, name) {
            Some(i) => if self.bindings[i].kind == BindingKind::Implicit {
                None
            } else {
                Some(i)
            },
            None => None,
        }
    }

    /// Resolve a use of a name, marking what it reached as read.
    pub fn resolve(&mut self, sigil: Sigil, name: &str) -> (r: bool)
        requires
            old(self).wf(),
        ensures
            final(self).wf(),
            r == old(self).spec_lookup(sigil, name@) is Some,
            final(self).bindings_view() == match old(self).spec_lookup(sigil, name@) {
                Some(i) => old(self).bindings_view().update(
                    i as int,
                    Binding { used: true, ..old(self).bindings_view()[i as int] },
                ),
                None => old(self).bindings_view(),
            },
            final(self).scopes_view() == old(self).scopes_view(),
            final(self).reports() == old(self).reports(),
    {
        match self.find(sigil, name) {
            Some(i) => {
                let mut b = self.bindings.remove(i);
                b.used = true;
                self.bindings.insert(i, b);
                assert(self.bindings@ =~= old(self).bindings@.update(i as int, b));
                true
            },
            None => false,
        }
    }

    /// Close the innermost scope, reporting each binding in it that was never
    /// read and is worth a word.
    pub fn pop_scope(&mut self)
        requires
            old(self).wf(),
        ensures
            final(self).wf(),
            old(self).scopes_view().len() == 0 ==> *final(self) == *old(self),
            old(self).scopes_view().len() > 0 ==> {
                &&& final(self).scopes_view() == old(self).scopes_view().drop_last()
                &&& final(self).reports() == old(self).reports() + unused_reports(
                    old(self).bindings_view(),
                    old(self).scopes_view().last(),
                    old(self).scopes_view().last().len() as int,
                )
            },
            final(self).bindings_view() == old(self).bindings_view(),
    {
        if self.scopes.len() == 0 {
            return;
        }
        let ghost old_scopes = self.scopes@;
        let ghost before = diagnostic_views(self.diagnostics@);
        let scope = self.scopes.pop().unwrap();
        assert(self.scopes@ =~= old_scopes.drop_last());
        assert(scope == old_scopes.last());
        let mut i: usize = 0;
        while i < scope.len()
            invariant
                i <= scope@.len(),
                scope == old_scopes.last(),
                old_scopes.len() > 0,
                scopes_in_range(self.bindings@, old_scopes),
                self.bindings@ == old(self).bindings@,
                self.scopes@ == old_scopes.drop_last(),
                diagnostic_views(self.diagnostics@) == before + unused_reports(self.bindings@, scope@, i as int),
            decreases scope@.len() - i,
        {
            let index = scope[i];
            assert(index < self.bindings@.len()) by {
                assert(old_scopes[old_scopes.len() - 1]@[i as int] == index);
            }
            let b = &self.bindings[index];
            let ghost prior = diagnostic_views(self.diagnostics@);
            if !b.used && !b.guard && reports_unused_name(b.name.as_str()) {
                match b.kind.unused_code() {
                    Some(code) => {
                        let mut message = String::from_str("`");
                        append(&mut message, b.sigil.as_str());
                        append(&mut message, b.name.as_str());
                        if code == Code::UnusedParameter {
                            append(&mut message, "` is taken as a parameter and never read");
                        } else {
                            append(&mut message, "` is declared and never read");
                        }
                        let ghost text = message@;
                        self.diagnostics.push(Diagnostic::new(code, b.range, message));
                        assert(diagnostic_views(self.diagnostics@) =~= prior.push(unused_report(*b)->Some_0));
                    },
                    None => {},
                }
            }
            assert(diagnostic_views(self.diagnostics@) =~= before + unused_reports(self.bindings@, scope@, i + 1));
            i += 1;
        }
        proof {
            assert forall|j: int, k: int| 0 <= j < self.scopes@.len() && 0 <= k < self.scopes@[j]@.len() implies (
            #[trigger] self.scopes@[j]@[k]) < self.bindings@.len() by {
                assert(self.scopes@[j] == old_scopes[j]);
            }
        }
    }

    /// A use of a name: resolved where a scope binds it, and reported where
    /// none does, `my` could have, and `strict` is in force.
    pub fn use_name(&mut self, sigil: Sigil, name: &str, range: TextRange, strict: &StrictRegions)
        requires
            old(self).wf(),
        ensures
            final(self).wf(),
            final(self).scopes_view() == old(self).scopes_view(),
            final(self).bindings_view() == match old(self).spec_lookup(sigil, name@) {
                Some(i) => old(self).bindings_view().update(
                    i as int,
                    Binding { used: true, ..old(self).bindings_view()[i as int] },
                ),
                None => old(self).bindings_view(),
            },
            final(self).reports() == if !never_declared(sigil, name@) && old(self).spec_lookup(sigil, name@) is None
                && strict_at(strict.events(), range.start as int) {
                old(self).reports().push(
                    (
                        Code::UndeclaredVariable,
                        spec_default_severity(Code::UndeclaredVariable),
                        None,
                        range,
                        "`"@ + spec_sigil_text(sigil) + name@ + "` is not declared in this scope"@,
                    ),
                )
            } else {
                old(self).reports()
            },
    {
        let c = chars_of(name);
        let mut digits = true;
        let mut k: usize = 0;
        while k < c.len()
            invariant
                k <= c@.len(),
                c@ == name@,
                digits == forall|j: int| 0 <= j < k ==> is_digit(#[trigger] c@[j]),
            decreases c@.len() - k,
        {
            if !('0' <= c[k] && c[k] <= '9') {
                digits = false;
            }
            k += 1;
        }
        let qualified = holds_colons(&c);
        let caret = c.len() > 0 && c[0] == '^';
        if sigil == Sigil::Code || sigil == Sigil::Typeglob || qualified || digits || caret || always_in_scope(name) {
            let _ = self.resolve(sigil, name);
            return;
        }
        if self.resolve(sigil, name) || !strict.at(range.start) {
            return;
        }
        let ghost prior = self.reports();
        let mut message = String::from_str("`");
        append(&mut message, sigil.as_str());
        append(&mut message, name);
        append(&mut message, "` is not declared in this scope");
        self.diagnostics.push(Diagnostic::new(Code::UndeclaredVariable, range, message));
        assert(self.reports() =~= prior.push(
            (
                Code::UndeclaredVariable,
                spec_default_severity(Code::UndeclaredVariable),
                None,
                range,
                "`"@ + spec_sigil_text(sigil) + name@ + "` is not declared in this scope"@,
            ),
        ));
    }

    /// Bind a declared name, first reporting where it shadows one bound
    /// further out; its index comes back.
    pub fn declare(&mut self, sigil: Sigil, name: String, range: TextRange, kind: BindingKind, source: &str) -> (index: usize)
        requires
            old(self).wf(),
            old(self).scopes_view().len() > 0,
            old(self).bindings_view().len() < usize::MAX,
            source.spec_bytes().len() < u64::MAX,
        ensures
            final(self).wf(),
            index == old(self).bindings_view().len(),
            final(self).bindings_view() == old(self).bindings_view().push(final(self).bindings_view()[index as int]),
            ({
                let b = final(self).bindings_view()[index as int];
                b.sigil == sigil && b.name@ == name@ && b.range == range && b.kind == kind && !b.used && !b.guard
            }),
            final(self).scopes_view().drop_last() == old(self).scopes_view().drop_last(),
            final(self).scopes_view().last() == old(self).scopes_view().last().push(index),
            final(self).reports() == old(self).reports() + shadow_report(
                old(self).bindings_view(),
                old(self).spec_lookup(sigil, name@),
                sigil,
                name@,
                range,
                kind,
                source.spec_bytes(),
            ),
    {
        let ghost prior = self.reports();
        if kind.reports_shadowing() && reports_unused_name(name.as_str()) {
            match self.lookup_outer(sigil, name.as_str()) {
                Some(outer) => {
                    let line = line_of(source, self.bindings[outer].range.start);
                    let mut message = String::from_str("`");
                    append(&mut message, sigil.as_str());
                    append(&mut message, name.as_str());
                    append(&mut message, "` shadows the one declared on line ");
                    let number = decimal_string(line);
                    append(&mut message, number.as_str());
                    self.diagnostics.push(Diagnostic::new(Code::ShadowedVariable, range, message));
                },
                None => {},
            }
        }
        let ghost middle = self.reports();
        let index = self.declare_raw(sigil, name, range, kind);
        proof {
            assert(self.bindings_view() =~= old(self).bindings_view().push(self.bindings_view()[index as int]));
            let report = shadow_report(old(self).bindings_view(), old(self).spec_lookup(sigil, name@), sigil, name@, range, kind, source.spec_bytes());
            assert(middle =~= prior + report);
        }
        index
    }
}

/// Whether `::` stands in a name.
fn holds_colons(c: &Vec<char>) -> (r: bool)
    ensures
        r == holds_text(c@, "::"@),
{
    proof {
        reveal_strlit("::");
    }
    let mut i: usize = 0;
    while c.len() >= 2 && i <= c.len() - 2
        invariant
            i <= c@.len(),
            forall|k: int| 0 <= k < i && k + 2 <= c@.len() ==> #[trigger] c@.subrange(k, k + 2) != "::"@,
            "::"@ == seq![':', ':'],
        decreases c@.len() - i,
    {
        if c[i] == ':' && c[i + 1] == ':' {
            assert(c@.subrange(i as int, i + 2) =~= "::"@);
            return true;
        }
        assert(c@.subrange(i as int, i + 2)[0] == c@[i as int]);
        assert(c@.subrange(i as int, i + 2)[1] == c@[i + 1]);
        i += 1;
    }
    assert forall|k: int| 0 <= k && k + 2 <= c@.len() implies #[trigger] c@.subrange(k, k + 2) != "::"@ by {
        assert(k < i);
    }
    false
}

/// The line an offset is on, counting line breaks before it.
pub fn line_of(source: &str, offset: u32) -> (r: u64)
    requires
        source.spec_bytes().len() < u64::MAX,
    ensures
        r == spec_line_of(source.spec_bytes(), offset as int),
{
    let bytes = source.as_bytes();
    let end: usize = if (offset as usize) <= bytes.len() { offset as usize } else { bytes.len() };
    let mut count: u64 = 0;
    let mut i: usize = 0;
    while i < end
        invariant
            i <= end <= bytes@.len(),
            bytes@ == source.spec_bytes(),
            bytes@.len() < u64::MAX,
            count == newlines_before(bytes@, i as int),
            count <= i,
        decreases end - i,
    {
        if bytes[i] == 10 {
            count += 1;
        }
        i += 1;
    }
    count + 1
}


/// A name declared in the innermost scope resolves to that declaration, the
/// newest binding of the name, whatever the scopes around it bind.
pub proof fn law_a_declared_name_resolves_to_its_declaration(
    before: Seq<Seq<usize>>,
    after: Seq<Seq<usize>>,
    bindings: Seq<Binding>,
    index: usize,
    sigil: Sigil,
    name: Seq<char>,
)
    requires
        before.len() > 0,
        after.len() == before.len(),
        after.last() == before.last().push(index),
        index < bindings.len(),
        key_matches(bindings[index as int], sigil, name),
    ensures
        find_in_scopes(bindings, after, sigil, name, after.len() as int) == Some(index),
{
    let last = after[after.len() - 1];
    assert(last[last.len() - 1] == index);
}

/// Reading a name marks what it reached as read and nothing else: a second
/// lookup finds the same binding.
pub proof fn law_resolving_keeps_what_a_name_reaches(
    bindings: Seq<Binding>,
    scopes: Seq<Seq<usize>>,
    i: usize,
    sigil: Sigil,
    name: Seq<char>,
    other: Sigil,
    other_name: Seq<char>,
)
    requires
        i < bindings.len(),
        forall|j: int, k: int| 0 <= j < scopes.len() && 0 <= k < scopes[j].len() ==> #[trigger] scopes[j][k] < bindings.len(),
    ensures
        find_in_scopes(bindings.update(i as int, Binding { used: true, ..bindings[i as int] }), scopes, other, other_name, scopes.len() as int)
            == find_in_scopes(bindings, scopes, other, other_name, scopes.len() as int),
{
    let marked = bindings.update(i as int, Binding { used: true, ..bindings[i as int] });
    assert forall|j: int| 0 <= j < bindings.len() implies #[trigger] key_matches(marked[j], other, other_name) == key_matches(bindings[j], other, other_name) by {
        if j == i {
        }
    }
    lemma_find_in_scopes_same_keys(bindings, marked, scopes, other, other_name, scopes.len() as int);
}

proof fn lemma_find_in_scope_same_keys(a: Seq<Binding>, b: Seq<Binding>, idxs: Seq<usize>, sigil: Sigil, name: Seq<char>, n: int)
    requires
        a.len() == b.len(),
        forall|k: int| 0 <= k < idxs.len() ==> #[trigger] idxs[k] < a.len(),
        forall|j: int| 0 <= j < a.len() ==> #[trigger] key_matches(b[j], sigil, name) == key_matches(a[j], sigil, name),
    ensures
        find_in_scope(a, idxs, sigil, name, n) == find_in_scope(b, idxs, sigil, name, n),
    decreases n,
{
    if n > 0 && n <= idxs.len() {
        lemma_find_in_scope_same_keys(a, b, idxs, sigil, name, n - 1);
        let k = idxs[n - 1] as int;
        assert(key_matches(b[k], sigil, name) == key_matches(a[k], sigil, name));
    }
}

proof fn lemma_find_in_scopes_same_keys(a: Seq<Binding>, b: Seq<Binding>, ss: Seq<Seq<usize>>, sigil: Sigil, name: Seq<char>, n: int)
    requires
        a.len() == b.len(),
        forall|i: int, k: int| 0 <= i < ss.len() && 0 <= k < ss[i].len() ==> #[trigger] ss[i][k] < a.len(),
        forall|j: int| 0 <= j < a.len() ==> #[trigger] key_matches(b[j], sigil, name) == key_matches(a[j], sigil, name),
    ensures
        find_in_scopes(a, ss, sigil, name, n) == find_in_scopes(b, ss, sigil, name, n),
    decreases n,
{
    if n > 0 && n <= ss.len() {
        assert forall|k: int| 0 <= k < ss[n - 1].len() implies #[trigger] ss[n - 1][k] < a.len() by {
            assert(ss[n - 1][k] < a.len());
        }
        lemma_find_in_scope_same_keys(a, b, ss[n - 1], sigil, name, ss[n - 1].len() as int);
        lemma_find_in_scopes_same_keys(a, b, ss, sigil, name, n - 1);
    }
}


// ===== Reading `use vars` =====

/// The names a `use vars` argument list declares, however it is written:
/// each word of a `qw`, each plain string.
pub open spec fn vars_scan(es: Seq<SyntaxNode>) -> Seq<Seq<char>>
    decreases es.len(),
{
    if es.len() == 0 {
        Seq::empty()
    } else {
        let e = es.last();
        vars_scan(es.drop_last()) + if e.kind == NodeKind::QwExpr {
            crate::declare::qw_words(e)
        } else if e.kind == NodeKind::Literal {
            match crate::ast::spec_literal_string(e) {
                Some(t) => seq![t],
                None => Seq::empty(),
            }
        } else {
            Seq::empty()
        }
    }
}

pub fn declared_names(arguments: &SyntaxNode) -> (r: Vec<String>)
    ensures
        crate::types::strings_view(r@) == vars_scan(crate::ast::spec_elements(*arguments)),
{
    let elements = crate::ast::Args::elements(arguments);
    let ghost es = crate::ast::spec_elements(*arguments);
    let mut acc: Vec<String> = Vec::new();
    let mut i: usize = 0;
    assert(es.subrange(0, 0) =~= Seq::<SyntaxNode>::empty());
    assert(crate::types::strings_view(acc@) =~= Seq::<Seq<char>>::empty());
    while i < elements.len()
        invariant
            i <= elements@.len(),
            deref_nodes(elements@) == es,
            crate::types::strings_view(acc@) == vars_scan(es.subrange(0, i as int)),
        decreases elements@.len() - i,
    {
        let e = elements[i];
        proof {
            assert(es.subrange(0, i + 1).drop_last() =~= es.subrange(0, i as int));
            assert(es.subrange(0, i + 1).last() == *e);
        }
        let ghost before = crate::types::strings_view(acc@);
        if e.kind == NodeKind::QwExpr {
            let mut words = crate::declare::words_of_qw(e);
            let ghost w = crate::types::strings_view(words@);
            acc.append(&mut words);
            assert(crate::types::strings_view(acc@) =~= before + w);
        } else if e.kind == NodeKind::Literal {
            match crate::ast::Literal(e).as_string() {
                Some(text) => {
                    acc.push(text);
                    assert(crate::types::strings_view(acc@) =~= before + seq![acc@[acc@.len() - 1]@]);
                },
                None => {
                    assert(crate::types::strings_view(acc@) =~= before + Seq::<Seq<char>>::empty());
                },
            }
        } else {
            assert(crate::types::strings_view(acc@) =~= before + Seq::<Seq<char>>::empty());
        }
        i += 1;
    }
    assert(es.subrange(0, elements@.len() as int) =~= es);
    acc
}

/// `$x` read as its sigil and the rest.
pub open spec fn spec_split_sigil(text: Seq<char>) -> (Option<Sigil>, Seq<char>) {
    if text.len() == 0 {
        (None, text)
    } else {
        let sigil = if text[0] == '$' {
            Some(Sigil::Scalar)
        } else if text[0] == '@' {
            Some(Sigil::Array)
        } else if text[0] == '%' {
            Some(Sigil::Hash)
        } else if text[0] == '&' {
            Some(Sigil::Code)
        } else if text[0] == '*' {
            Some(Sigil::Typeglob)
        } else {
            None
        };
        (sigil, text.drop_first())
    }
}

/// `$x` → `(Some(Scalar), "x")`: the first character read as a sigil, and
/// the rest as the name.
pub fn split_sigil(text: &str) -> (r: (Option<Sigil>, String))
    ensures
        r.0 == spec_split_sigil(text@).0,
        r.1@ == spec_split_sigil(text@).1,
{
    let c = chars_of(text);
    if c.len() == 0 {
        return (None, String::new());
    }
    let sigil = if c[0] == '$' {
        Some(Sigil::Scalar)
    } else if c[0] == '@' {
        Some(Sigil::Array)
    } else if c[0] == '%' {
        Some(Sigil::Hash)
    } else if c[0] == '&' {
        Some(Sigil::Code)
    } else if c[0] == '*' {
        Some(Sigil::Typeglob)
    } else {
        None
    };
    let rest = string_of(&c, 1, c.len());
    assert(rest@ =~= text@.drop_first());
    (sigil, rest)
}

} // verus!
