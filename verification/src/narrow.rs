//! What a condition says about the variables in it, on each side of it.
//!
//! A fixed list of shapes rather than a general theorem: `defined $x`,
//! `ref $x`, `$x->isa('Foo')`, a method call on `$x`, a bare `$x`, and the
//! `!`, `&&` and `||` that combine them. The list is read structurally: a
//! condition is a tree, and `!`, `||` and a call nobody read all change what
//! its parts say.

use vstd::prelude::*;

use crate::ast::{
    child_of, is_step_kind, key_text, lemma_child_smaller, name_child_text, name_of, spec_arg_list, spec_args,
    spec_chain, spec_elements, spec_key_text, first_operator, Call, MethodCallExpr, Sigil, SubscriptChain, Variable,
    is_variable_kind, sigil_of_kind,
};
use crate::attributes::lemma_list_child_below;
use crate::syntax::{child_nodes, child_tokens, deref_nodes, deref_tokens, first_of_kind, NodeKind, SyntaxNode, TokenKind};
use crate::text::same_text;
use crate::types::{lemma_views, spec_union, spec_without_undef, views, Type, TypeV};

verus! {

// ===== what each lexical holds =====

/// One thing learned about a variable: it holds a value of this type.
pub struct Fact {
    pub sigil: Sigil,
    pub name: String,
    pub ty: Type,
}

pub open spec fn fact_view(f: Fact) -> (Sigil, Seq<char>, TypeV) {
    (f.sigil, f.name@, f.ty@)
}

pub open spec fn fact_views(s: Seq<Fact>) -> Seq<(Sigil, Seq<char>, TypeV)> {
    s.map_values(|f: Fact| fact_view(f))
}

/// What each lexical holds, as far as the walk has got: one entry per
/// variable.
pub struct Env {
    pub vars: Vec<Fact>,
}

impl View for Env {
    type V = Seq<(Sigil, Seq<char>, TypeV)>;

    open spec fn view(&self) -> Seq<(Sigil, Seq<char>, TypeV)> {
        fact_views(self.vars@)
    }
}

/// Where the entry for a variable stands, from `i` on.
pub open spec fn entry_of(env: Seq<(Sigil, Seq<char>, TypeV)>, sigil: Sigil, name: Seq<char>, i: int) -> Option<int>
    decreases env.len() - i,
{
    if i < 0 || i >= env.len() {
        None
    } else if env[i].0 == sigil && env[i].1 == name {
        Some(i)
    } else {
        entry_of(env, sigil, name, i + 1)
    }
}

/// What a variable holds, and `None` for one the walk has not seen.
pub open spec fn env_lookup(env: Seq<(Sigil, Seq<char>, TypeV)>, sigil: Sigil, name: Seq<char>) -> Option<TypeV> {
    match entry_of(env, sigil, name, 0) {
        Some(i) => Some(env[i].2),
        None => None,
    }
}

/// What a variable holds: `Unknown` for one the walk has not seen.
pub open spec fn env_get(env: Seq<(Sigil, Seq<char>, TypeV)>, sigil: Sigil, name: Seq<char>) -> TypeV {
    match entry_of(env, sigil, name, 0) {
        Some(i) => env[i].2,
        None => TypeV::Unknown,
    }
}

proof fn lemma_entry_of(env: Seq<(Sigil, Seq<char>, TypeV)>, sigil: Sigil, name: Seq<char>, i: int)
    requires
        0 <= i,
    ensures
        match entry_of(env, sigil, name, i) {
            Some(j) => i <= j < env.len() && env[j].0 == sigil && env[j].1 == name && forall|m: int|
                i <= m < j ==> !((#[trigger] env[m]).0 == sigil && env[m].1 == name),
            None => forall|m: int| i <= m < env.len() ==> !((#[trigger] env[m]).0 == sigil && env[m].1 == name),
        },
    decreases env.len() - i,
{
    if i < env.len() && !(env[i].0 == sigil && env[i].1 == name) {
        lemma_entry_of(env, sigil, name, i + 1);
    }
}

impl Env {
    pub fn new() -> (e: Env)
        ensures
            e@.len() == 0,
    {
        Env { vars: Vec::new() }
    }

    fn find(&self, sigil: Sigil, name: &str) -> (r: Option<usize>)
        ensures
            match r {
                Some(i) => i < self.vars@.len() && entry_of(self@, sigil, name@, 0) == Some(i as int),
                None => entry_of(self@, sigil, name@, 0) is None,
            },
    {
        let mut i: usize = 0;
        while i < self.vars.len()
            invariant
                i <= self.vars@.len(),
                entry_of(self@, sigil, name@, 0) == entry_of(self@, sigil, name@, i as int),
            decreases self.vars@.len() - i,
        {
            assert(self@[i as int] == fact_view(self.vars@[i as int]));
            if self.vars[i].sigil == sigil && same_text(self.vars[i].name.as_str(), name) {
                return Some(i);
            }
            i += 1;
        }
        None
    }

    /// What a variable holds: `Unknown` for one the walk has not seen.
    pub fn get(&self, sigil: Sigil, name: &str) -> (r: Type)
        ensures
            r@ == env_get(self@, sigil, name@),
    {
        match self.find(sigil, name) {
            Some(i) => {
                assert(self@[i as int] == fact_view(self.vars@[i as int]));
                self.vars[i].ty.duplicate()
            },
            None => Type::Unknown,
        }
    }

    /// What a variable holds, and `None` for one the walk has not seen.
    pub fn lookup(&self, sigil: Sigil, name: &str) -> (r: Option<Type>)
        ensures
            match r {
                Some(t) => env_lookup(self@, sigil, name@) == Some(t@),
                None => env_lookup(self@, sigil, name@) is None,
            },
    {
        match self.find(sigil, name) {
            Some(i) => {
                assert(self@[i as int] == fact_view(self.vars@[i as int]));
                Some(self.vars[i].ty.duplicate())
            },
            None => None,
        }
    }

    /// Say what a variable holds from here on.
    pub fn set(&mut self, sigil: Sigil, name: &str, ty: Type)
        ensures
            env_get(final(self)@, sigil, name@) == ty@,
            forall|s: Sigil, n: Seq<char>|
                !(s == sigil && n == name@) ==> env_get(final(self)@, s, n) == env_get(old(self)@, s, n),
            env_lookup(final(self)@, sigil, name@) == Some(ty@),
            forall|s: Sigil, n: Seq<char>|
                !(s == sigil && n == name@) ==> env_lookup(final(self)@, s, n) == env_lookup(old(self)@, s, n),
    {
        let ghost before = self@;
        let ghost ty_view = ty@;
        match self.find(sigil, name) {
            Some(i) => {
                let ghost old_fact = self@[i as int];
                self.vars.set(i, Fact { sigil, name: name.to_string(), ty });
                proof {
                    lemma_entry_of(before, sigil, name@, 0);
                    assert(self@ =~= before.update(i as int, (sigil, name@, ty_view)));
                    lemma_entry_of(self@, sigil, name@, 0);
                    assert(self@[i as int] == (sigil, name@, ty_view));
                    match entry_of(self@, sigil, name@, 0) {
                        Some(k) => {
                            if k < i {
                                assert(self@[k] == before[k]);
                            }
                        },
                        None => {},
                    }
                    assert(entry_of(self@, sigil, name@, 0) == Some(i as int));
                    assert forall|s: Sigil, n: Seq<char>| !(s == sigil && n == name@) implies env_get(self@, s, n)
                        == env_get(before, s, n) && env_lookup(self@, s, n) == env_lookup(before, s, n) by {
                        lemma_entry_of(before, s, n, 0);
                        lemma_entry_of(self@, s, n, 0);
                        match entry_of(before, s, n, 0) {
                            Some(j) => {
                                assert(self@[j] == before[j]);
                                match entry_of(self@, s, n, 0) {
                                    Some(k) => {
                                        if k < j {
                                            assert(self@[k] == before[k]);
                                        } else if k > j {
                                            assert(self@[j] == before[j]);
                                        }
                                    },
                                    None => {},
                                }
                            },
                            None => {
                                match entry_of(self@, s, n, 0) {
                                    Some(k) => {
                                        assert(self@[k] == before[k]);
                                    },
                                    None => {},
                                }
                            },
                        }
                    }
                }
            },
            None => {
                self.vars.push(Fact { sigil, name: name.to_string(), ty });
                proof {
                    lemma_entry_of(before, sigil, name@, 0);
                    assert(self@ =~= before.push((sigil, name@, ty_view)));
                    lemma_entry_of(self@, sigil, name@, 0);
                    assert(self@[before.len() as int] == (sigil, name@, ty_view));
                    match entry_of(self@, sigil, name@, 0) {
                        Some(k) => {
                            if k < before.len() {
                                assert(self@[k] == before[k]);
                            }
                        },
                        None => {},
                    }
                    assert(entry_of(self@, sigil, name@, 0) == Some(before.len() as int));
                    assert forall|s: Sigil, n: Seq<char>| !(s == sigil && n == name@) implies env_get(self@, s, n)
                        == env_get(before, s, n) && env_lookup(self@, s, n) == env_lookup(before, s, n) by {
                        lemma_entry_of(before, s, n, 0);
                        lemma_entry_of(self@, s, n, 0);
                        match entry_of(before, s, n, 0) {
                            Some(j) => {
                                assert(self@[j] == before[j]);
                                match entry_of(self@, s, n, 0) {
                                    Some(k) => {
                                        if k < j {
                                            assert(self@[k] == before[k]);
                                        }
                                    },
                                    None => {},
                                }
                            },
                            None => {
                                match entry_of(self@, s, n, 0) {
                                    Some(k) => {
                                        if k < before.len() {
                                            assert(self@[k] == before[k]);
                                        }
                                    },
                                    None => {},
                                }
                            },
                        }
                    }
                }
            },
        }
    }
}

/// What joining `other` into `mine` leaves a variable holding: the union of
/// what both say where both say something, and what either says where only
/// one does. The entries of `other` are taken in order.
pub open spec fn joined_lookup(
    mine: Seq<(Sigil, Seq<char>, TypeV)>,
    other: Seq<(Sigil, Seq<char>, TypeV)>,
    sigil: Sigil,
    name: Seq<char>,
) -> Option<TypeV>
    decreases other.len(),
{
    if other.len() == 0 {
        env_lookup(mine, sigil, name)
    } else {
        let prev = joined_lookup(mine, other.drop_last(), sigil, name);
        let e = other.last();
        if e.0 == sigil && e.1 == name {
            Some(
                match prev {
                    Some(t) => spec_union(seq![t, e.2]),
                    None => e.2,
                },
            )
        } else {
            prev
        }
    }
}

impl Env {
    /// What both branches agree on, which is the union of what each says.
    pub fn join(&mut self, other: &Env)
        ensures
            forall|s: Sigil, n: Seq<char>|
                #[trigger] env_lookup(final(self)@, s, n) == joined_lookup(old(self)@, other@, s, n),
    {
        let ghost start = self@;
        let mut i: usize = 0;
        while i < other.vars.len()
            invariant
                i <= other.vars@.len(),
                forall|s: Sigil, n: Seq<char>|
                    #[trigger] env_lookup(self@, s, n) == joined_lookup(start, other@.subrange(0, i as int), s, n),
            decreases other.vars@.len() - i,
        {
            let fact = &other.vars[i];
            let merged = match self.lookup(fact.sigil, fact.name.as_str()) {
                Some(mine) => {
                    let mut both: Vec<Type> = Vec::new();
                    both.push(mine);
                    both.push(fact.ty.duplicate());
                    proof {
                        lemma_views(both@);
                        assert(views(both@) =~= seq![both@[0]@, both@[1]@]);
                    }
                    Type::union(both)
                },
                None => fact.ty.duplicate(),
            };
            let ghost before = self@;
            self.set(fact.sigil, fact.name.as_str(), merged);
            proof {
                let sub = other@.subrange(0, i + 1);
                assert(sub.drop_last() =~= other@.subrange(0, i as int));
                assert(sub.last() == fact_view(other.vars@[i as int]));
                assert forall|s: Sigil, n: Seq<char>|
                    #[trigger] env_lookup(self@, s, n) == joined_lookup(start, sub, s, n) by {
                    assert(env_lookup(before, s, n) == joined_lookup(start, other@.subrange(0, i as int), s, n));
                }
            }
            i += 1;
        }
        proof {
            assert(other@.subrange(0, other.vars@.len() as int) =~= other@);
        }
    }
}

// ===== what a condition says =====

/// What a condition says, as values: what holds however it went, what holds
/// only where it was true, and only where it was false.
pub struct NarrowingV {
    pub certain: Seq<(Sigil, Seq<char>, TypeV)>,
    pub when_true: Seq<(Sigil, Seq<char>, TypeV)>,
    pub when_false: Seq<(Sigil, Seq<char>, TypeV)>,
}

/// What a condition says about the variables in it.
pub struct Narrowing {
    /// What holds however the condition went, because the part of it that
    /// says so was evaluated either way.
    pub certain: Vec<Fact>,
    /// What holds only where the condition was true.
    pub when_true: Vec<Fact>,
    /// What holds only where it was false.
    pub when_false: Vec<Fact>,
}

impl View for Narrowing {
    type V = NarrowingV;

    open spec fn view(&self) -> NarrowingV {
        NarrowingV {
            certain: fact_views(self.certain@),
            when_true: fact_views(self.when_true@),
            when_false: fact_views(self.when_false@),
        }
    }
}

/// Nothing said.
pub open spec fn silent() -> NarrowingV {
    NarrowingV { certain: Seq::empty(), when_true: Seq::empty(), when_false: Seq::empty() }
}

/// The two sides swapped, which is what a `!` does.
pub open spec fn swapped(a: NarrowingV) -> NarrowingV {
    NarrowingV { certain: a.certain, when_true: a.when_false, when_false: a.when_true }
}

/// Two parts that are both evaluated: what either says where it held holds
/// where the whole did; which of the two made the whole false is not known.
pub open spec fn both(a: NarrowingV, b: NarrowingV) -> NarrowingV {
    NarrowingV { certain: a.certain + b.certain, when_true: a.when_true + b.when_true, when_false: Seq::empty() }
}

/// `A && B`: B runs only where A held, so what B says belongs to the true
/// side and nowhere else.
pub open spec fn and(a: NarrowingV, b: NarrowingV) -> NarrowingV {
    NarrowingV { certain: a.certain, when_true: a.when_true + b.certain + b.when_true, when_false: Seq::empty() }
}

/// `A || B`: the whole may hold because A did, so the true side claims
/// nothing; B runs only where A failed.
pub open spec fn or(a: NarrowingV, b: NarrowingV) -> NarrowingV {
    NarrowingV { certain: a.certain, when_true: Seq::empty(), when_false: a.when_false + b.certain + b.when_false }
}

/// One fact, learned where the condition held.
pub open spec fn on_true(f: (Sigil, Seq<char>, TypeV)) -> NarrowingV {
    NarrowingV { certain: Seq::empty(), when_true: seq![f], when_false: Seq::empty() }
}

/// One fact that holds whichever way the condition went.
pub open spec fn surely(f: (Sigil, Seq<char>, TypeV)) -> NarrowingV {
    NarrowingV { certain: seq![f], when_true: Seq::empty(), when_false: Seq::empty() }
}

/// `$x` without its `undef`, if the node is a variable with a name.
pub open spec fn spec_defined_fact(env: Seq<(Sigil, Seq<char>, TypeV)>, n: SyntaxNode) -> Option<(Sigil, Seq<char>, TypeV)> {
    if is_variable_kind(n.kind) && name_of(child_tokens(n)).len() > 0 {
        let sigil = sigil_of_kind(n.kind);
        let name = name_of(child_tokens(n));
        Some((sigil, name, spec_without_undef(env_get(env, sigil, name))))
    } else {
        None
    }
}

/// The nodes of `ns` that are not names, in order.
pub open spec fn not_names(ns: Seq<SyntaxNode>) -> Seq<SyntaxNode>
    decreases ns.len(),
{
    if ns.len() == 0 {
        Seq::empty()
    } else if ns.last().kind == NodeKind::SubName {
        not_names(ns.drop_last())
    } else {
        not_names(ns.drop_last()).push(ns.last())
    }
}

/// What a call was handed: its arguments, or — for a named unary operator
/// that hangs its operand beside the name — the children that are not the
/// name.
pub open spec fn spec_operands(n: SyntaxNode) -> Seq<SyntaxNode> {
    if spec_args(n).len() > 0 {
        spec_args(n)
    } else {
        not_names(child_nodes(n))
    }
}

/// Whether a call's name is one of the four that test what a value is.
pub open spec fn is_test_name(name: Seq<char>) -> bool {
    name == "defined"@ || name == "blessed"@ || name == "ref"@ || name == "exists"@
}

/// The callee a call node names, as `callee_name` reads it.
pub open spec fn called(n: SyntaxNode) -> Seq<char> {
    if n.kind == NodeKind::CodeCallExpr {
        Seq::empty()
    } else {
        match name_child_text(n) {
            Some(s) => s,
            None => Seq::empty(),
        }
    }
}

/// The node a `defined` asks about: the base of a subscript chain, or the
/// node itself.
pub open spec fn asked_about(arg: SyntaxNode) -> SyntaxNode {
    if is_step_kind(arg.kind) && spec_chain(arg) is Some {
        spec_chain(arg)->Some_0.0
    } else {
        arg
    }
}

/// What a method call says: `$x->isa('Foo')` says what `$x` is; any other
/// call says that its invocant was there to be called.
pub open spec fn method_narrowing(env: Seq<(Sigil, Seq<char>, TypeV)>, n: SyntaxNode) -> NarrowingV {
    let ns = child_nodes(n);
    if ns.len() == 0 {
        silent()
    } else {
        let invocant = ns[0];
        let method = first_of_kind(ns, NodeKind::SubName, 1);
        let isa_fact = if method matches Some(i) && crate::syntax::joined(ns[i]) == "isa"@ && is_variable_kind(invocant.kind)
            && name_of(child_tokens(invocant)).len() > 0 && spec_args(n).len() > 0 && spec_key_text(spec_args(n)[0]) is Some {
            Some((sigil_of_kind(invocant.kind), name_of(child_tokens(invocant)), TypeV::InstanceOf(spec_key_text(spec_args(n)[0])->Some_0)))
        } else {
            None
        };
        match isa_fact {
            Some(f) => on_true(f),
            None => match spec_defined_fact(env, invocant) {
                Some(f) => surely(f),
                None => silent(),
            },
        }
    }
}

/// The operands of a test call from the first `k`, read into what they say.
pub open spec fn operands_fold(env: Seq<(Sigil, Seq<char>, TypeV)>, n: SyntaxNode, k: int) -> NarrowingV
    decreases n, k,
{
    if k <= 0 || k > spec_operands(n).len() {
        silent()
    } else {
        let arg = spec_operands(n)[k - 1];
        let found = match spec_defined_fact(env, asked_about(arg)) {
            Some(f) => both(operands_fold(env, n, k - 1), on_true(f)),
            None => operands_fold(env, n, k - 1),
        };
        proof {
            lemma_operand_below(n, k - 1);
        }
        both(found, spec_narrowing(env, arg))
    }
}

/// The children of a node from the first `k`, each read, and combined as
/// parts that are all evaluated — one child being that child.
pub open spec fn children_fold(env: Seq<(Sigil, Seq<char>, TypeV)>, n: SyntaxNode, k: int) -> NarrowingV
    decreases n, k,
{
    if k <= 0 || k > child_nodes(n).len() {
        silent()
    } else {
        proof {
            lemma_child_smaller(n, k - 1);
        }
        if k == 1 {
            spec_narrowing(env, child_nodes(n)[0])
        } else {
            both(children_fold(env, n, k - 1), spec_narrowing(env, child_nodes(n)[k - 1]))
        }
    }
}

/// Whether an operator is one of the disjunctions.
pub open spec fn is_disjunction(op: Option<TokenKind>) -> bool {
    op == Some(TokenKind::LogicalOr) || op == Some(TokenKind::OrKw) || op == Some(TokenKind::DefinedOr) || op == Some(
        TokenKind::XorKw,
    )
}

/// Whether any of the tokens is a negation.
pub open spec fn negates(ts: Seq<crate::syntax::SyntaxToken>) -> bool {
    exists|i: int| 0 <= i < ts.len() && ((#[trigger] ts[i]).kind == TokenKind::LogicalNot || ts[i].kind == TokenKind::NotKw)
}

/// What a condition says about the variables in it.
pub open spec fn spec_narrowing(env: Seq<(Sigil, Seq<char>, TypeV)>, n: SyntaxNode) -> NarrowingV
    decreases n, child_nodes(n).len() + spec_operands(n).len() + 1,
{
    let ns = child_nodes(n);
    if n.kind == NodeKind::PrefixExpr {
        let inner = if ns.len() > 0 {
            proof {
                lemma_child_smaller(n, 0);
            }
            spec_narrowing(env, ns[0])
        } else {
            silent()
        };
        if negates(child_tokens(n)) {
            swapped(inner)
        } else {
            inner
        }
    } else if n.kind == NodeKind::BinaryExpr {
        let left = if ns.len() > 0 {
            proof {
                lemma_child_smaller(n, 0);
            }
            spec_narrowing(env, ns[0])
        } else {
            silent()
        };
        let right = if ns.len() > 1 {
            proof {
                lemma_child_smaller(n, 1);
            }
            spec_narrowing(env, ns[1])
        } else {
            silent()
        };
        if is_disjunction(first_operator(child_tokens(n), 0)) {
            or(left, right)
        } else {
            and(left, right)
        }
    } else if n.kind == NodeKind::CallExpr || n.kind == NodeKind::ListCallExpr {
        if is_test_name(called(n)) {
            operands_fold(env, n, spec_operands(n).len() as int)
        } else {
            silent()
        }
    } else if n.kind == NodeKind::MethodCallExpr {
        method_narrowing(env, n)
    } else if n.kind == NodeKind::ScalarVar {
        match spec_defined_fact(env, n) {
            Some(f) => on_true(f),
            None => silent(),
        }
    } else {
        children_fold(env, n, ns.len() as int)
    }
}

// ===== where the operands stand =====

proof fn lemma_first_of_kind_in(ns: Seq<SyntaxNode>, k: NodeKind, i: int)
    requires
        0 <= i,
    ensures
        first_of_kind(ns, k, i) matches Some(j) ==> i <= j < ns.len() && ns[j].kind == k,
    decreases ns.len() - i,
{
    if i < ns.len() {
        lemma_first_of_kind_in(ns, k, i + 1);
    }
}

proof fn lemma_not_names_below(n: SyntaxNode, ns: Seq<SyntaxNode>, i: int)
    requires
        forall|j: int| 0 <= j < ns.len() ==> decreases_to!(n => #[trigger] ns[j]),
        0 <= i < not_names(ns).len(),
    ensures
        decreases_to!(n => not_names(ns)[i]),
    decreases ns.len(),
{
    if ns.last().kind == NodeKind::SubName {
        lemma_not_names_below(n, ns.drop_last(), i);
    } else if i < not_names(ns.drop_last()).len() {
        lemma_not_names_below(n, ns.drop_last(), i);
    } else {
        assert(not_names(ns)[i] == ns.last());
    }
}

/// Each operand of a call is below it.
pub proof fn lemma_operand_below(n: SyntaxNode, i: int)
    requires
        0 <= i < spec_operands(n).len(),
    ensures
        decreases_to!(n => spec_operands(n)[i]),
{
    if spec_args(n).len() > 0 {
        let l = spec_arg_list(n)->Some_0;
        if n.kind == NodeKind::ListCallExpr {
            lemma_list_child_below(n);
        } else {
            lemma_first_of_kind_in(child_nodes(n), NodeKind::ArgList, 0);
            let a = child_of(n, NodeKind::ArgList)->Some_0;
            let j = first_of_kind(child_nodes(n), NodeKind::ArgList, 0)->Some_0;
            lemma_child_smaller(n, j);
            lemma_list_child_below(a);
        }
        crate::attributes::lemma_elements_within(l, i);
    } else {
        assert forall|j: int| 0 <= j < child_nodes(n).len() implies decreases_to!(n => #[trigger] child_nodes(n)[j]) by {
            lemma_child_smaller(n, j);
        }
        lemma_not_names_below(n, child_nodes(n), i);
    }
}

// ===== reading a condition =====

/// Move every fact of `more` to the end of `out`.
fn append_facts(out: &mut Vec<Fact>, more: Vec<Fact>)
    ensures
        fact_views(final(out)@) == fact_views(old(out)@) + fact_views(more@),
{
    let ghost before = out@;
    let mut more = more;
    let ghost all = more@;
    out.append(&mut more);
    assert(fact_views(out@) =~= fact_views(before) + fact_views(all));
}

impl Narrowing {
    /// Nothing said.
    pub fn silent() -> (r: Narrowing)
        ensures
            r@ == silent(),
    {
        let r = Narrowing { certain: Vec::new(), when_true: Vec::new(), when_false: Vec::new() };
        assert(fact_views(r.certain@) =~= Seq::<(Sigil, Seq<char>, TypeV)>::empty());
        assert(fact_views(r.when_true@) =~= Seq::<(Sigil, Seq<char>, TypeV)>::empty());
        assert(fact_views(r.when_false@) =~= Seq::<(Sigil, Seq<char>, TypeV)>::empty());
        r
    }

    /// One fact, learned where the condition held.
    pub fn when_true(fact: Fact) -> (r: Narrowing)
        ensures
            r@ == on_true(fact_view(fact)),
    {
        let mut r = Narrowing::silent();
        r.when_true.push(fact);
        assert(fact_views(r.when_true@) =~= seq![fact_view(fact)]);
        r
    }

    /// One fact that holds whichever way the condition went.
    pub fn certain(fact: Fact) -> (r: Narrowing)
        ensures
            r@ == surely(fact_view(fact)),
    {
        let mut r = Narrowing::silent();
        r.certain.push(fact);
        assert(fact_views(r.certain@) =~= seq![fact_view(fact)]);
        r
    }

    /// The two sides swapped, which is what a `!` does.
    pub fn swapped(self) -> (r: Narrowing)
        ensures
            r@ == swapped(self@),
    {
        Narrowing { certain: self.certain, when_true: self.when_false, when_false: self.when_true }
    }

    /// Two parts that are both evaluated.
    pub fn both(self, other: Narrowing) -> (r: Narrowing)
        ensures
            r@ == both(self@, other@),
    {
        let mut certain = self.certain;
        append_facts(&mut certain, other.certain);
        let mut when_true = self.when_true;
        append_facts(&mut when_true, other.when_true);
        let r = Narrowing { certain, when_true, when_false: Vec::new() };
        assert(fact_views(r.when_false@) =~= Seq::<(Sigil, Seq<char>, TypeV)>::empty());
        r
    }

    /// `A && B`.
    pub fn and(self, other: Narrowing) -> (r: Narrowing)
        ensures
            r@ == and(self@, other@),
    {
        let mut when_true = self.when_true;
        append_facts(&mut when_true, other.certain);
        append_facts(&mut when_true, other.when_true);
        let r = Narrowing { certain: self.certain, when_true, when_false: Vec::new() };
        assert(fact_views(r.when_false@) =~= Seq::<(Sigil, Seq<char>, TypeV)>::empty());
        r
    }

    /// `A || B`.
    pub fn or(self, other: Narrowing) -> (r: Narrowing)
        ensures
            r@ == or(self@, other@),
    {
        let mut when_false = self.when_false;
        append_facts(&mut when_false, other.certain);
        append_facts(&mut when_false, other.when_false);
        let r = Narrowing { certain: self.certain, when_true: Vec::new(), when_false };
        assert(fact_views(r.when_true@) =~= Seq::<(Sigil, Seq<char>, TypeV)>::empty());
        r
    }
}

/// `$x` without its `undef`, if the node is a variable at all.
fn defined_fact(env: &Env, node: &SyntaxNode) -> (r: Option<Fact>)
    ensures
        match r {
            Some(f) => spec_defined_fact(env@, *node) == Some(fact_view(f)),
            None => spec_defined_fact(env@, *node) is None,
        },
{
    let variable = match Variable::cast(node) {
        Some(v) => v,
        None => return None,
    };
    let name = match variable.name() {
        Some(n) => n,
        None => return None,
    };
    let sigil = variable.sigil();
    let ty = env.get(sigil, name.as_str()).without_undef();
    Some(Fact { sigil, name, ty })
}

fn negated(node: &SyntaxNode) -> (r: bool)
    ensures
        r == negates(child_tokens(*node)),
{
    let ts = crate::ast::tokens(node);
    let ghost all = child_tokens(*node);
    let mut i: usize = 0;
    while i < ts.len()
        invariant
            i <= ts@.len(),
            deref_tokens(ts@) == all,
            all == child_tokens(*node),
            forall|j: int| 0 <= j < i ==> !((#[trigger] all[j]).kind == TokenKind::LogicalNot || all[j].kind == TokenKind::NotKw),
        decreases ts@.len() - i,
    {
        assert(deref_tokens(ts@)[i as int] == *ts@[i as int]);
        if ts[i].kind == TokenKind::LogicalNot || ts[i].kind == TokenKind::NotKw {
            assert(all[i as int].kind == TokenKind::LogicalNot || all[i as int].kind == TokenKind::NotKw);
            assert(negates(all));
            return true;
        }
        i += 1;
    }
    false
}

/// The nodes among a call's children that are not its name.
fn operands_beside<'a>(node: &'a SyntaxNode) -> (r: Vec<&'a SyntaxNode>)
    ensures
        deref_nodes(r@) == not_names(child_nodes(*node)),
{
    let nodes = node.child_nodes();
    let ghost ns = child_nodes(*node);
    let mut out: Vec<&'a SyntaxNode> = Vec::new();
    let mut i: usize = 0;
    while i < nodes.len()
        invariant
            i <= nodes@.len(),
            deref_nodes(nodes@) == ns,
            deref_nodes(out@) == not_names(ns.subrange(0, i as int)),
        decreases nodes@.len() - i,
    {
        assert(deref_nodes(nodes@)[i as int] == *nodes@[i as int]);
        assert(ns.subrange(0, i + 1).drop_last() =~= ns.subrange(0, i as int));
        let ghost before = deref_nodes(out@);
        if nodes[i].kind != NodeKind::SubName {
            out.push(nodes[i]);
            assert(deref_nodes(out@) =~= before.push(*nodes@[i as int]));
        }
        i += 1;
    }
    assert(ns.subrange(0, nodes@.len() as int) =~= ns);
    out
}

/// What a method call says.
fn method_narrowing_of(env: &Env, node: &SyntaxNode) -> (r: Narrowing)
    requires
        node.kind == NodeKind::MethodCallExpr,
    ensures
        r@ == method_narrowing(env@, *node),
{
    let call = MethodCallExpr(node);
    let invocant = match call.invocant() {
        Some(i) => i,
        None => return Narrowing::silent(),
    };
    let is_isa = match call.method_name() {
        Some(m) => same_text(m.as_str(), "isa"),
        None => false,
    };
    if is_isa {
        if let Some(variable) = Variable::cast(invocant) {
            if let Some(name) = variable.name() {
                let args = call.args();
                assert(deref_nodes(args@) == spec_args(*node));
                if args.len() > 0 {
                    assert(*args@[0] == spec_args(*node)[0]);
                    if let Some(class) = key_text(args[0]) {
                        return Narrowing::when_true(Fact { sigil: variable.sigil(), name, ty: Type::InstanceOf(class) });
                    }
                }
            }
        }
    }
    match defined_fact(env, invocant) {
        Some(fact) => Narrowing::certain(fact),
        None => Narrowing::silent(),
    }
}

/// Read a condition for what it says about the variables in it.
pub fn narrowing(env: &Env, node: &SyntaxNode) -> (r: Narrowing)
    ensures
        r@ == spec_narrowing(env@, *node),
    decreases node,
{
    if node.kind == NodeKind::PrefixExpr {
        let inner = match node.first_node() {
            Some(child) => {
                proof {
                    lemma_child_smaller(*node, 0);
                }
                narrowing(env, child)
            },
            None => Narrowing::silent(),
        };
        if negated(node) {
            inner.swapped()
        } else {
            inner
        }
    } else if node.kind == NodeKind::BinaryExpr {
        let view = crate::ast::BinaryExpr(node);
        let left = match view.left() {
            Some(l) => {
                proof {
                    lemma_child_smaller(*node, 0);
                }
                narrowing(env, l)
            },
            None => Narrowing::silent(),
        };
        let right = match view.right() {
            Some(r) => {
                proof {
                    lemma_child_smaller(*node, 1);
                }
                narrowing(env, r)
            },
            None => Narrowing::silent(),
        };
        match view.operator() {
            Some(TokenKind::LogicalOr) | Some(TokenKind::OrKw) | Some(TokenKind::DefinedOr) | Some(TokenKind::XorKw) => left.or(right),
            _ => left.and(right),
        }
    } else if node.kind == NodeKind::CallExpr || node.kind == NodeKind::ListCallExpr {
        let call = match Call::cast(node) {
            Some(c) => c,
            None => return Narrowing::silent(),
        };
        let tested = match call.callee_name() {
            Some(name) => {
                let n = name.as_str();
                same_text(n, "defined") || same_text(n, "blessed") || same_text(n, "ref") || same_text(n, "exists")
            },
            None => {
                proof {
                    reveal_strlit("defined");
                    reveal_strlit("blessed");
                    reveal_strlit("ref");
                    reveal_strlit("exists");
                    assert("defined"@.len() == 7);
                    assert("blessed"@.len() == 7);
                    assert("ref"@.len() == 3);
                    assert("exists"@.len() == 6);
                    assert(!is_test_name(Seq::<char>::empty()));
                }
                false
            },
        };
        if !tested {
            return Narrowing::silent();
        }
        let arguments = call.args();
        let operands = if arguments.len() > 0 {
            arguments
        } else {
            operands_beside(node)
        };
        let ghost ops = spec_operands(*node);
        assert(deref_nodes(operands@) == ops);
        let mut found = Narrowing::silent();
        let mut k: usize = 0;
        while k < operands.len()
            invariant
                k <= operands@.len(),
                deref_nodes(operands@) == ops,
                ops == spec_operands(*node),
                node.kind == NodeKind::CallExpr || node.kind == NodeKind::ListCallExpr,
                found@ == operands_fold(env@, *node, k as int),
            decreases operands@.len() - k,
        {
            let arg = operands[k];
            assert(deref_nodes(operands@)[k as int] == *arg);
            proof {
                lemma_operand_below(*node, k as int);
            }
            let base = match SubscriptChain::cast(arg) {
                Some(chain) => chain.base(),
                None => arg,
            };
            assert(*base == asked_about(*arg));
            found = match defined_fact(env, base) {
                Some(fact) => found.both(Narrowing::when_true(fact)),
                None => found,
            };
            let said = narrowing(env, arg);
            found = found.both(said);
            k += 1;
        }
        found
    } else if node.kind == NodeKind::MethodCallExpr {
        method_narrowing_of(env, node)
    } else if node.kind == NodeKind::ScalarVar {
        match defined_fact(env, node) {
            Some(fact) => Narrowing::when_true(fact),
            None => Narrowing::silent(),
        }
    } else {
        let nodes = node.child_nodes();
        let ghost ns = child_nodes(*node);
        if nodes.len() == 0 {
            assert(ns.len() == 0);
            assert(children_fold(env@, *node, 0) == silent());
            return Narrowing::silent();
        }
        assert(deref_nodes(nodes@)[0] == *nodes@[0]);
        proof {
            lemma_child_smaller(*node, 0);
        }
        let mut acc = narrowing(env, nodes[0]);
        let mut k: usize = 1;
        while k < nodes.len()
            invariant
                1 <= k <= nodes@.len(),
                deref_nodes(nodes@) == ns,
                ns == child_nodes(*node),
                acc@ == children_fold(env@, *node, k as int),
            decreases nodes@.len() - k,
        {
            assert(deref_nodes(nodes@)[k as int] == *nodes@[k as int]);
            proof {
                lemma_child_smaller(*node, k as int);
            }
            let next = narrowing(env, nodes[k]);
            acc = acc.both(next);
            k += 1;
        }
        acc
    }
}

// ===== what holds of every condition =====

/// `A || B` may hold because A did, so it claims nothing where it held.
pub proof fn law_a_disjunction_claims_nothing_where_it_held(env: Seq<(Sigil, Seq<char>, TypeV)>, n: SyntaxNode)
    requires
        n.kind == NodeKind::BinaryExpr,
        is_disjunction(first_operator(child_tokens(n), 0)),
    ensures
        spec_narrowing(env, n).when_true.len() == 0,
{
}

/// Which part of `A && B` made it false is not known, so it claims nothing
/// where it failed.
pub proof fn law_a_conjunction_claims_nothing_where_it_failed(env: Seq<(Sigil, Seq<char>, TypeV)>, n: SyntaxNode)
    requires
        n.kind == NodeKind::BinaryExpr,
        !is_disjunction(first_operator(child_tokens(n), 0)),
    ensures
        spec_narrowing(env, n).when_false.len() == 0,
{
}

/// A negation swaps the two sides and keeps what held either way; negating
/// twice says what the condition said.
pub proof fn law_a_negation_swaps_the_sides(env: Seq<(Sigil, Seq<char>, TypeV)>, n: SyntaxNode)
    requires
        n.kind == NodeKind::PrefixExpr,
        negates(child_tokens(n)),
        child_nodes(n).len() > 0,
    ensures
        spec_narrowing(env, n) == swapped(spec_narrowing(env, child_nodes(n)[0])),
        spec_narrowing(env, n).certain == spec_narrowing(env, child_nodes(n)[0]).certain,
        ({
            let m = child_nodes(n)[0];
            m.kind == NodeKind::PrefixExpr && negates(child_tokens(m)) && child_nodes(m).len() > 0
                ==> spec_narrowing(env, n) == spec_narrowing(env, child_nodes(m)[0])
        }),
{
    let m = child_nodes(n)[0];
    if m.kind == NodeKind::PrefixExpr && negates(child_tokens(m)) && child_nodes(m).len() > 0 {
        let inner = spec_narrowing(env, child_nodes(m)[0]);
        assert(spec_narrowing(env, m) == swapped(inner));
        assert(spec_narrowing(env, n) == swapped(spec_narrowing(env, m)));
        assert(swapped(swapped(inner)) == inner);
    }
}

/// A call that is not one of the four tests says nothing: what `validate($x)`
/// checks is in a body this never opened.
pub proof fn law_a_call_nobody_read_says_nothing(env: Seq<(Sigil, Seq<char>, TypeV)>, n: SyntaxNode)
    requires
        n.kind == NodeKind::CallExpr || n.kind == NodeKind::ListCallExpr,
        !is_test_name(called(n)),
    ensures
        spec_narrowing(env, n) == silent(),
{
}

} // verus!
