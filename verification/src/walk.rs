//! The decisions of the typing walk that do not need the tree: what a
//! statement leaves as its sub's value, how the values leaving one sub join
//! into its return, how a sub names the value it was called on, and what the
//! arithmetic and container operators give back.

use vstd::prelude::*;

use crate::annotate::{diagnostic_views, DiagV};
use crate::ast::{
    arg_view, arg_views, is_call_kind, is_step_kind, name_child_text, name_of, spec_chain, step_view, step_views, Arg, ArgV, Call,
    MethodCallExpr, Sigil, Step, StepV, SubscriptChain, Variable,
};
use crate::diag::{spec_default_severity, Code, Diagnostic, Severity};
use crate::flow::{compatible, spec_compatible, Hierarchy};
use crate::span::TextRange;
use crate::ast::lemma_child_smaller;
use crate::syntax::{child_nodes, child_tokens, deref_nodes, deref_tokens, first_of_kind, joined, NodeKind, SyntaxNode, TokenKind};
use crate::annotate::{find_method, method_views, spec_role_returns, AttributeDecl};
use crate::decl::{PackageFacts, Param, ParamSource, Params, SubDecl};
use crate::program::{
    deref_attributes, deref_facts, inner_name, lin_attributes, lookup_view, outer_name, spec_facts, spec_has_unknown_ancestor,
    spec_linearise, split_qualified, LookupV, MethodLookup, Program,
};
use crate::ast::spec_args;
use crate::narrow::{env_lookup, lemma_operand_below, spec_operands, Env};
use crate::shape::{ListShape, Returns};
use crate::text::{append, chars_of, same_text as is, string_of};
use crate::types::{
    lemma_slot_views, lemma_views, lemma_views_push, slot_views, spec_is_maybe, spec_maybe, spec_render, spec_required, spec_union,
    spec_without_undef, views, Type, TypeV,
};

verus! {

// ===== Tails =====

/// What the statement just walked leaves as the value of the sub it is in.
pub enum Tail {
    /// An expression statement, and what it evaluated to; `invocant` says
    /// whether that was the value the sub was called on.
    Value { ty: Type, invocant: bool },
    /// A `return` or a `die`, whose site the walk has counted already.
    Left,
    /// Anything else, including a body with no statements in it.
    Opaque,
}

pub enum TailV {
    Value { ty: TypeV, invocant: bool },
    Left,
    Opaque,
}

impl View for Tail {
    type V = TailV;

    open spec fn view(&self) -> TailV {
        match self {
            Tail::Value { ty, invocant } => TailV::Value { ty: ty@, invocant: *invocant },
            Tail::Left => TailV::Left,
            Tail::Opaque => TailV::Opaque,
        }
    }
}

pub open spec fn tail_views(ts: Seq<Tail>) -> Seq<TailV> {
    ts.map_values(|t: Tail| t@)
}

/// The types of the tails that are values, in order.
pub open spec fn tail_members(ts: Seq<TailV>) -> Seq<TypeV>
    decreases ts.len(),
{
    if ts.len() == 0 {
        Seq::empty()
    } else {
        match ts.last() {
            TailV::Value { ty, .. } => tail_members(ts.drop_last()).push(ty),
            _ => tail_members(ts.drop_last()),
        }
    }
}

/// Whether one of the tails that are values was the invocant.
pub open spec fn tail_invocant(ts: Seq<TailV>) -> bool
    decreases ts.len(),
{
    if ts.len() == 0 {
        false
    } else {
        tail_invocant(ts.drop_last()) || match ts.last() {
            TailV::Value { invocant, .. } => invocant,
            _ => false,
        }
    }
}

/// Whether one of the tails is opaque.
pub open spec fn any_opaque(ts: Seq<TailV>) -> bool {
    exists|i: int| 0 <= i < ts.len() && ts[i] is Opaque
}

/// The tail of an `if` chain, from the tails of its branches: opaque without
/// an `else` (a false `if` is its condition's value) or when a branch is;
/// left when every branch left; else the union of what the branches gave.
pub open spec fn spec_join_tails(ts: Seq<TailV>, has_else: bool) -> TailV {
    if !has_else || any_opaque(ts) {
        TailV::Opaque
    } else if tail_members(ts).len() == 0 {
        TailV::Left
    } else {
        TailV::Value { ty: spec_union(tail_members(ts)), invocant: tail_invocant(ts) }
    }
}

/// The join of an `if` chain's branches, as the chain's own tail.
pub fn join_tails(tails: &Vec<Tail>, has_else: bool) -> (r: Tail)
    ensures
        r@ == spec_join_tails(tail_views(tails@), has_else),
{
    let ghost ts = tail_views(tails@);
    if !has_else {
        return Tail::Opaque;
    }
    let mut members: Vec<Type> = Vec::new();
    let mut invocant = false;
    let mut i: usize = 0;
    while i < tails.len()
        invariant
            i <= tails@.len(),
            ts == tail_views(tails@),
            views(members@) == tail_members(ts.subrange(0, i as int)),
            invocant == tail_invocant(ts.subrange(0, i as int)),
            forall|j: int| 0 <= j < i ==> !(ts[j] is Opaque),
        decreases tails@.len() - i,
    {
        proof {
            assert(ts.subrange(0, i + 1).drop_last() =~= ts.subrange(0, i as int));
            assert(ts.subrange(0, i + 1).last() == tails@[i as int]@);
        }
        match &tails[i] {
            Tail::Value { ty, invocant: one } => {
                let copy = ty.duplicate();
                proof {
                    lemma_views_push(members@, copy);
                }
                members.push(copy);
                invocant = invocant || *one;
            },
            Tail::Left => {},
            Tail::Opaque => {
                proof {
                    assert(ts[i as int] is Opaque);
                }
                return Tail::Opaque;
            },
        }
        i += 1;
    }
    proof {
        assert(ts.subrange(0, tails@.len() as int) =~= ts);
        assert(!any_opaque(ts));
        lemma_views(members@);
    }
    if members.len() == 0 {
        return Tail::Left;
    }
    Tail::Value { ty: Type::union(members), invocant }
}

// ===== The invocant =====

/// Whether `InstanceOf[package]` is one of the things a type may be.
pub open spec fn spec_holds_own_class(t: TypeV, package: Seq<char>) -> bool
    decreases t,
{
    match t {
        TypeV::InstanceOf(name) => name == package,
        TypeV::Union(members) => any_holds_own_class(members, package),
        TypeV::Optional(inner) => spec_holds_own_class(*inner, package),
        _ => false,
    }
}

pub open spec fn any_holds_own_class(members: Seq<TypeV>, package: Seq<char>) -> bool
    decreases members,
{
    if members.len() == 0 {
        false
    } else {
        any_holds_own_class(members.drop_last(), package) || spec_holds_own_class(members.last(), package)
    }
}

/// Whether `InstanceOf[package]` is one of the things a type may be.
pub fn holds_own_class(ty: &Type, package: &str) -> (r: bool)
    ensures
        r == spec_holds_own_class(ty@, package@),
    decreases ty,
{
    match ty {
        Type::InstanceOf(name) => crate::text::same_text(name.as_str(), package),
        Type::Optional(inner) => holds_own_class(inner, package),
        Type::Union(members) => {
            proof {
                assert(decreases_to!(*ty => *members));
                lemma_views(members@);
            }
            let mut found = false;
            let mut i: usize = 0;
            while i < members.len()
                invariant
                    i <= members.len(),
                    decreases_to!(*ty => *members),
                    views(members@).len() == members@.len(),
                    forall|j: int| 0 <= j < members@.len() ==> #[trigger] views(members@)[j] == members@[j]@,
                    found == any_holds_own_class(views(members@).subrange(0, i as int), package@),
                decreases members.len() - i,
            {
                proof {
                    assert(decreases_to!(*members => members@));
                    assert(decreases_to!(members@ => members@[i as int]));
                    assert(views(members@).subrange(0, i + 1).drop_last() =~= views(members@).subrange(0, i as int));
                }
                let here = holds_own_class(&members[i], package);
                found = found || here;
                i += 1;
            }
            proof {
                assert(views(members@).subrange(0, members.len() as int) =~= views(members@));
            }
            found
        },
        _ => false,
    }
}

/// The same type with the invocant marker, `InstanceOf[own]`, replaced by
/// the class the sub was called on.
pub open spec fn spec_with_invocant(t: TypeV, own: Seq<char>, class: Seq<char>) -> TypeV
    decreases t,
{
    match t {
        TypeV::InstanceOf(name) => if name == own {
            TypeV::InstanceOf(class)
        } else {
            t
        },
        TypeV::Union(members) => spec_union(map_with_invocant(members, own, class)),
        TypeV::Optional(inner) => TypeV::Optional(Box::new(spec_with_invocant(*inner, own, class))),
        _ => t,
    }
}

pub open spec fn map_with_invocant(members: Seq<TypeV>, own: Seq<char>, class: Seq<char>) -> Seq<TypeV>
    decreases members,
{
    if members.len() == 0 {
        Seq::empty()
    } else {
        map_with_invocant(members.drop_last(), own, class).push(spec_with_invocant(members.last(), own, class))
    }
}

/// The same type with the invocant marker replaced by the receiver's class:
/// `Child->new->set_x(1)` is a `Child`.
pub fn with_invocant(ty: &Type, own: &str, class: &str) -> (r: Type)
    ensures
        r@ == spec_with_invocant(ty@, own@, class@),
    decreases ty,
{
    match ty {
        Type::InstanceOf(name) => {
            if crate::text::same_text(name.as_str(), own) {
                Type::InstanceOf(class.to_string())
            } else {
                ty.duplicate()
            }
        },
        Type::Optional(inner) => Type::Optional(Box::new(with_invocant(inner, own, class))),
        Type::Union(members) => {
            proof {
                assert(decreases_to!(*ty => *members));
                lemma_views(members@);
            }
            let mut out: Vec<Type> = Vec::new();
            let mut i: usize = 0;
            while i < members.len()
                invariant
                    i <= members.len(),
                    decreases_to!(*ty => *members),
                    views(members@).len() == members@.len(),
                    forall|j: int| 0 <= j < members@.len() ==> #[trigger] views(members@)[j] == members@[j]@,
                    views(out@) == map_with_invocant(views(members@).subrange(0, i as int), own@, class@),
                decreases members.len() - i,
            {
                proof {
                    assert(decreases_to!(*members => members@));
                    assert(decreases_to!(members@ => members@[i as int]));
                    assert(views(members@).subrange(0, i + 1).drop_last() =~= views(members@).subrange(0, i as int));
                }
                let one = with_invocant(&members[i], own, class);
                proof {
                    lemma_views_push(out@, one);
                }
                out.push(one);
                i += 1;
            }
            proof {
                assert(views(members@).subrange(0, members.len() as int) =~= views(members@));
            }
            Type::union(out)
        },
        _ => ty.duplicate(),
    }
}

/// How the sub being walked names the value it was called on.
pub enum Invocant {
    /// Its parameter list does not say it is a method.
    Absent,
    /// `$self`, or whatever the first parameter is called, without the sigil.
    Named(String),
    /// The sub unpacks nothing, so `$_[0]` is the invocant.
    Implicit,
}

pub enum InvocantV {
    Absent,
    Named(Seq<char>),
    Implicit,
}

impl View for Invocant {
    type V = InvocantV;

    open spec fn view(&self) -> InvocantV {
        match self {
            Invocant::Absent => InvocantV::Absent,
            Invocant::Named(name) => InvocantV::Named(name@),
            Invocant::Implicit => InvocantV::Implicit,
        }
    }
}

/// Where the first character at or after `i` that is not a `$` stands.
pub open spec fn past_dollars(s: Seq<char>, i: int) -> int
    decreases s.len() - i,
{
    if i < 0 || i >= s.len() || s[i] != '$' {
        i
    } else {
        past_dollars(s, i + 1)
    }
}

proof fn lemma_past_dollars(s: Seq<char>, i: int)
    requires
        0 <= i <= s.len(),
    ensures
        i <= past_dollars(s, i) <= s.len(),
    decreases s.len() - i,
{
    if i < s.len() && s[i] == '$' {
        lemma_past_dollars(s, i + 1);
    }
}

/// A name without the `$`s it starts with.
pub open spec fn without_dollars(s: Seq<char>) -> Seq<char> {
    s.subrange(past_dollars(s, 0), s.len() as int)
}

fn strip_dollars(name: &str) -> (r: String)
    ensures
        r@ == without_dollars(name@),
{
    let chars = chars_of(name);
    let n = chars.len();
    let mut a: usize = 0;
    proof {
        lemma_past_dollars(chars@, 0);
    }
    while a < n && chars[a] == '$'
        invariant
            a <= n,
            n == chars@.len(),
            past_dollars(chars@, 0) == past_dollars(chars@, a as int),
        decreases n - a,
    {
        a += 1;
    }
    string_of(&chars, a, n)
}

/// How a parameter list names the invocant: the first parameter of a
/// method's positional list, the name `args` binds it under, `$_[0]` for a
/// sub that unpacks nothing, and none otherwise.
pub open spec fn spec_invocant_of(p: Params) -> InvocantV {
    match p {
        Params::Positional { params, invocant, .. } => if invocant && params@.len() > 0 {
            InvocantV::Named(without_dollars(params@[0].name@))
        } else {
            InvocantV::Absent
        },
        Params::Named { invocant, .. } => match invocant {
            Some(name) => InvocantV::Named(without_dollars(name@)),
            None => InvocantV::Absent,
        },
        Params::Unknown => InvocantV::Implicit,
    }
}

impl Invocant {
    pub fn of(params: &Params) -> (r: Invocant)
        ensures
            r@ == spec_invocant_of(*params),
    {
        match params {
            Params::Positional { params, invocant, .. } => {
                if *invocant && params.len() > 0 {
                    Invocant::Named(strip_dollars(params[0].name.as_str()))
                } else {
                    Invocant::Absent
                }
            },
            Params::Named { invocant, .. } => match invocant {
                Some(name) => Invocant::Named(strip_dollars(name.as_str())),
                None => Invocant::Absent,
            },
            Params::Unknown => Invocant::Implicit,
        }
    }
}

// ===== Sites =====

/// Every place a value leaves one sub, as the walk collected them.
pub struct Sites {
    /// The scalar type of each.
    pub scalar: Vec<Type>,
    /// Whether one of them was the invocant.
    pub invocant: bool,
    /// A `goto` hands the call to another sub, whose answer this walk never
    /// asked for.
    pub opaque: bool,
}

/// The members that join into a sub's return: every site, and the tail's
/// value, or an `Unknown` for an opaque tail.
pub open spec fn joined_members(scalar: Seq<TypeV>, tail: TailV) -> Seq<TypeV> {
    match tail {
        TailV::Value { ty, .. } => scalar.push(ty),
        TailV::Left => scalar,
        TailV::Opaque => scalar.push(TypeV::Unknown),
    }
}

/// Whether the invocant left the sub at a site or at the tail.
pub open spec fn joined_invocant(invocant: bool, tail: TailV) -> bool {
    invocant || match tail {
        TailV::Value { invocant, .. } => invocant,
        _ => false,
    }
}

impl Sites {
    /// What the sub returns: the join of every site, `Unknown` if any site
    /// is, and nothing read at all past a `goto`. The invocant marker is kept
    /// only where the join still holds the sub's own class.
    pub fn joined(&self, tail: &Tail, package: &str) -> (r: Returns)
        ensures
            self.opaque ==> r.scalar@ is Unknown && r.list@ is Unknown && !r.inferred && !r.invocant,
            !self.opaque ==> {
                let scalar = spec_union(joined_members(views(self.scalar@), tail@));
                &&& r.scalar@ == scalar
                &&& r.list@ is Unknown
                &&& r.inferred
                &&& r.invocant == (joined_invocant(self.invocant, tail@) && spec_holds_own_class(scalar, package@))
            },
    {
        if self.opaque {
            return Returns::default();
        }
        let mut members = crate::types::duplicate_all(&self.scalar);
        let mut invocant = self.invocant;
        match tail {
            Tail::Value { ty, invocant: one } => {
                let copy = ty.duplicate();
                proof {
                    lemma_views_push(members@, copy);
                }
                members.push(copy);
                invocant = invocant || *one;
            },
            Tail::Left => {},
            Tail::Opaque => {
                proof {
                    lemma_views_push(members@, Type::Unknown);
                }
                members.push(Type::Unknown);
            },
        }
        let scalar = Type::union(members);
        let own = invocant && holds_own_class(&scalar, package);
        Returns::inferred(scalar, ListShape::Unknown, own)
    }
}

// ===== Operators =====

/// What an arithmetic operator does to whole numbers.
#[derive(Clone, Copy, PartialEq, Eq, Structural)]
pub enum Arith {
    /// An integer whatever it was handed: `%`.
    Integer,
    /// An integer when both sides are: `+`, `-`, `*`.
    Widening,
    /// Never an integer on that ground alone: `/`, `**`.
    Fractional,
}

/// Whether every value of the type numifies to a whole number: `Bool` is
/// `0`, `1`, `''` and `undef`, all of which do.
pub open spec fn spec_is_integral(t: TypeV) -> bool
    decreases t,
{
    match t {
        TypeV::Int | TypeV::Bool | TypeV::Undef => true,
        TypeV::Union(members) => all_integral(members),
        _ => false,
    }
}

pub open spec fn all_integral(members: Seq<TypeV>) -> bool
    decreases members,
{
    if members.len() == 0 {
        true
    } else {
        all_integral(members.drop_last()) && spec_is_integral(members.last())
    }
}

pub fn is_integral(ty: &Type) -> (r: bool)
    ensures
        r == spec_is_integral(ty@),
    decreases ty,
{
    match ty {
        Type::Int | Type::Bool | Type::Undef => true,
        Type::Union(members) => {
            proof {
                assert(decreases_to!(*ty => *members));
                lemma_views(members@);
            }
            let mut all = true;
            let mut i: usize = 0;
            while i < members.len()
                invariant
                    i <= members.len(),
                    decreases_to!(*ty => *members),
                    views(members@).len() == members@.len(),
                    forall|j: int| 0 <= j < members@.len() ==> #[trigger] views(members@)[j] == members@[j]@,
                    all == all_integral(views(members@).subrange(0, i as int)),
                decreases members.len() - i,
            {
                proof {
                    assert(decreases_to!(*members => members@));
                    assert(decreases_to!(members@ => members@[i as int]));
                    assert(views(members@).subrange(0, i + 1).drop_last() =~= views(members@).subrange(0, i as int));
                }
                let here = is_integral(&members[i]);
                all = all && here;
                i += 1;
            }
            proof {
                assert(views(members@).subrange(0, members.len() as int) =~= views(members@));
            }
            all
        },
        _ => false,
    }
}

/// The type of an arithmetic expression: an operand nobody typed makes the
/// answer one nobody typed either, `%` is an integer, `+ - *` are when both
/// sides are, and anything else is a number.
pub open spec fn spec_arithmetic(left: Option<TypeV>, right: Option<TypeV>, operator: Arith) -> TypeV {
    match (left, right) {
        (Some(l), Some(r)) => if l is Unknown || r is Unknown {
            TypeV::Unknown
        } else {
            match operator {
                Arith::Integer => TypeV::Int,
                Arith::Widening => if spec_is_integral(l) && spec_is_integral(r) {
                    TypeV::Int
                } else {
                    TypeV::Num
                },
                Arith::Fractional => TypeV::Num,
            }
        },
        _ => TypeV::Unknown,
    }
}

pub open spec fn option_view(t: Option<&Type>) -> Option<TypeV> {
    match t {
        Some(one) => Some(one@),
        None => None,
    }
}

pub fn arithmetic(left: Option<&Type>, right: Option<&Type>, operator: Arith) -> (r: Type)
    ensures
        r@ == spec_arithmetic(option_view(left), option_view(right), operator),
{
    let (l, r) = match (left, right) {
        (Some(l), Some(r)) => (l, r),
        _ => return Type::Unknown,
    };
    if l.is_unknown() || r.is_unknown() {
        return Type::Unknown;
    }
    match operator {
        Arith::Integer => Type::Int,
        Arith::Widening => if is_integral(l) && is_integral(r) {
            Type::Int
        } else {
            Type::Num
        },
        Arith::Fractional => Type::Num,
    }
}

/// What one element of a container holds: the element of a reference, the
/// value of a map, the union of a tuple's members.
pub open spec fn spec_element_of(t: TypeV) -> TypeV {
    match t {
        TypeV::ArrayRef(e) => *e,
        TypeV::HashRef(e) => *e,
        TypeV::ScalarRef(e) => *e,
        TypeV::MapOf(_, v) => *v,
        TypeV::Tuple(members) => spec_union(members),
        _ => TypeV::Unknown,
    }
}

pub fn element_of(ty: &Type) -> (r: Type)
    ensures
        r@ == spec_element_of(ty@),
{
    match ty {
        Type::ArrayRef(e) | Type::HashRef(e) | Type::ScalarRef(e) => e.duplicate(),
        Type::MapOf(_, v) => v.duplicate(),
        Type::Tuple(members) => Type::union(crate::types::duplicate_all(members)),
        _ => Type::Unknown,
    }
}

/// Whether a type is, or may be, the name of a class.
pub open spec fn spec_names_a_class(t: TypeV) -> bool
    decreases t,
{
    match t {
        TypeV::ClassName(_) => true,
        TypeV::Union(members) => any_names_a_class(members),
        _ => false,
    }
}

pub open spec fn any_names_a_class(members: Seq<TypeV>) -> bool
    decreases members,
{
    if members.len() == 0 {
        false
    } else {
        any_names_a_class(members.drop_last()) || spec_names_a_class(members.last())
    }
}

pub fn names_a_class(ty: &Type) -> (r: bool)
    ensures
        r == spec_names_a_class(ty@),
    decreases ty,
{
    match ty {
        Type::ClassName(_) => true,
        Type::Union(members) => {
            proof {
                assert(decreases_to!(*ty => *members));
                lemma_views(members@);
            }
            let mut found = false;
            let mut i: usize = 0;
            while i < members.len()
                invariant
                    i <= members.len(),
                    decreases_to!(*ty => *members),
                    views(members@).len() == members@.len(),
                    forall|j: int| 0 <= j < members@.len() ==> #[trigger] views(members@)[j] == members@[j]@,
                    found == any_names_a_class(views(members@).subrange(0, i as int)),
                decreases members.len() - i,
            {
                proof {
                    assert(decreases_to!(*members => members@));
                    assert(decreases_to!(members@ => members@[i as int]));
                    assert(views(members@).subrange(0, i + 1).drop_last() =~= views(members@).subrange(0, i as int));
                }
                let here = names_a_class(&members[i]);
                found = found || here;
                i += 1;
            }
            proof {
                assert(views(members@).subrange(0, members.len() as int) =~= views(members@));
            }
            found
        },
        _ => false,
    }
}

/// What a builtin gives back in scalar context, for the ones whose answer
/// is worth having; `None` for any other name.
pub open spec fn spec_builtin_return(name: Seq<char>) -> Option<TypeV> {
    if name == "length"@ || name == "index"@ || name == "rindex"@ || name == "ord"@ || name == "int"@
        || name == "time"@ || name == "fileno"@ || name == "system"@ {
        Some(TypeV::Int)
    } else if name == "abs"@ || name == "sqrt"@ || name == "atan2"@ || name == "sin"@ || name == "cos"@
        || name == "exp"@ || name == "log"@ || name == "rand"@ {
        Some(TypeV::Num)
    } else if name == "lc"@ || name == "uc"@ || name == "lcfirst"@ || name == "ucfirst"@ || name == "chr"@
        || name == "sprintf"@ || name == "join"@ || name == "substr"@ || name == "quotemeta"@ || name == "ref"@ {
        Some(TypeV::Str)
    } else if name == "defined"@ || name == "exists"@ || name == "wantarray"@ || name == "eof"@ {
        Some(TypeV::Bool)
    } else if name == "sort"@ || name == "reverse"@ || name == "map"@ || name == "grep"@ || name == "split"@ {
        Some(TypeV::Unknown)
    } else {
        None
    }
}

pub fn builtin_return(name: &str) -> (r: Option<Type>)
    ensures
        match r {
            Some(t) => spec_builtin_return(name@) == Some(t@),
            None => spec_builtin_return(name@) is None,
        },
{
    if is(name, "length") || is(name, "index") || is(name, "rindex") || is(name, "ord") || is(name, "int")
        || is(name, "time") || is(name, "fileno") || is(name, "system") {
        Some(Type::Int)
    } else if is(name, "abs") || is(name, "sqrt") || is(name, "atan2") || is(name, "sin") || is(name, "cos")
        || is(name, "exp") || is(name, "log") || is(name, "rand") {
        Some(Type::Num)
    } else if is(name, "lc") || is(name, "uc") || is(name, "lcfirst") || is(name, "ucfirst") || is(name, "chr")
        || is(name, "sprintf") || is(name, "join") || is(name, "substr") || is(name, "quotemeta") || is(name, "ref") {
        Some(Type::Str)
    } else if is(name, "defined") || is(name, "exists") || is(name, "wantarray") || is(name, "eof") {
        Some(Type::Bool)
    } else if is(name, "sort") || is(name, "reverse") || is(name, "map") || is(name, "grep") || is(name, "split") {
        Some(Type::Unknown)
    } else {
        None
    }
}

// ===== Binding parameters =====

/// The sigil a variable's name starts with, for the three a lexical has.
pub open spec fn sigil_of_char(c: char) -> Option<Sigil> {
    if c == '$' {
        Some(Sigil::Scalar)
    } else if c == '@' {
        Some(Sigil::Array)
    } else if c == '%' {
        Some(Sigil::Hash)
    } else {
        None
    }
}

/// Whether binding `display` binds the variable `sigil` `name`.
pub open spec fn binds(display: Seq<char>, sigil: Sigil, name: Seq<char>) -> bool {
    display.len() > 0 && sigil_of_char(display[0]) == Some(sigil) && display.drop_first() == name
}

/// What a variable holds after `bindings` are bound into `env` in order; a
/// name with no sigil binds nothing.
pub open spec fn bound_lookup(
    env: Seq<(Sigil, Seq<char>, TypeV)>,
    bindings: Seq<(Seq<char>, TypeV)>,
    sigil: Sigil,
    name: Seq<char>,
) -> Option<TypeV>
    decreases bindings.len(),
{
    if bindings.len() == 0 {
        env_lookup(env, sigil, name)
    } else if binds(bindings.last().0, sigil, name) {
        Some(bindings.last().1)
    } else {
        bound_lookup(env, bindings.drop_last(), sigil, name)
    }
}

/// Bind one variable, written with its sigil, to a type.
pub fn bind(env: &mut Env, display: &str, ty: Type)
    ensures
        forall|s: Sigil, n: Seq<char>|
            #[trigger] env_lookup(final(env)@, s, n) == bound_lookup(old(env)@, seq![(display@, ty@)], s, n),
{
    let ghost t = ty@;
    let chars = chars_of(display);
    if chars.len() == 0 {
        proof {
            assert forall|s: Sigil, n: Seq<char>|
                #[trigger] env_lookup(env@, s, n) == bound_lookup(env@, seq![(display@, t)], s, n) by {
                reveal_with_fuel(bound_lookup, 2);
                assert(seq![(display@, t)].drop_last() =~= Seq::<(Seq<char>, TypeV)>::empty());
            }
        }
        return;
    }
    let sigil = if chars[0] == '$' {
        Sigil::Scalar
    } else if chars[0] == '@' {
        Sigil::Array
    } else if chars[0] == '%' {
        Sigil::Hash
    } else {
        proof {
            assert forall|s: Sigil, n: Seq<char>|
                #[trigger] env_lookup(env@, s, n) == bound_lookup(env@, seq![(display@, t)], s, n) by {
                reveal_with_fuel(bound_lookup, 2);
                assert(seq![(display@, t)].drop_last() =~= Seq::<(Seq<char>, TypeV)>::empty());
            }
        }
        return;
    };
    let rest = string_of(&chars, 1, chars.len());
    proof {
        assert(rest@ =~= display@.drop_first());
    }
    let ghost before = env@;
    env.set(sigil, rest.as_str(), ty);
    proof {
        assert forall|s: Sigil, n: Seq<char>|
            #[trigger] env_lookup(env@, s, n) == bound_lookup(before, seq![(display@, t)], s, n) by {
            reveal_with_fuel(bound_lookup, 2);
            assert(seq![(display@, t)].drop_last() =~= Seq::<(Seq<char>, TypeV)>::empty());
            assert(seq![(display@, t)].last() == (display@, t));
        }
    }
}

/// What a positional parameter holds on entry: the invocant its own class,
/// or a class name for `$class`; every other parameter what it was declared.
pub open spec fn positional_binding(params: Seq<Param>, invocant: bool, package: Seq<char>, i: int) -> (Seq<char>, TypeV) {
    (
        params[i].name@,
        if i == 0 && invocant {
            if params[i].name@ == "$class"@ {
                TypeV::ClassName(None)
            } else {
                TypeV::InstanceOf(package)
            }
        } else {
            params[i].ty@
        },
    )
}

/// The invocant `args` binds, as an instance of the package.
pub open spec fn named_head(invocant: Option<String>, package: Seq<char>) -> Seq<(Seq<char>, TypeV)> {
    match invocant {
        Some(name) => seq![(name@, TypeV::InstanceOf(package))],
        None => Seq::empty(),
    }
}

/// Every variable a parameter list binds on entry to the sub, in order.
pub open spec fn param_bindings(p: Params, package: Seq<char>) -> Seq<(Seq<char>, TypeV)> {
    match p {
        Params::Positional { params, invocant, .. } => Seq::new(
            params@.len(),
            |i: int| positional_binding(params@, invocant, package, i),
        ),
        Params::Named { params, invocant, .. } => named_head(invocant, package) + Seq::new(
            params@.len(),
            |i: int| (params@[i].name@, params@[i].ty@),
        ),
        Params::Unknown => Seq::empty(),
    }
}

proof fn lemma_bound_step(
    start: Seq<(Sigil, Seq<char>, TypeV)>,
    before: Seq<(Sigil, Seq<char>, TypeV)>,
    after: Seq<(Sigil, Seq<char>, TypeV)>,
    bs: Seq<(Seq<char>, TypeV)>,
    k: int,
)
    requires
        0 <= k < bs.len(),
        forall|s: Sigil, n: Seq<char>| #[trigger] env_lookup(before, s, n) == bound_lookup(start, bs.subrange(0, k), s, n),
        forall|s: Sigil, n: Seq<char>| #[trigger] env_lookup(after, s, n) == bound_lookup(before, seq![bs[k]], s, n),
    ensures
        forall|s: Sigil, n: Seq<char>| #[trigger] env_lookup(after, s, n) == bound_lookup(start, bs.subrange(0, k + 1), s, n),
{
    assert(bs.subrange(0, k + 1).drop_last() =~= bs.subrange(0, k));
    assert(seq![bs[k]].drop_last() =~= Seq::<(Seq<char>, TypeV)>::empty());
    assert forall|s: Sigil, n: Seq<char>| #[trigger] env_lookup(after, s, n) == bound_lookup(start, bs.subrange(0, k + 1), s, n) by {
        reveal_with_fuel(bound_lookup, 2);
        assert(env_lookup(before, s, n) == bound_lookup(start, bs.subrange(0, k), s, n));
        assert(env_lookup(after, s, n) == bound_lookup(before, seq![bs[k]], s, n));
    }
}

/// Bind a sub's parameters, in order, to what each holds on entry.
pub fn bind_params(env: &mut Env, params: &Params, package: &str)
    ensures
        forall|s: Sigil, n: Seq<char>|
            #[trigger] env_lookup(final(env)@, s, n) == bound_lookup(old(env)@, param_bindings(*params, package@), s, n),
{
    let ghost start = env@;
    let ghost bs = param_bindings(*params, package@);
    proof {
        assert(bs.subrange(0, 0) =~= Seq::<(Seq<char>, TypeV)>::empty());
    }
    match params {
        Params::Positional { params: list, invocant, .. } => {
            let mut i: usize = 0;
            while i < list.len()
                invariant
                    i <= list@.len(),
                    bs == Seq::new(list@.len(), |j: int| positional_binding(list@, *invocant, package@, j)),
                    forall|s: Sigil, n: Seq<char>|
                        #[trigger] env_lookup(env@, s, n) == bound_lookup(start, bs.subrange(0, i as int), s, n),
                decreases list@.len() - i,
            {
                let ty = if i == 0 && *invocant {
                    if crate::text::same_text(list[i].name.as_str(), "$class") {
                        Type::ClassName(None)
                    } else {
                        Type::InstanceOf(package.to_string())
                    }
                } else {
                    list[i].ty.duplicate()
                };
                let ghost before = env@;
                bind(env, list[i].name.as_str(), ty);
                proof {
                    assert(bs[i as int] == positional_binding(list@, *invocant, package@, i as int));
                    lemma_bound_step(start, before, env@, bs, i as int);
                }
                i += 1;
            }
            proof {
                assert(bs.subrange(0, list@.len() as int) =~= bs);
            }
        },
        Params::Named { params: list, invocant, .. } => {
            let ghost head = named_head(*invocant, package@);
            let ghost tail = Seq::new(list@.len(), |j: int| (list@[j].name@, list@[j].ty@));
            proof {
                assert(bs == head + tail);
            }
            let mut done: usize = 0;
            match invocant {
                Some(name) => {
                    let ghost before = env@;
                    bind(env, name.as_str(), Type::InstanceOf(package.to_string()));
                    proof {
                        assert(bs[0] == (name@, TypeV::InstanceOf(package@)));
                        lemma_bound_step(start, before, env@, bs, 0);
                    }
                    done = 1;
                },
                None => {},
            }
            let mut i: usize = 0;
            while i < list.len()
                invariant
                    i <= list@.len(),
                    done as int == head.len(),
                    head.len() <= 1,
                    bs == head + tail,
                    tail == Seq::new(list@.len(), |j: int| (list@[j].name@, list@[j].ty@)),
                    forall|s: Sigil, n: Seq<char>|
                        #[trigger] env_lookup(env@, s, n) == bound_lookup(start, bs.subrange(0, done + i), s, n),
                decreases list@.len() - i,
            {
                let ghost before = env@;
                bind(env, list[i].name.as_str(), list[i].ty.duplicate());
                proof {
                    assert(bs[done + i] == tail[i as int]);
                    lemma_bound_step(start, before, env@, bs, done + i);
                }
                i += 1;
            }
            proof {
                assert(bs.subrange(0, done + list@.len()) =~= bs);
            }
        },
        Params::Unknown => {},
    }
}

// ===== Statements =====

/// The node's only child node, or `None` when it has none or several.
pub open spec fn spec_sole_child(n: SyntaxNode) -> Option<SyntaxNode> {
    if child_nodes(n).len() == 1 {
        Some(child_nodes(n)[0])
    } else {
        None
    }
}

pub fn sole_child(node: &SyntaxNode) -> (r: Option<&SyntaxNode>)
    ensures
        match r {
            Some(c) => spec_sole_child(*node) == Some(*c),
            None => spec_sole_child(*node) is None,
        },
{
    let nodes = node.child_nodes();
    if nodes.len() == 1 {
        assert(deref_nodes(nodes@)[0] == *nodes@[0]);
        Some(nodes[0])
    } else {
        None
    }
}

/// The one expression a statement is, past the `LIST_EXPR` that wraps it.
pub open spec fn spec_sole_expression(statement: SyntaxNode) -> Option<SyntaxNode> {
    match spec_sole_child(statement) {
        Some(only) => if only.kind == NodeKind::ListExpr {
            spec_sole_child(only)
        } else {
            Some(only)
        },
        None => None,
    }
}

pub fn sole_expression(statement: &SyntaxNode) -> (r: Option<&SyntaxNode>)
    ensures
        match r {
            Some(c) => spec_sole_expression(*statement) == Some(*c),
            None => spec_sole_expression(*statement) is None,
        },
{
    match sole_child(statement) {
        Some(only) => if only.kind == NodeKind::ListExpr {
            sole_child(only)
        } else {
            Some(only)
        },
        None => None,
    }
}

/// The name a call is made by, for a call of a named sub.
pub open spec fn named_call(n: SyntaxNode) -> Option<Seq<char>> {
    if is_call_kind(n.kind) && n.kind != NodeKind::CodeCallExpr {
        name_child_text(n)
    } else {
        None
    }
}

fn call_name(node: &SyntaxNode) -> (r: Option<String>)
    ensures
        match r {
            Some(s) => named_call(*node) == Some(s@),
            None => named_call(*node) is None,
        },
{
    match Call::cast(node) {
        Some(call) => call.callee_name(),
        None => None,
    }
}

/// The scalar branch of `wantarray ? LIST : SCALAR`.
pub open spec fn spec_wantarray_branch(n: SyntaxNode) -> Option<SyntaxNode> {
    let cs = child_nodes(n);
    if n.kind == NodeKind::TernaryExpr && cs.len() > 0 && named_call(cs[0]) == Some("wantarray"@) && cs.len() > 2 {
        Some(cs[2])
    } else {
        None
    }
}

pub fn wantarray_branch(node: &SyntaxNode) -> (r: Option<&SyntaxNode>)
    ensures
        match r {
            Some(c) => spec_wantarray_branch(*node) == Some(*c),
            None => spec_wantarray_branch(*node) is None,
        },
{
    if node.kind != NodeKind::TernaryExpr {
        return None;
    }
    let nodes = node.child_nodes();
    if nodes.len() == 0 {
        return None;
    }
    assert(deref_nodes(nodes@)[0] == *nodes@[0]);
    let asked = call_name(nodes[0]);
    let is_wantarray = match asked {
        Some(name) => is(name.as_str(), "wantarray"),
        None => false,
    };
    if !is_wantarray || nodes.len() <= 2 {
        return None;
    }
    assert(deref_nodes(nodes@)[2] == *nodes@[2]);
    Some(nodes[2])
}

/// Whether a sub name hands control back rather than leaving a value.
pub open spec fn is_leaving_call(name: Seq<char>) -> bool {
    name == "return"@ || name == "die"@ || name == "croak"@ || name == "confess"@ || name == "throw"@ || name
        == "exit"@ || name == "goto"@
}

/// Whether a statement is a `return`, a `die` or one of its spellings, an
/// `exit`, a `goto`, or a `->throw`.
pub open spec fn spec_leaves_the_sub(statement: SyntaxNode) -> bool {
    match spec_sole_expression(statement) {
        Some(e) => if is_call_kind(e.kind) {
            match named_call(e) {
                Some(name) => is_leaving_call(name),
                None => false,
            }
        } else if e.kind == NodeKind::MethodCallExpr {
            match first_of_kind(child_nodes(e), NodeKind::SubName, 1) {
                Some(i) => joined(child_nodes(e)[i]) == "throw"@,
                None => false,
            }
        } else {
            false
        },
        None => false,
    }
}

pub fn leaves_the_sub(statement: &SyntaxNode) -> (r: bool)
    ensures
        r == spec_leaves_the_sub(*statement),
{
    let expression = match sole_expression(statement) {
        Some(e) => e,
        None => return false,
    };
    if Call::cast(expression).is_some() {
        return match call_name(expression) {
            Some(name) => {
                let n = name.as_str();
                is(n, "return") || is(n, "die") || is(n, "croak") || is(n, "confess") || is(n, "throw") || is(n, "exit")
                    || is(n, "goto")
            },
            None => false,
        };
    }
    match MethodCallExpr::cast(expression) {
        Some(call) => match call.method_name() {
            Some(name) => is(name.as_str(), "throw"),
            None => false,
        },
        None => false,
    }
}

// ===== Laws =====

/// Arithmetic gives back a whole number, a number, or nothing known.
pub proof fn law_arithmetic_is_a_number_or_unknown(left: Option<TypeV>, right: Option<TypeV>, operator: Arith)
    ensures
        spec_arithmetic(left, right, operator) is Int || spec_arithmetic(left, right, operator) is Num
            || spec_arithmetic(left, right, operator) is Unknown,
{
}

/// An operand nobody typed makes an arithmetic expression one nobody typed.
pub proof fn law_an_untyped_operand_makes_arithmetic_untyped(left: TypeV, right: TypeV, operator: Arith)
    requires
        left is Unknown || right is Unknown,
    ensures
        spec_arithmetic(Some(left), Some(right), operator) is Unknown,
{
}

/// One opaque branch makes the whole chain opaque, with or without `else`.
pub proof fn law_an_opaque_branch_makes_the_chain_opaque(tails: Seq<TailV>, i: int, has_else: bool)
    requires
        0 <= i < tails.len(),
        tails[i] is Opaque,
    ensures
        spec_join_tails(tails, has_else) is Opaque,
{
}

/// A chain of branches that all return or die leaves the sub too.
pub proof fn law_branches_that_all_leave_leave_the_chain(tails: Seq<TailV>)
    requires
        forall|i: int| 0 <= i < tails.len() ==> tails[i] is Left,
    ensures
        spec_join_tails(tails, true) is Left,
{
    lemma_no_members(tails);
    assert(!any_opaque(tails));
}

proof fn lemma_no_members(tails: Seq<TailV>)
    requires
        forall|i: int| 0 <= i < tails.len() ==> tails[i] is Left,
    ensures
        tail_members(tails).len() == 0,
    decreases tails.len(),
{
    if tails.len() > 0 {
        lemma_no_members(tails.drop_last());
        assert(tails.last() is Left);
    }
}

// ===== Subscript steps =====

/// Where the first slot named `key` at or after `i` stands.
pub open spec fn slot_index(slots: Seq<(Seq<char>, TypeV)>, key: Seq<char>, i: int) -> Option<int>
    decreases slots.len() - i,
{
    if i < 0 || i >= slots.len() {
        None
    } else if slots[i].0 == key {
        Some(i)
    } else {
        slot_index(slots, key, i + 1)
    }
}

pub open spec fn maybe_message(ty: TypeV) -> Seq<char> {
    "`"@ + spec_render(ty) + "` may be undefined here, and nothing has checked it"@
}

pub open spec fn unknown_key_message(key: Seq<char>, base: TypeV) -> Seq<char> {
    "`"@ + key + "` is not a key of `"@ + spec_render(base) + "`"@
}

/// The `maybe-deref` a step through `base` draws: a value that may be
/// undefined, dereferenced with nothing having checked it.
pub open spec fn maybe_report(base: TypeV, range: TextRange) -> Seq<DiagV> {
    if spec_is_maybe(base) && !(spec_without_undef(base) is Unknown) {
        seq![(Code::MaybeDeref, spec_default_severity(Code::MaybeDeref), None, range, maybe_message(base))]
    } else {
        Seq::empty()
    }
}

/// What one subscript step reaches from a value of `base`, and what it
/// reports on the way: `Unknown` from an `Unknown`; a `Dict`'s slot by name,
/// its slurpy part's element for any other key, and an `unknown-key` for a
/// key a closed `Dict` does not have; a hash or array element, which may be
/// missing; a tuple's member by position; what a dereference points at.
pub open spec fn spec_step(base: TypeV, step: StepV, range: TextRange) -> (TypeV, Seq<DiagV>) {
    if base is Unknown {
        (TypeV::Unknown, Seq::empty())
    } else {
        let w = maybe_report(base, range);
        let b = spec_without_undef(base);
        match step {
            StepV::Hash { key, .. } => match b {
                TypeV::Dict { slots, slurpy } => match key {
                    Some(k) => match slot_index(slots, k, 0) {
                        Some(i) => (spec_required(slots[i].1), w),
                        None => match slurpy {
                            Some(rest) => (spec_element_of(*rest), w),
                            None => (
                                TypeV::Unknown,
                                w.push(
                                    (
                                        Code::UnknownKey,
                                        spec_default_severity(Code::UnknownKey),
                                        None,
                                        range,
                                        unknown_key_message(k, b),
                                    ),
                                ),
                            ),
                        },
                    },
                    None => (TypeV::Unknown, w),
                },
                TypeV::HashRef(value) => (spec_maybe(*value), w),
                TypeV::MapOf(_, value) => (spec_maybe(*value), w),
                _ => (TypeV::Unknown, w),
            },
            StepV::Array { index, .. } => match b {
                TypeV::Tuple(members) => match index {
                    Some(i) => if 0 <= i < members.len() {
                        (members[i as int], w)
                    } else {
                        (TypeV::Unknown, w)
                    },
                    None => (TypeV::Unknown, w),
                },
                TypeV::ArrayRef(element) => (spec_maybe(*element), w),
                _ => (TypeV::Unknown, w),
            },
            StepV::Deref { sigil, .. } => (
                match b {
                    TypeV::ArrayRef(element) => if sigil == Sigil::Array {
                        *element
                    } else {
                        TypeV::Unknown
                    },
                    TypeV::HashRef(value) => if sigil == Sigil::Hash {
                        *value
                    } else {
                        TypeV::Unknown
                    },
                    TypeV::ScalarRef(inner) => if sigil == Sigil::Scalar {
                        *inner
                    } else {
                        TypeV::Unknown
                    },
                    _ => TypeV::Unknown,
                },
                w,
            ),
            StepV::Slice { .. } => (TypeV::Unknown, w),
        }
    }
}

fn warn_maybe(ty: &Type, range: TextRange, diagnostics: &mut Vec<Diagnostic>)
    ensures
        diagnostic_views(final(diagnostics)@) == diagnostic_views(old(diagnostics)@) + maybe_report(ty@, range),
{
    let ghost before = diagnostic_views(diagnostics@);
    if !ty.is_maybe() || ty.without_undef().is_unknown() {
        assert(diagnostic_views(diagnostics@) =~= before + maybe_report(ty@, range));
        return;
    }
    let mut message = String::new();
    append(&mut message, "`");
    let shown = ty.render();
    append(&mut message, shown.as_str());
    append(&mut message, "` may be undefined here, and nothing has checked it");
    assert(message@ =~= maybe_message(ty@));
    diagnostics.push(Diagnostic::new(Code::MaybeDeref, range, message));
    assert(diagnostic_views(diagnostics@) =~= before + maybe_report(ty@, range));
}

/// The type one subscript step reaches from `base`, with what it reports
/// pushed onto `diagnostics`.
#[verifier::loop_isolation(false)]
pub fn step_type(base: &Type, step: &Step, range: TextRange, diagnostics: &mut Vec<Diagnostic>) -> (r: Type)
    ensures
        r@ == spec_step(base@, step_view(*step), range).0,
        diagnostic_views(final(diagnostics)@) == diagnostic_views(old(diagnostics)@) + spec_step(
            base@,
            step_view(*step),
            range,
        ).1,
{
    let ghost before = diagnostic_views(diagnostics@);
    if base.is_unknown() {
        assert(diagnostic_views(diagnostics@) =~= before + Seq::<DiagV>::empty());
        return Type::Unknown;
    }
    warn_maybe(base, range, diagnostics);
    let ghost warned = diagnostic_views(diagnostics@);
    let b = base.without_undef();
    match step {
        Step::Hash { key, .. } => match &b {
            Type::Dict { slots, slurpy } => match key {
                Some(k) => {
                    proof {
                        lemma_slot_views(slots@);
                    }
                    let mut i: usize = 0;
                    while i < slots.len()
                        invariant
                            i <= slots@.len(),
                            slot_views(slots@).len() == slots@.len(),
                            forall|j: int| 0 <= j < slots@.len() ==> #[trigger] slot_views(slots@)[j] == (slots@[j].0@, slots@[j].1@),
                            slot_index(slot_views(slots@), k@, 0) == slot_index(slot_views(slots@), k@, i as int),
                        decreases slots@.len() - i,
                    {
                        assert(slot_views(slots@)[i as int] == (slots@[i as int].0@, slots@[i as int].1@));
                        if is(slots[i].0.as_str(), k.as_str()) {
                            return slots[i].1.required().duplicate();
                        }
                        i += 1;
                    }
                    match slurpy {
                        Some(rest) => element_of(rest),
                        None => {
                            let mut message = String::new();
                            append(&mut message, "`");
                            append(&mut message, k.as_str());
                            append(&mut message, "` is not a key of `");
                            let shown = b.render();
                            append(&mut message, shown.as_str());
                            append(&mut message, "`");
                            assert(message@ =~= unknown_key_message(k@, b@));
                            diagnostics.push(Diagnostic::new(Code::UnknownKey, range, message));
                            assert(diagnostic_views(diagnostics@) =~= warned.push(
                                (Code::UnknownKey, spec_default_severity(Code::UnknownKey), None, range, unknown_key_message(k@, b@)),
                            ));
                            Type::Unknown
                        },
                    }
                },
                None => Type::Unknown,
            },
            Type::HashRef(value) => Type::maybe(value.duplicate()),
            Type::MapOf(_, value) => Type::maybe(value.duplicate()),
            _ => Type::Unknown,
        },
        Step::Array { index, .. } => match &b {
            Type::Tuple(members) => match index {
                Some(i) => {
                    proof {
                        lemma_views(members@);
                    }
                    if 0 <= *i && (*i as u64) < (members.len() as u64) {
                        members[*i as usize].duplicate()
                    } else {
                        Type::Unknown
                    }
                },
                None => Type::Unknown,
            },
            Type::ArrayRef(element) => Type::maybe(element.duplicate()),
            _ => Type::Unknown,
        },
        Step::Deref { sigil, .. } => match &b {
            Type::ArrayRef(element) => if *sigil == Sigil::Array {
                element.duplicate()
            } else {
                Type::Unknown
            },
            Type::HashRef(value) => if *sigil == Sigil::Hash {
                value.duplicate()
            } else {
                Type::Unknown
            },
            Type::ScalarRef(inner) => if *sigil == Sigil::Scalar {
                inner.duplicate()
            } else {
                Type::Unknown
            },
            _ => Type::Unknown,
        },
        Step::Slice { .. } => Type::Unknown,
    }
}

// ===== Binary operators =====

/// What a binary expression gives back, by its operator as written and the
/// types of its two sides: arithmetic by [`spec_arithmetic`], `.` and `x`
/// a string, a comparison a `Bool`, `<=>` and `cmp` an `Int`; `//`, `||`
/// and `or` the left without its `undef` joined with the right, and `&&`
/// and `and` the right; anything else is not known.
pub open spec fn spec_binary(operator: Option<Seq<char>>, left: Option<TypeV>, right: Option<TypeV>) -> TypeV {
    match operator {
        Some(op) => if op == "+"@ || op == "-"@ || op == "*"@ {
            spec_arithmetic(left, right, Arith::Widening)
        } else if op == "%"@ {
            spec_arithmetic(left, right, Arith::Integer)
        } else if op == "/"@ || op == "**"@ {
            spec_arithmetic(left, right, Arith::Fractional)
        } else if op == "."@ || op == "x"@ {
            TypeV::Str
        } else if op == "=="@ || op == "!="@ || op == "<"@ || op == ">"@ || op == "<="@ || op == ">="@ || op == "eq"@
            || op == "ne"@ || op == "lt"@ || op == "gt"@ || op == "le"@ || op == "ge"@ || op == "isa"@ {
            TypeV::Bool
        } else if op == "<=>"@ || op == "cmp"@ {
            TypeV::Int
        } else if op == "//"@ || op == "||"@ || op == "or"@ {
            match (left, right) {
                (Some(l), Some(r)) => spec_union(seq![spec_without_undef(l), r]),
                _ => TypeV::Unknown,
            }
        } else if op == "&&"@ || op == "and"@ {
            match right {
                Some(r) => r,
                None => TypeV::Unknown,
            }
        } else {
            TypeV::Unknown
        },
        None => TypeV::Unknown,
    }
}

pub fn binary_type(operator: Option<&str>, left: Option<&Type>, right: Option<&Type>) -> (r: Type)
    ensures
        r@ == spec_binary(
            match operator {
                Some(op) => Some(op@),
                None => None,
            },
            option_view(left),
            option_view(right),
        ),
{
    let op = match operator {
        Some(op) => op,
        None => return Type::Unknown,
    };
    if is(op, "+") || is(op, "-") || is(op, "*") {
        arithmetic(left, right, Arith::Widening)
    } else if is(op, "%") {
        arithmetic(left, right, Arith::Integer)
    } else if is(op, "/") || is(op, "**") {
        arithmetic(left, right, Arith::Fractional)
    } else if is(op, ".") || is(op, "x") {
        Type::Str
    } else if is(op, "==") || is(op, "!=") || is(op, "<") || is(op, ">") || is(op, "<=") || is(op, ">=") || is(op, "eq")
        || is(op, "ne") || is(op, "lt") || is(op, "gt") || is(op, "le") || is(op, "ge") || is(op, "isa") {
        Type::Bool
    } else if is(op, "<=>") || is(op, "cmp") {
        Type::Int
    } else if is(op, "//") || is(op, "||") || is(op, "or") {
        match (left, right) {
            (Some(l), Some(r)) => {
                let mut both: Vec<Type> = Vec::new();
                both.push(l.without_undef());
                both.push(r.duplicate());
                proof {
                    lemma_views(both@);
                    assert(views(both@) =~= seq![both@[0]@, both@[1]@]);
                }
                Type::union(both)
            },
            _ => Type::Unknown,
        }
    } else if is(op, "&&") || is(op, "and") {
        match right {
            Some(r) => r.duplicate(),
            None => Type::Unknown,
        }
    } else {
        Type::Unknown
    }
}

// ===== Checks =====

/// Whether an expression is written down right there: a literal, a quoted
/// string, an anonymous array, hash or sub, an `undef`, a `qw`.
pub open spec fn spec_is_literal(k: NodeKind) -> bool {
    k == NodeKind::Literal || k == NodeKind::QExpr || k == NodeKind::QqExpr || k == NodeKind::AnonArray || k
        == NodeKind::AnonHash || k == NodeKind::AnonSubExpr || k == NodeKind::UndefExpr || k == NodeKind::QwExpr
}

pub fn is_literal(node: &SyntaxNode) -> (r: bool)
    ensures
        r == spec_is_literal(node.kind),
{
    match node.kind {
        NodeKind::Literal | NodeKind::QExpr | NodeKind::QqExpr | NodeKind::AnonArray | NodeKind::AnonHash
        | NodeKind::AnonSubExpr | NodeKind::UndefExpr | NodeKind::QwExpr => true,
        _ => false,
    }
}

/// A contradiction is an error where the value is written down, and a
/// warning where it was inferred.
pub open spec fn mismatch_severity(k: NodeKind) -> Severity {
    if spec_is_literal(k) {
        Severity::Error
    } else {
        Severity::Warning
    }
}

pub open spec fn mismatch_message(value: TypeV, what: Seq<char>, slot: TypeV) -> Seq<char> {
    "`"@ + spec_render(value) + "` passed to "@ + what + ", which is declared `"@ + spec_render(slot) + "`"@
}

/// What one value against one declared slot reports: nothing where either
/// side is unknown, the slot is `Any`, or the two could be the same value;
/// else a `type-mismatch` at the value.
pub open spec fn value_report(
    classes: Seq<(Seq<char>, Seq<Seq<char>>)>,
    value: TypeV,
    slot: TypeV,
    node: SyntaxNode,
    what: Seq<char>,
) -> Seq<DiagV> {
    let s = spec_required(slot);
    if value is Unknown || s is Unknown || s is Any || spec_compatible(classes, value, s) {
        Seq::empty()
    } else {
        seq![(Code::TypeMismatch, mismatch_severity(node.kind), None, node.range, mismatch_message(value, what, s))]
    }
}

/// One value against one declared slot.
pub fn check_value(
    value: &Type,
    slot: &Type,
    node: &SyntaxNode,
    what: &str,
    classes: &Hierarchy,
    diagnostics: &mut Vec<Diagnostic>,
)
    ensures
        diagnostic_views(final(diagnostics)@) == diagnostic_views(old(diagnostics)@) + value_report(
            classes@,
            value@,
            slot@,
            *node,
            what@,
        ),
{
    let ghost before = diagnostic_views(diagnostics@);
    let wanted = slot.required();
    if value.is_unknown() || wanted.is_unknown() || matches!(wanted, Type::Any) || compatible(value, wanted, classes) {
        assert(diagnostic_views(diagnostics@) =~= before + value_report(classes@, value@, slot@, *node, what@));
        return;
    }
    let severity = if is_literal(node) {
        Severity::Error
    } else {
        Severity::Warning
    };
    let mut message = String::new();
    append(&mut message, "`");
    let shown = value.render();
    append(&mut message, shown.as_str());
    append(&mut message, "` passed to ");
    append(&mut message, what);
    append(&mut message, ", which is declared `");
    let declared = wanted.render();
    append(&mut message, declared.as_str());
    append(&mut message, "`");
    assert(message@ =~= mismatch_message(value@, what@, wanted@));
    diagnostics.push(Diagnostic::new(Code::TypeMismatch, node.range, message).at(severity));
    assert(diagnostic_views(diagnostics@) =~= before + value_report(classes@, value@, slot@, *node, what@));
}

pub open spec fn return_message(value: TypeV, declared: TypeV) -> Seq<char> {
    "`"@ + spec_render(value) + "` returned from a sub declared `Returns: "@ + spec_render(declared) + "`"@
}

/// What a `return` reports against the sub's `Returns:`: a value from a sub
/// declared to return nothing; else, for a single value, one that the
/// declared scalar type rules out. Several values are a list, which the
/// scalar half does not speak to.
pub open spec fn return_report(
    classes: Seq<(Seq<char>, Seq<Seq<char>>)>,
    declared: TypeV,
    nothing: bool,
    nodes: Seq<SyntaxNode>,
    types: Seq<TypeV>,
) -> Seq<DiagV> {
    if nothing {
        if nodes.len() > 0 {
            seq![
                (
                    Code::ReturnMismatch,
                    spec_default_severity(Code::ReturnMismatch),
                    None,
                    nodes[0].range,
                    "this sub is declared `Returns: ()` and returns a value"@,
                ),
            ]
        } else {
            Seq::empty()
        }
    } else if declared is Unknown || declared is Any || nodes.len() != 1 || types.len() < 1 || types[0] is Unknown
        || spec_compatible(classes, types[0], declared) {
        Seq::empty()
    } else {
        seq![
            (
                Code::ReturnMismatch,
                mismatch_severity(nodes[0].kind),
                None,
                nodes[0].range,
                return_message(types[0], declared),
            ),
        ]
    }
}

/// A `return` against what the sub said it returns; `types` holds the type
/// of each returned value, in order.
pub fn check_return(
    said: &Returns,
    nodes: &Vec<&SyntaxNode>,
    types: &Vec<Type>,
    classes: &Hierarchy,
    diagnostics: &mut Vec<Diagnostic>,
)
    ensures
        diagnostic_views(final(diagnostics)@) == diagnostic_views(old(diagnostics)@) + return_report(
            classes@,
            said.scalar@,
            said.list@ is Nothing,
            deref_nodes(nodes@),
            views(types@),
        ),
{
    let ghost before = diagnostic_views(diagnostics@);
    proof {
        lemma_views(types@);
    }
    if matches!(said.list, ListShape::Nothing) {
        if nodes.len() > 0 {
            assert(deref_nodes(nodes@)[0] == *nodes@[0]);
            let mut message = String::new();
            append(&mut message, "this sub is declared `Returns: ()` and returns a value");
            diagnostics.push(Diagnostic::new(Code::ReturnMismatch, nodes[0].range, message));
        }
        assert(diagnostic_views(diagnostics@) =~= before + return_report(
            classes@,
            said.scalar@,
            true,
            deref_nodes(nodes@),
            views(types@),
        ));
        return;
    }
    let declared = &said.scalar;
    if declared.is_unknown() || matches!(declared, Type::Any) || nodes.len() != 1 || types.len() < 1 {
        assert(diagnostic_views(diagnostics@) =~= before + return_report(
            classes@,
            said.scalar@,
            false,
            deref_nodes(nodes@),
            views(types@),
        ));
        return;
    }
    assert(deref_nodes(nodes@)[0] == *nodes@[0]);
    let value = &types[0];
    if value.is_unknown() || compatible(value, declared, classes) {
        assert(diagnostic_views(diagnostics@) =~= before + return_report(
            classes@,
            said.scalar@,
            false,
            deref_nodes(nodes@),
            views(types@),
        ));
        return;
    }
    let severity = if is_literal(nodes[0]) {
        Severity::Error
    } else {
        Severity::Warning
    };
    let mut message = String::new();
    append(&mut message, "`");
    let shown = value.render();
    append(&mut message, shown.as_str());
    append(&mut message, "` returned from a sub declared `Returns: ");
    let written = declared.render();
    append(&mut message, written.as_str());
    append(&mut message, "`");
    assert(message@ =~= return_message(value@, declared@));
    diagnostics.push(Diagnostic::new(Code::ReturnMismatch, nodes[0].range, message).at(severity));
    assert(diagnostic_views(diagnostics@) =~= before + return_report(
        classes@,
        said.scalar@,
        false,
        deref_nodes(nodes@),
        views(types@),
    ));
}

/// `` `a`, `b` ``: each name in backquotes, joined by a comma and a space.
pub open spec fn quoted_list(names: Seq<Seq<char>>) -> Seq<char>
    decreases names.len(),
{
    if names.len() == 0 {
        Seq::empty()
    } else if names.len() == 1 {
        "`"@ + names[0] + "`"@
    } else {
        quoted_list(names.drop_last()) + ", `"@ + names.last() + "`"@
    }
}

/// What a call that left out required names reports: one `missing-argument`
/// against the call, naming all of them, and nothing when none is missing.
pub open spec fn missing_report(names: Seq<Seq<char>>, range: TextRange, what: Seq<char>) -> Seq<DiagV> {
    if names.len() == 0 {
        Seq::empty()
    } else {
        seq![
            (
                Code::MissingArgument,
                spec_default_severity(Code::MissingArgument),
                None,
                range,
                what + " requires "@ + quoted_list(names) + ", not passed here"@,
            ),
        ]
    }
}

/// The names a call had to pass and did not, reported once against the call.
pub fn report_missing(missing: &Vec<String>, range: TextRange, what: &str, diagnostics: &mut Vec<Diagnostic>)
    ensures
        diagnostic_views(final(diagnostics)@) == diagnostic_views(old(diagnostics)@) + missing_report(
            crate::types::strings_view(missing@),
            range,
            what@,
        ),
{
    let ghost before = diagnostic_views(diagnostics@);
    let ghost names = crate::types::strings_view(missing@);
    if missing.len() == 0 {
        assert(diagnostic_views(diagnostics@) =~= before + missing_report(names, range, what@));
        return;
    }
    let mut list = String::new();
    let mut i: usize = 0;
    while i < missing.len()
        invariant
            i <= missing@.len(),
            names == crate::types::strings_view(missing@),
            list@ == quoted_list(names.subrange(0, i as int)),
        decreases missing@.len() - i,
    {
        proof {
            assert(names.subrange(0, i + 1).drop_last() =~= names.subrange(0, i as int));
            assert(names[i as int] == missing@[i as int]@);
        }
        if i == 0 {
            append(&mut list, "`");
        } else {
            append(&mut list, ", `");
        }
        append(&mut list, missing[i].as_str());
        append(&mut list, "`");
        proof {
            if i == 0 {
                assert(names.subrange(0, 0) =~= Seq::<Seq<char>>::empty());
            }
            assert(list@ =~= quoted_list(names.subrange(0, i + 1)));
        }
        i += 1;
    }
    proof {
        assert(names.subrange(0, missing@.len() as int) =~= names);
    }
    let mut message = String::new();
    append(&mut message, what);
    append(&mut message, " requires ");
    append(&mut message, list.as_str());
    append(&mut message, ", not passed here");
    assert(message@ =~= what@ + " requires "@ + quoted_list(names) + ", not passed here"@);
    diagnostics.push(Diagnostic::new(Code::MissingArgument, range, message));
    assert(diagnostic_views(diagnostics@) =~= before + missing_report(names, range, what@));
}

// ===== Arguments =====

/// The key of a pair, read as a name.
pub open spec fn key_of(a: ArgV) -> Option<Seq<char>> {
    match a {
        ArgV::Pair { key_text, .. } => key_text,
        ArgV::Positional(_) => None,
    }
}

/// The value of an argument.
pub open spec fn value_node(a: ArgV) -> SyntaxNode {
    match a {
        ArgV::Pair { value, .. } => value,
        ArgV::Positional(n) => n,
    }
}

/// Where an argument is: a pair from its key to its value.
pub open spec fn arg_range(a: ArgV) -> TextRange {
    match a {
        ArgV::Pair { key, value, .. } => key.range.cover_spec(value.range),
        ArgV::Positional(n) => n.range,
    }
}

/// The type the caller found for the `i`th argument; `Unknown` past the end.
pub open spec fn value_at(values: Seq<TypeV>, i: int) -> TypeV {
    if 0 <= i < values.len() {
        values[i]
    } else {
        TypeV::Unknown
    }
}

/// Where the first parameter written `name` at or after `i` stands.
pub open spec fn param_named(params: Seq<Param>, name: Seq<char>, i: int) -> Option<int>
    decreases params.len() - i,
{
    if i < 0 || i >= params.len() {
        None
    } else if params[i].name@ == name {
        Some(i)
    } else {
        param_named(params, name, i + 1)
    }
}

/// Whether a parameter may be left out, however the declaration said so.
pub open spec fn param_optional(p: Param) -> bool {
    p.optional || p.ty@ is Optional
}

/// Smart::Args lets an optional parameter be passed `undef`.
pub open spec fn passes_undef(undef_ok: bool, p: Param, value: TypeV) -> bool {
    undef_ok && param_optional(p) && value == TypeV::Undef
}

pub open spec fn named_what(key: Seq<char>, callee: Seq<char>) -> Seq<char> {
    "`"@ + key + "` of `"@ + callee + "`"@
}

pub open spec fn no_such_argument(callee: Seq<char>, key: Seq<char>) -> Seq<char> {
    "`"@ + callee + "` takes no argument named `"@ + key + "`"@
}

/// What one keyed pair reports against a named parameter list.
pub open spec fn pair_report(
    classes: Seq<(Seq<char>, Seq<Seq<char>>)>,
    params: Seq<Param>,
    undef_ok: bool,
    a: ArgV,
    key: Seq<char>,
    value: TypeV,
    callee: Seq<char>,
) -> Seq<DiagV> {
    match param_named(params, "$"@ + key, 0) {
        Some(j) => if passes_undef(undef_ok, params[j], value) {
            Seq::empty()
        } else {
            value_report(classes, value, params[j].ty@, value_node(a), named_what(key, callee))
        },
        None => seq![
            (
                Code::UnknownKey,
                spec_default_severity(Code::UnknownKey),
                None,
                arg_range(a),
                no_such_argument(callee, key),
            ),
        ],
    }
}

/// What the first `n` pairs report, all of them keyed.
pub open spec fn pairs_report(
    classes: Seq<(Seq<char>, Seq<Seq<char>>)>,
    params: Seq<Param>,
    undef_ok: bool,
    args: Seq<ArgV>,
    values: Seq<TypeV>,
    callee: Seq<char>,
    n: int,
) -> Seq<DiagV>
    decreases n,
{
    if n <= 0 || n > args.len() {
        Seq::empty()
    } else {
        pairs_report(classes, params, undef_ok, args, values, callee, n - 1) + match key_of(args[n - 1]) {
            Some(key) => pair_report(classes, params, undef_ok, args[n - 1], key, value_at(values, n - 1), callee),
            None => Seq::empty(),
        }
    }
}

/// Where the first argument that is not a keyed pair stands.
pub open spec fn first_unkeyed(args: Seq<ArgV>, i: int) -> Option<int>
    decreases args.len() - i,
{
    if i < 0 || i >= args.len() {
        None
    } else if key_of(args[i]) is None {
        Some(i)
    } else {
        first_unkeyed(args, i + 1)
    }
}

/// The keys of the first `n` arguments.
pub open spec fn keys_given(args: Seq<ArgV>, n: int) -> Seq<Seq<char>>
    decreases n,
{
    if n <= 0 || n > args.len() {
        Seq::empty()
    } else {
        match key_of(args[n - 1]) {
            Some(k) => keys_given(args, n - 1).push(k),
            None => keys_given(args, n - 1),
        }
    }
}

/// The names, without their sigil, of the first `n` required parameters
/// that none of `given` passes.
pub open spec fn missing_names(params: Seq<Param>, given: Seq<Seq<char>>, n: int) -> Seq<Seq<char>>
    decreases n,
{
    if n <= 0 || n > params.len() {
        Seq::empty()
    } else if !param_optional(params[n - 1]) && !given.contains(without_dollars(params[n - 1].name@)) {
        missing_names(params, given, n - 1).push(without_dollars(params[n - 1].name@))
    } else {
        missing_names(params, given, n - 1)
    }
}

/// What a call's `key => value` pairs report against a named parameter
/// list: each pair against the parameter it names, or an `unknown-key` for
/// one the list does not have; then one `missing-argument` for the required
/// names none of them passed. An argument that is not a keyed pair makes
/// the list one that cannot be counted, and nothing past it is said.
pub open spec fn named_report(
    classes: Seq<(Seq<char>, Seq<Seq<char>>)>,
    params: Seq<Param>,
    undef_ok: bool,
    args: Seq<ArgV>,
    values: Seq<TypeV>,
    callee: Seq<char>,
    range: TextRange,
) -> Seq<DiagV> {
    match first_unkeyed(args, 0) {
        Some(k) => pairs_report(classes, params, undef_ok, args, values, callee, k),
        None => pairs_report(classes, params, undef_ok, args, values, callee, args.len() as int) + missing_report(
            missing_names(params, keys_given(args, args.len() as int), params.len() as int),
            range,
            "`"@ + callee + "`"@,
        ),
    }
}

fn find_param(params: &Vec<Param>, name: &str) -> (r: Option<usize>)
    ensures
        match r {
            Some(j) => j < params@.len() && param_named(params@, name@, 0) == Some(j as int),
            None => param_named(params@, name@, 0) is None,
        },
{
    let mut i: usize = 0;
    while i < params.len()
        invariant
            i <= params@.len(),
            param_named(params@, name@, 0) == param_named(params@, name@, i as int),
        decreases params@.len() - i,
    {
        if is(params[i].name.as_str(), name) {
            return Some(i);
        }
        i += 1;
    }
    None
}

fn holds_string(names: &Vec<String>, name: &str) -> (r: bool)
    ensures
        r == crate::types::strings_view(names@).contains(name@),
{
    let ghost all = crate::types::strings_view(names@);
    let mut i: usize = 0;
    while i < names.len()
        invariant
            i <= names@.len(),
            all == crate::types::strings_view(names@),
            forall|j: int| 0 <= j < i ==> all[j] != name@,
        decreases names@.len() - i,
    {
        assert(all[i as int] == names@[i as int]@);
        if is(names[i].as_str(), name) {
            assert(all.contains(name@));
            return true;
        }
        i += 1;
    }
    false
}

/// A call's `key => value` pairs against a named parameter list; `values`
/// holds the type the caller found for each pair, in order.
#[verifier::loop_isolation(false)]
pub fn check_named_arguments(
    params: &Vec<Param>,
    undef_ok: bool,
    pairs: &Vec<Arg>,
    values: &Vec<Type>,
    callee: &str,
    range: TextRange,
    classes: &Hierarchy,
    diagnostics: &mut Vec<Diagnostic>,
)
    ensures
        diagnostic_views(final(diagnostics)@) == diagnostic_views(old(diagnostics)@) + named_report(
            classes@,
            params@,
            undef_ok,
            arg_views(pairs@),
            views(values@),
            callee@,
            range,
        ),
{
    let ghost before = diagnostic_views(diagnostics@);
    let ghost args = arg_views(pairs@);
    let ghost vs = views(values@);
    proof {
        lemma_views(values@);
    }
    let mut given: Vec<String> = Vec::new();
    let mut i: usize = 0;
    while i < pairs.len()
        invariant
            i <= pairs@.len(),
            args == arg_views(pairs@),
            vs == views(values@),
            vs.len() == values@.len(),
            forall|j: int| 0 <= j < values@.len() ==> #[trigger] vs[j] == values@[j]@,
            first_unkeyed(args, 0) == first_unkeyed(args, i as int),
            crate::types::strings_view(given@) == keys_given(args, i as int),
            diagnostic_views(diagnostics@) == before + pairs_report(classes@, params@, undef_ok, args, vs, callee@, i as int),
        decreases pairs@.len() - i,
    {
        assert(args[i as int] == arg_view(pairs@[i as int]));
        let key = match pairs[i].key() {
            Some(k) => k,
            None => {
                return;
            },
        };
        let ghost at = diagnostic_views(diagnostics@);
        let mut wanted = String::new();
        append(&mut wanted, "$");
        append(&mut wanted, key);
        let value = if i < values.len() {
            values[i].duplicate()
        } else {
            Type::Unknown
        };
        assert(value@ == value_at(vs, i as int));
        match find_param(params, wanted.as_str()) {
            Some(j) => {
                let optional = params[j].optional || params[j].ty.is_optional();
                let skip = undef_ok && optional && matches!(value, Type::Undef);
                if !skip {
                    let mut what = String::new();
                    append(&mut what, "`");
                    append(&mut what, key);
                    append(&mut what, "` of `");
                    append(&mut what, callee);
                    append(&mut what, "`");
                    assert(what@ =~= named_what(key@, callee@));
                    check_value(&value, &params[j].ty, pairs[i].node(), what.as_str(), classes, diagnostics);
                } else {
                    assert(diagnostic_views(diagnostics@) =~= at + Seq::<DiagV>::empty());
                }
            },
            None => {
                let mut message = String::new();
                append(&mut message, "`");
                append(&mut message, callee);
                append(&mut message, "` takes no argument named `");
                append(&mut message, key);
                append(&mut message, "`");
                assert(message@ =~= no_such_argument(callee@, key@));
                diagnostics.push(Diagnostic::new(Code::UnknownKey, pairs[i].range(), message));
            },
        }
        proof {
            assert(diagnostic_views(diagnostics@) =~= at + pair_report(
                classes@,
                params@,
                undef_ok,
                args[i as int],
                key@,
                value@,
                callee@,
            ));
            assert(diagnostic_views(diagnostics@) =~= before + pairs_report(
                classes@,
                params@,
                undef_ok,
                args,
                vs,
                callee@,
                i + 1,
            ));
        }
        given.push(key.to_string());
        proof {
            assert(crate::types::strings_view(given@) =~= keys_given(args, i + 1));
        }
        i += 1;
    }
    assert(first_unkeyed(args, 0) is None);
    let ghost reported = diagnostic_views(diagnostics@);
    let mut missing: Vec<String> = Vec::new();
    let mut m: usize = 0;
    while m < params.len()
        invariant
            m <= params@.len(),
            crate::types::strings_view(given@) == keys_given(args, args.len() as int),
            crate::types::strings_view(missing@) == missing_names(params@, keys_given(args, args.len() as int), m as int),
            diagnostic_views(diagnostics@) == reported,
        decreases params@.len() - m,
    {
        let optional = params[m].optional || params[m].ty.is_optional();
        let name = strip_dollars(params[m].name.as_str());
        if !optional && !holds_string(&given, name.as_str()) {
            missing.push(name);
        }
        proof {
            assert(crate::types::strings_view(missing@) =~= missing_names(
                params@,
                keys_given(args, args.len() as int),
                m + 1,
            ));
        }
        m += 1;
    }
    let mut what = String::new();
    append(&mut what, "`");
    append(&mut what, callee);
    append(&mut what, "`");
    report_missing(&missing, range, what.as_str(), diagnostics);
    assert(what@ =~= "`"@ + callee@ + "`"@);
}

/// The parameters a positional call's arguments fill: all of them, past the
/// invocant of a method.
pub open spec fn declared_params(params: Seq<Param>, invocant: bool) -> Seq<Param> {
    if invocant && params.len() > 0 {
        params.drop_first()
    } else {
        params
    }
}

pub open spec fn positional_what(name: Seq<char>, callee: Seq<char>) -> Seq<char> {
    "`"@ + name + "` of `"@ + callee + "`"@
}

/// What the first `n` positional arguments report, each against the
/// parameter in its place.
pub open spec fn positional_report(
    classes: Seq<(Seq<char>, Seq<Seq<char>>)>,
    declared: Seq<Param>,
    undef_ok: bool,
    nodes: Seq<SyntaxNode>,
    values: Seq<TypeV>,
    callee: Seq<char>,
    n: int,
) -> Seq<DiagV>
    decreases n,
{
    if n <= 0 || n > nodes.len() || n > declared.len() {
        Seq::empty()
    } else {
        positional_report(classes, declared, undef_ok, nodes, values, callee, n - 1) + if passes_undef(
            undef_ok,
            declared[n - 1],
            value_at(values, n - 1),
        ) {
            Seq::empty()
        } else {
            value_report(
                classes,
                value_at(values, n - 1),
                declared[n - 1].ty@,
                nodes[n - 1],
                positional_what(declared[n - 1].name@, callee),
            )
        }
    }
}

pub open spec fn min_len(a: nat, b: nat) -> int {
    if a <= b {
        a as int
    } else {
        b as int
    }
}

/// A call's arguments, in order, against a positional parameter list;
/// `values` holds the type the caller found for each argument.
#[verifier::loop_isolation(false)]
pub fn check_positional_arguments(
    params: &Vec<Param>,
    invocant: bool,
    undef_ok: bool,
    nodes: &Vec<&SyntaxNode>,
    values: &Vec<Type>,
    callee: &str,
    classes: &Hierarchy,
    diagnostics: &mut Vec<Diagnostic>,
)
    ensures
        diagnostic_views(final(diagnostics)@) == diagnostic_views(old(diagnostics)@) + positional_report(
            classes@,
            declared_params(params@, invocant),
            undef_ok,
            deref_nodes(nodes@),
            views(values@),
            callee@,
            min_len(nodes@.len(), declared_params(params@, invocant).len()),
        ),
{
    let ghost before = diagnostic_views(diagnostics@);
    let ghost declared = declared_params(params@, invocant);
    let ghost ns = deref_nodes(nodes@);
    let ghost vs = views(values@);
    proof {
        lemma_views(values@);
    }
    let skip: usize = if invocant && params.len() > 0 {
        1
    } else {
        0
    };
    assert(declared.len() == params@.len() - skip);
    assert(forall|k: int| 0 <= k < declared.len() ==> declared[k] == params@[k + skip]);
    let mut k: usize = 0;
    while k < nodes.len() && k + skip < params.len()
        invariant
            k <= nodes@.len(),
            k + skip <= params@.len(),
            ns == deref_nodes(nodes@),
            vs == views(values@),
            vs.len() == values@.len(),
            forall|j: int| 0 <= j < values@.len() ==> #[trigger] vs[j] == values@[j]@,
            diagnostic_views(diagnostics@) == before + positional_report(classes@, declared, undef_ok, ns, vs, callee@, k as int),
        decreases nodes@.len() - k,
    {
        let param = &params[k + skip];
        assert(*param == declared[k as int]);
        assert(ns[k as int] == *nodes@[k as int]);
        let value = if k < values.len() {
            values[k].duplicate()
        } else {
            Type::Unknown
        };
        assert(value@ == value_at(vs, k as int));
        let ghost at = diagnostic_views(diagnostics@);
        let optional = param.optional || param.ty.is_optional();
        if !(undef_ok && optional && matches!(value, Type::Undef)) {
            let mut what = String::new();
            append(&mut what, "`");
            append(&mut what, param.name.as_str());
            append(&mut what, "` of `");
            append(&mut what, callee);
            append(&mut what, "`");
            assert(what@ =~= positional_what(param.name@, callee@));
            check_value(&value, &param.ty, nodes[k], what.as_str(), classes, diagnostics);
        }
        proof {
            assert(diagnostic_views(diagnostics@) =~= before + positional_report(
                classes@,
                declared,
                undef_ok,
                ns,
                vs,
                callee@,
                k + 1,
            ));
        }
        k += 1;
    }
}

/// What a call's arguments report against the parameter list of the sub it
/// calls: pairs against a named list, arguments in order against a
/// positional one, nothing against one nothing is known of. `args` may be
/// passed `undef` for an optional parameter.
pub open spec fn arguments_report(
    classes: Seq<(Seq<char>, Seq<Seq<char>>)>,
    params: Params,
    args: Seq<ArgV>,
    pair_values: Seq<TypeV>,
    nodes: Seq<SyntaxNode>,
    values: Seq<TypeV>,
    callee: Seq<char>,
    range: TextRange,
) -> Seq<DiagV> {
    match params {
        Params::Named { params: list, source, .. } => named_report(
            classes,
            list@,
            source == ParamSource::Args,
            args,
            pair_values,
            callee,
            range,
        ),
        Params::Positional { params: list, invocant, source, .. } => positional_report(
            classes,
            declared_params(list@, invocant),
            source == ParamSource::Args,
            nodes,
            values,
            callee,
            min_len(nodes.len(), declared_params(list@, invocant).len()),
        ),
        Params::Unknown => Seq::empty(),
    }
}

/// A call's arguments against the callee's declared parameter types:
/// `pairs` and `pair_values` read as `key => value`, `nodes` and `values`
/// read in order.
pub fn check_arguments(
    params: &Params,
    pairs: &Vec<Arg>,
    pair_values: &Vec<Type>,
    nodes: &Vec<&SyntaxNode>,
    values: &Vec<Type>,
    callee: &str,
    range: TextRange,
    classes: &Hierarchy,
    diagnostics: &mut Vec<Diagnostic>,
)
    ensures
        diagnostic_views(final(diagnostics)@) == diagnostic_views(old(diagnostics)@) + arguments_report(
            classes@,
            *params,
            arg_views(pairs@),
            views(pair_values@),
            deref_nodes(nodes@),
            views(values@),
            callee@,
            range,
        ),
{
    match params {
        Params::Named { params: list, source, .. } => {
            let undef_ok = matches!(source, ParamSource::Args);
            check_named_arguments(list, undef_ok, pairs, pair_values, callee, range, classes, diagnostics);
        },
        Params::Positional { params: list, invocant, source, .. } => {
            let undef_ok = matches!(source, ParamSource::Args);
            check_positional_arguments(list, *invocant, undef_ok, nodes, values, callee, classes, diagnostics);
        },
        Params::Unknown => {
            assert(diagnostic_views(diagnostics@) =~= diagnostic_views(old(diagnostics)@) + Seq::<DiagV>::empty());
        },
    }
}

// ===== Constructors =====

/// Where the first character at or after `i` that is not a `+` stands.
pub open spec fn past_pluses(s: Seq<char>, i: int) -> int
    decreases s.len() - i,
{
    if i < 0 || i >= s.len() || s[i] != '+' {
        i
    } else {
        past_pluses(s, i + 1)
    }
}

proof fn lemma_past_pluses(s: Seq<char>, i: int)
    requires
        0 <= i <= s.len(),
    ensures
        i <= past_pluses(s, i) <= s.len(),
    decreases s.len() - i,
{
    if i < s.len() && s[i] == '+' {
        lemma_past_pluses(s, i + 1);
    }
}

/// An attribute's name without the `+` that restates an inherited one.
pub open spec fn bare_name(s: Seq<char>) -> Seq<char> {
    s.subrange(past_pluses(s, 0), s.len() as int)
}

fn strip_pluses(name: &str) -> (r: String)
    ensures
        r@ == bare_name(name@),
{
    let chars = chars_of(name);
    let n = chars.len();
    let mut a: usize = 0;
    proof {
        lemma_past_pluses(chars@, 0);
    }
    while a < n && chars[a] == '+'
        invariant
            a <= n,
            n == chars@.len(),
            past_pluses(chars@, 0) == past_pluses(chars@, a as int),
        decreases n - a,
    {
        a += 1;
    }
    string_of(&chars, a, n)
}

/// Whether one of the package's facts says so.
pub open spec fn any_buildargs(fs: Seq<PackageFacts>) -> bool {
    exists|i: int| 0 <= i < fs.len() && fs[i].buildargs
}

pub open spec fn any_open_constructor(fs: Seq<PackageFacts>) -> bool {
    exists|i: int| 0 <= i < fs.len() && fs[i].open_constructor
}

/// Where the first attribute named `key` at or after `i` stands.
pub open spec fn attribute_named(attrs: Seq<AttributeDecl>, key: Seq<char>, i: int) -> Option<int>
    decreases attrs.len() - i,
{
    if i < 0 || i >= attrs.len() {
        None
    } else if attrs[i].name@ == key {
        Some(i)
    } else {
        attribute_named(attrs, key, i + 1)
    }
}

pub open spec fn no_attribute(class: Seq<char>, key: Seq<char>) -> Seq<char> {
    "`"@ + class + "` declares no attribute `"@ + key + "`"@
}

/// What one `key => value` pair of a constructor call reports: its value
/// against the attribute it names, or an `unknown-key` for a name the class
/// does not declare, a warning only where the constructor is open.
pub open spec fn constructor_pair_report(
    classes: Seq<(Seq<char>, Seq<Seq<char>>)>,
    class: Seq<char>,
    open: bool,
    attrs: Seq<AttributeDecl>,
    a: ArgV,
    key: Seq<char>,
    value: TypeV,
) -> Seq<DiagV> {
    match attribute_named(attrs, key, 0) {
        Some(j) => value_report(classes, value, attrs[j].ty@, value_node(a), "`"@ + key + "`"@),
        None => seq![
            (
                Code::UnknownKey,
                if open {
                    Severity::Warning
                } else {
                    spec_default_severity(Code::UnknownKey)
                },
                None,
                arg_range(a),
                no_attribute(class, key),
            ),
        ],
    }
}

pub open spec fn constructor_pairs_report(
    classes: Seq<(Seq<char>, Seq<Seq<char>>)>,
    class: Seq<char>,
    open: bool,
    attrs: Seq<AttributeDecl>,
    args: Seq<ArgV>,
    values: Seq<TypeV>,
    n: int,
) -> Seq<DiagV>
    decreases n,
{
    if n <= 0 || n > args.len() {
        Seq::empty()
    } else {
        constructor_pairs_report(classes, class, open, attrs, args, values, n - 1) + match key_of(args[n - 1]) {
            Some(key) => constructor_pair_report(classes, class, open, attrs, args[n - 1], key, value_at(values, n - 1)),
            None => Seq::empty(),
        }
    }
}

/// Whether some declaration of the name, among the first `n`, fills it:
/// a default, or no `required`.
pub open spec fn filled_in(attrs: Seq<AttributeDecl>, name: Seq<char>, n: int) -> bool
    decreases n,
{
    if n <= 0 || n > attrs.len() {
        false
    } else {
        filled_in(attrs, name, n - 1) || (bare_name(attrs[n - 1].name@) == name && (attrs[n - 1].defaulted
            || !attrs[n - 1].required))
    }
}

/// The required names, among the first `n` attributes, that `given` does
/// not pass; each once, in the order first met. A name is required only
/// when no declaration of it fills it.
pub open spec fn constructor_missing(attrs: Seq<AttributeDecl>, given: Seq<Seq<char>>, n: int) -> Seq<Seq<char>>
    decreases n,
{
    if n <= 0 || n > attrs.len() {
        Seq::empty()
    } else {
        let prev = constructor_missing(attrs, given, n - 1);
        let name = bare_name(attrs[n - 1].name@);
        if given.contains(name) || prev.contains(name) || filled_in(attrs, name, attrs.len() as int) {
            prev
        } else {
            prev.push(name)
        }
    }
}

/// What a `Class->new(key => value, ...)` reports against the attributes
/// the class has: nothing where `BUILDARGS` rewrites the arguments, an
/// ancestor is unknown, or no attribute is known; else each pair, and then,
/// unless the constructor is open, one `missing-argument` for the required
/// attributes no pair passed. An argument that is not a keyed pair stops
/// the reading there.
pub open spec fn constructor_report(
    classes: Seq<(Seq<char>, Seq<Seq<char>>)>,
    class: Seq<char>,
    buildargs: bool,
    unknown_ancestor: bool,
    open: bool,
    attrs: Seq<AttributeDecl>,
    args: Seq<ArgV>,
    values: Seq<TypeV>,
    range: TextRange,
) -> Seq<DiagV> {
    if buildargs || unknown_ancestor || attrs.len() == 0 {
        Seq::empty()
    } else {
        match first_unkeyed(args, 0) {
            Some(k) => constructor_pairs_report(classes, class, open, attrs, args, values, k),
            None => constructor_pairs_report(classes, class, open, attrs, args, values, args.len() as int) + if open {
                Seq::empty()
            } else {
                missing_report(
                    constructor_missing(attrs, keys_given(args, args.len() as int), attrs.len() as int),
                    range,
                    "`"@ + class + "`"@,
                )
            },
        }
    }
}

fn is_filled(attrs: &Vec<&AttributeDecl>, name: &str) -> (r: bool)
    ensures
        r == filled_in(deref_attributes(attrs@), name@, attrs@.len() as int),
{
    let ghost all = deref_attributes(attrs@);
    let mut found = false;
    let mut i: usize = 0;
    while i < attrs.len()
        invariant
            i <= attrs@.len(),
            all == deref_attributes(attrs@),
            all.len() == attrs@.len(),
            found == filled_in(all, name@, i as int),
        decreases attrs@.len() - i,
    {
        assert(all[i as int] == *attrs@[i as int]);
        let bare = strip_pluses(attrs[i].name.as_str());
        let here = is(bare.as_str(), name) && (attrs[i].defaulted || !attrs[i].required);
        found = found || here;
        i += 1;
    }
    found
}

/// A constructor call's pairs against the attributes of the class it
/// makes, with `buildargs`, `unknown_ancestor` and `open` read off the
/// class; `values` holds the type the caller found for each pair.
#[verifier::loop_isolation(false)]
pub fn check_constructor_pairs(
    class: &str,
    buildargs: bool,
    unknown_ancestor: bool,
    open: bool,
    attrs: &Vec<&AttributeDecl>,
    pairs: &Vec<Arg>,
    values: &Vec<Type>,
    range: TextRange,
    classes: &Hierarchy,
    diagnostics: &mut Vec<Diagnostic>,
)
    ensures
        diagnostic_views(final(diagnostics)@) == diagnostic_views(old(diagnostics)@) + constructor_report(
            classes@,
            class@,
            buildargs,
            unknown_ancestor,
            open,
            deref_attributes(attrs@),
            arg_views(pairs@),
            views(values@),
            range,
        ),
{
    let ghost before = diagnostic_views(diagnostics@);
    let ghost all = deref_attributes(attrs@);
    let ghost args = arg_views(pairs@);
    let ghost vs = views(values@);
    proof {
        lemma_views(values@);
    }
    if buildargs || unknown_ancestor || attrs.len() == 0 {
        assert(diagnostic_views(diagnostics@) =~= before + Seq::<DiagV>::empty());
        return;
    }
    let mut given: Vec<String> = Vec::new();
    let mut i: usize = 0;
    while i < pairs.len()
        invariant
            i <= pairs@.len(),
            all == deref_attributes(attrs@),
            all.len() == attrs@.len(),
            args == arg_views(pairs@),
            vs == views(values@),
            vs.len() == values@.len(),
            forall|j: int| 0 <= j < values@.len() ==> #[trigger] vs[j] == values@[j]@,
            first_unkeyed(args, 0) == first_unkeyed(args, i as int),
            crate::types::strings_view(given@) == keys_given(args, i as int),
            diagnostic_views(diagnostics@) == before + constructor_pairs_report(classes@, class@, open, all, args, vs, i as int),
        decreases pairs@.len() - i,
    {
        assert(args[i as int] == arg_view(pairs@[i as int]));
        let key = match pairs[i].key() {
            Some(k) => k,
            None => {
                return;
            },
        };
        let ghost at = diagnostic_views(diagnostics@);
        let value = if i < values.len() {
            values[i].duplicate()
        } else {
            Type::Unknown
        };
        assert(value@ == value_at(vs, i as int));
        let mut j: usize = 0;
        while j < attrs.len()
            invariant
                j <= attrs@.len(),
                all == deref_attributes(attrs@),
                all.len() == attrs@.len(),
                attribute_named(all, key@, 0) == attribute_named(all, key@, j as int),
                diagnostic_views(diagnostics@) == at,
            decreases attrs@.len() - j,
        {
            assert(all[j as int] == *attrs@[j as int]);
            if is(attrs[j].name.as_str(), key) {
                break;
            }
            j += 1;
        }
        if j < attrs.len() {
            assert(all[j as int] == *attrs@[j as int]);
            assert(attribute_named(all, key@, j as int) == Some(j as int));
            let mut what = String::new();
            append(&mut what, "`");
            append(&mut what, key);
            append(&mut what, "`");
            check_value(&value, &attrs[j].ty, pairs[i].node(), what.as_str(), classes, diagnostics);
        } else {
            let mut message = String::new();
            append(&mut message, "`");
            append(&mut message, class);
            append(&mut message, "` declares no attribute `");
            append(&mut message, key);
            append(&mut message, "`");
            assert(message@ =~= no_attribute(class@, key@));
            let severity = if open {
                Severity::Warning
            } else {
                Code::UnknownKey.default_severity()
            };
            diagnostics.push(Diagnostic::new(Code::UnknownKey, pairs[i].range(), message).at(severity));
        }
        proof {
            assert(diagnostic_views(diagnostics@) =~= at + constructor_pair_report(
                classes@,
                class@,
                open,
                all,
                args[i as int],
                key@,
                value@,
            ));
            assert(diagnostic_views(diagnostics@) =~= before + constructor_pairs_report(
                classes@,
                class@,
                open,
                all,
                args,
                vs,
                i + 1,
            ));
        }
        given.push(key.to_string());
        proof {
            assert(crate::types::strings_view(given@) =~= keys_given(args, i + 1));
        }
        i += 1;
    }
    assert(first_unkeyed(args, 0) is None);
    if open {
        assert(diagnostic_views(diagnostics@) =~= before + constructor_report(
            classes@,
            class@,
            buildargs,
            unknown_ancestor,
            open,
            all,
            args,
            vs,
            range,
        ));
        return;
    }
    let ghost keys = keys_given(args, args.len() as int);
    let ghost reported = diagnostic_views(diagnostics@);
    let mut missing: Vec<String> = Vec::new();
    let mut m: usize = 0;
    while m < attrs.len()
        invariant
            m <= attrs@.len(),
            all == deref_attributes(attrs@),
            all.len() == attrs@.len(),
            crate::types::strings_view(given@) == keys,
            crate::types::strings_view(missing@) == constructor_missing(all, keys, m as int),
            diagnostic_views(diagnostics@) == reported,
        decreases attrs@.len() - m,
    {
        assert(all[m as int] == *attrs@[m as int]);
        let name = strip_pluses(attrs[m].name.as_str());
        if !holds_string(&given, name.as_str()) && !holds_string(&missing, name.as_str()) && !is_filled(attrs, name.as_str()) {
            missing.push(name);
        }
        proof {
            assert(crate::types::strings_view(missing@) =~= constructor_missing(all, keys, m + 1));
        }
        m += 1;
    }
    let mut what = String::new();
    append(&mut what, "`");
    append(&mut what, class);
    append(&mut what, "`");
    report_missing(&missing, range, what.as_str(), diagnostics);
    assert(what@ =~= "`"@ + class@ + "`"@);
}

fn any_flag(facts: &Vec<&PackageFacts>, open: bool) -> (r: bool)
    ensures
        r == (if open {
            any_open_constructor(deref_facts(facts@))
        } else {
            any_buildargs(deref_facts(facts@))
        }),
{
    let ghost fs = deref_facts(facts@);
    let mut i: usize = 0;
    while i < facts.len()
        invariant
            i <= facts@.len(),
            fs == deref_facts(facts@),
            fs.len() == facts@.len(),
            forall|j: int| 0 <= j < i ==> !(if open { fs[j].open_constructor } else { fs[j].buildargs }),
        decreases facts@.len() - i,
    {
        assert(fs[i as int] == *facts@[i as int]);
        let set = if open {
            facts[i].open_constructor
        } else {
            facts[i].buildargs
        };
        if set {
            return true;
        }
        i += 1;
    }
    false
}

impl Program {
    /// A `Class->new(key => value, ...)` against the attributes `class`
    /// declares and inherits; `values` holds the type the caller found for
    /// each pair.
    pub fn check_constructor(
        &self,
        class: &str,
        pairs: &Vec<Arg>,
        values: &Vec<Type>,
        range: TextRange,
        classes: &Hierarchy,
        diagnostics: &mut Vec<Diagnostic>,
    )
        ensures
            diagnostic_views(final(diagnostics)@) == diagnostic_views(old(diagnostics)@) + constructor_report(
                classes@,
                class@,
                any_buildargs(spec_facts(self.files_view(), class@)),
                spec_has_unknown_ancestor(self.files_view(), self.subs_view(), class@),
                any_open_constructor(spec_facts(self.files_view(), class@)),
                lin_attributes(self.files_view(), spec_linearise(self.files_view(), class@)),
                arg_views(pairs@),
                views(values@),
                range,
            ),
    {
        let facts = self.facts(class);
        let buildargs = any_flag(&facts, false);
        let unknown = self.has_unknown_ancestor(class);
        let open = any_flag(&facts, true);
        let attrs = self.attributes(class);
        check_constructor_pairs(class, buildargs, unknown, open, &attrs, pairs, values, range, classes, diagnostics);
    }
}

// ===== Method calls =====

/// What a sub gives back when called as a method on `class`: an instance of
/// `class` from a `new` that says it constructs its own class and says
/// nothing else; the receiver's class where it hands back its invocant; else
/// what it returns.
pub open spec fn sub_result(s: SubDecl, class: Seq<char>, method: Seq<char>) -> TypeV {
    if s.returns.scalar@ is Unknown && method == "new"@ && s.constructs_own_class {
        TypeV::InstanceOf(class)
    } else if s.returns.invocant {
        spec_with_invocant(s.returns.scalar@, s.package@, class)
    } else {
        s.returns.scalar@
    }
}

/// What an attribute's method gives back.
pub open spec fn attribute_result(a: AttributeDecl, method: Seq<char>) -> TypeV {
    match find_method(method_views(a.methods@), method, 0) {
        Some(role) => spec_role_returns(role, a.ty@),
        None => a.ty@,
    }
}

/// What an `unknown-method` says: where the search was, for a `SUPER::` or
/// a qualified name, and the class otherwise.
pub open spec fn missing_method_message(method: Seq<char>, class: Seq<char>, package: Seq<char>) -> Seq<char> {
    match outer_name(method) {
        Some(outer) => if outer == "SUPER"@ {
            "no parent of `"@ + package + "` declares a method `"@ + inner_name(method) + "`"@
        } else {
            "`"@ + outer + "` declares no method `"@ + inner_name(method) + "`"@
        },
        None => "`"@ + class + "` declares no method `"@ + method + "`"@,
    }
}

/// What a method call on `class` gives back, by what the lookup found, and
/// what it reports: an `unknown-method` only where the method is missing.
pub open spec fn spec_method_result(
    l: LookupV,
    class: Seq<char>,
    method: Seq<char>,
    package: Seq<char>,
    range: TextRange,
) -> (TypeV, Seq<DiagV>) {
    match l {
        LookupV::Sub(s) => (sub_result(s, class, method), Seq::empty()),
        LookupV::Attribute(a) => (attribute_result(a, method), Seq::empty()),
        LookupV::Constructor => (TypeV::InstanceOf(class), Seq::empty()),
        LookupV::Universal => (TypeV::Unknown, Seq::empty()),
        LookupV::Unknown => (TypeV::Unknown, Seq::empty()),
        LookupV::Missing => (
            TypeV::Unknown,
            seq![
                (
                    Code::UnknownMethod,
                    spec_default_severity(Code::UnknownMethod),
                    None,
                    range,
                    missing_method_message(method, class, package),
                ),
            ],
        ),
    }
}

/// What a call of `method` on a value of `class`, written in `package`,
/// gives back, with what it reports pushed onto `diagnostics`.
pub fn method_result(
    lookup: &MethodLookup,
    class: &str,
    method: &str,
    package: &str,
    range: TextRange,
    diagnostics: &mut Vec<Diagnostic>,
) -> (r: Type)
    ensures
        r@ == spec_method_result(lookup_view(*lookup), class@, method@, package@, range).0,
        diagnostic_views(final(diagnostics)@) == diagnostic_views(old(diagnostics)@) + spec_method_result(
            lookup_view(*lookup),
            class@,
            method@,
            package@,
            range,
        ).1,
{
    let ghost before = diagnostic_views(diagnostics@);
    proof {
        assert(before =~= before + Seq::<DiagV>::empty());
    }
    match lookup {
        MethodLookup::Sub(symbol) => {
            let returns_of = &symbol.returns;
            if returns_of.scalar.is_unknown() && is(method, "new") && symbol.constructs_own_class {
                Type::InstanceOf(class.to_string())
            } else if returns_of.invocant {
                with_invocant(&returns_of.scalar, symbol.package.as_str(), class)
            } else {
                returns_of.scalar.duplicate()
            }
        },
        MethodLookup::Attribute(attribute) => attribute.result_type(method),
        MethodLookup::Constructor => Type::InstanceOf(class.to_string()),
        MethodLookup::Universal | MethodLookup::Unknown => Type::Unknown,
        MethodLookup::Missing => {
            let mut message = String::new();
            match split_qualified(method) {
                Some((outer, bare)) => {
                    if is(outer.as_str(), "SUPER") {
                        append(&mut message, "no parent of `");
                        append(&mut message, package);
                        append(&mut message, "` declares a method `");
                        append(&mut message, bare.as_str());
                        append(&mut message, "`");
                    } else {
                        append(&mut message, "`");
                        append(&mut message, outer.as_str());
                        append(&mut message, "` declares no method `");
                        append(&mut message, bare.as_str());
                        append(&mut message, "`");
                    }
                },
                None => {
                    append(&mut message, "`");
                    append(&mut message, class);
                    append(&mut message, "` declares no method `");
                    append(&mut message, method);
                    append(&mut message, "`");
                },
            }
            assert(message@ =~= missing_method_message(method@, class@, package@));
            diagnostics.push(Diagnostic::new(Code::UnknownMethod, range, message));
            Type::Unknown
        },
    }
}

/// Silent where it does not know: a value nobody typed, or a slot nobody
/// declared, is never reported against.
pub proof fn law_an_unknown_side_is_never_reported(
    classes: Seq<(Seq<char>, Seq<Seq<char>>)>,
    value: TypeV,
    slot: TypeV,
    node: SyntaxNode,
    what: Seq<char>,
)
    requires
        value is Unknown || slot is Unknown,
    ensures
        value_report(classes, value, slot, node, what).len() == 0,
{
}

/// A value that could be in its slot is never reported against it.
pub proof fn law_a_value_that_fits_is_never_reported(
    classes: Seq<(Seq<char>, Seq<Seq<char>>)>,
    value: TypeV,
    slot: TypeV,
    node: SyntaxNode,
    what: Seq<char>,
)
    requires
        crate::flow::spec_compatible(classes, value, spec_required(slot)),
    ensures
        value_report(classes, value, slot, node, what).len() == 0,
{
}

/// A sub whose return nobody declared is never reported at its `return`s.
pub proof fn law_an_undeclared_return_is_never_reported(
    classes: Seq<(Seq<char>, Seq<Seq<char>>)>,
    nodes: Seq<SyntaxNode>,
    types: Seq<TypeV>,
)
    ensures
        return_report(classes, TypeV::Unknown, false, nodes, types).len() == 0,
{
}

// ===== Lists =====

/// Whether a node's own tokens open it with an `@` or a `%`: `@$x`,
/// `%{...}`.
pub open spec fn opens_a_container(n: SyntaxNode) -> bool {
    exists|i: int|
        0 <= i < child_tokens(n).len() && (#[trigger] child_tokens(n)[i].text@ == "@"@ || child_tokens(n)[i].text@
            == "%"@)
}

/// Whether a node's own tokens are `->@*` or `->%*`.
pub open spec fn derefs_a_container(n: SyntaxNode) -> bool {
    exists|i: int|
        0 <= i < child_tokens(n).len() && (#[trigger] child_tokens(n)[i].kind == TokenKind::DerefArray
            || child_tokens(n)[i].kind == TokenKind::DerefHash)
}

/// Whether an expression is a list rather than one value: an array, a hash,
/// a slice, a dereference to one; a parenthesised or comma list of them, or
/// of several values or none; a `?:` either branch of which is one.
pub open spec fn spec_is_plural(n: SyntaxNode) -> bool
    decreases n, child_nodes(n).len() + 1,
{
    if n.kind == NodeKind::ArrayVar || n.kind == NodeKind::HashVar || n.kind == NodeKind::SliceExpr {
        true
    } else if n.kind == NodeKind::DerefExpr || n.kind == NodeKind::BlockDerefExpr {
        opens_a_container(n)
    } else if n.kind == NodeKind::PostfixDerefExpr {
        derefs_a_container(n)
    } else if n.kind == NodeKind::ParenExpr {
        if child_nodes(n).len() > 0 {
            proof {
                lemma_child_smaller(n, 0);
            }
            spec_is_plural(child_nodes(n)[0])
        } else {
            false
        }
    } else if n.kind == NodeKind::ListExpr {
        if child_nodes(n).len() == 1 {
            proof {
                lemma_child_smaller(n, 0);
            }
            spec_is_plural(child_nodes(n)[0])
        } else {
            true
        }
    } else if n.kind == NodeKind::TernaryExpr {
        plural_branch(n, child_nodes(n).len() as int)
    } else {
        false
    }
}

/// Whether one of the children from the second to the `k`th is a list.
pub open spec fn plural_branch(n: SyntaxNode, k: int) -> bool
    decreases n, k,
{
    if k <= 1 || k > child_nodes(n).len() {
        false
    } else {
        proof {
            lemma_child_smaller(n, k - 1);
        }
        plural_branch(n, k - 1) || spec_is_plural(child_nodes(n)[k - 1])
    }
}

fn token_test(node: &SyntaxNode, postfix: bool) -> (r: bool)
    ensures
        r == (if postfix {
            derefs_a_container(*node)
        } else {
            opens_a_container(*node)
        }),
{
    let tokens = node.significant_tokens();
    let ghost ts = child_tokens(*node);
    let mut i: usize = 0;
    while i < tokens.len()
        invariant
            i <= tokens@.len(),
            deref_tokens(tokens@) == ts,
            ts == child_tokens(*node),
            forall|j: int|
                0 <= j < i ==> !(if postfix {
                    ts[j].kind == TokenKind::DerefArray || ts[j].kind == TokenKind::DerefHash
                } else {
                    ts[j].text@ == "@"@ || ts[j].text@ == "%"@
                }),
        decreases tokens@.len() - i,
    {
        assert(deref_tokens(tokens@)[i as int] == *tokens@[i as int]);
        let hit = if postfix {
            tokens[i].kind == TokenKind::DerefArray || tokens[i].kind == TokenKind::DerefHash
        } else {
            is(tokens[i].text.as_str(), "@") || is(tokens[i].text.as_str(), "%")
        };
        if hit {
            return true;
        }
        i += 1;
    }
    false
}

pub fn is_plural(node: &SyntaxNode) -> (r: bool)
    ensures
        r == spec_is_plural(*node),
    decreases node,
{
    match node.kind {
        NodeKind::ArrayVar | NodeKind::HashVar | NodeKind::SliceExpr => {
            assert(spec_is_plural(*node));
            true
        },
        NodeKind::DerefExpr | NodeKind::BlockDerefExpr => {
            let r = token_test(node, false);
            assert(r == spec_is_plural(*node));
            r
        },
        NodeKind::PostfixDerefExpr => {
            let r = token_test(node, true);
            assert(r == spec_is_plural(*node));
            r
        },
        NodeKind::ParenExpr | NodeKind::ListExpr | NodeKind::TernaryExpr => {
            let nodes = node.child_nodes();
            if node.kind == NodeKind::ParenExpr {
                if nodes.len() == 0 {
                    return false;
                }
                assert(deref_nodes(nodes@)[0] == *nodes@[0]);
                proof {
                    lemma_child_smaller(*node, 0);
                }
                return is_plural(nodes[0]);
            }
            if node.kind == NodeKind::ListExpr {
                if nodes.len() != 1 {
                    return true;
                }
                assert(deref_nodes(nodes@)[0] == *nodes@[0]);
                proof {
                    lemma_child_smaller(*node, 0);
                }
                return is_plural(nodes[0]);
            }
            let mut found = false;
            let mut i: usize = 1;
            while i < nodes.len()
                invariant
                    1 <= i,
                    i <= nodes@.len() || nodes@.len() == 0,
                    deref_nodes(nodes@) == child_nodes(*node),
                    node.kind == NodeKind::TernaryExpr,
                    found == plural_branch(*node, i as int),
                decreases nodes@.len() - i,
            {
                assert(deref_nodes(nodes@)[i as int] == *nodes@[i as int]);
                proof {
                    lemma_child_smaller(*node, i as int);
                }
                let here = is_plural(nodes[i]);
                found = found || here;
                i += 1;
            }
            proof {
                if nodes@.len() > 0 {
                    assert(i == nodes@.len());
                }
                assert(found == plural_branch(*node, child_nodes(*node).len() as int));
                assert(spec_is_plural(*node) == plural_branch(*node, child_nodes(*node).len() as int));
            }
            found
        },
        _ => {
            assert(!spec_is_plural(*node));
            false
        },
    }
}

// ===== The invocant handed back =====

/// Whether a node's own tokens hold a `->`.
pub open spec fn has_arrow(n: SyntaxNode) -> bool {
    exists|i: int| 0 <= i < child_tokens(n).len() && (#[trigger] child_tokens(n)[i]).kind == TokenKind::Arrow
}

/// `$_[0]`: the first argument, which is the invocant of a sub that
/// unpacks nothing.
pub open spec fn spec_is_first_argument(n: SyntaxNode) -> bool {
    match spec_chain(n) {
        Some((base, steps)) => is_step_kind(n.kind) && base.kind == NodeKind::ScalarVar && name_of(child_tokens(base))
            == "_"@ && steps.len() == 1 && match steps[0] {
            StepV::Array { index: Some(i), node } => i == 0 && !has_arrow(node),
            _ => false,
        },
        None => false,
    }
}

fn arrow_in(node: &SyntaxNode) -> (r: bool)
    ensures
        r == has_arrow(*node),
{
    let ts = crate::ast::tokens(node);
    let ghost all = child_tokens(*node);
    let mut i: usize = 0;
    while i < ts.len()
        invariant
            i <= ts@.len(),
            deref_tokens(ts@) == all,
            all == child_tokens(*node),
            forall|j: int| 0 <= j < i ==> all[j].kind != TokenKind::Arrow,
        decreases ts@.len() - i,
    {
        assert(deref_tokens(ts@)[i as int] == *ts@[i as int]);
        if ts[i].kind == TokenKind::Arrow {
            return true;
        }
        i += 1;
    }
    false
}

pub fn is_first_argument(node: &SyntaxNode) -> (r: bool)
    ensures
        r == spec_is_first_argument(*node),
{
    let chain = match SubscriptChain::cast(node) {
        Some(c) => c,
        None => return false,
    };
    let base = chain.base();
    if base.kind != NodeKind::ScalarVar {
        return false;
    }
    let named = match Variable::cast(base) {
        Some(v) => match v.name() {
            Some(n) => is(n.as_str(), "_"),
            None => false,
        },
        None => false,
    };
    proof {
        reveal_strlit("_");
    }
    if !named {
        return false;
    }
    let steps = chain.steps();
    if steps.len() != 1 {
        return false;
    }
    assert(step_views(steps@)[0] == step_view(steps@[0]));
    match &steps[0] {
        Step::Array { index: Some(i), node: step } => *i == 0 && !arrow_in(step),
        _ => false,
    }
}

/// Whether an expression hands back the invocant itself: the invocant
/// variable, `$_[0]` where nothing was unpacked, the one thing in a
/// parenthesised or comma list, either branch of a `?:`, or a `bless` into
/// the invocant class. Nothing deeper: `$self->{parent}` is not it.
pub open spec fn spec_is_invocant(inv: InvocantV, n: SyntaxNode) -> bool
    decreases n, child_nodes(n).len() + spec_operands(n).len() + 1,
{
    if inv is Absent {
        false
    } else if n.kind == NodeKind::ScalarVar {
        match inv {
            InvocantV::Named(name) => name_of(child_tokens(n)).len() > 0 && name_of(child_tokens(n)) == name,
            _ => false,
        }
    } else if n.kind == NodeKind::ArraySubscriptExpr {
        inv is Implicit && spec_is_first_argument(n)
    } else if n.kind == NodeKind::ParenExpr || n.kind == NodeKind::ListExpr {
        if child_nodes(n).len() == 1 {
            proof {
                lemma_child_smaller(n, 0);
            }
            spec_is_invocant(inv, child_nodes(n)[0])
        } else {
            false
        }
    } else if n.kind == NodeKind::TernaryExpr {
        invocant_branch(inv, n, child_nodes(n).len() as int)
    } else if n.kind == NodeKind::CallExpr || n.kind == NodeKind::ListCallExpr {
        if name_child_text(n) == Some("bless"@) && spec_args(n).len() > 1 {
            proof {
                lemma_operand_below(n, 1);
            }
            spec_is_invocant(inv, spec_operands(n)[1])
        } else {
            false
        }
    } else {
        false
    }
}

/// Whether one of the children from the second to the `k`th hands back
/// the invocant.
pub open spec fn invocant_branch(inv: InvocantV, n: SyntaxNode, k: int) -> bool
    decreases n, k,
{
    if k <= 1 || k > child_nodes(n).len() {
        false
    } else {
        proof {
            lemma_child_smaller(n, k - 1);
        }
        invocant_branch(inv, n, k - 1) || spec_is_invocant(inv, child_nodes(n)[k - 1])
    }
}

pub fn is_invocant(inv: &Invocant, node: &SyntaxNode) -> (r: bool)
    ensures
        r == spec_is_invocant(inv@, *node),
    decreases node,
{
    if matches!(inv, Invocant::Absent) {
        return false;
    }
    match node.kind {
        NodeKind::ScalarVar => {
            let r = match inv {
                Invocant::Named(name) => match Variable::cast(node) {
                    Some(v) => match v.name() {
                        Some(n) => is(n.as_str(), name.as_str()),
                        None => false,
                    },
                    None => false,
                },
                _ => false,
            };
            assert(r == spec_is_invocant(inv@, *node));
            r
        },
        NodeKind::ArraySubscriptExpr => {
            let r = matches!(inv, Invocant::Implicit) && is_first_argument(node);
            assert(r == spec_is_invocant(inv@, *node));
            r
        },
        NodeKind::ParenExpr | NodeKind::ListExpr => {
            let nodes = node.child_nodes();
            if nodes.len() != 1 {
                assert(!spec_is_invocant(inv@, *node));
                return false;
            }
            assert(deref_nodes(nodes@)[0] == *nodes@[0]);
            proof {
                lemma_child_smaller(*node, 0);
            }
            let r = is_invocant(inv, nodes[0]);
            assert(r == spec_is_invocant(inv@, *node));
            r
        },
        NodeKind::TernaryExpr => {
            let nodes = node.child_nodes();
            let mut found = false;
            let mut i: usize = 1;
            while i < nodes.len()
                invariant
                    1 <= i,
                    i <= nodes@.len() || nodes@.len() == 0,
                    deref_nodes(nodes@) == child_nodes(*node),
                    found == invocant_branch(inv@, *node, i as int),
                decreases nodes@.len() - i,
            {
                assert(deref_nodes(nodes@)[i as int] == *nodes@[i as int]);
                proof {
                    lemma_child_smaller(*node, i as int);
                }
                let here = is_invocant(inv, nodes[i]);
                found = found || here;
                i += 1;
            }
            proof {
                if nodes@.len() > 0 {
                    assert(i == nodes@.len());
                }
                assert(spec_is_invocant(inv@, *node) == invocant_branch(inv@, *node, child_nodes(*node).len() as int));
            }
            found
        },
        NodeKind::CallExpr | NodeKind::ListCallExpr => {
            let call = match Call::cast(node) {
                Some(c) => c,
                None => return false,
            };
            let blesses = match call.callee_name() {
                Some(n) => is(n.as_str(), "bless"),
                None => false,
            };
            let args = call.args();
            if !blesses || args.len() <= 1 {
                assert(!spec_is_invocant(inv@, *node));
                return false;
            }
            assert(deref_nodes(args@)[1] == *args@[1]);
            proof {
                lemma_operand_below(*node, 1);
            }
            let r = is_invocant(inv, args[1]);
            assert(r == spec_is_invocant(inv@, *node));
            r
        },
        _ => {
            assert(!spec_is_invocant(inv@, *node));
            false
        },
    }
}

/// The scalar type of one value handed back, and whether it is the
/// invocant: the scalar branch of a `wantarray ? LIST : SCALAR`, typed by
/// the caller as `branch`; nothing known of a list; the invocant marked, and
/// an instance of the package where nothing else is known of it.
pub open spec fn spec_read_site(
    inv: InvocantV,
    package: Seq<char>,
    n: SyntaxNode,
    ty: TypeV,
    branch: TypeV,
) -> (TypeV, bool) {
    match spec_wantarray_branch(n) {
        Some(b) => if spec_is_plural(b) {
            (TypeV::Unknown, false)
        } else {
            (branch, false)
        },
        None => if spec_is_plural(n) {
            (TypeV::Unknown, false)
        } else if spec_is_invocant(inv, n) {
            if ty is Unknown {
                (TypeV::InstanceOf(package), true)
            } else {
                (ty, true)
            }
        } else {
            (ty, false)
        },
    }
}

pub fn read_site(inv: &Invocant, package: &str, node: &SyntaxNode, ty: &Type, branch: &Type) -> (r: (Type, bool))
    ensures
        (r.0@, r.1) == spec_read_site(inv@, package@, *node, ty@, branch@),
{
    match wantarray_branch(node) {
        Some(b) => {
            if is_plural(b) {
                (Type::Unknown, false)
            } else {
                (branch.duplicate(), false)
            }
        },
        None => {
            if is_plural(node) {
                (Type::Unknown, false)
            } else if is_invocant(inv, node) {
                if ty.is_unknown() {
                    (Type::InstanceOf(package.to_string()), true)
                } else {
                    (ty.duplicate(), true)
                }
            } else {
                (ty.duplicate(), false)
            }
        },
    }
}

/// The site one `return` adds: `undef` for a bare `return;`, the value read
/// for one value, and nothing known for a list of them.
pub open spec fn spec_return_site(
    inv: InvocantV,
    package: Seq<char>,
    nodes: Seq<SyntaxNode>,
    types: Seq<TypeV>,
    branch: TypeV,
) -> (TypeV, bool) {
    if nodes.len() == 0 {
        (TypeV::Undef, false)
    } else if nodes.len() == 1 {
        spec_read_site(inv, package, nodes[0], value_at(types, 0), branch)
    } else {
        (TypeV::Unknown, false)
    }
}

impl Sites {
    /// Count one `return` as a site of the sub being walked.
    pub fn add_return(
        &mut self,
        inv: &Invocant,
        package: &str,
        nodes: &Vec<&SyntaxNode>,
        types: &Vec<Type>,
        branch: &Type,
    )
        ensures
            ({
                let (t, invocant) = spec_return_site(inv@, package@, deref_nodes(nodes@), views(types@), branch@);
                &&& views(final(self).scalar@) == views(old(self).scalar@).push(t)
                &&& final(self).invocant == (old(self).invocant || invocant)
                &&& final(self).opaque == old(self).opaque
            }),
    {
        proof {
            lemma_views(types@);
        }
        let (ty, invocant) = if nodes.len() == 0 {
            (Type::Undef, false)
        } else if nodes.len() == 1 {
            assert(deref_nodes(nodes@)[0] == *nodes@[0]);
            let value = if types.len() > 0 {
                types[0].duplicate()
            } else {
                Type::Unknown
            };
            read_site(inv, package, nodes[0], &value, branch)
        } else {
            (Type::Unknown, false)
        };
        proof {
            lemma_views_push(self.scalar@, ty);
        }
        self.scalar.push(ty);
        self.invocant = self.invocant || invocant;
    }
}

/// `*` types as `+` and `-` do, on every pair of operands: all three are
/// the widening operators, whole numbers when both sides are.
pub proof fn law_multiplication_types_as_addition(left: Option<TypeV>, right: Option<TypeV>)
    ensures
        spec_binary(Some("*"@), left, right) == spec_binary(Some("+"@), left, right),
        spec_binary(Some("-"@), left, right) == spec_binary(Some("+"@), left, right),
{
}

/// Adding, subtracting or multiplying two whole numbers gives a whole
/// number; with either side a number that is not whole, a number.
pub proof fn law_widening_keeps_whole_numbers_whole(left: TypeV, right: TypeV)
    requires
        !(left is Unknown),
        !(right is Unknown),
    ensures
        spec_is_integral(left) && spec_is_integral(right) ==> spec_binary(Some("*"@), Some(left), Some(right))
            == TypeV::Int && spec_binary(Some("+"@), Some(left), Some(right)) == TypeV::Int && spec_binary(
            Some("-"@),
            Some(left),
            Some(right),
        ) == TypeV::Int,
        !(spec_is_integral(left) && spec_is_integral(right)) ==> spec_binary(Some("*"@), Some(left), Some(right))
            == TypeV::Num,
{
}

/// Every comparison gives a `Bool`, whatever it compares.
pub proof fn law_a_comparison_is_a_bool(op: Seq<char>, left: Option<TypeV>, right: Option<TypeV>)
    requires
        seq!["=="@, "!="@, "<"@, ">"@, "<="@, ">="@, "eq"@, "ne"@, "lt"@, "gt"@, "le"@, "ge"@, "isa"@].contains(op),
    ensures
        spec_binary(Some(op), left, right) == TypeV::Bool,
{
    reveal_strlit("+");
    reveal_strlit("-");
    reveal_strlit("*");
    reveal_strlit("%");
    reveal_strlit("/");
    reveal_strlit("**");
    reveal_strlit(".");
    reveal_strlit("x");
    reveal_strlit("==");
    reveal_strlit("!=");
    reveal_strlit("<");
    reveal_strlit(">");
    reveal_strlit("<=");
    reveal_strlit(">=");
    reveal_strlit("eq");
    reveal_strlit("ne");
    reveal_strlit("lt");
    reveal_strlit("gt");
    reveal_strlit("le");
    reveal_strlit("ge");
    reveal_strlit("isa");
    let t = seq!["=="@, "!="@, "<"@, ">"@, "<="@, ">="@, "eq"@, "ne"@, "lt"@, "gt"@, "le"@, "ge"@, "isa"@];
    let i = choose|i: int| 0 <= i < t.len() && t[i] == op;
    assert(op.len() >= 1);
    assert(op[0] == '=' || op[0] == '!' || op[0] == '<' || op[0] == '>' || op[0] == 'e' || op[0] == 'n' || op[0] == 'l'
        || op[0] == 'g' || op[0] == 'i');
    assert(op != "+"@ && op != "-"@ && op != "*"@ && op != "%"@ && op != "/"@ && op != "**"@ && op != "."@ && op != "x"@);
}

/// Concatenation gives a string, whatever it joins.
pub proof fn law_concatenation_is_a_string(left: Option<TypeV>, right: Option<TypeV>)
    ensures
        spec_binary(Some("."@), left, right) == TypeV::Str,
{
    reveal_strlit("+");
    reveal_strlit("-");
    reveal_strlit("*");
    reveal_strlit("%");
    reveal_strlit("/");
    reveal_strlit("**");
    reveal_strlit(".");
    assert("."@[0] != "+"@[0]);
    assert("."@[0] != "-"@[0]);
    assert("."@[0] != "*"@[0]);
    assert("."@[0] != "%"@[0]);
    assert("."@[0] != "/"@[0]);
    assert("."@.len() != "**"@.len());
}

/// Repetition gives a string, whatever it repeats.
pub proof fn law_repetition_is_a_string(left: Option<TypeV>, right: Option<TypeV>)
    ensures
        spec_binary(Some("x"@), left, right) == TypeV::Str,
{
    reveal_strlit("+");
    reveal_strlit("-");
    reveal_strlit("*");
    reveal_strlit("%");
    reveal_strlit("/");
    reveal_strlit("**");
    reveal_strlit(".");
    reveal_strlit("x");
    assert("x"@[0] != "+"@[0]);
    assert("x"@[0] != "-"@[0]);
    assert("x"@[0] != "*"@[0]);
    assert("x"@[0] != "%"@[0]);
    assert("x"@[0] != "/"@[0]);
    assert("x"@.len() != "**"@.len());
    assert("x"@[0] != "."@[0]);
}

/// `<=>` gives a whole number, whatever it orders.
pub proof fn law_a_numeric_ordering_is_a_whole_number(left: Option<TypeV>, right: Option<TypeV>)
    ensures
        spec_binary(Some("<=>"@), left, right) == TypeV::Int,
{
    reveal_strlit("+");
    reveal_strlit("-");
    reveal_strlit("*");
    reveal_strlit("%");
    reveal_strlit("/");
    reveal_strlit("**");
    reveal_strlit(".");
    reveal_strlit("x");
    reveal_strlit("==");
    reveal_strlit("!=");
    reveal_strlit("<");
    reveal_strlit(">");
    reveal_strlit("<=");
    reveal_strlit(">=");
    reveal_strlit("eq");
    reveal_strlit("ne");
    reveal_strlit("lt");
    reveal_strlit("gt");
    reveal_strlit("le");
    reveal_strlit("ge");
    reveal_strlit("isa");
    reveal_strlit("<=>");
    assert("<=>"@.len() != "+"@.len());
    assert("<=>"@.len() != "-"@.len());
    assert("<=>"@.len() != "*"@.len());
    assert("<=>"@.len() != "%"@.len());
    assert("<=>"@.len() != "/"@.len());
    assert("<=>"@.len() != "**"@.len());
    assert("<=>"@.len() != "."@.len());
    assert("<=>"@.len() != "x"@.len());
    assert("<=>"@.len() != "=="@.len());
    assert("<=>"@.len() != "!="@.len());
    assert("<=>"@.len() != "<"@.len());
    assert("<=>"@.len() != ">"@.len());
    assert("<=>"@.len() != "<="@.len());
    assert("<=>"@.len() != ">="@.len());
    assert("<=>"@.len() != "eq"@.len());
    assert("<=>"@.len() != "ne"@.len());
    assert("<=>"@.len() != "lt"@.len());
    assert("<=>"@.len() != "gt"@.len());
    assert("<=>"@.len() != "le"@.len());
    assert("<=>"@.len() != "ge"@.len());
    assert("<=>"@[0] != "isa"@[0]);
}

/// `cmp` gives a whole number, whatever it orders.
pub proof fn law_a_string_ordering_is_a_whole_number(left: Option<TypeV>, right: Option<TypeV>)
    ensures
        spec_binary(Some("cmp"@), left, right) == TypeV::Int,
{
    reveal_strlit("+");
    reveal_strlit("-");
    reveal_strlit("*");
    reveal_strlit("%");
    reveal_strlit("/");
    reveal_strlit("**");
    reveal_strlit(".");
    reveal_strlit("x");
    reveal_strlit("==");
    reveal_strlit("!=");
    reveal_strlit("<");
    reveal_strlit(">");
    reveal_strlit("<=");
    reveal_strlit(">=");
    reveal_strlit("eq");
    reveal_strlit("ne");
    reveal_strlit("lt");
    reveal_strlit("gt");
    reveal_strlit("le");
    reveal_strlit("ge");
    reveal_strlit("isa");
    reveal_strlit("<=>");
    reveal_strlit("cmp");
    assert("cmp"@.len() != "+"@.len());
    assert("cmp"@.len() != "-"@.len());
    assert("cmp"@.len() != "*"@.len());
    assert("cmp"@.len() != "%"@.len());
    assert("cmp"@.len() != "/"@.len());
    assert("cmp"@.len() != "**"@.len());
    assert("cmp"@.len() != "."@.len());
    assert("cmp"@.len() != "x"@.len());
    assert("cmp"@.len() != "=="@.len());
    assert("cmp"@.len() != "!="@.len());
    assert("cmp"@.len() != "<"@.len());
    assert("cmp"@.len() != ">"@.len());
    assert("cmp"@.len() != "<="@.len());
    assert("cmp"@.len() != ">="@.len());
    assert("cmp"@.len() != "eq"@.len());
    assert("cmp"@.len() != "ne"@.len());
    assert("cmp"@.len() != "lt"@.len());
    assert("cmp"@.len() != "gt"@.len());
    assert("cmp"@.len() != "le"@.len());
    assert("cmp"@.len() != "ge"@.len());
    assert("cmp"@[0] != "isa"@[0]);
    assert("cmp"@[0] != "<=>"@[0]);
}

} // verus!
