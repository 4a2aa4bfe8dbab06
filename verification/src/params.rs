//! What a sub's declaration says about the arguments it takes: a signature,
//! a `Smart::Args` list, or an unpacking of `@_` at the top of the body.

use vstd::prelude::*;
use vstd::string::StringSliceAdditionalSpecFns;

use crate::annotate::{annotated_views, diagnostic_views, DiagV, Sink};
use crate::ast::{
    arg_view, arg_views, first_assignment, first_operator, is_call_kind, is_variable_kind, spec_args, AssignExpr,
    BinaryExpr, list_child, name_child_text, spec_call_pairs, spec_pairs, spec_without_plus,
    first_keyword, variables_under, without_plus, AnonHash, Arg, ArgV, Block, Call, DeclKeyword, SubDef, VarDecl,
    child_of, first_variable, name_of, sigil_of_kind, signature_params, spec_sigil_text, Sigil, SignatureParam,
    SubSignature, Variable,
};
use crate::attributes::{annotation_effect, annotation_of, is_true, sink_grew, spec_annotation_of, spec_is_true};
use crate::decl::{param_views, Annotation, Param, ParamSource, Params};
use crate::diag::{Code, Severity};
use crate::span::TextRange;
use crate::program::{params_view, ParamsV};
use crate::syntax::{
    child_nodes, child_tokens, deref_nodes, deref_tokens, first_token_of_kind, found, joined, NodeKind, SyntaxElement, SyntaxNode, SyntaxToken,
    TokenKind,
};
use crate::text::same_text;
use crate::types::{Type, TypeV};

verus! {

/// A node and everything under it, in document order.
pub open spec fn preorder(n: SyntaxNode) -> Seq<SyntaxNode>
    decreases n,
{
    seq![n] + preorder_all(n.children@)
}

/// Everything under a run of siblings, in document order.
pub open spec fn preorder_all(es: Seq<SyntaxElement>) -> Seq<SyntaxNode>
    decreases es,
{
    if es.len() == 0 {
        Seq::empty()
    } else {
        preorder_all(es.drop_last()) + match es.last() {
            SyntaxElement::Node(m) => preorder(m),
            SyntaxElement::Token(_) => Seq::empty(),
        }
    }
}

fn collect_under<'a>(es: &'a Vec<SyntaxElement>, out: &mut Vec<&'a SyntaxNode>)
    ensures
        deref_nodes(final(out)@) == deref_nodes(old(out)@) + preorder_all(es@),
    decreases es@,
{
    let ghost start = deref_nodes(out@);
    let mut i: usize = 0;
    assert(start + preorder_all(es@.subrange(0, 0)) =~= start);
    while i < es.len()
        invariant
            i <= es@.len(),
            start == deref_nodes(old(out)@),
            deref_nodes(out@) == start + preorder_all(es@.subrange(0, i as int)),
        decreases es@.len() - i,
    {
        let ghost before = deref_nodes(out@);
        proof {
            assert(es@.subrange(0, i + 1).drop_last() =~= es@.subrange(0, i as int));
            assert(es@.subrange(0, i + 1).last() == es@[i as int]);
        }
        match &es[i] {
            SyntaxElement::Node(m) => {
                proof {
                    assert(decreases_to!(es@ => es@[i as int]));
                }
                collect_node(m, out);
                assert(deref_nodes(out@) =~= start + preorder_all(es@.subrange(0, i + 1)));
            },
            SyntaxElement::Token(_) => {
                assert(deref_nodes(out@) =~= start + preorder_all(es@.subrange(0, i + 1)));
            },
        }
        i += 1;
    }
    assert(es@.subrange(0, es@.len() as int) =~= es@);
}

fn collect_node<'a>(node: &'a SyntaxNode, out: &mut Vec<&'a SyntaxNode>)
    ensures
        deref_nodes(final(out)@) == deref_nodes(old(out)@) + preorder(*node),
    decreases *node,
{
    let ghost start = deref_nodes(out@);
    out.push(node);
    assert(deref_nodes(out@) =~= start.push(*node));
    proof {
        assert(decreases_to!(*node => node.children));
        assert(decreases_to!(node.children => node.children@));
    }
    collect_under(&node.children, out);
    assert(deref_nodes(out@) =~= start + preorder(*node));
}

/// A node and everything under it, in document order.
pub fn descendants(node: &SyntaxNode) -> (r: Vec<&SyntaxNode>)
    ensures
        deref_nodes(r@) == preorder(*node),
{
    let mut out: Vec<&SyntaxNode> = Vec::new();
    collect_node(node, &mut out);
    assert(deref_nodes(out@) =~= Seq::<SyntaxNode>::empty() + preorder(*node));
    assert(Seq::<SyntaxNode>::empty() + preorder(*node) =~= preorder(*node));
    out
}

/// Where the first of `ns` from `i` on of kind `k` stands.
pub open spec fn first_kind_at(ns: Seq<SyntaxNode>, k: NodeKind, i: int) -> Option<int>
    decreases ns.len() - i,
{
    if i < 0 || i >= ns.len() {
        None
    } else if ns[i].kind == k {
        Some(i)
    } else {
        first_kind_at(ns, k, i + 1)
    }
}

/// The first node of kind `k` at or under `node`, in document order.
pub open spec fn first_descendant(node: SyntaxNode, k: NodeKind) -> Option<SyntaxNode> {
    match first_kind_at(preorder(node), k, 0) {
        Some(i) => Some(preorder(node)[i]),
        None => None,
    }
}

pub proof fn lemma_first_kind_at(ns: Seq<SyntaxNode>, k: NodeKind, i: int)
    requires
        0 <= i,
    ensures
        first_kind_at(ns, k, i) matches Some(j) ==> i <= j < ns.len() && ns[j].kind == k,
    decreases ns.len() - i,
{
    if i < ns.len() && ns[i].kind != k {
        lemma_first_kind_at(ns, k, i + 1);
    }
}

/// The first node of kind `k` at or under `node`.
pub fn find_descendant(node: &SyntaxNode, k: NodeKind) -> (r: Option<&SyntaxNode>)
    ensures
        match first_descendant(*node, k) {
            Some(d) => r matches Some(x) && *x == d,
            None => r is None,
        },
{
    let all = descendants(node);
    let ghost ns = deref_nodes(all@);
    let mut i: usize = 0;
    while i < all.len()
        invariant
            i <= all@.len(),
            ns == deref_nodes(all@),
            ns == preorder(*node),
            first_kind_at(ns, k, 0) == first_kind_at(ns, k, i as int),
        decreases all@.len() - i,
    {
        assert(ns[i as int] == *all@[i as int]);
        if all[i].kind == k {
            return Some(all[i]);
        }
        i += 1;
    }
    None
}

// ===== Signatures =====

/// The name a discarded slot is given: `my (undef, $name) = @_` takes the
/// invocant and throws it away, and the slot is still a parameter. It has no
/// sigil, so nothing is ever bound under it.
pub const PLACEHOLDER: &'static str = "undef";

/// `$self` and `$class`, the two names modules use for the invocant, and the
/// discarded slot.
pub open spec fn spec_is_invocant_name(name: Seq<char>) -> bool {
    name == "$self"@ || name == "$class"@ || name == "undef"@
}

pub fn is_invocant_name(display: &str) -> (r: bool)
    ensures
        r == spec_is_invocant_name(display@),
{
    same_text(display, "$self") || same_text(display, "$class") || same_text(display, "undef")
}

/// The invocant a `method` has and never names: first in a positional list,
/// which counts it, and the named list's invocant.
pub open spec fn spec_with_implicit_invocant(p: ParamsV) -> ParamsV {
    match p {
        ParamsV::Unknown => ParamsV::Unknown,
        ParamsV::Positional { params, slurpy, source, .. } => ParamsV::Positional {
            params: seq![("$self"@, false, TypeV::Any)] + params,
            slurpy,
            invocant: true,
            source,
        },
        ParamsV::Named { params, source, .. } => ParamsV::Named { params, invocant: Some("$self"@), source },
    }
}

pub fn with_implicit_invocant(params: Params) -> (r: Params)
    ensures
        params_view(r) == spec_with_implicit_invocant(params_view(params)),
{
    match params {
        Params::Unknown => Params::Unknown,
        Params::Positional { params, slurpy, source, .. } => {
            let mut params = params;
            let ghost before = param_views(params@);
            params.insert(0, Param { name: "$self".to_string(), optional: false, ty: Type::Any });
            assert(param_views(params@) =~= seq![("$self"@, false, TypeV::Any)] + before);
            Params::Positional { params, slurpy, invocant: true, source }
        },
        Params::Named { params, source, .. } => Params::Named { params, invocant: Some("$self".to_string()), source },
    }
}

/// The variable a signature parameter declares.
pub open spec fn param_variable(p: SyntaxNode) -> Option<SyntaxNode> {
    found(child_nodes(p), first_variable(child_nodes(p), 0))
}

/// A variable as a message names it: `$x`, `@rest`.
pub open spec fn display_of(v: SyntaxNode) -> Seq<char> {
    spec_sigil_text(sigil_of_kind(v.kind)) + name_of(child_tokens(v))
}

/// What reading a signature has found so far.
pub struct SigScan {
    pub params: Seq<(Seq<char>, bool, TypeV)>,
    pub slurpy: bool,
    /// A parameter after a default is optional whether or not it has one of
    /// its own: perl fills them left to right.
    pub optional: bool,
}

pub open spec fn sig_scan(ps: Seq<SyntaxNode>, n: int) -> SigScan
    decreases n,
{
    if n <= 0 || n > ps.len() {
        SigScan { params: Seq::empty(), slurpy: false, optional: false }
    } else {
        let prev = sig_scan(ps, n - 1);
        match param_variable(ps[n - 1]) {
            None => prev,
            Some(v) => if sigil_of_kind(v.kind) != Sigil::Scalar {
                SigScan { slurpy: true, ..prev }
            } else {
                let optional = prev.optional || child_of(ps[n - 1], NodeKind::SignatureDefault) is Some;
                SigScan { params: prev.params.push((display_of(v), optional, TypeV::Any)), optional, ..prev }
            },
        }
    }
}

/// What a signature says: every parameter `Any` and the arity exact — or,
/// where a parameter has a sigil and no name, a prototype, which says
/// nothing.
pub open spec fn spec_from_signature(sig: SyntaxNode) -> ParamsV {
    let ps = signature_params(child_nodes(sig));
    if exists|i: int| 0 <= i < ps.len() && param_variable(#[trigger] ps[i]) is None {
        ParamsV::Unknown
    } else {
        let st = sig_scan(ps, ps.len() as int);
        ParamsV::Positional {
            params: st.params,
            slurpy: st.slurpy,
            invocant: st.params.len() > 0 && spec_is_invocant_name(st.params[0].0),
            source: ParamSource::Signature,
        }
    }
}

pub fn from_signature(signature: &SubSignature) -> (r: Params)
    ensures
        params_view(r) == spec_from_signature(*signature.0),
{
    let all = signature.params();
    let ghost ps = signature_params(child_nodes(*signature.0));
    let mut i: usize = 0;
    while i < all.len()
        invariant
            i <= all@.len(),
            ps == signature_params(child_nodes(*signature.0)),
            all@.len() == ps.len(),
            forall|j: int| 0 <= j < all@.len() ==> *(#[trigger] all@[j]).0 == ps[j],
            forall|j: int| 0 <= j < i ==> param_variable(#[trigger] ps[j]) is Some,
        decreases all@.len() - i,
    {
        if all[i].variable().is_none() {
            assert(param_variable(ps[i as int]) is None);
            return Params::Unknown;
        }
        i += 1;
    }
    let mut params: Vec<Param> = Vec::new();
    let mut slurpy = false;
    let mut optional = false;
    let mut i: usize = 0;
    while i < all.len()
        invariant
            i <= all@.len(),
            all@.len() == ps.len(),
            forall|j: int| 0 <= j < all@.len() ==> *(#[trigger] all@[j]).0 == ps[j],
            param_views(params@) == sig_scan(ps, i as int).params,
            slurpy == sig_scan(ps, i as int).slurpy,
            optional == sig_scan(ps, i as int).optional,
        decreases all@.len() - i,
    {
        let param = &all[i];
        assert(*param.0 == ps[i as int]);
        match param.variable() {
            None => {},
            Some(variable) => {
                if variable.sigil() != Sigil::Scalar {
                    slurpy = true;
                } else {
                    if param.default().is_some() {
                        optional = true;
                    }
                    let ghost before = param_views(params@);
                    let name = variable.display();
                    params.push(Param { name, optional, ty: Type::Any });
                    assert(param_views(params@) =~= before.push((display_of(*variable.syntax()), optional, TypeV::Any)));
                    assert(param_views(params@) =~= sig_scan(ps, i + 1).params);
                }
            },
        }
        i += 1;
    }
    let invocant = params.len() > 0 && is_invocant_name(params[0].name.as_str());
    assert(params.len() > 0 ==> param_views(params@)[0].0 == params@[0].name@);
    Params::Positional { params, slurpy, invocant, source: ParamSource::Signature }
}

// ===== `Smart::Args` =====

/// `my $who` in an `args` list: the one variable it declares.
pub open spec fn spec_declared_variable(n: SyntaxNode) -> Option<Seq<char>> {
    if n.kind == NodeKind::VarDecl && first_keyword(child_tokens(n), 0) == Some(DeclKeyword::My) {
        match child_of(n, NodeKind::DeclTarget) {
            Some(t) => if variables_under(t).len() == 1 {
                Some(display_of(variables_under(t)[0]))
            } else {
                None
            },
            None => None,
        }
    } else {
        None
    }
}

pub fn declared_variable(node: &SyntaxNode) -> (r: Option<String>)
    ensures
        match spec_declared_variable(*node) {
            Some(v) => r matches Some(s) && s@ == v,
            None => r is None,
        },
{
    let declaration = match VarDecl::cast(node) {
        Some(d) => d,
        None => return None,
    };
    match declaration.keyword() {
        Some(DeclKeyword::My) => {},
        _ => return None,
    }
    let targets = declaration.targets();
    if targets.len() == 1 {
        Some(targets[0].display())
    } else {
        None
    }
}

/// What one `key => value` of a rule's hash says: `isa` names the type, a
/// true `optional` or any `default` or `builder` makes the parameter
/// optional.
pub struct RuleScan {
    pub optional: bool,
    pub annotation: Option<Option<(Seq<char>, bool, TextRange)>>,
}

pub open spec fn rule_scan(ps: Seq<ArgV>, n: int) -> RuleScan
    decreases n,
{
    if n <= 0 || n > ps.len() {
        RuleScan { optional: false, annotation: None }
    } else {
        let prev = rule_scan(ps, n - 1);
        match ps[n - 1] {
            ArgV::Pair { key_text: Some(k), value, .. } => if k == "isa"@ {
                RuleScan { annotation: Some(spec_annotation_of(value)), ..prev }
            } else if k == "optional"@ {
                RuleScan { optional: spec_is_true(value), ..prev }
            } else if k == "default"@ || k == "builder"@ {
                RuleScan { optional: true, ..prev }
            } else {
                prev
            },
            _ => prev,
        }
    }
}

/// The rule after `=>`: a type, or a hash with `isa`, `optional` and
/// `default`.
pub open spec fn spec_read_rule(n: SyntaxNode) -> (bool, Option<(Seq<char>, bool, TextRange)>) {
    let m = spec_without_plus(n);
    if m.kind == NodeKind::AnonHash {
        let ps = match list_child(m) {
            Some(l) => spec_pairs(l),
            None => Seq::empty(),
        };
        let st = rule_scan(ps, ps.len() as int);
        (
            st.optional,
            match st.annotation {
                Some(a) => a,
                None => None,
            },
        )
    } else {
        (false, spec_annotation_of(m))
    }
}

pub open spec fn annotation_view(a: Option<Annotation>) -> Option<(Seq<char>, bool, TextRange)> {
    match a {
        Some(x) => Some((x.text@, x.quoted, x.range)),
        None => None,
    }
}

pub fn read_rule(node: &SyntaxNode) -> (r: (bool, Option<Annotation>))
    ensures
        (r.0, annotation_view(r.1)) == spec_read_rule(*node),
{
    let node = without_plus(node);
    if node.kind == NodeKind::AnonHash {
        let pairs = AnonHash(node).pairs();
        let ghost ps: Seq<ArgV> = match list_child(*node) {
            Some(l) => spec_pairs(l),
            None => Seq::empty(),
        };
        assert(arg_views(pairs@) =~= ps);
        let mut optional = false;
        let mut annotation: Option<Option<Annotation>> = None;
        let mut i: usize = 0;
        while i < pairs.len()
            invariant
                i <= pairs@.len(),
                arg_views(pairs@) == ps,
                optional == rule_scan(ps, i as int).optional,
                (match annotation {
                    Some(a) => Some(annotation_view(a)),
                    None => None,
                }) == rule_scan(ps, i as int).annotation,
            decreases pairs@.len() - i,
        {
            assert(ps[i as int] == arg_view(pairs@[i as int]));
            match pairs[i].key() {
                Some(k) => {
                    if same_text(k, "isa") {
                        annotation = Some(annotation_of(pairs[i].node()));
                    } else if same_text(k, "optional") {
                        optional = is_true(pairs[i].node());
                    } else if same_text(k, "default") || same_text(k, "builder") {
                        optional = true;
                    }
                },
                None => {},
            }
            i += 1;
        }
        let flat = match annotation {
            Some(a) => a,
            None => None,
        };
        return (optional, flat);
    }
    (false, annotation_of(node))
}

/// Where the first call at or under a node stands in document order.
pub open spec fn first_call_at(ns: Seq<SyntaxNode>, i: int) -> Option<int>
    decreases ns.len() - i,
{
    if i < 0 || i >= ns.len() {
        None
    } else if is_call_kind(ns[i].kind) {
        Some(i)
    } else {
        first_call_at(ns, i + 1)
    }
}

/// The call a statement begins with: the first call in it, where that call
/// starts where the statement does.
pub open spec fn leading_call(statement: SyntaxNode) -> Option<SyntaxNode> {
    let ns = preorder(statement);
    match first_call_at(ns, 0) {
        Some(i) => if ns[i].range.start == statement.range.start {
            Some(ns[i])
        } else {
            None
        },
        None => None,
    }
}

pub proof fn lemma_first_call_at(ns: Seq<SyntaxNode>, i: int)
    requires
        0 <= i,
    ensures
        first_call_at(ns, i) matches Some(j) ==> i <= j < ns.len() && is_call_kind(ns[j].kind),
    decreases ns.len() - i,
{
    if i < ns.len() && !is_call_kind(ns[i].kind) {
        lemma_first_call_at(ns, i + 1);
    }
}

/// The call a statement begins with.
pub fn leading_call_of(statement: &SyntaxNode) -> (r: Option<Call<'_>>)
    ensures
        match leading_call(*statement) {
            Some(c) => r matches Some(x) && *x.syntax() == c && ((x is Code) == (c.kind == NodeKind::CodeCallExpr)),
            None => r is None,
        },
{
    let all = descendants(statement);
    let ghost ns = deref_nodes(all@);
    proof {
        lemma_first_call_at(ns, 0);
    }
    let mut i: usize = 0;
    while i < all.len()
        invariant
            i <= all@.len(),
            ns == deref_nodes(all@),
            ns == preorder(*statement),
            first_call_at(ns, 0) == first_call_at(ns, i as int),
        decreases all@.len() - i,
    {
        assert(ns[i as int] == *all@[i as int]);
        match Call::cast(all[i]) {
            Some(call) => {
                if all[i].range.start == statement.range.start {
                    return Some(call);
                }
                return None;
            },
            None => {},
        }
        i += 1;
    }
    None
}

/// What reading an `args` list has found so far.
pub struct ArgsScan {
    pub params: Seq<(Seq<char>, bool, TypeV)>,
    pub invocant: Option<Seq<char>>,
    /// An entry the recogniser does not cover: the whole list is a guess.
    pub failed: bool,
    pub notes: Seq<(TypeV, TextRange)>,
    pub bads: Seq<DiagV>,
}

/// The declaration and the rule of one entry.
pub open spec fn entry_parts(a: ArgV) -> (SyntaxNode, Option<SyntaxNode>) {
    match a {
        ArgV::Pair { key, value, .. } => (key, Some(value)),
        ArgV::Positional(n) => (n, None),
    }
}

pub open spec fn args_scan(ps: Seq<ArgV>, positional: bool, n: int) -> ArgsScan
    decreases n,
{
    if n <= 0 || n > ps.len() {
        ArgsScan { params: Seq::empty(), invocant: None, failed: false, notes: Seq::empty(), bads: Seq::empty() }
    } else {
        let prev = args_scan(ps, positional, n - 1);
        let (declaration, rule) = entry_parts(ps[n - 1]);
        if prev.failed {
            prev
        } else {
            match spec_declared_variable(declaration) {
                None => ArgsScan { failed: true, ..prev },
                Some(v) => {
                    let is_invocant = n - 1 == 0 && spec_is_invocant_name(v);
                    let prev = if is_invocant {
                        ArgsScan { invocant: Some(v), ..prev }
                    } else {
                        prev
                    };
                    if is_invocant && !positional {
                        prev
                    } else {
                        let (optional, annotation) = match rule {
                            Some(r) => spec_read_rule(r),
                            None => (false, None),
                        };
                        match annotation {
                            Some(a) => {
                                let e = annotation_effect(a);
                                ArgsScan {
                                    params: prev.params.push((v, optional, e.0)),
                                    notes: prev.notes + e.1,
                                    bads: prev.bads + e.2,
                                    ..prev
                                }
                            },
                            None => ArgsScan { params: prev.params.push((v, optional, TypeV::Unknown)), ..prev },
                        }
                    }
                },
            }
        }
    }
}

/// The `args` or `args_pos` call a body begins with, as the callee's name
/// and the call.
pub open spec fn args_call(body: SyntaxNode) -> Option<(bool, SyntaxNode)> {
    let cs = child_nodes(body);
    if cs.len() == 0 {
        None
    } else {
        match leading_call(cs[0]) {
            Some(c) => if c.kind == NodeKind::CodeCallExpr {
                None
            } else {
                match name_child_text(c) {
                    Some(name) => if name == "args"@ {
                        Some((false, c))
                    } else if name == "args_pos"@ {
                        Some((true, c))
                    } else {
                        None
                    },
                    None => None,
                }
            },
            None => None,
        }
    }
}

/// `args my $self, my $who => 'Str', ...` as the first statement of a body:
/// the parameter list it declares, `Unknown` where an entry is not a `my`
/// declaration, and nothing where the body does not begin with one.
pub open spec fn spec_from_args(body: SyntaxNode) -> Option<ParamsV> {
    match args_call(body) {
        None => None,
        Some((positional, call)) => {
            let ps = spec_call_pairs(call);
            let st = args_scan(ps, positional, ps.len() as int);
            Some(
                if st.failed {
                    ParamsV::Unknown
                } else if positional {
                    ParamsV::Positional {
                        params: st.params,
                        slurpy: false,
                        invocant: st.invocant is Some,
                        source: ParamSource::Args,
                    }
                } else {
                    ParamsV::Named { params: st.params, invocant: st.invocant, source: ParamSource::Args }
                },
            )
        },
    }
}

/// What reading the `args` list records: the annotations of the entries it
/// read before it stopped.
pub open spec fn args_effect(body: SyntaxNode) -> (Seq<(TypeV, TextRange)>, Seq<DiagV>) {
    match args_call(body) {
        None => (Seq::empty(), Seq::empty()),
        Some((positional, call)) => {
            let ps = spec_call_pairs(call);
            let st = args_scan(ps, positional, ps.len() as int);
            (st.notes, st.bads)
        },
    }
}

pub fn from_args(body: &Block, into: &mut Sink) -> (r: Option<Params>)
    ensures
        match spec_from_args(*body.0) {
            Some(p) => r matches Some(x) && params_view(x) == p,
            None => r is None,
        },
        sink_grew(*old(into), *final(into), args_effect(*body.0).0, args_effect(*body.0).1),
{
    proof {
        assert(annotated_views(into.annotations@) + Seq::<(TypeV, TextRange)>::empty() =~= annotated_views(into.annotations@));
        assert(diagnostic_views(into.diagnostics@) + Seq::<DiagV>::empty() =~= diagnostic_views(into.diagnostics@));
    }
    let statements = body.statements();
    if statements.len() == 0 {
        return None;
    }
    assert(*statements@[0] == child_nodes(*body.0)[0]);
    let call = match leading_call_of(statements[0]) {
        Some(c) => c,
        None => return None,
    };
    let callee = match call.callee_name() {
        Some(name) => name,
        None => return None,
    };
    let positional = if same_text(callee.as_str(), "args") {
        false
    } else if same_text(callee.as_str(), "args_pos") {
        true
    } else {
        return None;
    };
    let pairs = call.pairs();
    let ghost ps = spec_call_pairs(*call.syntax());
    let ghost start = *into;
    let mut params: Vec<Param> = Vec::new();
    let mut invocant: Option<String> = None;
    let mut i: usize = 0;
    assert(param_views(params@) =~= Seq::<(Seq<char>, bool, TypeV)>::empty());
    while i < pairs.len()
        invariant
            i <= pairs@.len(),
            arg_views(pairs@) == ps,
            ps == spec_call_pairs(*call.syntax()),
            args_call(*body.0) == Some((positional, *call.syntax())),
            start == *old(into),
            !args_scan(ps, positional, i as int).failed,
            param_views(params@) == args_scan(ps, positional, i as int).params,
            (match invocant {
                Some(v) => Some(v@),
                None => None,
            }) == args_scan(ps, positional, i as int).invocant,
            sink_grew(start, *into, args_scan(ps, positional, i as int).notes, args_scan(ps, positional, i as int).bads),
        decreases pairs@.len() - i,
    {
        let ghost prev = args_scan(ps, positional, i as int);
        assert(ps[i as int] == arg_view(pairs@[i as int]));
        let (declaration, rule) = match &pairs[i] {
            Arg::Pair { key, value, .. } => (*key, Some(*value)),
            Arg::Positional(node) => (*node, None),
        };
        let variable = match declared_variable(declaration) {
            Some(v) => v,
            None => {
                proof {
                    assert(args_scan(ps, positional, i + 1).failed);
                    lemma_args_scan_failed(ps, positional, i + 1, ps.len() as int);
                }
                return Some(Params::Unknown);
            },
        };
        let is_invocant = i == 0 && is_invocant_name(variable.as_str());
        if is_invocant {
            invocant = Some(variable.clone());
        }
        if !(is_invocant && !positional) {
            let (optional, annotation) = match rule {
                Some(r) => read_rule(r),
                None => (false, None),
            };
            let ghost before = *into;
            let ty = match &annotation {
                Some(a) => read_annotation_recorded(a, into),
                None => Type::Unknown,
            };
            let ghost pv = param_views(params@);
            params.push(Param { name: variable, optional, ty });
            proof {
                assert(param_views(params@) =~= pv.push((params@[params@.len() - 1].name@, optional, ty@)));
                match annotation {
                    Some(a) => {
                        let e = annotation_effect((a.text@, a.quoted, a.range));
                        assert(annotated_views(into.annotations@) =~= annotated_views(start.annotations@) + (prev.notes + e.1));
                        assert(diagnostic_views(into.diagnostics@) =~= diagnostic_views(start.diagnostics@) + (prev.bads + e.2));
                    },
                    None => {},
                }
            }
        }
        i += 1;
    }
    assert(args_scan(ps, positional, pairs@.len() as int) == args_scan(ps, positional, ps.len() as int));
    Some(
        if positional {
            Params::Positional { params, slurpy: false, invocant: invocant.is_some(), source: ParamSource::Args }
        } else {
            Params::Named { params, invocant, source: ParamSource::Args }
        },
    )
}

proof fn lemma_args_scan_failed(ps: Seq<ArgV>, positional: bool, k: int, n: int)
    requires
        0 < k <= n <= ps.len(),
        args_scan(ps, positional, k).failed,
    ensures
        args_scan(ps, positional, n) == args_scan(ps, positional, k),
    decreases n - k,
{
    if n > k {
        lemma_args_scan_failed(ps, positional, k, n - 1);
    }
}

/// Read an annotation, and say exactly what reading it recorded.
fn read_annotation_recorded(annotation: &Annotation, into: &mut Sink) -> (r: Type)
    ensures
        ({
            let e = annotation_effect((annotation.text@, annotation.quoted, annotation.range));
            r@ == e.0 && sink_grew(*old(into), *final(into), e.1, e.2)
        }),
{
    let ghost before = *into;
    let r = crate::annotate::read_annotation(annotation, into);
    proof {
        let e = annotation_effect((annotation.text@, annotation.quoted, annotation.range));
        assert(annotated_views(into.annotations@) =~= annotated_views(before.annotations@) + e.1);
        assert(diagnostic_views(into.diagnostics@) =~= diagnostic_views(before.diagnostics@) + e.2);
    }
    r
}

// ===== Unpacking `@_` =====

/// `@_`, the argument list.
pub open spec fn spec_is_argument_list(n: SyntaxNode) -> bool {
    is_variable_kind(n.kind) && sigil_of_kind(n.kind) == Sigil::Array && name_of(child_tokens(n)) == "_"@
}

pub fn is_argument_list(node: &SyntaxNode) -> (r: bool)
    ensures
        r == spec_is_argument_list(*node),
{
    proof {
        reveal_strlit("_");
    }
    match Variable::cast(node) {
        Some(variable) => variable.sigil() == Sigil::Array && match variable.name() {
            Some(name) => same_text(name.as_str(), "_"),
            None => false,
        },
        None => false,
    }
}

/// The slots of `my (...)`, in order, a discarded `undef` slot included.
pub open spec fn slots_under(n: SyntaxNode) -> Seq<Option<SyntaxNode>>
    decreases n,
{
    slots_in(n.children@)
}

pub open spec fn slots_in(es: Seq<SyntaxElement>) -> Seq<Option<SyntaxNode>>
    decreases es,
{
    if es.len() == 0 {
        Seq::empty()
    } else {
        slots_in(es.drop_last()) + match es.last() {
            SyntaxElement::Node(m) => if is_variable_kind(m.kind) {
                seq![Some(m)]
            } else if m.kind == NodeKind::UndefExpr {
                seq![None]
            } else {
                slots_under(m)
            },
            SyntaxElement::Token(_) => Seq::empty(),
        }
    }
}

pub open spec fn slot_views<'a>(s: Seq<Option<&'a SyntaxNode>>) -> Seq<Option<SyntaxNode>> {
    s.map_values(
        |o: Option<&'a SyntaxNode>|
            match o {
                Some(n) => Some(*n),
                None => None,
            },
    )
}

fn collect_slots<'a>(node: &'a SyntaxNode, acc: &mut Vec<Option<&'a SyntaxNode>>)
    ensures
        slot_views(final(acc)@) == slot_views(old(acc)@) + slots_under(*node),
    decreases *node,
{
    let ghost start = slot_views(acc@);
    let mut i: usize = 0;
    assert(start + slots_in(node.children@.subrange(0, 0)) =~= start);
    while i < node.children.len()
        invariant
            i <= node.children@.len(),
            start == slot_views(old(acc)@),
            slot_views(acc@) == start + slots_in(node.children@.subrange(0, i as int)),
        decreases node.children@.len() - i,
    {
        proof {
            assert(node.children@.subrange(0, i + 1).drop_last() =~= node.children@.subrange(0, i as int));
            assert(node.children@.subrange(0, i + 1).last() == node.children@[i as int]);
        }
        let ghost before = slot_views(acc@);
        match &node.children[i] {
            SyntaxElement::Node(child) => {
                if is_variable_kind_exec(child.kind) {
                    acc.push(Some(child));
                    assert(slot_views(acc@) =~= before + seq![Some(*child)]);
                } else if child.kind == NodeKind::UndefExpr {
                    acc.push(None);
                    assert(slot_views(acc@) =~= before + seq![None::<SyntaxNode>]);
                } else {
                    proof {
                        assert(decreases_to!(*node => node.children));
                        assert(decreases_to!(node.children => node.children@));
                        assert(decreases_to!(node.children@ => node.children@[i as int]));
                    }
                    collect_slots(child, acc);
                }
                assert(slot_views(acc@) =~= start + slots_in(node.children@.subrange(0, i + 1)));
            },
            SyntaxElement::Token(_) => {
                assert(slot_views(acc@) =~= start + slots_in(node.children@.subrange(0, i + 1)));
            },
        }
        i += 1;
    }
    assert(node.children@.subrange(0, node.children@.len() as int) =~= node.children@);
}

pub fn is_variable_kind_exec(k: NodeKind) -> (r: bool)
    ensures
        r == is_variable_kind(k),
{
    k == NodeKind::ScalarVar || k == NodeKind::ArrayVar || k == NodeKind::HashVar || k == NodeKind::CodeVar
        || k == NodeKind::TypeglobVar || k == NodeKind::ArrayLastIndex
}

proof fn lemma_slots_under(n: SyntaxNode)
    ensures
        forall|k: int| 0 <= k < slots_under(n).len() ==> (#[trigger] slots_under(n)[k] matches Some(m) ==> is_variable_kind(m.kind)),
    decreases n,
{
    lemma_slots_in(n.children@);
}

proof fn lemma_slots_in(es: Seq<SyntaxElement>)
    ensures
        forall|k: int| 0 <= k < slots_in(es).len() ==> (#[trigger] slots_in(es)[k] matches Some(m) ==> is_variable_kind(m.kind)),
    decreases es,
{
    if es.len() > 0 {
        lemma_slots_in(es.drop_last());
        let prior = slots_in(es.drop_last());
        match es.last() {
            SyntaxElement::Node(m) => {
                if !is_variable_kind(m.kind) && m.kind != NodeKind::UndefExpr {
                    assert(decreases_to!(es => es[es.len() - 1]));
                    lemma_slots_under(m);
                }
                let tail = if is_variable_kind(m.kind) {
                    seq![Some(m)]
                } else if m.kind == NodeKind::UndefExpr {
                    seq![None]
                } else {
                    slots_under(m)
                };
                assert(slots_in(es) == prior + tail);
                assert forall|k: int| 0 <= k < slots_in(es).len() implies (#[trigger] slots_in(es)[k] matches Some(x) ==> is_variable_kind(x.kind)) by {
                    if k < prior.len() {
                        assert(slots_in(es)[k] == prior[k]);
                    } else {
                        assert(slots_in(es)[k] == tail[k - prior.len()]);
                    }
                }
            },
            SyntaxElement::Token(_) => {
                assert(slots_in(es) =~= prior);
            },
        }
    }
}

/// The names `my (...) = @_` binds, and whether the last slurps.
pub open spec fn unpack_names(slots: Seq<Option<SyntaxNode>>, n: int) -> (Seq<Seq<char>>, bool)
    decreases n,
{
    if n <= 0 || n > slots.len() {
        (Seq::empty(), false)
    } else {
        let prev = unpack_names(slots, n - 1);
        match slots[n - 1] {
            Some(v) => if sigil_of_kind(v.kind) == Sigil::Scalar {
                (prev.0.push(display_of(v)), prev.1)
            } else {
                (prev.0, true)
            },
            None => (prev.0.push("undef"@), prev.1),
        }
    }
}

/// The assignment a `my` statement makes.
pub open spec fn statement_assignment(statement: SyntaxNode) -> Option<SyntaxNode> {
    if statement.kind == NodeKind::VarDeclStmt {
        first_descendant(statement, NodeKind::AssignExpr)
    } else {
        None
    }
}

/// Whether a node is a `my` declaration.
pub open spec fn declares_with_my(n: SyntaxNode) -> bool {
    n.kind == NodeKind::VarDecl && first_keyword(child_tokens(n), 0) == Some(DeclKeyword::My)
}

/// `my ($a, $b, %rest) = @_;`: the names, and whether the last one slurps.
pub open spec fn spec_list_unpacking(statement: SyntaxNode) -> Option<(Seq<Seq<char>>, bool)> {
    match statement_assignment(statement) {
        None => None,
        Some(a) => {
            let cs = child_nodes(a);
            if cs.len() <= 1 || !spec_is_argument_list(cs[1]) || !declares_with_my(cs[0]) {
                None
            } else {
                let slots = match child_of(cs[0], NodeKind::DeclTarget) {
                    Some(t) => slots_under(t),
                    None => Seq::empty(),
                };
                Some(unpack_names(slots, slots.len() as int))
            }
        },
    }
}

pub fn list_unpacking(statement: &SyntaxNode) -> (r: Option<(Vec<String>, bool)>)
    ensures
        match spec_list_unpacking(*statement) {
            Some((names, slurpy)) => r matches Some(x) && crate::types::strings_view(x.0@) == names && x.1 == slurpy,
            None => r is None,
        },
{
    if statement.kind != NodeKind::VarDeclStmt {
        return None;
    }
    let assign = match find_descendant(statement, NodeKind::AssignExpr) {
        Some(a) => AssignExpr(a),
        None => return None,
    };
    let value = match assign.value() {
        Some(v) => v,
        None => return None,
    };
    if !is_argument_list(value) {
        return None;
    }
    let target = match assign.target() {
        Some(t) => t,
        None => return None,
    };
    let declaration = match VarDecl::cast(target) {
        Some(d) => d,
        None => return None,
    };
    match declaration.keyword() {
        Some(DeclKeyword::My) => {},
        _ => return None,
    }
    let mut slots: Vec<Option<&SyntaxNode>> = Vec::new();
    match target.first_child(NodeKind::DeclTarget) {
        Some(t) => {
            collect_slots(t, &mut slots);
            assert(slot_views(slots@) =~= Seq::<Option<SyntaxNode>>::empty() + slots_under(*t));
        },
        None => {
            assert(slot_views(slots@) =~= Seq::<Option<SyntaxNode>>::empty());
        },
    }
    let ghost sv = slot_views(slots@);
    proof {
        match child_of(*target, NodeKind::DeclTarget) {
            Some(t) => lemma_slots_under(t),
            None => {},
        }
    }
    let mut names: Vec<String> = Vec::new();
    let mut slurpy = false;
    let mut i: usize = 0;
    assert(crate::types::strings_view(names@) =~= Seq::<Seq<char>>::empty());
    while i < slots.len()
        invariant
            i <= slots@.len(),
            sv == slot_views(slots@),
            forall|k: int| 0 <= k < sv.len() ==> (#[trigger] sv[k] matches Some(m) ==> is_variable_kind(m.kind)),
            crate::types::strings_view(names@) == unpack_names(sv, i as int).0,
            slurpy == unpack_names(sv, i as int).1,
        decreases slots@.len() - i,
    {
        let ghost before = crate::types::strings_view(names@);
        match slots[i] {
            Some(node) => {
                assert(sv[i as int] == Some(*node));
                match Variable::cast(node) {
                    Some(variable) => {
                        if variable.sigil() == Sigil::Scalar {
                            names.push(variable.display());
                            assert(crate::types::strings_view(names@) =~= before.push(display_of(*node)));
                        } else {
                            slurpy = true;
                        }
                    },
                    None => {
                        assert(false);
                    },
                }
            },
            None => {
                assert(sv[i as int] == None::<SyntaxNode>);
                names.push(PLACEHOLDER.to_string());
                proof {
                    reveal_strlit("undef");
                }
                assert(crate::types::strings_view(names@) =~= before.push("undef"@));
            },
        }
        i += 1;
    }
    Some((names, slurpy))
}

/// What is shifted, and whether a default follows it: `shift || 'x'` has
/// one.
pub open spec fn shift_source(v: SyntaxNode) -> Option<(SyntaxNode, bool)> {
    if v.kind == NodeKind::BinaryExpr {
        match first_operator(child_tokens(v), 0) {
            Some(op) => if (op == TokenKind::LogicalOr || op == TokenKind::DefinedOr || op == TokenKind::OrKw)
                && child_nodes(v).len() > 0 {
                Some((child_nodes(v)[0], true))
            } else {
                None
            },
            None => None,
        }
    } else {
        Some((v, false))
    }
}

/// A `shift`, bare or of `@_`.
pub open spec fn shifts_arguments(value: SyntaxNode) -> bool {
    &&& is_call_kind(value.kind)
    &&& value.kind != NodeKind::CodeCallExpr
    &&& name_child_text(value) == Some("shift"@)
    &&& forall|i: int| 0 <= i < spec_args(value).len() ==> spec_is_argument_list(#[trigger] spec_args(value)[i])
}

/// The one scalar a `my` declares, by its name.
pub open spec fn sole_scalar(declaration: SyntaxNode) -> Option<Seq<char>> {
    if !declares_with_my(declaration) {
        None
    } else {
        match child_of(declaration, NodeKind::DeclTarget) {
            Some(t) => if variables_under(t).len() == 1 && sigil_of_kind(variables_under(t)[0].kind) == Sigil::Scalar {
                Some(display_of(variables_under(t)[0]))
            } else {
                None
            },
            None => None,
        }
    }
}

/// `my $x = shift;`, `my $x = shift @_;`, or `my $x = shift || 'default';`,
/// which makes the parameter optional: the name, and whether it is.
pub open spec fn spec_shift_unpacking(statement: SyntaxNode) -> Option<(Seq<char>, bool)> {
    match statement_assignment(statement) {
        None => None,
        Some(a) => {
            let cs = child_nodes(a);
            if first_assignment(child_tokens(a), 0) != Some(TokenKind::Assign) || cs.len() <= 1 {
                None
            } else {
                match shift_source(cs[1]) {
                    None => None,
                    Some((value, optional)) => if !shifts_arguments(value) {
                        None
                    } else {
                        match sole_scalar(cs[0]) {
                            Some(name) => Some((name, optional)),
                            None => None,
                        }
                    },
                }
            }
        },
    }
}

pub fn shift_unpacking(statement: &SyntaxNode) -> (r: Option<(String, bool)>)
    ensures
        match spec_shift_unpacking(*statement) {
            Some((name, optional)) => r matches Some(x) && x.0@ == name && x.1 == optional,
            None => r is None,
        },
{
    if statement.kind != NodeKind::VarDeclStmt {
        return None;
    }
    let assign = match find_descendant(statement, NodeKind::AssignExpr) {
        Some(a) => AssignExpr(a),
        None => return None,
    };
    if !assign.is_plain() {
        return None;
    }
    let whole = match assign.value() {
        Some(v) => v,
        None => return None,
    };
    let (value, optional) = if whole.kind == NodeKind::BinaryExpr {
        let binary = BinaryExpr(whole);
        match binary.operator() {
            Some(TokenKind::LogicalOr) | Some(TokenKind::DefinedOr) | Some(TokenKind::OrKw) => match binary.left() {
                Some(left) => (left, true),
                None => return None,
            },
            _ => return None,
        }
    } else {
        (whole, false)
    };
    let call = match Call::cast(value) {
        Some(c) => c,
        None => return None,
    };
    match call.callee_name() {
        Some(name) => {
            if !same_text(name.as_str(), "shift") {
                return None;
            }
        },
        None => return None,
    }
    let arguments = call.args();
    if !all_argument_lists(&arguments) {
        proof {
            let j = choose|j: int| 0 <= j < arguments@.len() && !spec_is_argument_list(#[trigger] deref_nodes(arguments@)[j]);
            assert(spec_args(*value)[j] == deref_nodes(arguments@)[j]);
        }
        return None;
    }
    let target = match assign.target() {
        Some(t) => t,
        None => return None,
    };
    let declaration = match VarDecl::cast(target) {
        Some(d) => d,
        None => return None,
    };
    match declaration.keyword() {
        Some(DeclKeyword::My) => {},
        _ => return None,
    }
    let targets = declaration.targets();
    if targets.len() == 1 && targets[0].sigil() == Sigil::Scalar {
        Some((targets[0].display(), optional))
    } else {
        None
    }
}

/// Whether every node is `@_`.
pub fn all_argument_lists(nodes: &Vec<&SyntaxNode>) -> (r: bool)
    ensures
        r == (forall|i: int| 0 <= i < nodes@.len() ==> spec_is_argument_list(#[trigger] deref_nodes(nodes@)[i])),
{
    let mut i: usize = 0;
    while i < nodes.len()
        invariant
            i <= nodes@.len(),
            forall|j: int| 0 <= j < i ==> spec_is_argument_list(#[trigger] deref_nodes(nodes@)[j]),
        decreases nodes@.len() - i,
    {
        assert(deref_nodes(nodes@)[i as int] == *nodes@[i as int]);
        if !is_argument_list(nodes[i]) {
            return false;
        }
        i += 1;
    }
    true
}

/// The text of a quoted construct that interpolates: a double-quoted string,
/// a pattern, a here-document's body. A single-quoted string interpolates
/// nothing.
pub open spec fn interpolated_text(t: SyntaxToken) -> Option<Seq<char>> {
    if t.kind == TokenKind::StringLit {
        if t.text@.len() > 0 && t.text@[0] == '\'' {
            None
        } else {
            Some(t.text@)
        }
    } else if t.kind == TokenKind::InterpolatedString || t.kind == TokenKind::RegexPattern || t.kind
        == TokenKind::HeredocContent {
        Some(t.text@)
    } else {
        None
    }
}

/// Whether a quoted construct interpolates `@_`.
pub open spec fn spec_interpolates_arguments(t: SyntaxToken) -> bool {
    match interpolated_text(t) {
        Some(text) => {
            let uses = crate::interp::spec_scan(vstd::utf8::encode_utf8(text));
            exists|i: int| 0 <= i < uses.len() && (#[trigger] uses[i]).sigil == Sigil::Array && uses[i].name == "_"@
        },
        None => false,
    }
}

pub fn interpolates_arguments(token: &SyntaxToken) -> (r: bool)
    ensures
        r == spec_interpolates_arguments(*token),
{
    let interpolating = if token.kind == TokenKind::StringLit {
        !crate::text::starts_with(token.text.as_str(), "'")
    } else {
        token.kind == TokenKind::InterpolatedString || token.kind == TokenKind::RegexPattern || token.kind
            == TokenKind::HeredocContent
    };
    proof {
        reveal_strlit("'");
        reveal_strlit("_");
        if token.kind == TokenKind::StringLit {
            let t = token.text@;
            assert("'"@ =~= seq!['\'']);
            if t.len() > 0 {
                assert(t.subrange(0, 1) =~= seq![t[0]]);
                if t[0] == '\'' {
                    assert(t.subrange(0, 1) =~= "'"@);
                }
                if crate::text::spec_starts_with(t, "'"@) {
                    assert(t.subrange(0, 1)[0] == "'"@[0]);
                }
            }
            assert(interpolating == !(t.len() > 0 && t[0] == '\''));
        }
        assert(interpolating == (interpolated_text(*token) is Some));
    }
    if !interpolating {
        return false;
    }
    assert(interpolated_text(*token) == Some(token.text@));
    let text = token.text.as_str();
    assert(text.spec_bytes() == vstd::utf8::encode_utf8(token.text@));
    let uses = crate::interp::scan(text);
    let ghost uv = crate::interp::use_views(uses@);
    let mut i: usize = 0;
    while i < uses.len()
        invariant
            i <= uses@.len(),
            uv == crate::interp::use_views(uses@),
            uv == crate::interp::spec_scan(vstd::utf8::encode_utf8(token.text@)),
            interpolated_text(*token) == Some(token.text@),
            forall|j: int| 0 <= j < i ==> !((#[trigger] uv[j]).sigil == Sigil::Array && uv[j].name == "_"@),
        decreases uses@.len() - i,
    {
        assert(uv[i as int] == uses@[i as int]@);
        if uses[i].sigil == Sigil::Array && same_text(uses[i].name.as_str(), "_") {
            assert(uv[i as int].sigil == Sigil::Array);
            assert(uv[i as int].name == "_"@);
            return true;
        }
        i += 1;
    }
    false
}

/// Whether a node reads `@_`: interpolates it, shifts or pops it bare,
/// names it, or takes an element of it.
pub open spec fn reads_arguments(n: SyntaxNode) -> bool {
    let ts = child_tokens(n);
    ||| exists|i: int| 0 <= i < ts.len() && spec_interpolates_arguments(#[trigger] ts[i])
    ||| is_call_kind(n.kind) && n.kind != NodeKind::CodeCallExpr && (name_child_text(n) == Some("shift"@)
        || name_child_text(n) == Some("pop"@)) && spec_args(n).len() == 0
    ||| (n.kind == NodeKind::ArrayVar || n.kind == NodeKind::ArrayLastIndex) && name_of(ts) == "_"@
    ||| n.kind == NodeKind::ArraySubscriptExpr && !(exists|i: int| 0 <= i < ts.len() && (#[trigger] ts[i]).kind
        == TokenKind::Arrow) && child_nodes(n).len() > 0 && is_variable_kind(child_nodes(n)[0].kind) && name_of(
        child_tokens(child_nodes(n)[0]),
    ) == "_"@
}

/// Whether a range lies inside one of `consumed`.
pub open spec fn covered(consumed: Seq<TextRange>, r: TextRange) -> bool {
    exists|i: int| 0 <= i < consumed.len() && (#[trigger] consumed[i]).start <= r.start && r.end <= consumed[i].end
}

/// Whether `@_` is read anywhere but in the statements already accounted
/// for.
pub open spec fn spec_touches_arguments_elsewhere(body: SyntaxNode, consumed: Seq<TextRange>) -> bool {
    let ns = preorder(body);
    exists|i: int| 0 <= i < ns.len() && !covered(consumed, (#[trigger] ns[i]).range) && reads_arguments(ns[i])
}

pub fn reads_arguments_exec(node: &SyntaxNode) -> (r: bool)
    ensures
        r == reads_arguments(*node),
{
    proof {
        reveal_strlit("_");
    }
    let ts = crate::ast::tokens(node);
    let ghost tv = deref_tokens(ts@);
    let mut i: usize = 0;
    while i < ts.len()
        invariant
            i <= ts@.len(),
            tv == deref_tokens(ts@),
            tv == child_tokens(*node),
            forall|j: int| 0 <= j < i ==> !spec_interpolates_arguments(#[trigger] tv[j]),
        decreases ts@.len() - i,
    {
        assert(tv[i as int] == *ts@[i as int]);
        if interpolates_arguments(ts[i]) {
            return true;
        }
        i += 1;
    }
    match Call::cast(node) {
        Some(call) => {
            match call.callee_name() {
                Some(name) => {
                    if (same_text(name.as_str(), "shift") || same_text(name.as_str(), "pop")) && call.args().len() == 0 {
                        return true;
                    }
                },
                None => {},
            }
        },
        None => {},
    }
    if node.kind == NodeKind::ArrayVar || node.kind == NodeKind::ArrayLastIndex {
        return match Variable::cast(node) {
            Some(v) => match v.name() {
                Some(name) => same_text(name.as_str(), "_"),
                None => false,
            },
            None => false,
        };
    }
    if node.kind == NodeKind::ArraySubscriptExpr {
        let mut arrow = false;
        let mut j: usize = 0;
        while j < ts.len()
            invariant
                j <= ts@.len(),
                tv == deref_tokens(ts@),
                arrow == (exists|k: int| 0 <= k < j && (#[trigger] tv[k]).kind == TokenKind::Arrow),
            decreases ts@.len() - j,
        {
            assert(tv[j as int] == *ts@[j as int]);
            if ts[j].kind == TokenKind::Arrow {
                arrow = true;
            }
            j += 1;
        }
        if arrow {
            return false;
        }
        return match node.first_node() {
            Some(first) => match Variable::cast(first) {
                Some(v) => match v.name() {
                    Some(name) => same_text(name.as_str(), "_"),
                    None => false,
                },
                None => false,
            },
            None => false,
        };
    }
    false
}

pub fn touches_arguments_elsewhere(body: &SyntaxNode, consumed: &Vec<TextRange>) -> (r: bool)
    ensures
        r == spec_touches_arguments_elsewhere(*body, consumed@),
{
    let all = descendants(body);
    let ghost ns = deref_nodes(all@);
    let mut i: usize = 0;
    while i < all.len()
        invariant
            i <= all@.len(),
            ns == deref_nodes(all@),
            ns == preorder(*body),
            forall|j: int| 0 <= j < i ==> !(!covered(consumed@, (#[trigger] ns[j]).range) && reads_arguments(ns[j])),
        decreases all@.len() - i,
    {
        let node = all[i];
        assert(ns[i as int] == *node);
        let mut inside = false;
        let mut k: usize = 0;
        while k < consumed.len()
            invariant
                k <= consumed@.len(),
                inside == (exists|q: int| 0 <= q < k && (#[trigger] consumed@[q]).start <= node.range.start && node.range.end
                    <= consumed@[q].end),
            decreases consumed@.len() - k,
        {
            if consumed[k].start <= node.range.start && node.range.end <= consumed[k].end {
                inside = true;
            }
            k += 1;
        }
        if !inside && reads_arguments_exec(node) {
            return true;
        }
        i += 1;
    }
    false
}

// ===== Reading the unpacking at the top of a body =====

/// What the leading statements of a body unpack: the names, which of them
/// has a default, whether the last slurps, and which statements said so.
pub struct Plan {
    pub names: Seq<Seq<char>>,
    pub optionals: Seq<bool>,
    pub slurpy: bool,
    pub consumed: Seq<TextRange>,
}

/// The run of `my $x = shift;` statements from `i` on, added to `plan`.
pub open spec fn shift_plan(sts: Seq<SyntaxNode>, i: int, plan: Plan) -> Plan
    decreases sts.len() - i,
{
    if i < 0 || i >= sts.len() {
        plan
    } else {
        match spec_shift_unpacking(sts[i]) {
            Some((name, optional)) => shift_plan(
                sts,
                i + 1,
                Plan {
                    names: plan.names.push(name),
                    optionals: plan.optionals.push(optional),
                    consumed: plan.consumed.push(sts[i].range),
                    ..plan
                },
            ),
            None => plan,
        }
    }
}

pub open spec fn empty_plan() -> Plan {
    Plan { names: Seq::empty(), optionals: Seq::empty(), slurpy: false, consumed: Seq::empty() }
}

/// One list assignment from `@_` first; where it unpacks nothing, a run of
/// `shift`s after it.
pub open spec fn unpacking_plan(body: SyntaxNode) -> Plan {
    let sts = child_nodes(body);
    let (first, next) = if sts.len() > 0 {
        match spec_list_unpacking(sts[0]) {
            Some((names, slurpy)) => (
                Plan { names, optionals: Seq::empty(), slurpy, consumed: seq![sts[0].range] },
                1int,
            ),
            None => (empty_plan(), 0int),
        }
    } else {
        (empty_plan(), 0int)
    };
    if first.names.len() == 0 && !first.slurpy {
        shift_plan(sts, next, first)
    } else {
        first
    }
}

/// `my ($self, $x, %opts) = @_;` or a run of `my $x = shift;`, when the
/// body touches `@_` in no other way.
pub open spec fn spec_from_unpacking(body: SyntaxNode) -> ParamsV {
    let p = unpacking_plan(body);
    if p.names.len() == 0 && !p.slurpy {
        ParamsV::Unknown
    } else if spec_touches_arguments_elsewhere(body, p.consumed) {
        ParamsV::Unknown
    } else {
        ParamsV::Positional {
            params: Seq::new(
                p.names.len(),
                |i: int| (p.names[i], if i < p.optionals.len() { p.optionals[i] } else { false }, TypeV::Any),
            ),
            slurpy: p.slurpy,
            invocant: p.names.len() > 0 && spec_is_invocant_name(p.names[0]),
            source: ParamSource::Unpacking,
        }
    }
}

pub fn from_unpacking(body: &Block) -> (r: Params)
    ensures
        params_view(r) == spec_from_unpacking(*body.0),
{
    let statements = body.statements();
    let ghost sts = child_nodes(*body.0);
    let mut names: Vec<String> = Vec::new();
    let mut optionals: Vec<bool> = Vec::new();
    let mut slurpy = false;
    let mut consumed: Vec<TextRange> = Vec::new();
    let mut next: usize = 0;
    assert(crate::types::strings_view(names@) =~= Seq::<Seq<char>>::empty());
    if statements.len() > 0 {
        assert(*statements@[0] == sts[0]);
        match list_unpacking(statements[0]) {
            Some((listed, slurps)) => {
                names = listed;
                slurpy = slurps;
                consumed.push(statements[0].range);
                next = 1;
            },
            None => {},
        }
    }
    let ghost first = Plan {
        names: crate::types::strings_view(names@),
        optionals: optionals@,
        slurpy,
        consumed: consumed@,
    };
    proof {
        if statements@.len() > 0 {
            if spec_list_unpacking(sts[0]) is Some {
                assert(consumed@ =~= seq![sts[0].range]);
            }
        }
        assert(optionals@ =~= Seq::<bool>::empty());
    }
    if names.len() == 0 && !slurpy {
        let mut i: usize = next;
        let mut done = false;
        while i < statements.len() && !done
            invariant
                next <= i <= statements@.len(),
                deref_nodes(statements@) == sts,
                done ==> i < sts.len() && spec_shift_unpacking(sts[i as int]) is None,
                shift_plan(sts, next as int, first) == shift_plan(
                    sts,
                    i as int,
                    Plan {
                        names: crate::types::strings_view(names@),
                        optionals: optionals@,
                        slurpy,
                        consumed: consumed@,
                    },
                ),
            decreases statements@.len() - i, if done { 0int } else { 1int },
        {
            assert(sts[i as int] == *statements@[i as int]);
            match shift_unpacking(statements[i]) {
                Some((name, optional)) => {
                    let ghost before = crate::types::strings_view(names@);
                    names.push(name);
                    optionals.push(optional);
                    consumed.push(statements[i].range);
                    assert(crate::types::strings_view(names@) =~= before.push(names@[names@.len() - 1]@));
                    i += 1;
                },
                None => {
                    done = true;
                },
            }
        }
    }
    let ghost plan = Plan { names: crate::types::strings_view(names@), optionals: optionals@, slurpy, consumed: consumed@ };
    assert(plan == unpacking_plan(*body.0));
    if names.len() == 0 && !slurpy {
        return Params::Unknown;
    }
    if touches_arguments_elsewhere(body.0, &consumed) {
        return Params::Unknown;
    }
    let invocant = names.len() > 0 && is_invocant_name(names[0].as_str());
    let mut params: Vec<Param> = Vec::new();
    let ghost want = Seq::new(
        plan.names.len(),
        |i: int| (plan.names[i], if i < plan.optionals.len() { plan.optionals[i] } else { false }, TypeV::Any),
    );
    let mut i: usize = 0;
    while i < names.len()
        invariant
            i <= names@.len(),
            plan.names == crate::types::strings_view(names@),
            plan.optionals == optionals@,
            want.len() == names@.len(),
            forall|k: int| 0 <= k < names@.len() ==> #[trigger] want[k] == (plan.names[k], if k < plan.optionals.len() { plan.optionals[k] } else { false }, TypeV::Any),
            param_views(params@) == want.subrange(0, i as int),
        decreases names@.len() - i,
    {
        let optional = if i < optionals.len() {
            optionals[i]
        } else {
            false
        };
        let ghost before = param_views(params@);
        params.push(Param { name: names[i].clone(), optional, ty: Type::Any });
        assert(param_views(params@) =~= before.push((names@[i as int]@, optional, TypeV::Any)));
        assert(want.subrange(0, i + 1) =~= want.subrange(0, i as int).push(want[i as int]));
        i += 1;
    }
    assert(want.subrange(0, names@.len() as int) =~= want);
    Params::Positional { params, slurpy, invocant, source: ParamSource::Unpacking }
}

// ===== A sub's parameter list =====

/// The parameter list as the declaration writes it, invocant aside: a
/// signature — unless an empty one sits before a body that reads `@_`, which
/// makes it a prototype — else an `args` list where `Smart::Args` was
/// imported, else the unpacking of `@_`.
pub open spec fn spec_written_parameters(definition: SyntaxNode, smart_args: bool, is_method: bool) -> ParamsV {
    match child_of(definition, NodeKind::SubSignature) {
        Some(sig) => {
            let empty = signature_params(child_nodes(sig)).len() == 0;
            let reads = match child_of(definition, NodeKind::Block) {
                Some(body) => spec_touches_arguments_elsewhere(body, Seq::empty()),
                None => false,
            };
            if is_method || !(empty && reads) {
                spec_from_signature(sig)
            } else {
                ParamsV::Unknown
            }
        },
        None => match child_of(definition, NodeKind::Block) {
            None => ParamsV::Unknown,
            Some(body) => match (if smart_args {
                spec_from_args(body)
            } else {
                None
            }) {
                Some(p) => p,
                None => spec_from_unpacking(body),
            },
        },
    }
}

/// What reading the parameter list records: the annotations of an `args`
/// list, when one is what was read.
pub open spec fn parameters_effect(definition: SyntaxNode, smart_args: bool) -> (Seq<(TypeV, TextRange)>, Seq<DiagV>) {
    match (child_of(definition, NodeKind::SubSignature), child_of(definition, NodeKind::Block)) {
        (None, Some(body)) => if smart_args {
            args_effect(body)
        } else {
            (Seq::empty(), Seq::empty())
        },
        _ => (Seq::empty(), Seq::empty()),
    }
}

pub fn written_parameters(definition: &SubDef, smart_args: bool, is_method: bool, into: &mut Sink) -> (r: Params)
    ensures
        params_view(r) == spec_written_parameters(*definition.0, smart_args, is_method),
        sink_grew(*old(into), *final(into), parameters_effect(*definition.0, smart_args).0, parameters_effect(*definition.0, smart_args).1),
{
    proof {
        assert(annotated_views(into.annotations@) + Seq::<(TypeV, TextRange)>::empty() =~= annotated_views(into.annotations@));
        assert(diagnostic_views(into.diagnostics@) + Seq::<DiagV>::empty() =~= diagnostic_views(into.diagnostics@));
    }
    match definition.signature() {
        Some(signature) => {
            let empty = signature.params().len() == 0;
            let reads = match definition.body() {
                Some(body) => {
                    let nothing: Vec<TextRange> = Vec::new();
                    assert(nothing@ =~= Seq::<TextRange>::empty());
                    touches_arguments_elsewhere(body.0, &nothing)
                },
                None => false,
            };
            if is_method || !(empty && reads) {
                return from_signature(&signature);
            }
            return Params::Unknown;
        },
        None => {},
    }
    let body = match definition.body() {
        Some(b) => b,
        None => return Params::Unknown,
    };
    if smart_args {
        match from_args(&body, into) {
            Some(params) => return params,
            None => {},
        }
    }
    from_unpacking(&body)
}

/// What a sub's shape says about the arguments it takes; a `method` is
/// handed an invocant it never names.
pub open spec fn spec_parameters(definition: SyntaxNode, smart_args: bool) -> ParamsV {
    let is_method = first_token_of_kind(child_tokens(definition), TokenKind::MethodKw, 0) is Some;
    let written = spec_written_parameters(definition, smart_args, is_method);
    if is_method {
        spec_with_implicit_invocant(written)
    } else {
        written
    }
}

pub fn parameters(definition: &SubDef, smart_args: bool, into: &mut Sink) -> (r: Params)
    ensures
        params_view(r) == spec_parameters(*definition.0, smart_args),
        sink_grew(*old(into), *final(into), parameters_effect(*definition.0, smart_args).0, parameters_effect(*definition.0, smart_args).1),
{
    let is_method = definition.is_method();
    let params = written_parameters(definition, smart_args, is_method, into);
    if is_method {
        with_implicit_invocant(params)
    } else {
        params
    }
}

/// Whether a node or token under a body is evidence that a `new` hands back
/// one of its own class: a `bless`, or a call into `SUPER::`.
pub open spec fn blesses_or_inherits(n: SyntaxNode) -> bool {
    let ts = child_tokens(n);
    ||| exists|i: int| 0 <= i < ts.len() && (#[trigger] ts[i]).kind == TokenKind::Ident && ts[i].text@ == "bless"@
    ||| n.kind == NodeKind::SubName && crate::text::spec_starts_with(joined(n), "SUPER::"@)
}

/// Whether a hand-written `new` says the value it hands back is one of its
/// own class: a forward declaration or an empty body says nothing against
/// it; otherwise a `bless` or a `SUPER::` call is the evidence.
pub open spec fn spec_constructs_its_class(definition: SyntaxNode) -> bool {
    match child_of(definition, NodeKind::Block) {
        None => true,
        Some(body) => child_nodes(body).len() == 0 || exists|i: int|
            0 <= i < preorder(body).len() && blesses_or_inherits(#[trigger] preorder(body)[i]),
    }
}

#[verifier::loop_isolation(false)]
pub fn constructs_its_class(definition: &SubDef) -> (r: bool)
    ensures
        r == spec_constructs_its_class(*definition.0),
{
    let body = match definition.body() {
        Some(b) => b,
        None => return true,
    };
    if body.statements().len() == 0 {
        return true;
    }
    let all = descendants(body.0);
    let ghost ns = deref_nodes(all@);
    let mut i: usize = 0;
    while i < all.len()
        invariant
            i <= all@.len(),
            ns == deref_nodes(all@),
            ns == preorder(*body.0),
            forall|j: int| 0 <= j < i ==> !blesses_or_inherits(#[trigger] ns[j]),
        decreases all@.len() - i,
    {
        let node = all[i];
        assert(ns[i as int] == *node);
        if node.kind == NodeKind::SubName && crate::text::starts_with(node.joined_text().as_str(), "SUPER::") {
            assert(blesses_or_inherits(ns[i as int]));
            return true;
        }
        let ts = crate::ast::tokens(node);
        let ghost tv = deref_tokens(ts@);
        let mut k: usize = 0;
        while k < ts.len()
            invariant
                k <= ts@.len(),
                tv == deref_tokens(ts@),
                tv == child_tokens(*node),
                i < ns.len(),
                ns == preorder(*body.0),
                ns[i as int] == *node,
                forall|q: int| 0 <= q < k ==> !((#[trigger] tv[q]).kind == TokenKind::Ident && tv[q].text@ == "bless"@),
            decreases ts@.len() - k,
        {
            assert(tv[k as int] == *ts@[k as int]);
            if ts[k].kind == TokenKind::Ident && same_text(ts[k].text.as_str(), "bless") {
                assert(blesses_or_inherits(ns[i as int]));
                return true;
            }
            k += 1;
        }
        i += 1;
    }
    false
}

} // verus!
