//! Arity: what a call passes against what the callee declared.
//!
//! Three things have to be true before a count is compared: the callee is
//! known, its parameter list is known, and the count is known. Perl
//! flattens: `f(@list)` passes as many arguments as `@list` has, and nobody
//! knows how many that is. Only a call whose every argument is one value has
//! a count at all — see [`arg_count`].
//!
//! The severity follows the source of the parameter list: perl dies on a
//! signature mismatch and Smart::Args on a missing named argument, while
//! `my ($a, $b) = @_` called with one argument is a program that runs.

use vstd::prelude::*;

use crate::annotate::{diagnostic_view, DiagV};
use crate::ast::{arg_view, ArgV, Arg, BinaryExpr, first_operator, Sigil};
use crate::decl::{required_count, ParamSource, Params};
use crate::diag::{spec_default_severity, Code, Diagnostic, Severity};
use crate::resolve::decimal;
use crate::span::TextRange;
use crate::syntax::{child_nodes, child_tokens, deref_nodes, first_token_of_kind, NodeKind, SyntaxNode, TokenKind};
use crate::text::append;

verus! {

/// Whether a subscript reads one element rather than a slice: through an
/// arrow, or off a scalar.
pub open spec fn spec_yields_one_element(subscript: SyntaxNode, base: SyntaxNode) -> bool {
    first_token_of_kind(child_tokens(subscript), TokenKind::Arrow, 0) is Some || base.kind == NodeKind::ScalarVar
}

/// Whether a prefix operator gives back one value.
pub open spec fn is_scalar_prefix(k: TokenKind) -> bool {
    k == TokenKind::Minus || k == TokenKind::Plus || k == TokenKind::LogicalNot || k == TokenKind::BitwiseNot
        || k == TokenKind::Backslash || k == TokenKind::NotKw || k == TokenKind::Increment || k
        == TokenKind::Decrement
}

/// Whether an argument is exactly one value: a literal, a reference, a
/// scalar, an element, a scalar dereference, an operator that is not `x`,
/// a prefix operator. An array, a hash, a slice, a call (which may return a
/// list), a range and a parenthesised list are not.
pub open spec fn spec_is_single_value(n: SyntaxNode) -> bool {
    let k = n.kind;
    if k == NodeKind::Literal || k == NodeKind::AnonHash || k == NodeKind::AnonArray || k
        == NodeKind::AnonSubExpr || k == NodeKind::ReferenceExpr || k == NodeKind::UndefExpr || k
        == NodeKind::QExpr || k == NodeKind::QqExpr || k == NodeKind::QxExpr || k == NodeKind::HeredocExpr
        || k == NodeKind::MatchExpr || k == NodeKind::QrExpr || k == NodeKind::SubstExpr || k
        == NodeKind::TransExpr || k == NodeKind::FileTestExpr || k == NodeKind::ArrayLastIndex || k
        == NodeKind::PostfixExpr || k == NodeKind::ScalarVar {
        true
    } else if k == NodeKind::HashSubscriptExpr || k == NodeKind::ArraySubscriptExpr {
        child_nodes(n).len() > 0 && spec_yields_one_element(n, child_nodes(n)[0])
    } else if k == NodeKind::DerefExpr || k == NodeKind::BlockDerefExpr || k == NodeKind::PostfixDerefExpr {
        first_token_of_kind(child_tokens(n), TokenKind::ScalarSigil, 0) is Some || first_token_of_kind(
            child_tokens(n),
            TokenKind::DerefScalar,
            0,
        ) is Some
    } else if k == NodeKind::BinaryExpr {
        match first_operator(child_tokens(n), 0) {
            Some(op) => op != TokenKind::Repeat,
            None => false,
        }
    } else if k == NodeKind::PrefixExpr {
        child_tokens(n).len() > 0 && is_scalar_prefix(child_tokens(n)[0].kind)
    } else {
        false
    }
}

fn has_token(node: &SyntaxNode, kind: TokenKind) -> (r: bool)
    ensures
        r == (first_token_of_kind(child_tokens(*node), kind, 0) is Some),
{
    node.first_token(kind).is_some()
}

fn is_single_value(node: &SyntaxNode) -> (r: bool)
    ensures
        r == spec_is_single_value(*node),
{
    match node.kind {
        NodeKind::Literal | NodeKind::AnonHash | NodeKind::AnonArray | NodeKind::AnonSubExpr
        | NodeKind::ReferenceExpr | NodeKind::UndefExpr | NodeKind::QExpr | NodeKind::QqExpr
        | NodeKind::QxExpr | NodeKind::HeredocExpr | NodeKind::MatchExpr | NodeKind::QrExpr
        | NodeKind::SubstExpr | NodeKind::TransExpr | NodeKind::FileTestExpr | NodeKind::ArrayLastIndex
        | NodeKind::PostfixExpr | NodeKind::ScalarVar => true,
        NodeKind::HashSubscriptExpr | NodeKind::ArraySubscriptExpr => match node.first_node() {
            Some(base) => has_token(node, TokenKind::Arrow) || base.kind == NodeKind::ScalarVar,
            None => false,
        },
        NodeKind::DerefExpr | NodeKind::BlockDerefExpr | NodeKind::PostfixDerefExpr => {
            has_token(node, TokenKind::ScalarSigil) || has_token(node, TokenKind::DerefScalar)
        },
        NodeKind::BinaryExpr => match BinaryExpr(node).operator() {
            Some(TokenKind::Repeat) => false,
            Some(_) => true,
            None => false,
        },
        NodeKind::PrefixExpr => {
            let ts = node.significant_tokens();
            if ts.len() == 0 {
                false
            } else {
                assert(crate::syntax::deref_tokens(ts@)[0] == *ts@[0]);
                match ts[0].kind {
                    TokenKind::Minus | TokenKind::Plus | TokenKind::LogicalNot | TokenKind::BitwiseNot
                    | TokenKind::Backslash | TokenKind::NotKw | TokenKind::Increment
                    | TokenKind::Decrement => true,
                    _ => false,
                }
            }
        },
        _ => false,
    }
}

/// How many arguments a call passes, or `None` when nobody can know: a count
/// exists only when every argument is exactly one value.
pub fn arg_count(arguments: &[&SyntaxNode]) -> (r: Option<usize>)
    ensures
        match r {
            Some(n) => n == arguments@.len() && forall|i: int| 0 <= i < arguments@.len() ==> spec_is_single_value(*(#[trigger] arguments@[i])),
            None => exists|i: int| 0 <= i < arguments@.len() && !spec_is_single_value(*(#[trigger] arguments@[i])),
        },
{
    let mut count: usize = 0;
    while count < arguments.len()
        invariant
            count <= arguments@.len(),
            forall|i: int| 0 <= i < count ==> spec_is_single_value(*(#[trigger] arguments@[i])),
        decreases arguments@.len() - count,
    {
        if !is_single_value(arguments[count]) {
            return None;
        }
        count += 1;
    }
    Some(count)
}

/// Whether this value is definitely not a hash reference: a literal, a quoted
/// string, an array or sub reference, an `undef`.
pub open spec fn spec_cannot_be_a_hash(n: SyntaxNode) -> bool {
    n.kind == NodeKind::Literal || n.kind == NodeKind::QExpr || n.kind == NodeKind::QqExpr || n.kind
        == NodeKind::AnonArray || n.kind == NodeKind::AnonSubExpr || n.kind == NodeKind::UndefExpr
}

/// Where the first positional argument that cannot be a hash is, from `i`.
pub open spec fn first_stray(pairs: Seq<ArgV>, i: int) -> Option<TextRange>
    decreases pairs.len() - i,
{
    if i < 0 || i >= pairs.len() {
        None
    } else {
        match pairs[i] {
            ArgV::Positional(n) => if spec_cannot_be_a_hash(n) {
                Some(n.range)
            } else {
                first_stray(pairs, i + 1)
            },
            _ => first_stray(pairs, i + 1),
        }
    }
}

/// What a call site passes, as far as anyone can tell from the source.
#[derive(Debug, Clone, Copy)]
pub struct CallShape {
    /// How many arguments, or `None` when nobody can know.
    pub count: Option<usize>,
    /// Where an argument sits that is neither a `key => value` pair nor
    /// something that could be a hash reference.
    pub stray: Option<TextRange>,
}

impl CallShape {
    pub open spec fn spec_stray(&self) -> Option<TextRange> {
        self.stray
    }

    /// The shape of a call with these arguments, read flat and as pairs.
    pub fn of(arguments: &[&SyntaxNode], pairs: &[Arg]) -> (r: CallShape)
        ensures
            match r.count {
                Some(n) => n == arguments@.len() && forall|i: int| 0 <= i < arguments@.len() ==> spec_is_single_value(*(#[trigger] arguments@[i])),
                None => exists|i: int| 0 <= i < arguments@.len() && !spec_is_single_value(*(#[trigger] arguments@[i])),
            },
            r.spec_stray() == first_stray(pairs@.map_values(|a: Arg| arg_view(a)), 0),
    {
        let count = arg_count(arguments);
        let ghost views = pairs@.map_values(|a: Arg| arg_view(a));
        let mut stray: Option<TextRange> = None;
        let mut i: usize = 0;
        while i < pairs.len() && stray.is_none()
            invariant
                i <= pairs@.len(),
                views == pairs@.map_values(|a: Arg| arg_view(a)),
                stray is None ==> first_stray(views, 0) == first_stray(views, i as int),
                stray is Some ==> first_stray(views, 0) == stray,
            decreases pairs@.len() - i,
        {
            match &pairs[i] {
                Arg::Positional(node) => {
                    if node.kind == NodeKind::Literal || node.kind == NodeKind::QExpr || node.kind
                        == NodeKind::QqExpr || node.kind == NodeKind::AnonArray || node.kind
                        == NodeKind::AnonSubExpr || node.kind == NodeKind::UndefExpr {
                        stray = Some(node.range);
                    }
                },
                _ => {},
            }
            i += 1;
        }
        CallShape { count, stray }
    }

    pub fn stray_positional(&self) -> (r: Option<TextRange>)
        ensures
            r == self.spec_stray(),
    {
        self.stray
    }
}

/// perl dies on a signature mismatch and Smart::Args on a bad `args` list;
/// an `@_` unpacking declares a shape and not a rule.
pub open spec fn spec_severity(source: ParamSource) -> Severity {
    match source {
        ParamSource::Signature | ParamSource::Args => Severity::Error,
        ParamSource::Unpacking | ParamSource::Generated => Severity::Warning,
    }
}

fn severity(source: ParamSource) -> (r: Severity)
    ensures
        r == spec_severity(source),
{
    match source {
        ParamSource::Signature | ParamSource::Args => Severity::Error,
        ParamSource::Unpacking | ParamSource::Generated => Severity::Warning,
    }
}

pub open spec fn named_message(name: Seq<char>) -> Seq<char> {
    "`"@ + name + "` takes named arguments; this one is neither a `key => value` pair nor a hash reference"@
}

pub open spec fn prototype_message(name: Seq<char>) -> Seq<char> {
    "`"@ + name + "` is declared `()`, which a method call ignores: perl passes the invocant regardless"@
}

pub open spec fn count_message(name: Seq<char>, direction: Seq<char>, bound: nat, count: nat, arrow: bool) -> Seq<char> {
    "`"@ + name + "` takes "@ + direction + " "@ + decimal(bound) + " argument"@ + (if bound == 1 {
        ""@
    } else {
        "s"@
    }) + (if arrow {
        " including its invocant"@
    } else {
        ""@
    }) + "; "@ + decimal(count) + " passed"@
}

/// What comparing a call's shape with what the callee declared reports: a
/// named list is checked by shape, a method call to a `()` is said once, and
/// otherwise a count past either bound is an `arity` at the list's own
/// severity. An unpacking list has no minimum worth reporting: perl fills
/// what it has with `undef`.
pub open spec fn spec_compare(params: Params, call: CallShape, arrow: bool, name: Seq<char>, range: TextRange) -> Option<DiagV> {
    match params {
        Params::Unknown => None,
        Params::Named { params: named, source, .. } => if named@.len() == 0 {
            None
        } else {
            match call.spec_stray() {
                Some(stray) => Some((Code::Arity, spec_severity(source), None, stray, named_message(name))),
                None => None,
            }
        },
        Params::Positional { params: ps, slurpy, invocant, source } => if arrow && ps@.len() == 0 && !slurpy && !invocant
            && source == ParamSource::Signature {
            Some((Code::IgnoredPrototype, spec_default_severity(Code::IgnoredPrototype), None, range, prototype_message(name)))
        } else {
            match call.count {
                None => None,
                Some(c) => {
                    let count = if arrow { c + 1 } else { c as int };
                    let minimum = if source == ParamSource::Unpacking { 0 } else { required_count(ps@) as int };
                    if count < minimum {
                        Some((Code::Arity, spec_severity(source), None, range, count_message(name, "at least"@, minimum as nat, count as nat, arrow)))
                    } else if !slurpy && count > ps@.len() {
                        Some((Code::Arity, spec_severity(source), None, range, count_message(name, "at most"@, ps@.len(), count as nat, arrow)))
                    } else {
                        None
                    }
                },
            }
        },
    }
}

/// The count comparison, for a caller that resolved the callee some other
/// way: the flow pass reaches a method through the *type* of its invocant.
pub fn check_shape(params: &Params, call: &CallShape, through_arrow: bool, name: &str, range: TextRange, into: &mut Vec<Diagnostic>)
    requires
        call.count matches Some(c) ==> c < usize::MAX,
    ensures
        ({
            let before = old(into)@.map_values(|d: Diagnostic| diagnostic_view(d));
            let after = final(into)@.map_values(|d: Diagnostic| diagnostic_view(d));
            match spec_compare(*params, *call, through_arrow, name@, range) {
                Some(d) => after == before.push(d),
                None => after == before,
            }
        }),
{
    let ghost before = into@.map_values(|d: Diagnostic| diagnostic_view(d));
    let source = match params.source() {
        Some(source) => source,
        None => {
            assert(into@.map_values(|d: Diagnostic| diagnostic_view(d)) =~= before);
            return;
        },
    };
    match params {
        Params::Named { params: named, .. } => {
            if named.len() == 0 {
                assert(into@.map_values(|d: Diagnostic| diagnostic_view(d)) =~= before);
                return;
            }
            match call.stray_positional() {
                Some(stray) => {
                    let mut message = String::new();
                    append(&mut message, "`");
                    append(&mut message, name);
                    append(&mut message, "` takes named arguments; this one is neither a `key => value` pair nor a hash reference");
                    let ghost text = message@;
                    assert(text =~= named_message(name@));
                    into.push(Diagnostic::new(Code::Arity, stray, message).at(severity(source)));
                    assert(into@.map_values(|d: Diagnostic| diagnostic_view(d)) =~= before.push((Code::Arity, spec_severity(source), None, stray, named_message(name@))));
                },
                None => {
                    assert(into@.map_values(|d: Diagnostic| diagnostic_view(d)) =~= before);
                },
            }
            return;
        },
        _ => {},
    }
    if through_arrow && params.is_empty_parens() {
        let mut message = String::new();
        append(&mut message, "`");
        append(&mut message, name);
        append(&mut message, "` is declared `()`, which a method call ignores: perl passes the invocant regardless");
        assert(message@ =~= prototype_message(name@));
        let ghost text = message@;
        into.push(Diagnostic::new(Code::IgnoredPrototype, range, message).at(Code::IgnoredPrototype.default_severity()));
        assert(into@.map_values(|d: Diagnostic| diagnostic_view(d)) =~= before.push((Code::IgnoredPrototype, spec_default_severity(Code::IgnoredPrototype), None, range, text)));
        return;
    }
    let mut count = match call.count {
        Some(count) => count,
        None => {
            assert(into@.map_values(|d: Diagnostic| diagnostic_view(d)) =~= before);
            return;
        },
    };
    if through_arrow {
        count += 1;
    }
    proof {
        match params {
            Params::Positional { params: ps, .. } => crate::decl::lemma_required_count(ps@),
            _ => {},
        }
    }
    // `minimum` leaves the invocant out, and `count` has it in: the
    // comparison puts it back.
    let minimum = match params.minimum() {
        Some(m) => m,
        None => 0,
    };
    let minimum = match params {
        Params::Positional { params: ps, invocant: true, .. } => {
            if ps.len() > 0 && !ps[0].optional {
                proof {
                    crate::decl::lemma_required_count_first(ps@);
                }
                minimum + 1
            } else {
                proof {
                    if ps@.len() > 0 {
                        crate::decl::lemma_required_count_first(ps@);
                    }
                }
                minimum
            }
        },
        _ => minimum,
    };
    let maximum = params.maximum();
    let minimum = match source {
        ParamSource::Unpacking => 0,
        _ => minimum,
    };
    let (direction, bound): (&str, usize) = if count < minimum {
        ("at least", minimum)
    } else {
        match maximum {
            Some(maximum) => if count > maximum {
                ("at most", maximum)
            } else {
                proof {
                    assert(params is Positional);
                    let ps = params->Positional_params;
                    let slurpy = params->Positional_slurpy;
                    let src = params->Positional_source;
                    assert(maximum == ps@.len());
                    assert(src == source);
                    let c = call.count->Some_0;
                    assert(count == (if through_arrow { c + 1 } else { c as int }));
                    assert(minimum == (if source == ParamSource::Unpacking { 0 } else { required_count(ps@) as int }));
                    assert(!(count < minimum));
                    assert(!(!slurpy && count > ps@.len()));
                }
                assert(into@.map_values(|d: Diagnostic| diagnostic_view(d)) =~= before);
                return;
            },
            None => {
                assert(into@.map_values(|d: Diagnostic| diagnostic_view(d)) =~= before);
                return;
            },
        }
    };
    let mut message = String::new();
    append(&mut message, "`");
    append(&mut message, name);
    append(&mut message, "` takes ");
    append(&mut message, direction);
    append(&mut message, " ");
    let bound_text = decimal_text(bound as u64);
    append(&mut message, bound_text.as_str());
    append(&mut message, " argument");
    if bound != 1 {
        append(&mut message, "s");
    } else {
        assert(message@ + ""@ =~= message@) by {
            reveal_strlit("");
        }
    }
    if through_arrow {
        append(&mut message, " including its invocant");
    } else {
        assert(message@ + ""@ =~= message@) by {
            reveal_strlit("");
        }
    }
    append(&mut message, "; ");
    let count_text = decimal_text(count as u64);
    append(&mut message, count_text.as_str());
    append(&mut message, " passed");
    let ghost text = message@;
    assert(text =~= count_message(name@, direction@, bound as nat, count as nat, through_arrow));
    into.push(Diagnostic::new(Code::Arity, range, message).at(severity(source)));
    assert(into@.map_values(|d: Diagnostic| diagnostic_view(d)) =~= before.push((Code::Arity, spec_severity(source), None, range, text)));
}

fn decimal_text(n: u64) -> (out: String)
    ensures
        out@ == decimal(n as nat),
{
    crate::resolve::decimal_string(n)
}


// ===== Every call in a file =====

/// What a call passes, read off its node.
pub open spec fn spec_shape_of(n: SyntaxNode) -> CallShape {
    let args = crate::ast::spec_args(n);
    CallShape {
        count: if forall|i: int| 0 <= i < args.len() ==> spec_is_single_value(#[trigger] args[i]) {
            Some(args.len() as usize)
        } else {
            None
        },
        stray: first_stray(crate::ast::spec_call_pairs(n), 0),
    }
}

/// A call's callee, where it names one: `&$code(...)` names none.
pub open spec fn spec_callee_name(n: SyntaxNode) -> Option<Seq<char>> {
    if n.kind == NodeKind::CodeCallExpr {
        None
    } else {
        crate::ast::name_child_text(n)
    }
}

/// Where a report about a call goes: the callee's name, or the whole call.
pub open spec fn spec_callee_range(n: SyntaxNode) -> TextRange {
    if n.kind == NodeKind::CodeCallExpr {
        n.range
    } else {
        match crate::ast::child_of(n, NodeKind::SubName) {
            Some(c) => c.range,
            None => n.range,
        }
    }
}

/// Whether a parameter list takes its invocant through `->`.
pub open spec fn spec_is_method(p: Params) -> bool {
    match p {
        Params::Unknown => false,
        Params::Positional { invocant, .. } => invocant,
        Params::Named { invocant, .. } => invocant is Some,
    }
}

/// What a plain call reports: its count against the sub it resolves to, in
/// the package in effect or through an import, unless that sub is a method.
pub open spec fn call_report(
    files: Seq<crate::program::FileEntry>,
    subs: Seq<crate::decl::SubDecl>,
    file: usize,
    builtins: Seq<Seq<char>>,
    n: SyntaxNode,
) -> Option<DiagV> {
    match spec_callee_name(n) {
        None => None,
        Some(name) => match crate::program::spec_resolve_call(files, subs, file, n.range.start, name, builtins.contains(name)) {
            None => None,
            Some(symbol) => if spec_is_method(symbol.params) {
                None
            } else {
                spec_compare(symbol.params, spec_shape_of(n), false, symbol.name@, spec_callee_range(n))
            },
        },
    }
}

/// The class a bareword invocant names: `Foo::Bar` in `Foo::Bar->new`.
pub open spec fn spec_bareword(n: SyntaxNode) -> Option<Seq<char>> {
    if crate::ast::is_call_kind(n.kind) && crate::ast::spec_args(n).len() == 0 {
        spec_callee_name(n)
    } else {
        None
    }
}

/// What a method call on a bareword class reports: its count, the invocant
/// included, against the class's own sub of that name.
pub open spec fn method_report(subs: Seq<crate::decl::SubDecl>, n: SyntaxNode) -> Option<DiagV> {
    let cs = child_nodes(n);
    if cs.len() == 0 {
        None
    } else {
        match crate::syntax::first_of_kind(cs, NodeKind::SubName, 1) {
            None => None,
            Some(m) => match spec_bareword(cs[0]) {
                None => None,
                Some(class) => match crate::program::sub_at(subs, class, crate::syntax::joined(cs[m]), 0) {
                    None => None,
                    Some(j) => spec_compare(subs[j].params, spec_shape_of(n), true, subs[j].name@, cs[m].range),
                },
            },
        }
    }
}

pub open spec fn report_seq(r: Option<DiagV>) -> Seq<DiagV> {
    match r {
        Some(d) => seq![d],
        None => Seq::empty(),
    }
}

/// What each of a run of nodes reports, in order.
pub open spec fn call_reports(
    files: Seq<crate::program::FileEntry>,
    subs: Seq<crate::decl::SubDecl>,
    file: usize,
    builtins: Seq<Seq<char>>,
    ns: Seq<SyntaxNode>,
) -> Seq<DiagV>
    decreases ns.len(),
{
    if ns.len() == 0 {
        Seq::empty()
    } else {
        let n = ns.last();
        call_reports(files, subs, file, builtins, ns.drop_last()) + if crate::ast::is_call_kind(n.kind) {
            report_seq(call_report(files, subs, file, builtins, n))
        } else if n.kind == NodeKind::MethodCallExpr {
            report_seq(method_report(subs, n))
        } else {
            Seq::empty()
        }
    }
}

/// Whether every call under a node passes fewer arguments than a count can
/// hold.
pub open spec fn counts_fit(root: SyntaxNode) -> bool {
    forall|i: int| 0 <= i < crate::params::preorder(root).len() ==> crate::ast::spec_args(#[trigger] crate::params::preorder(root)[i]).len() < usize::MAX
}

fn bareword_name(node: &SyntaxNode) -> (r: Option<String>)
    ensures
        match spec_bareword(*node) {
            Some(c) => r matches Some(s) && s@ == c,
            None => r is None,
        },
{
    match crate::ast::Call::cast(node) {
        Some(call) => {
            if call.args().len() == 0 {
                call.callee_name()
            } else {
                None
            }
        },
        None => None,
    }
}

fn shape_of_call(args: &Vec<&SyntaxNode>, pairs: &Vec<Arg>, Ghost(n): Ghost<SyntaxNode>) -> (r: CallShape)
    requires
        deref_nodes(args@) == crate::ast::spec_args(n),
        crate::ast::arg_views(pairs@) == crate::ast::spec_call_pairs(n),
    ensures
        r == spec_shape_of(n),
{
    let r = CallShape::of(args.as_slice(), pairs.as_slice());
    proof {
        let a = crate::ast::spec_args(n);
        assert(args@.len() == a.len());
        assert forall|i: int| 0 <= i < args@.len() implies *args@[i] == #[trigger] a[i] by {
            assert(deref_nodes(args@)[i] == *args@[i]);
        }
        assert(pairs@.map_values(|x: Arg| arg_view(x)) == crate::ast::arg_views(pairs@));
        match r.count {
            Some(c) => {
                assert forall|i: int| 0 <= i < a.len() implies spec_is_single_value(#[trigger] a[i]) by {
                    assert(spec_is_single_value(*args@[i]));
                }
            },
            None => {
                let i = choose|i: int| 0 <= i < args@.len() && !spec_is_single_value(*(#[trigger] args@[i]));
                assert(!spec_is_single_value(a[i]));
            },
        }
    }
    r
}

fn check_call(node: &SyntaxNode, file: usize, program: &crate::program::Program, builtins: &Vec<String>, into: &mut Vec<Diagnostic>)
    requires
        crate::ast::is_call_kind(node.kind),
        crate::ast::spec_args(*node).len() < usize::MAX,
    ensures
        crate::annotate::diagnostic_views(final(into)@) == crate::annotate::diagnostic_views(old(into)@) + report_seq(
            call_report(program.files_view(), program.subs_view(), file, crate::types::strings_view(builtins@), *node),
        ),
{
    let ghost before = crate::annotate::diagnostic_views(into@);
    let call = crate::ast::Call::cast(node).unwrap();
    let name = match call.callee_name() {
        Some(n) => n,
        None => {
            assert(crate::annotate::diagnostic_views(into@) =~= before + Seq::<DiagV>::empty());
            return;
        },
    };
    let builtin = listed(builtins, name.as_str());
    let symbol = match program.resolve_call(file, node.range.start, name.as_str(), builtin) {
        Some(s) => s,
        None => {
            assert(crate::annotate::diagnostic_views(into@) =~= before + Seq::<DiagV>::empty());
            return;
        },
    };
    if symbol.params.is_method() {
        assert(crate::annotate::diagnostic_views(into@) =~= before + Seq::<DiagV>::empty());
        return;
    }
    let args = call.args();
    let pairs = call.pairs();
    let shape = shape_of_call(&args, &pairs, Ghost(*node));
    let range = call.callee_range();
    check_shape(&symbol.params, &shape, false, symbol.name.as_str(), range, into);
    proof {
        let r = spec_compare(symbol.params, shape, false, symbol.name@, range);
        assert(crate::annotate::diagnostic_views(into@) =~= before + report_seq(r));
    }
}

fn check_method_call(node: &SyntaxNode, program: &crate::program::Program, into: &mut Vec<Diagnostic>)
    requires
        node.kind == NodeKind::MethodCallExpr,
        crate::ast::spec_args(*node).len() < usize::MAX,
    ensures
        crate::annotate::diagnostic_views(final(into)@) == crate::annotate::diagnostic_views(old(into)@) + report_seq(
            method_report(program.subs_view(), *node),
        ),
{
    let ghost before = crate::annotate::diagnostic_views(into@);
    let call = crate::ast::MethodCallExpr(node);
    let (invocant, method) = match (call.invocant(), call.method_name()) {
        (Some(i), Some(m)) => (i, m),
        _ => {
            assert(crate::annotate::diagnostic_views(into@) =~= before + Seq::<DiagV>::empty());
            return;
        },
    };
    let class = match bareword_name(invocant) {
        Some(c) => c,
        None => {
            assert(crate::annotate::diagnostic_views(into@) =~= before + Seq::<DiagV>::empty());
            return;
        },
    };
    let symbol = match program.sub(class.as_str(), method.as_str()) {
        Some(s) => s,
        None => {
            assert(crate::annotate::diagnostic_views(into@) =~= before + Seq::<DiagV>::empty());
            return;
        },
    };
    proof {
        crate::program::lemma_sub_at(program.subs_view(), class@, method@, 0);
    }
    let args = call.args();
    let pairs = call.pairs();
    let shape = shape_of_call(&args, &pairs, Ghost(*node));
    let range = call.method_range();
    check_shape(&symbol.params, &shape, true, symbol.name.as_str(), range, into);
    proof {
        let r = spec_compare(symbol.params, shape, true, symbol.name@, range);
        assert(crate::annotate::diagnostic_views(into@) =~= before + report_seq(r));
    }
}

fn listed(names: &Vec<String>, name: &str) -> (r: bool)
    ensures
        r == crate::types::strings_view(names@).contains(name@),
{
    let ghost view = crate::types::strings_view(names@);
    let mut i: usize = 0;
    while i < names.len()
        invariant
            i <= names@.len(),
            view == crate::types::strings_view(names@),
            forall|k: int| 0 <= k < i ==> view[k] != name@,
        decreases names@.len() - i,
    {
        if crate::text::same_text(names[i].as_str(), name) {
            assert(view[i as int] == name@);
            return true;
        }
        i += 1;
    }
    false
}

/// Check every call in a file against what it resolves to: a plain call
/// through the package in effect and the imports (`builtins` naming what
/// perl itself defines, which only an import overrides), a method call on a
/// bareword class through that class.
pub fn analyse_calls(root: &SyntaxNode, file: usize, program: &crate::program::Program, builtins: &Vec<String>) -> (r: Vec<Diagnostic>)
    requires
        counts_fit(*root),
    ensures
        crate::annotate::diagnostic_views(r@) == call_reports(
            program.files_view(),
            program.subs_view(),
            file,
            crate::types::strings_view(builtins@),
            crate::params::preorder(*root),
        ),
{
    let all = crate::params::descendants(root);
    let ghost ns = deref_nodes(all@);
    let ghost names = crate::types::strings_view(builtins@);
    let mut out: Vec<Diagnostic> = Vec::new();
    let mut i: usize = 0;
    assert(ns.subrange(0, 0) =~= Seq::<SyntaxNode>::empty());
    assert(crate::annotate::diagnostic_views(out@) =~= Seq::<DiagV>::empty());
    while i < all.len()
        invariant
            i <= all@.len(),
            ns == deref_nodes(all@),
            ns == crate::params::preorder(*root),
            counts_fit(*root),
            names == crate::types::strings_view(builtins@),
            crate::annotate::diagnostic_views(out@) == call_reports(program.files_view(), program.subs_view(), file, names, ns.subrange(0, i as int)),
        decreases all@.len() - i,
    {
        let node = all[i];
        proof {
            assert(ns.subrange(0, i + 1).drop_last() =~= ns.subrange(0, i as int));
            assert(ns.subrange(0, i + 1).last() == *node);
            assert(ns[i as int] == *node);
            assert(crate::ast::spec_args(crate::params::preorder(*root)[i as int]).len() < usize::MAX);
        }
        let ghost before = crate::annotate::diagnostic_views(out@);
        if node.kind == NodeKind::CallExpr || node.kind == NodeKind::ListCallExpr || node.kind == NodeKind::CodeCallExpr {
            check_call(node, file, program, builtins, &mut out);
        } else if node.kind == NodeKind::MethodCallExpr {
            check_method_call(node, program, &mut out);
        } else {
            assert(crate::annotate::diagnostic_views(out@) =~= before + Seq::<DiagV>::empty());
        }
        i += 1;
    }
    assert(ns.subrange(0, all@.len() as int) =~= ns);
    out
}


/// A positional list with no slurpy end takes at most as many arguments as
/// it has parameters: a call that passes more, counting the invocant of a
/// method call, is always reported, a plain call as much as a method call.
/// Through `->` the report is the `()` one where the sub is declared to take
/// nothing; everywhere else it is an `arity` at the list's own severity
/// saying how many the sub takes and how many were passed.
pub proof fn law_too_many_arguments_are_reported(
    ps: Vec<crate::decl::Param>,
    invocant: bool,
    source: ParamSource,
    call: CallShape,
    arrow: bool,
    name: Seq<char>,
    range: TextRange,
)
    requires
        call.count is Some,
        (if arrow { call.count->Some_0 + 1 } else { call.count->Some_0 as int }) > ps@.len(),
    ensures
        spec_compare(Params::Positional { params: ps, slurpy: false, invocant, source }, call, arrow, name, range) is Some,
        !(arrow && ps@.len() == 0 && !invocant && source == ParamSource::Signature) ==> spec_compare(
            Params::Positional { params: ps, slurpy: false, invocant, source },
            call,
            arrow,
            name,
            range,
        ) == Some(
            (
                Code::Arity,
                spec_severity(source),
                None::<Seq<char>>,
                range,
                count_message(
                    name,
                    "at most"@,
                    ps@.len(),
                    (if arrow { call.count->Some_0 + 1 } else { call.count->Some_0 as int }) as nat,
                    arrow,
                ),
            ),
        ),
{
    crate::decl::lemma_required_count(ps@);
}

/// A plain call and the same call through `->` are held to one bound: what
/// the arrow adds is its invocant, counted as one more argument.
pub proof fn law_the_arrow_counts_its_invocant(
    ps: Vec<crate::decl::Param>,
    invocant: bool,
    source: ParamSource,
    c: usize,
    stray: Option<TextRange>,
    name: Seq<char>,
    range: TextRange,
)
    requires
        c + 1 <= usize::MAX,
        invocant || ps@.len() > 0 || source != ParamSource::Signature,
    ensures
        spec_compare(
            Params::Positional { params: ps, slurpy: false, invocant, source },
            CallShape { count: Some(c), stray },
            true,
            name,
            range,
        ) is Some == spec_compare(
            Params::Positional { params: ps, slurpy: false, invocant, source },
            CallShape { count: Some((c + 1) as usize), stray },
            false,
            name,
            range,
        ) is Some,
{
    crate::decl::lemma_required_count(ps@);
}


/// A call that passes fewer arguments than the list requires, counting the
/// invocant of a method call, is reported, unless the list is read off an
/// unpacking, which perl fills with `undef`.
pub proof fn law_too_few_arguments_are_reported(
    ps: Vec<crate::decl::Param>,
    slurpy: bool,
    invocant: bool,
    source: ParamSource,
    call: CallShape,
    arrow: bool,
    name: Seq<char>,
    range: TextRange,
)
    requires
        call.count is Some,
        source != ParamSource::Unpacking,
        (if arrow { call.count->Some_0 + 1 } else { call.count->Some_0 as int }) < crate::decl::required_count(ps@),
    ensures
        spec_compare(Params::Positional { params: ps, slurpy, invocant, source }, call, arrow, name, range) == Some(
            (
                Code::Arity,
                spec_severity(source),
                None::<Seq<char>>,
                range,
                count_message(
                    name,
                    "at least"@,
                    crate::decl::required_count(ps@),
                    (if arrow { call.count->Some_0 + 1 } else { call.count->Some_0 as int }) as nat,
                    arrow,
                ),
            ),
        ),
{
}

/// A count between the two bounds is never reported.
pub proof fn law_a_count_within_the_bounds_is_not_reported(
    ps: Vec<crate::decl::Param>,
    slurpy: bool,
    invocant: bool,
    source: ParamSource,
    call: CallShape,
    name: Seq<char>,
    range: TextRange,
)
    requires
        call.count is Some,
        crate::decl::required_count(ps@) <= call.count->Some_0,
        slurpy || call.count->Some_0 <= ps@.len(),
    ensures
        spec_compare(Params::Positional { params: ps, slurpy, invocant, source }, call, false, name, range) is None,
{
}

} // verus!
