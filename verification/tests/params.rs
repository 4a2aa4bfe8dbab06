use camello::annotate::Sink;
use camello::ast::{Block, SubDef};
use camello::decl::{ParamSource, Params};
use camello::params::{
    constructs_its_class, from_unpacking, is_argument_list, is_invocant_name, list_unpacking, parameters,
    shift_unpacking, touches_arguments_elsewhere, with_implicit_invocant,
};
use camello::span::TextRange;
use camello::syntax::{NodeKind, SyntaxElement, SyntaxNode, SyntaxToken, TokenKind};
use camello::types::Type;

fn t(kind: TokenKind, text: &str) -> SyntaxElement {
    SyntaxElement::Token(SyntaxToken { kind, text: text.to_string(), range: TextRange::new(0, text.len() as u32) })
}

fn tree(kind: NodeKind, children: Vec<SyntaxElement>) -> SyntaxNode {
    SyntaxNode { kind, range: TextRange::new(0, 0), children, before: Vec::new(), at_start: false }
}

fn at(kind: NodeKind, start: u32, end: u32, children: Vec<SyntaxElement>) -> SyntaxElement {
    SyntaxElement::Node(SyntaxNode { kind, range: TextRange::new(start, end), children, before: Vec::new(), at_start: false })
}

fn n(kind: NodeKind, children: Vec<SyntaxElement>) -> SyntaxElement {
    SyntaxElement::Node(tree(kind, children))
}

fn name(text: &str) -> SyntaxElement {
    n(NodeKind::SubName, vec![t(TokenKind::Ident, text)])
}

fn scalar(text: &str) -> SyntaxElement {
    n(NodeKind::ScalarVar, vec![t(TokenKind::Punct, "$"), t(TokenKind::Ident, text)])
}

fn array(text: &str) -> SyntaxElement {
    n(NodeKind::ArrayVar, vec![t(TokenKind::Punct, "@"), t(TokenKind::Ident, text)])
}

fn hash(text: &str) -> SyntaxElement {
    n(NodeKind::HashVar, vec![t(TokenKind::Punct, "%"), t(TokenKind::Ident, text)])
}

fn number(text: &str) -> SyntaxElement {
    n(NodeKind::Literal, vec![t(TokenKind::Number, text)])
}

fn string(text: &str) -> SyntaxElement {
    n(NodeKind::Literal, vec![t(TokenKind::StringLit, &format!("'{text}'"))])
}

fn call(callee: &str) -> SyntaxElement {
    n(NodeKind::ListCallExpr, vec![name(callee)])
}

fn my(targets: Vec<SyntaxElement>) -> SyntaxElement {
    n(NodeKind::VarDecl, vec![t(TokenKind::MyKw, "my"), n(NodeKind::DeclTarget, targets)])
}

fn my_list(targets: Vec<SyntaxElement>) -> SyntaxElement {
    let mut inner = vec![t(TokenKind::Punct, "(")];
    for (i, target) in targets.into_iter().enumerate() {
        if i > 0 {
            inner.push(t(TokenKind::Comma, ","));
        }
        inner.push(target);
    }
    inner.push(t(TokenKind::Punct, ")"));
    my(vec![n(NodeKind::ParenExpr, inner)])
}

/// `TARGET = VALUE;` as a statement, over the given range.
fn assign_statement(start: u32, end: u32, target: SyntaxElement, value: SyntaxElement) -> SyntaxElement {
    at(NodeKind::VarDeclStmt, start, end, vec![n(NodeKind::AssignExpr, vec![target, t(TokenKind::Assign, "="), value])])
}

fn block(statements: Vec<SyntaxElement>) -> SyntaxNode {
    tree(NodeKind::Block, statements)
}

fn node(element: SyntaxElement) -> SyntaxNode {
    match element {
        SyntaxElement::Node(node) => node,
        SyntaxElement::Token(_) => panic!("a node wanted"),
    }
}

fn param(variable: SyntaxElement, default: Option<SyntaxElement>) -> SyntaxElement {
    let mut children = vec![variable];
    if let Some(value) = default {
        children.push(n(NodeKind::SignatureDefault, vec![t(TokenKind::Assign, "="), value]));
    }
    n(NodeKind::SignatureParam, children)
}

fn sub(keyword: TokenKind, signature: Option<Vec<SyntaxElement>>, body: SyntaxNode) -> SyntaxNode {
    let mut children = vec![t(keyword, "sub"), name("f")];
    if let Some(params) = signature {
        children.push(n(NodeKind::SubSignature, params));
    }
    children.push(SyntaxElement::Node(body));
    tree(NodeKind::SubDef, children)
}

fn names_of(params: &Params) -> Vec<(String, bool)> {
    match params {
        Params::Positional { params, .. } | Params::Named { params, .. } => {
            params.iter().map(|p| (p.name.clone(), p.optional)).collect()
        },
        Params::Unknown => Vec::new(),
    }
}

fn read(definition: &SyntaxNode, smart_args: bool) -> Params {
    let mut sink = Sink::new();
    parameters(&SubDef(definition), smart_args, &mut sink)
}

#[test]
fn a_signature_counts_exactly_and_a_default_makes_the_rest_optional() {
    let definition = sub(
        TokenKind::Keyword,
        Some(vec![param(scalar("self"), None), param(scalar("x"), Some(number("1"))), param(scalar("y"), None), param(array("rest"), None)]),
        block(Vec::new()),
    );
    let params = read(&definition, false);
    assert_eq!(names_of(&params), [("$self".to_string(), false), ("$x".to_string(), true), ("$y".to_string(), true)]);
    match params {
        Params::Positional { slurpy, invocant, source, params } => {
            assert!(slurpy && invocant);
            assert_eq!(source, ParamSource::Signature);
            assert!(params.iter().all(|p| p.ty == Type::Any));
        },
        other => panic!("{other:?}"),
    }
}

#[test]
fn a_sigil_with_no_name_is_a_prototype() {
    let definition = sub(TokenKind::Keyword, Some(vec![n(NodeKind::SignatureParam, vec![t(TokenKind::Punct, "$")])]), block(Vec::new()));
    assert!(matches!(read(&definition, false), Params::Unknown));
}

#[test]
fn an_empty_signature_over_a_body_that_reads_its_arguments_is_a_prototype() {
    let body = block(vec![assign_statement(0, 10, my(vec![scalar("self")]), call("shift"))]);
    let definition = sub(TokenKind::Keyword, Some(Vec::new()), body);
    assert!(matches!(read(&definition, false), Params::Unknown));
}

#[test]
fn a_method_is_handed_its_invocant() {
    let definition = sub(TokenKind::MethodKw, Some(vec![param(scalar("x"), None)]), block(Vec::new()));
    let params = read(&definition, false);
    assert_eq!(names_of(&params), [("$self".to_string(), false), ("$x".to_string(), false)]);
    assert!(matches!(params, Params::Positional { invocant: true, .. }));
}

#[test]
fn a_list_unpacking_names_the_parameters() {
    let statement = assign_statement(0, 20, my_list(vec![scalar("self"), scalar("x"), hash("opts")]), array("_"));
    let (names, slurpy) = list_unpacking(&node(statement)).expect("an unpacking");
    assert_eq!(names, ["$self", "$x"]);
    assert!(slurpy);
}

#[test]
fn a_discarded_slot_is_still_a_parameter() {
    let undef = n(NodeKind::UndefExpr, vec![t(TokenKind::Keyword, "undef")]);
    let body = block(vec![assign_statement(0, 20, my_list(vec![undef, scalar("name")]), array("_"))]);
    let params = from_unpacking(&Block(&body));
    assert_eq!(names_of(&params), [("undef".to_string(), false), ("$name".to_string(), false)]);
    assert!(matches!(params, Params::Positional { invocant: true, source: ParamSource::Unpacking, .. }));
}

#[test]
fn a_run_of_shifts_names_the_parameters_and_a_default_makes_one_optional() {
    let with_default = n(NodeKind::BinaryExpr, vec![call("shift"), t(TokenKind::LogicalOr, "||"), number("0")]);
    let body = block(vec![
        assign_statement(0, 10, my(vec![scalar("class")]), call("shift")),
        assign_statement(11, 30, my(vec![scalar("limit")]), with_default),
    ]);
    let params = from_unpacking(&Block(&body));
    assert_eq!(names_of(&params), [("$class".to_string(), false), ("$limit".to_string(), true)]);
    assert!(matches!(params, Params::Positional { invocant: true, slurpy: false, .. }));
    assert_eq!(shift_unpacking(&node(assign_statement(0, 1, my(vec![scalar("x")]), call("shift")))), Some(("$x".to_string(), false)));
    assert_eq!(shift_unpacking(&node(assign_statement(0, 1, my(vec![scalar("x")]), call("pop")))), None);
}

#[test]
fn reading_the_arguments_elsewhere_makes_the_list_unknown() {
    let element = at(
        NodeKind::ArraySubscriptExpr,
        40,
        45,
        vec![scalar("_"), n(NodeKind::Subscript, vec![t(TokenKind::Punct, "["), number("0"), t(TokenKind::Punct, "]")])],
    );
    let body = block(vec![
        assign_statement(0, 10, my(vec![scalar("self")]), call("shift")),
        at(NodeKind::ExprStmt, 40, 46, vec![element]),
    ]);
    assert!(matches!(from_unpacking(&Block(&body)), Params::Unknown));
    assert!(touches_arguments_elsewhere(&body, &vec![TextRange::new(0, 10)]));
    let quiet = block(vec![assign_statement(0, 10, my(vec![scalar("self")]), call("shift"))]);
    assert!(!touches_arguments_elsewhere(&quiet, &vec![TextRange::new(0, 10)]));
    assert!(touches_arguments_elsewhere(&quiet, &Vec::new()), "the shift itself reads them");
}

#[test]
fn an_interpolated_argument_list_is_a_read() {
    let text = at(NodeKind::Literal, 20, 40, vec![t(TokenKind::StringLit, "\"Header Error: @_\"")]);
    let body = block(vec![
        assign_statement(0, 10, my(vec![scalar("self")]), call("shift")),
        at(NodeKind::ExprStmt, 20, 40, vec![text]),
    ]);
    assert!(matches!(from_unpacking(&Block(&body)), Params::Unknown));
    let single = at(NodeKind::Literal, 20, 40, vec![t(TokenKind::StringLit, "'@_'")]);
    let quiet = block(vec![
        assign_statement(0, 10, my(vec![scalar("self")]), call("shift")),
        at(NodeKind::ExprStmt, 20, 40, vec![single]),
    ]);
    assert_eq!(names_of(&from_unpacking(&Block(&quiet))), [("$self".to_string(), false)]);
}

#[test]
fn smart_args_declares_named_parameters() {
    let list = n(
        NodeKind::ListExpr,
        vec![my(vec![scalar("self")]), t(TokenKind::Comma, ","), my(vec![scalar("who")]), t(TokenKind::FatComma, "=>"), string("Str")],
    );
    let statement = n(NodeKind::ExprStmt, vec![n(NodeKind::ListCallExpr, vec![name("args"), list])]);
    let definition = sub(TokenKind::Keyword, None, block(vec![statement]));
    let params = read(&definition, true);
    match &params {
        Params::Named { params, invocant, source } => {
            assert_eq!(invocant.as_deref(), Some("$self"));
            assert_eq!(*source, ParamSource::Args);
            assert_eq!(params.len(), 1);
            assert_eq!(params[0].name, "$who");
            assert_eq!(params[0].ty, Type::Str);
        },
        other => panic!("{other:?}"),
    }
    assert!(matches!(read(&definition, false), Params::Unknown), "without the import, `args` is just a call");
}

#[test]
fn the_small_readers() {
    assert!(is_invocant_name("$self") && is_invocant_name("$class") && is_invocant_name("undef"));
    assert!(!is_invocant_name("$this"));
    assert!(is_argument_list(&node(array("_"))));
    assert!(!is_argument_list(&node(array("args"))));
    assert!(!is_argument_list(&node(scalar("_"))));
    assert!(matches!(with_implicit_invocant(Params::Unknown), Params::Unknown));
}

#[test]
fn a_constructor_says_it_builds_its_own_class_by_blessing() {
    let blessing = n(NodeKind::ListCallExpr, vec![n(NodeKind::SubName, vec![t(TokenKind::Ident, "bless")])]);
    let with_bless = sub(TokenKind::Keyword, None, block(vec![n(NodeKind::ExprStmt, vec![blessing])]));
    assert!(constructs_its_class(&SubDef(&with_bless)));
    let parent = n(
        NodeKind::MethodCallExpr,
        vec![scalar("class"), t(TokenKind::Arrow, "->"), n(NodeKind::SubName, vec![t(TokenKind::Ident, "SUPER"), t(TokenKind::DoubleColon, "::"), t(TokenKind::Ident, "new")])],
    );
    let with_super = sub(TokenKind::Keyword, None, block(vec![n(NodeKind::ExprStmt, vec![parent])]));
    assert!(constructs_its_class(&SubDef(&with_super)));
    let factory = sub(TokenKind::Keyword, None, block(vec![n(NodeKind::ExprStmt, vec![call("make")])]));
    assert!(!constructs_its_class(&SubDef(&factory)));
    let stub = sub(TokenKind::Keyword, None, block(Vec::new()));
    assert!(constructs_its_class(&SubDef(&stub)), "an empty body says nothing against it");
}
