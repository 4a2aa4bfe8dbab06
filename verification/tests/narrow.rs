use camello::ast::Sigil;
use camello::narrow::{narrowing, Env, Narrowing};
use camello::span::TextRange;
use camello::syntax::{NodeKind, SyntaxElement, SyntaxNode, SyntaxToken, TokenKind};
use camello::types::{parse, Type};

fn t(kind: TokenKind, text: &str) -> SyntaxElement {
    SyntaxElement::Token(SyntaxToken { kind, text: text.to_string(), range: TextRange::new(0, text.len() as u32) })
}

fn tree(kind: NodeKind, children: Vec<SyntaxElement>) -> SyntaxNode {
    SyntaxNode { kind, range: TextRange::new(0, 0), children, before: Vec::new(), at_start: false }
}

fn n(kind: NodeKind, children: Vec<SyntaxElement>) -> SyntaxElement {
    SyntaxElement::Node(tree(kind, children))
}

fn name(text: &str) -> SyntaxElement {
    n(NodeKind::SubName, vec![t(TokenKind::Ident, text)])
}

fn scalar(text: &str) -> SyntaxElement {
    n(NodeKind::ScalarVar, vec![t(TokenKind::Punct, "$"), t(TokenKind::Ident, text)])
}

fn call(callee: &str, argument: SyntaxElement) -> SyntaxElement {
    n(NodeKind::ListCallExpr, vec![name(callee), n(NodeKind::ListExpr, vec![argument])])
}

fn not(inner: SyntaxElement) -> SyntaxElement {
    n(NodeKind::PrefixExpr, vec![t(TokenKind::LogicalNot, "!"), inner])
}

fn binary(left: SyntaxElement, operator: (TokenKind, &str), right: SyntaxElement) -> SyntaxElement {
    n(NodeKind::BinaryExpr, vec![left, t(operator.0, operator.1), right])
}

fn method(invocant: SyntaxElement, method_name: &str, argument: Option<SyntaxElement>) -> SyntaxElement {
    let inner = match argument {
        Some(a) => vec![t(TokenKind::Punct, "("), a, t(TokenKind::Punct, ")")],
        None => vec![t(TokenKind::Punct, "("), t(TokenKind::Punct, ")")],
    };
    n(
        NodeKind::MethodCallExpr,
        vec![invocant, t(TokenKind::Arrow, "->"), name(method_name), n(NodeKind::ArgList, vec![n(NodeKind::ParenExpr, inner)])],
    )
}

fn node(element: SyntaxElement) -> SyntaxNode {
    match element {
        SyntaxElement::Node(node) => node,
        SyntaxElement::Token(_) => panic!("a node wanted"),
    }
}

fn env() -> Env {
    let mut env = Env::new();
    env.set(Sigil::Scalar, "x", parse("Str|Undef").unwrap());
    env.set(Sigil::Scalar, "y", parse("Maybe[Int]").unwrap());
    env
}

fn facts(list: &[camello::narrow::Fact]) -> Vec<(String, Type)> {
    list.iter().map(|f| (f.name.clone(), f.ty.clone())).collect()
}

fn read(condition: SyntaxElement) -> Narrowing {
    narrowing(&env(), &node(condition))
}

#[test]
fn defined_takes_the_undef_out_where_it_held() {
    // Once for what `defined` asks, once for the variable the call read.
    let said = read(call("defined", scalar("x")));
    assert_eq!(facts(&said.when_true), vec![("x".to_string(), Type::Str), ("x".to_string(), Type::Str)]);
    assert!(said.when_false.is_empty());
    assert!(said.certain.is_empty());
}

#[test]
fn a_negation_moves_it_to_the_other_side() {
    let said = read(not(call("defined", scalar("x"))));
    assert!(said.when_true.is_empty());
    assert_eq!(facts(&said.when_false), vec![("x".to_string(), Type::Str), ("x".to_string(), Type::Str)]);
}

#[test]
fn a_conjunction_keeps_both_parts_on_the_true_side() {
    let said = read(binary(call("defined", scalar("x")), (TokenKind::Keyword, "&&"), scalar("y")));
    assert_eq!(
        facts(&said.when_true),
        vec![("x".to_string(), Type::Str), ("x".to_string(), Type::Str), ("y".to_string(), Type::Int)]
    );
    assert!(said.when_false.is_empty());
}

#[test]
fn a_disjunction_claims_nothing_where_it_held() {
    let said = read(binary(scalar("x"), (TokenKind::LogicalOr, "||"), scalar("y")));
    assert!(said.when_true.is_empty());
    let negated = read(binary(not(scalar("x")), (TokenKind::OrKw, "or"), scalar("y")));
    assert!(negated.when_true.is_empty());
    assert_eq!(facts(&negated.when_false), vec![("x".to_string(), Type::Str)]);
}

#[test]
fn isa_says_what_the_invocant_is() {
    let class = n(NodeKind::Literal, vec![t(TokenKind::StringLit, "'Foo'")]);
    let said = read(method(scalar("x"), "isa", Some(class)));
    assert_eq!(facts(&said.when_true), vec![("x".to_string(), Type::InstanceOf("Foo".into()))]);
}

#[test]
fn any_other_method_call_says_its_invocant_was_there() {
    let said = read(not(method(scalar("x"), "name", None)));
    assert_eq!(facts(&said.certain), vec![("x".to_string(), Type::Str)]);
    assert!(said.when_true.is_empty() && said.when_false.is_empty());
}

#[test]
fn a_call_nobody_read_says_nothing() {
    let said = read(call("validate", scalar("x")));
    assert!(said.certain.is_empty() && said.when_true.is_empty() && said.when_false.is_empty());
}

#[test]
fn a_variable_the_walk_never_saw_is_unknown() {
    let said = read(scalar("z"));
    assert_eq!(facts(&said.when_true), vec![("z".to_string(), Type::Unknown)]);
}

#[test]
fn defined_of_an_element_narrows_its_container() {
    let element = n(
        NodeKind::HashSubscriptExpr,
        vec![
            scalar("x"),
            t(TokenKind::Arrow, "->"),
            n(NodeKind::Subscript, vec![t(TokenKind::Punct, "{"), name("k"), t(TokenKind::Punct, "}")]),
        ],
    );
    let said = read(call("defined", element));
    assert_eq!(facts(&said.when_true)[0], ("x".to_string(), Type::Str));
}

#[test]
fn setting_a_variable_replaces_what_it_held() {
    let mut env = env();
    env.set(Sigil::Scalar, "x", Type::Int);
    assert_eq!(env.get(Sigil::Scalar, "x"), Type::Int);
    assert_eq!(env.get(Sigil::Scalar, "y"), parse("Maybe[Int]").unwrap());
    assert_eq!(env.get(Sigil::Array, "x"), Type::Unknown);
}
