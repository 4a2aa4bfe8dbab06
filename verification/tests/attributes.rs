use camello::annotate::{Access, AttributeDecl, Sink};
use camello::ast::Call;
use camello::attributes::{listed_names, read_accessor_lite, read_accessor_typed, read_has, read_type_library};
use camello::span::TextRange;
use camello::syntax::{NodeKind, SyntaxElement, SyntaxNode, SyntaxToken, TokenKind};
use camello::types::Type;

fn t(kind: TokenKind, text: &str) -> SyntaxElement {
    SyntaxElement::Token(SyntaxToken { kind, text: text.to_string(), range: TextRange::new(0, text.len() as u32) })
}

fn tree(kind: NodeKind, children: Vec<SyntaxElement>) -> SyntaxNode {
    SyntaxNode { kind, range: TextRange::new(0, 0), children, before: Vec::new(), at_start: false }
}

fn n(kind: NodeKind, children: Vec<SyntaxElement>) -> SyntaxElement {
    SyntaxElement::Node(tree(kind, children))
}

fn name(text: &str) -> SyntaxElement {
    let mut children = Vec::new();
    for (i, part) in text.split("::").enumerate() {
        if i > 0 {
            children.push(t(TokenKind::DoubleColon, "::"));
        }
        children.push(t(TokenKind::Ident, part));
    }
    n(NodeKind::SubName, children)
}

fn bareword(text: &str) -> SyntaxElement {
    n(NodeKind::ListCallExpr, vec![name(text)])
}

fn string(text: &str) -> SyntaxElement {
    n(NodeKind::Literal, vec![t(TokenKind::StringLit, &format!("'{text}'"))])
}

fn number(text: &str) -> SyntaxElement {
    n(NodeKind::Literal, vec![t(TokenKind::Number, text)])
}

fn qw(words: &str) -> SyntaxElement {
    n(NodeKind::QwExpr, vec![t(TokenKind::Keyword, "qw"), t(TokenKind::QwString, words)])
}

/// `key => value, ...` as one comma series.
fn pairs(items: Vec<(&str, SyntaxElement)>) -> SyntaxElement {
    let mut children = Vec::new();
    for (i, (key, value)) in items.into_iter().enumerate() {
        if i > 0 {
            children.push(t(TokenKind::Comma, ","));
        }
        children.push(bareword(key));
        children.push(t(TokenKind::FatComma, "=>"));
        children.push(value);
    }
    n(NodeKind::ListExpr, children)
}

fn paren(inner: SyntaxElement) -> SyntaxElement {
    n(NodeKind::ParenExpr, vec![t(TokenKind::Punct, "("), inner, t(TokenKind::Punct, ")")])
}

fn hash(items: Vec<(&str, SyntaxElement)>) -> SyntaxElement {
    n(NodeKind::AnonHash, vec![t(TokenKind::Punct, "{"), pairs(items), t(TokenKind::Punct, "}")])
}

fn array(elements: Vec<SyntaxElement>) -> SyntaxElement {
    let mut children = Vec::new();
    for (i, element) in elements.into_iter().enumerate() {
        if i > 0 {
            children.push(t(TokenKind::Comma, ","));
        }
        children.push(element);
    }
    n(NodeKind::AnonArray, vec![t(TokenKind::Punct, "["), n(NodeKind::ListExpr, children), t(TokenKind::Punct, "]")])
}

/// `has NAMES => (OPTIONS);`
fn has(names: SyntaxElement, options: Vec<(&str, SyntaxElement)>) -> SyntaxNode {
    tree(
        NodeKind::ListCallExpr,
        vec![name("has"), n(NodeKind::ListExpr, vec![names, t(TokenKind::FatComma, "=>"), paren(pairs(options))])],
    )
}

fn attributes(node: &SyntaxNode) -> Vec<AttributeDecl> {
    let mut sink = Sink::new();
    read_has(&Call::cast(node).expect("a call"), &mut sink)
}

fn node(element: SyntaxElement) -> SyntaxNode {
    match element {
        SyntaxElement::Node(node) => node,
        SyntaxElement::Token(_) => panic!("a node wanted"),
    }
}

#[test]
fn has_yields_an_attribute() {
    let call = has(bareword("name"), vec![("is", string("ro")), ("isa", string("Str")), ("required", number("1"))]);
    let found = attributes(&call);
    assert_eq!(found.len(), 1);
    assert_eq!(found[0].name, "name");
    assert_eq!(found[0].ty, Type::Str);
    assert_eq!(found[0].access, Access::Ro);
    assert!(found[0].required);
    assert!(!found[0].defaulted);
}

#[test]
fn has_reads_a_bareword_type_expression() {
    let isa = n(
        NodeKind::Other,
        vec![t(TokenKind::Ident, "ArrayRef"), t(TokenKind::Punct, "["), t(TokenKind::Ident, "MyItem"), t(TokenKind::Punct, "]")],
    );
    let found = attributes(&has(bareword("items"), vec![("is", string("rw")), ("isa", isa)]));
    assert_eq!(found[0].ty, Type::ArrayRef(Box::new(Type::InstanceOf("MyItem".into()))));
}

#[test]
fn has_takes_a_list_of_names() {
    let found = attributes(&has(array(vec![qw("a b")]), vec![("is", string("ro")), ("isa", string("Int"))]));
    assert_eq!(found.len(), 2);
    assert_eq!(found[0].name, "a");
    assert_eq!(found[1].name, "b");
    assert_eq!(found[1].ty, Type::Int);
}

#[test]
fn an_override_takes_its_type_from_the_parent() {
    let found = attributes(&has(string("+name"), vec![("default", string("x"))]));
    assert_eq!(found[0].name, "name");
    assert_eq!(found[0].ty, Type::Unknown);
    assert!(found[0].defaulted);
}

#[test]
fn does_gives_a_role() {
    let found = attributes(&has(bareword("log"), vec![("is", string("ro")), ("does", string("Loggable"))]));
    assert_eq!(found[0].ty, Type::ConsumerOf("Loggable".into()));
}

#[test]
fn coerce_widens_what_goes_in_and_not_what_comes_out() {
    let found = attributes(&has(
        bareword("at"),
        vec![("is", string("ro")), ("isa", string("Int")), ("coerce", number("1"))],
    ));
    assert_eq!(found[0].ty, Type::Int);
    assert!(found[0].coerce);
    assert_eq!(found[0].result_type("at"), Type::Int);
    assert_eq!(found[0].accepts(), Type::Any);

    let plain = attributes(&has(bareword("at"), vec![("is", string("ro")), ("isa", string("Int"))]));
    assert!(!plain[0].coerce);
    assert_eq!(plain[0].accepts(), Type::Int);
}

#[test]
fn named_accessors_are_methods_of_their_own() {
    let found = attributes(&has(
        bareword("name"),
        vec![("is", string("ro")), ("writer", string("set_name")), ("predicate", string("has_name"))],
    ));
    assert!(found[0].answers_to("set_name"));
    assert!(found[0].answers_to("has_name"));
    assert_eq!(found[0].result_type("has_name"), Type::Bool);
    assert_eq!(found[0].result_type("set_name"), found[0].ty);
    assert_eq!(found[0].result_type("name"), found[0].ty);
}

#[test]
fn a_regexp_in_handles_makes_the_delegation_opaque() {
    let regexp = n(NodeKind::QrExpr, vec![t(TokenKind::Other, "qr/^x/")]);
    let found = attributes(&has(bareword("c"), vec![("is", string("ro")), ("handles", regexp)]));
    assert!(found[0].opaque_delegation);
    let listed = attributes(&has(bareword("c"), vec![("is", string("ro")), ("handles", array(vec![qw("a b")]))]));
    assert!(!listed[0].opaque_delegation);
    let names: Vec<&str> = listed[0].methods.iter().map(|m| m.name.as_str()).collect();
    assert_eq!(names, vec!["a", "b"]);
    assert_eq!(listed[0].result_type("a"), Type::Unknown);
}

#[test]
fn a_later_option_wins_and_zero_is_false() {
    let found = attributes(&has(
        bareword("x"),
        vec![("isa", string("Int")), ("isa", string("Str")), ("required", number("0")), ("is", string("wo"))],
    ));
    assert_eq!(found[0].ty, Type::Str);
    assert!(!found[0].required);
    assert_eq!(found[0].access, Access::Wo);
}

#[test]
fn a_bad_isa_is_reported_and_untyped() {
    let call = has(bareword("a"), vec![("isa", string("ArrayRef[Str"))]);
    let mut sink = Sink::new();
    let found = read_has(&Call::cast(&call).unwrap(), &mut sink);
    assert_eq!(found[0].ty, Type::Unknown);
    assert_eq!(sink.diagnostics.len(), 1);
}

#[test]
fn class_accessor_typed_declares_the_same_way() {
    let arguments = node(paren(pairs(vec![
        ("rw", hash(vec![("name", string("Str"))])),
        ("ro", hash(vec![("id", hash(vec![("isa", string("Int"))]))])),
        ("new", number("1")),
    ])));
    let mut sink = Sink::new();
    let (found, constructor) = read_accessor_typed(&arguments, &mut sink);
    assert_eq!(found.len(), 2);
    assert_eq!(found[0].name, "name");
    assert_eq!(found[0].ty, Type::Str);
    assert_eq!(found[0].access, Access::Rw);
    assert!(found[0].required, "mandatory unless it says otherwise");
    assert_eq!(found[1].name, "id");
    assert_eq!(found[1].ty, Type::Int);
    assert_eq!(found[1].access, Access::Ro);
    assert!(constructor);
}

#[test]
fn new_zero_removes_the_constructor() {
    let arguments = node(paren(pairs(vec![("rw", hash(vec![("a", string("Str"))])), ("new", number("0"))])));
    let mut sink = Sink::new();
    let (_, constructor) = read_accessor_typed(&arguments, &mut sink);
    assert!(!constructor);
}

#[test]
fn a_lazy_typed_slot_is_not_required() {
    let arguments = node(paren(pairs(vec![(
        "ro_lazy",
        hash(vec![("a", string("Str")), ("b", hash(vec![("isa", string("Int")), ("optional", number("1"))]))]),
    )])));
    let mut sink = Sink::new();
    let (found, _) = read_accessor_typed(&arguments, &mut sink);
    assert_eq!(found.len(), 2);
    assert!(!found[0].required && found[0].defaulted);
    assert!(!found[1].required);
}

#[test]
fn class_accessor_lite_declares_its_accessors() {
    let arguments = node(paren(pairs(vec![
        ("new", number("1")),
        ("rw", array(vec![qw("foo bar")])),
        ("ro", array(vec![qw("baz")])),
        ("wo", array(vec![qw("quux")])),
    ])));
    let (found, constructor) = read_accessor_lite(&arguments);
    assert!(constructor, "`new => 1` asked for one");
    let names: Vec<(&str, Access)> = found.iter().map(|a| (a.name.as_str(), a.access)).collect();
    assert_eq!(names, [("foo", Access::Rw), ("bar", Access::Rw), ("baz", Access::Ro), ("quux", Access::Wo)]);
    assert!(found.iter().all(|one| one.ty == Type::Unknown), "the module says nothing about types");
}

#[test]
fn a_lazy_accessor_is_named_however_its_builder_is_given() {
    let code_ref = n(
        NodeKind::ReferenceExpr,
        vec![t(TokenKind::Backslash, "\\"), n(NodeKind::CodeVar, vec![t(TokenKind::Punct, "&"), t(TokenKind::Ident, "make_poyo")])],
    );
    let arguments = node(paren(pairs(vec![
        ("ro_lazy", array(vec![string("hoge"), hash(vec![("poyo", code_ref), ("poe", string("make_poe"))])])),
        ("rw_lazy", hash(vec![("baz", string("make_baz"))])),
    ])));
    let (found, constructor) = read_accessor_lite(&arguments);
    let mut names: Vec<&str> = found.iter().map(|a| a.name.as_str()).collect();
    names.sort_unstable();
    assert_eq!(names, ["baz", "hoge", "poe", "poyo"]);
    assert!(!constructor, "no `new => 1`, no `new`");
    let builders: Vec<Option<&str>> = found.iter().map(|a| a.builder.as_deref()).collect();
    assert_eq!(builders, [Some("_build_hoge"), Some("make_poyo"), Some("make_poe"), Some("make_baz")]);
}

#[test]
fn listed_names_reads_a_hash_only_for_the_lazy_makers() {
    let list = node(array(vec![string("a"), hash(vec![("b", string("make_b"))])]));
    assert_eq!(listed_names(&list, true).len(), 2);
    assert_eq!(listed_names(&list, false).len(), 1);
}

fn library_call(callee: &str, arguments: Vec<SyntaxElement>) -> SyntaxNode {
    let mut children = Vec::new();
    for (i, argument) in arguments.into_iter().enumerate() {
        if i > 0 {
            children.push(t(TokenKind::Comma, ","));
        }
        children.push(argument);
    }
    tree(NodeKind::ListCallExpr, vec![name(callee), n(NodeKind::ListExpr, children)])
}

fn declared(call: &SyntaxNode) -> Option<(String, Type)> {
    let mut sink = Sink::new();
    read_type_library(&Call::cast(call).unwrap(), &mut sink).map(|named| (named.name, named.ty))
}

#[test]
fn a_type_library_declares_names() {
    let as_int = n(NodeKind::ListCallExpr, vec![name("as"), n(NodeKind::ListExpr, vec![bareword("Int")])]);
    let declare = library_call("declare", vec![string("PositiveInt"), as_int]);
    assert_eq!(declared(&declare), Some(("PositiveInt".to_string(), Type::Int)));
    let class = library_call("class_type", vec![string("User"), hash(vec![("class", string("MyApp::User"))])]);
    assert_eq!(declared(&class).unwrap().1, Type::InstanceOf("MyApp::User".into()));
    let role = library_call("role_type", vec![string("Loggable")]);
    assert_eq!(declared(&role).unwrap().1, Type::ConsumerOf("Loggable".into()));
    let colours = library_call("enum", vec![string("Color"), array(vec![qw("red green blue")])]);
    assert_eq!(declared(&colours).unwrap().1, Type::Enum(vec!["red".into(), "green".into(), "blue".into()]));
    let union = library_call("union", vec![string("Id"), array(vec![bareword("Int"), bareword("Str")])]);
    assert_eq!(declared(&union).unwrap().1, Type::Union(vec![Type::Int, Type::Str]));
    let bare = library_call("declare", vec![string("Anything")]);
    assert_eq!(declared(&bare).unwrap().1, Type::Any);
    let other = library_call("frobnicate", vec![string("X")]);
    assert_eq!(declared(&other), None);
}
