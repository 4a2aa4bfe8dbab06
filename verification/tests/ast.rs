use camello::ast::{
    joined_text, AnonHash, Args, Arg, AssignExpr, Call, DeclKeyword, Literal, MethodCallExpr,
    PackageStmt, QwExpr, Sigil, Step, SubDef, SubscriptChain, UseStmt, VarDecl,
};
use camello::span::TextRange;
use camello::syntax::{NodeKind, SyntaxElement, SyntaxNode, SyntaxToken, TokenKind};

fn token(kind: TokenKind, text: &str) -> SyntaxToken {
    SyntaxToken { kind, text: text.to_string(), range: TextRange::new(0, text.len() as u32) }
}

fn t(kind: TokenKind, text: &str) -> SyntaxElement {
    SyntaxElement::Token(token(kind, text))
}

fn tree(kind: NodeKind, children: Vec<SyntaxElement>) -> SyntaxNode {
    SyntaxNode { kind, range: TextRange::new(0, 0), children, before: Vec::new(), at_start: false }
}

fn n(kind: NodeKind, children: Vec<SyntaxElement>) -> SyntaxElement {
    SyntaxElement::Node(tree(kind, children))
}

fn ws() -> SyntaxElement {
    t(TokenKind::Whitespace, " ")
}

/// A name as the parser writes one: `Foo::Bar` is three tokens.
fn name(text: &str) -> SyntaxElement {
    let mut children = Vec::new();
    for (i, part) in text.split("::").enumerate() {
        if i > 0 {
            children.push(t(TokenKind::DoubleColon, "::"));
        }
        children.push(t(TokenKind::Ident, part));
    }
    n(NodeKind::SubName, children)
}

/// A bareword: a list call of a name with no arguments.
fn bareword(text: &str) -> SyntaxElement {
    n(NodeKind::ListCallExpr, vec![name(text)])
}

fn scalar(text: &str) -> SyntaxElement {
    n(NodeKind::ScalarVar, vec![t(TokenKind::Punct, "$"), t(TokenKind::Ident, text)])
}

fn string(text: &str) -> SyntaxElement {
    n(NodeKind::Literal, vec![t(TokenKind::StringLit, text)])
}

fn number(text: &str) -> SyntaxElement {
    n(NodeKind::Literal, vec![t(TokenKind::Number, text)])
}

fn paren(inner: Vec<SyntaxElement>) -> SyntaxElement {
    let mut children = vec![t(TokenKind::Punct, "(")];
    children.extend(inner);
    children.push(t(TokenKind::Punct, ")"));
    n(NodeKind::ParenExpr, children)
}

fn subscript(open: &str, inner: SyntaxElement, close: &str) -> SyntaxElement {
    n(NodeKind::Subscript, vec![t(TokenKind::Punct, open), inner, t(TokenKind::Punct, close)])
}

fn into_node(element: SyntaxElement) -> SyntaxNode {
    match element {
        SyntaxElement::Node(node) => node,
        SyntaxElement::Token(_) => panic!("a node wanted"),
    }
}

#[test]
fn a_sub_offers_its_parts() {
    // sub greet ($self, $who = 'x') { return 1 }
    let sub = tree(
        NodeKind::SubDef,
        vec![
            t(TokenKind::Keyword, "sub"),
            ws(),
            name("greet"),
            ws(),
            n(
                NodeKind::SubSignature,
                vec![
                    t(TokenKind::Punct, "("),
                    n(NodeKind::SignatureParam, vec![scalar("self")]),
                    t(TokenKind::Comma, ","),
                    ws(),
                    n(
                        NodeKind::SignatureParam,
                        vec![
                            scalar("who"),
                            ws(),
                            n(NodeKind::SignatureDefault, vec![t(TokenKind::Assign, "="), ws(), string("'x'")]),
                        ],
                    ),
                    t(TokenKind::Punct, ")"),
                ],
            ),
            ws(),
            n(
                NodeKind::Block,
                vec![t(TokenKind::Punct, "{"), n(NodeKind::Other, vec![t(TokenKind::Keyword, "return"), ws(), number("1")]), t(TokenKind::Punct, "}")],
            ),
        ],
    );
    let sub = SubDef::cast(&sub).unwrap();
    assert_eq!(sub.name_text().as_deref(), Some("greet"));
    let params = sub.signature().expect("a signature").params();
    assert_eq!(params.len(), 2);
    assert_eq!(params[0].variable().expect("a variable").display(), "$self");
    assert!(params[0].default().is_none());
    assert!(params[1].default().is_some());
    assert!(sub.body().is_some());
    assert!(!sub.is_forward_declaration());
}

#[test]
fn a_forward_declaration_has_no_body() {
    // sub later;
    let sub = tree(
        NodeKind::SubDef,
        vec![t(TokenKind::Keyword, "sub"), ws(), name("later"), t(TokenKind::Punct, ";")],
    );
    assert!(SubDef::cast(&sub).unwrap().is_forward_declaration());
}

fn comment_texts(sub: &SyntaxNode) -> Vec<String> {
    SubDef::cast(sub)
        .unwrap()
        .leading_comments()
        .iter()
        .map(|token| token.text.clone())
        .collect()
}

#[test]
fn leading_comments_are_the_block_immediately_above() {
    // # not this one
    //
    // # Returns: Int
    // # and this
    // sub f { 1 }
    let mut sub = tree(NodeKind::SubDef, vec![t(TokenKind::Keyword, "sub"), ws(), name("f")]);
    sub.at_start = true;
    sub.before = vec![
        token(TokenKind::Comment, "# not this one"),
        token(TokenKind::Newline, "\n"),
        token(TokenKind::Newline, "\n"),
        token(TokenKind::Comment, "# Returns: Int"),
        token(TokenKind::Newline, "\n"),
        token(TokenKind::Comment, "# and this"),
        token(TokenKind::Newline, "\n"),
    ];
    assert_eq!(comment_texts(&sub), vec!["# Returns: Int", "# and this"]);
}

#[test]
fn a_trailing_comment_belongs_to_its_own_line() {
    // my $x = 1;  # Returns: Int
    // sub f { 1 }
    let mut sub = tree(NodeKind::SubDef, vec![t(TokenKind::Keyword, "sub"), ws(), name("f")]);
    sub.before = vec![
        token(TokenKind::Whitespace, "  "),
        token(TokenKind::Comment, "# Returns: Int"),
        token(TokenKind::Newline, "\n"),
    ];
    assert!(comment_texts(&sub).is_empty());
}

#[test]
fn fat_comma_pairs_are_exposed_as_pairs() {
    // has name => (is => 'ro', isa => 'Str');
    let options = paren(vec![n(
        NodeKind::ListExpr,
        vec![
            bareword("is"),
            ws(),
            t(TokenKind::FatComma, "=>"),
            ws(),
            string("'ro'"),
            t(TokenKind::Comma, ","),
            ws(),
            bareword("isa"),
            ws(),
            t(TokenKind::FatComma, "=>"),
            ws(),
            string("'Str'"),
        ],
    )]);
    let node = tree(
        NodeKind::ListCallExpr,
        vec![
            name("has"),
            ws(),
            n(NodeKind::ListExpr, vec![bareword("name"), ws(), t(TokenKind::FatComma, "=>"), ws(), options]),
        ],
    );
    let call = Call::cast(&node).expect("a call");
    assert_eq!(call.callee_name().as_deref(), Some("has"));
    let pairs = call.pairs();
    assert_eq!(pairs.len(), 1, "{pairs:?}");
    assert_eq!(pairs[0].key(), Some("name"));
    assert_eq!(call.args().len(), 2);
    let options = Args::pairs(pairs[0].node());
    let keys: Vec<_> = options.iter().map(Arg::key).collect();
    assert_eq!(keys, vec![Some("is"), Some("isa")]);
}

#[test]
fn a_bareword_is_a_call_with_no_arguments() {
    let node = into_node(bareword("foo"));
    let call = Call::cast(&node).expect("a call");
    assert_eq!(call.callee_name().as_deref(), Some("foo"));
    assert!(call.args().is_empty());
}

#[test]
fn a_filehandle_is_not_an_argument() {
    // print STDERR "x";
    let node = tree(
        NodeKind::ListCallExpr,
        vec![
            name("print"),
            ws(),
            n(NodeKind::Filehandle, vec![t(TokenKind::Ident, "STDERR")]),
            ws(),
            n(NodeKind::ListExpr, vec![string("\"x\"")]),
        ],
    );
    let call = Call::cast(&node).expect("a call");
    assert!(call.filehandle().is_some());
    assert_eq!(call.args().len(), 1);
}

#[test]
fn a_method_call_names_its_invocant_and_method() {
    // $obj->greet(1);
    let node = tree(
        NodeKind::MethodCallExpr,
        vec![
            scalar("obj"),
            t(TokenKind::Arrow, "->"),
            name("greet"),
            n(NodeKind::ArgList, vec![paren(vec![number("1")])]),
        ],
    );
    let call = MethodCallExpr::cast(&node).unwrap();
    assert_eq!(call.method_name().as_deref(), Some("greet"));
    assert!(!call.is_dynamic());
    assert_eq!(call.args().len(), 1);
    assert!(call.invocant().is_some());
}

#[test]
fn a_dynamic_method_call_has_no_name() {
    // $obj->$name();
    let node = tree(
        NodeKind::MethodCallExpr,
        vec![
            scalar("obj"),
            t(TokenKind::Arrow, "->"),
            scalar("name"),
            n(NodeKind::ArgList, vec![paren(vec![])]),
        ],
    );
    let call = MethodCallExpr::cast(&node).unwrap();
    assert!(call.is_dynamic());
    assert_eq!(call.method_name(), None);
}

#[test]
fn a_subscript_chain_reads_left_to_right() {
    // $self->{a}[0]{b};
    let first = n(
        NodeKind::HashSubscriptExpr,
        vec![scalar("self"), t(TokenKind::Arrow, "->"), subscript("{", name("a"), "}")],
    );
    let second = n(NodeKind::ArraySubscriptExpr, vec![first, subscript("[", number("0"), "]")]);
    let node = tree(NodeKind::HashSubscriptExpr, vec![second, subscript("{", name("b"), "}")]);
    let chain = SubscriptChain::cast(&node).expect("a chain");
    assert_eq!(joined_text(chain.base()), "$self");
    let steps = chain.steps();
    assert_eq!(steps.len(), 3);
    assert!(matches!(&steps[0], Step::Hash { key: Some(k), .. } if k == "a"));
    assert!(matches!(&steps[1], Step::Array { index: Some(0), .. }));
    assert!(matches!(&steps[2], Step::Hash { key: Some(k), .. } if k == "b"));
}

#[test]
fn a_postfix_deref_is_a_step() {
    // $x->@*;
    let node = tree(NodeKind::PostfixDerefExpr, vec![scalar("x"), t(TokenKind::DerefArray, "->@*")]);
    let chain = SubscriptChain::cast(&node).expect("a chain");
    assert!(matches!(chain.steps()[0], Step::Deref { sigil: Sigil::Array, .. }));
}

#[test]
fn a_declaration_names_every_target() {
    // my ($self, %args) = @_;
    let node = tree(
        NodeKind::VarDecl,
        vec![
            t(TokenKind::MyKw, "my"),
            ws(),
            n(NodeKind::DeclTarget, vec![paren(vec![n(
                NodeKind::ListExpr,
                vec![
                    scalar("self"),
                    t(TokenKind::Comma, ","),
                    ws(),
                    n(NodeKind::HashVar, vec![t(TokenKind::Punct, "%"), t(TokenKind::Ident, "args")]),
                ],
            )])]),
        ],
    );
    let decl = VarDecl::cast(&node).unwrap();
    assert_eq!(decl.keyword(), Some(DeclKeyword::My));
    let names: Vec<_> = decl.targets().iter().map(|v| v.display()).collect();
    assert_eq!(names, vec!["$self", "%args"]);
}

#[test]
fn local_is_a_keyword_of_its_own() {
    // local $x = 1;
    let node = tree(NodeKind::VarDecl, vec![t(TokenKind::LocalKw, "local"), ws(), n(NodeKind::DeclTarget, vec![scalar("x")])]);
    assert_eq!(VarDecl::cast(&node).unwrap().keyword(), Some(DeclKeyword::Local));
}

#[test]
fn a_string_literal_says_what_it_holds() {
    let node = into_node(string("'ArrayRef[Str]'"));
    assert_eq!(Literal::cast(&node).unwrap().as_string().as_deref(), Some("ArrayRef[Str]"));
}

#[test]
fn an_interpolating_string_is_not_a_literal_string() {
    let node = into_node(string("\"hi $who\""));
    assert_eq!(Literal::cast(&node).unwrap().as_string(), None);
}

#[test]
fn a_single_quoted_string_undoes_its_escapes() {
    let node = into_node(string("'it\\'s \\\\ here'"));
    assert_eq!(Literal::cast(&node).unwrap().as_string().as_deref(), Some("it's \\ here"));
    let plain = into_node(string("\"plain\""));
    assert_eq!(Literal::cast(&plain).unwrap().as_string().as_deref(), Some("plain"));
}

#[test]
fn a_use_statement_offers_its_arguments() {
    // use Class::Accessor::Typed (rw => { name => 'Str' });
    let hash = n(
        NodeKind::AnonHash,
        vec![
            t(TokenKind::Punct, "{"),
            n(NodeKind::ListExpr, vec![bareword("name"), t(TokenKind::FatComma, "=>"), string("'Str'")]),
            t(TokenKind::Punct, "}"),
        ],
    );
    let node = tree(
        NodeKind::UseStmt,
        vec![
            t(TokenKind::Keyword, "use"),
            ws(),
            name("Class::Accessor::Typed"),
            ws(),
            paren(vec![n(NodeKind::ListExpr, vec![bareword("rw"), t(TokenKind::FatComma, "=>"), hash])]),
            t(TokenKind::Punct, ";"),
        ],
    );
    let statement = UseStmt::cast(&node).unwrap();
    assert_eq!(statement.module().as_deref(), Some("Class::Accessor::Typed"));
    let arguments = statement.arguments().expect("an argument list");
    let pairs = Args::pairs(arguments);
    assert_eq!(pairs.len(), 1);
    assert_eq!(pairs[0].key(), Some("rw"));
}

#[test]
fn an_anonymous_hash_reads_as_pairs() {
    // { isa => 'Int', default => 1 }
    let node = tree(
        NodeKind::AnonHash,
        vec![
            t(TokenKind::Punct, "{"),
            n(
                NodeKind::ListExpr,
                vec![
                    bareword("isa"),
                    t(TokenKind::FatComma, "=>"),
                    string("'Int'"),
                    t(TokenKind::Comma, ","),
                    bareword("default"),
                    t(TokenKind::FatComma, "=>"),
                    number("1"),
                ],
            ),
            t(TokenKind::Punct, "}"),
        ],
    );
    let pairs = AnonHash::cast(&node).unwrap().pairs();
    assert_eq!(pairs.len(), 2);
    assert_eq!(pairs[0].key(), Some("isa"));
    assert_eq!(pairs[1].key(), Some("default"));
}

#[test]
fn a_word_list_is_its_words() {
    // qw(a b c)
    let node = tree(
        NodeKind::QwExpr,
        vec![t(TokenKind::Keyword, "qw"), t(TokenKind::Punct, "("), t(TokenKind::QwString, "a b c"), t(TokenKind::Punct, ")")],
    );
    assert_eq!(QwExpr::cast(&node).unwrap().words(), vec!["a", "b", "c"]);
}

#[test]
fn a_word_list_splits_on_any_white_space() {
    let node = tree(NodeKind::QwExpr, vec![t(TokenKind::QwString, "  a\n\tbb  c ")]);
    assert_eq!(QwExpr::cast(&node).unwrap().words(), vec!["a", "bb", "c"]);
}

#[test]
fn an_assignment_has_a_target_and_a_value() {
    // $x //= 1;
    let node = tree(
        NodeKind::AssignExpr,
        vec![scalar("x"), ws(), t(TokenKind::DefinedOrAssign, "//="), ws(), number("1")],
    );
    let assign = AssignExpr::cast(&node).unwrap();
    assert_eq!(assign.operator(), Some(TokenKind::DefinedOrAssign));
    assert!(!assign.is_plain());
    assert!(assign.target().is_some());
    assert!(assign.value().is_some());
}

#[test]
fn a_package_names_itself() {
    // package Foo::Bar;
    let node = tree(
        NodeKind::PackageStmt,
        vec![t(TokenKind::Keyword, "package"), ws(), name("Foo::Bar"), t(TokenKind::Punct, ";")],
    );
    let package = PackageStmt::cast(&node).unwrap();
    assert_eq!(package.name().as_deref(), Some("Foo::Bar"));
    assert!(package.block().is_none());
}
