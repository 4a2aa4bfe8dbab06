use camello::arity::analyse_calls;
use camello::decl::{FileDecls, Param, ParamSource, Params, SubDecl, SymbolSource};
use camello::diag::Code;
use camello::program::Program;
use camello::shape::Returns;
use camello::span::TextRange;
use camello::syntax::{NodeKind, SyntaxElement, SyntaxNode, SyntaxToken, TokenKind};
use camello::types::Type;

fn t(kind: TokenKind, text: &str) -> SyntaxElement {
    SyntaxElement::Token(SyntaxToken { kind, text: text.to_string(), range: TextRange::new(0, text.len() as u32) })
}

fn node(kind: NodeKind, start: u32, children: Vec<SyntaxElement>) -> SyntaxNode {
    SyntaxNode { kind, range: TextRange::new(start, start + 1), children, before: Vec::new(), at_start: false }
}

fn n(kind: NodeKind, start: u32, children: Vec<SyntaxElement>) -> SyntaxElement {
    SyntaxElement::Node(node(kind, start, children))
}

fn name(text: &str, start: u32) -> SyntaxElement {
    n(NodeKind::SubName, start, vec![t(TokenKind::Ident, text)])
}

fn number(text: &str) -> SyntaxElement {
    n(NodeKind::Literal, 0, vec![t(TokenKind::Number, text)])
}

fn param(name: &str) -> Param {
    Param { name: name.to_string(), optional: false, ty: Type::Unknown }
}

fn sub(package: &str, name: &str, params: Params) -> SubDecl {
    SubDecl {
        package: package.to_string(),
        name: name.to_string(),
        params,
        returns: Returns::default(),
        source: SymbolSource::Annotated,
        constructs_own_class: false,
        range: TextRange::new(0, 0),
        file: 0,
    }
}

fn program() -> Program {
    let add = Params::Positional {
        params: vec![param("$x"), param("$y")],
        slurpy: false,
        invocant: false,
        source: ParamSource::Signature,
    };
    let new = Params::Positional {
        params: vec![param("$class"), param("$x")],
        slurpy: false,
        invocant: true,
        source: ParamSource::Signature,
    };
    let decls = FileDecls {
        subs: vec![sub("main", "add", add), sub("Foo", "new", new)],
        imports: Vec::new(),
        packages: Vec::new(),
        facts: Vec::new(),
        uses: Vec::new(),
        diagnostics: Vec::new(),
        annotations: Vec::new(),
    };
    let mut program = Program::new();
    program.add("main.pl", decls, true);
    program
}

fn root(children: Vec<SyntaxElement>) -> SyntaxNode {
    node(NodeKind::Root, 0, children)
}

#[test]
fn a_call_with_too_few_arguments_is_reported_at_its_name() {
    // add(1);
    let call = n(NodeKind::ListCallExpr, 10, vec![name("add", 10), n(NodeKind::ListExpr, 14, vec![number("1")])]);
    let found = analyse_calls(&root(vec![call]), 0, &program(), &Vec::new());
    assert_eq!(found.len(), 1);
    assert_eq!(found[0].code, Code::Arity);
    assert_eq!(found[0].range, TextRange::new(10, 11));
    assert_eq!(found[0].message, "`add` takes at least 2 arguments; 1 passed");
}

#[test]
fn a_call_with_the_right_count_is_quiet() {
    let args = vec![number("1"), t(TokenKind::Comma, ","), number("2")];
    let call = n(NodeKind::ListCallExpr, 10, vec![name("add", 10), n(NodeKind::ListExpr, 14, args)]);
    assert!(analyse_calls(&root(vec![call]), 0, &program(), &Vec::new()).is_empty());
}

#[test]
fn a_builtin_is_not_the_file_s_own_sub() {
    let call = n(NodeKind::ListCallExpr, 10, vec![name("add", 10), n(NodeKind::ListExpr, 14, vec![number("1")])]);
    assert!(analyse_calls(&root(vec![call]), 0, &program(), &vec!["add".to_string()]).is_empty());
}

#[test]
fn a_method_call_on_a_bareword_class_counts_its_invocant() {
    // Foo->new(1, 2);
    let list = n(NodeKind::ListExpr, 29, vec![number("1"), t(TokenKind::Comma, ","), number("2")]);
    let args = vec![t(TokenKind::Punct, "("), list, t(TokenKind::Punct, ")")];
    let call = n(
        NodeKind::MethodCallExpr,
        20,
        vec![
            n(NodeKind::ListCallExpr, 20, vec![name("Foo", 20)]),
            t(TokenKind::Arrow, "->"),
            name("new", 25),
            n(NodeKind::ArgList, 28, vec![n(NodeKind::ParenExpr, 28, args)]),
        ],
    );
    let found = analyse_calls(&root(vec![call]), 0, &program(), &Vec::new());
    let codes: Vec<Code> = found.iter().map(|d| d.code).collect();
    assert_eq!(codes, vec![Code::Arity]);
    assert_eq!(found[0].range, TextRange::new(25, 26));
    assert_eq!(found[0].message, "`new` takes at most 2 arguments including its invocant; 3 passed");
}
