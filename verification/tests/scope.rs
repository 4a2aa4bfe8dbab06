use camello::scope::{disables_vars, version_enables_strict, StrictRegions};
use camello::span::TextRange;
use camello::syntax::{NodeKind, SyntaxElement, SyntaxNode, SyntaxToken, TokenKind};

fn token(kind: TokenKind, text: &str) -> SyntaxElement {
    SyntaxElement::Token(SyntaxToken { kind, text: text.to_string(), range: TextRange::new(0, text.len() as u32) })
}

fn node(kind: NodeKind, start: u32, end: u32, children: Vec<SyntaxElement>) -> SyntaxNode {
    SyntaxNode { kind, range: TextRange::new(start, end), children, before: Vec::new(), at_start: false }
}

fn name(text: &str) -> SyntaxElement {
    SyntaxElement::Node(node(NodeKind::SubName, 0, 0, vec![token(TokenKind::Ident, text)]))
}

/// `use Module;` spanning `start..end`.
fn use_stmt(module: &str, start: u32, end: u32) -> SyntaxElement {
    SyntaxElement::Node(node(NodeKind::UseStmt, start, end, vec![token(TokenKind::Ident, "use"), name(module)]))
}

fn use_version(version: &str) -> SyntaxNode {
    node(NodeKind::UseStmt, 0, 10, vec![token(TokenKind::Ident, "use"), token(TokenKind::Version, version)])
}

/// `no strict <arguments>;` spanning `start..end`.
fn no_strict(arguments: Option<&str>, start: u32, end: u32) -> SyntaxElement {
    let mut children = vec![token(TokenKind::Ident, "no"), name("strict")];
    if let Some(text) = arguments {
        children.push(SyntaxElement::Node(node(NodeKind::Literal, 0, 0, vec![token(TokenKind::StringLit, text)])));
    }
    SyntaxElement::Node(node(NodeKind::NoStmt, start, end, children))
}

fn root(children: Vec<SyntaxElement>) -> SyntaxNode {
    node(NodeKind::Root, 0, 200, children)
}

#[test]
fn strict_is_read_not_assumed() {
    let regions = StrictRegions::of(&root(vec![use_stmt("warnings", 0, 13)]));
    assert!(!regions.anywhere());
    assert!(!regions.at(50));
}

#[test]
fn strict_is_in_force_from_the_end_of_its_statement() {
    let regions = StrictRegions::of(&root(vec![use_stmt("strict", 20, 31)]));
    assert!(regions.anywhere());
    assert!(!regions.at(5));
    assert!(!regions.at(30));
    assert!(regions.at(31));
    assert!(regions.at(150));
}

#[test]
fn a_framework_import_turns_strict_on() {
    let regions = StrictRegions::of(&root(vec![use_stmt("Moose", 0, 10)]));
    assert!(regions.at(11));
}

#[test]
fn no_strict_turns_it_off_from_where_it_stands() {
    let regions = StrictRegions::of(&root(vec![use_stmt("strict", 0, 11), no_strict(None, 40, 50)]));
    assert!(regions.at(20));
    assert!(!regions.at(40));
    assert!(!regions.at(100));
}

#[test]
fn no_strict_refs_leaves_it_on() {
    let regions = StrictRegions::of(&root(vec![use_stmt("strict", 0, 11), no_strict(Some("'refs'"), 40, 60)]));
    assert!(regions.at(100));
    let regions = StrictRegions::of(&root(vec![use_stmt("strict", 0, 11), no_strict(Some("'vars'"), 40, 60)]));
    assert!(!regions.at(100));
}

#[test]
fn a_bare_no_strict_disables_vars() {
    let statement = node(NodeKind::NoStmt, 0, 10, vec![token(TokenKind::Ident, "no"), name("strict")]);
    assert!(disables_vars(&statement));
}

#[test]
fn a_version_from_five_eleven_on_implies_strict() {
    assert!(version_enables_strict(&use_version("v5.36")));
    assert!(version_enables_strict(&use_version("5.012")));
    assert!(version_enables_strict(&use_version("5.11")));
    assert!(!version_enables_strict(&use_version("5.010")));
    assert!(!version_enables_strict(&use_version("v5.8.1")));
    assert!(version_enables_strict(&use_version("6")));
    let regions = StrictRegions::of(&root(vec![SyntaxElement::Node(use_version("v5.36"))]));
    assert!(regions.at(10));
}

use camello::ast::Sigil;
use camello::diag::Code;
use camello::scope::{line_of, BindingKind, ScopeTable};

fn codes(table: &ScopeTable) -> Vec<Code> {
    table.diagnostics().iter().map(|d| d.code).collect()
}

#[test]
fn an_unread_lexical_is_reported_when_its_scope_closes() {
    let mut table = ScopeTable::new();
    table.push_scope();
    table.declare(Sigil::Scalar, "unread".to_string(), TextRange::new(4, 11), BindingKind::My, "my $unread = 1;\n");
    table.declare(Sigil::Scalar, "_quiet".to_string(), TextRange::new(20, 27), BindingKind::My, "my $unread = 1;\n");
    assert!(codes(&table).is_empty());
    table.pop_scope();
    assert_eq!(codes(&table), vec![Code::UnusedVariable]);
    assert_eq!(table.diagnostics()[0].message, "`$unread` is declared and never read");
}

#[test]
fn a_read_lexical_is_not_reported() {
    let strict = StrictRegions::of(&root(vec![use_stmt("strict", 0, 11)]));
    let mut table = ScopeTable::new();
    table.push_scope();
    table.declare(Sigil::Scalar, "x".to_string(), TextRange::new(15, 17), BindingKind::My, "");
    table.use_name(Sigil::Scalar, "x", TextRange::new(30, 32), &strict);
    table.pop_scope();
    assert!(codes(&table).is_empty());
}

#[test]
fn an_undeclared_name_under_strict_is_an_error() {
    let strict = StrictRegions::of(&root(vec![use_stmt("strict", 0, 11)]));
    let mut table = ScopeTable::new();
    table.push_scope();
    table.use_name(Sigil::Scalar, "nope", TextRange::new(18, 23), &strict);
    table.use_name(Sigil::Scalar, "Foo::bar", TextRange::new(30, 40), &strict);
    table.use_name(Sigil::Scalar, "1", TextRange::new(41, 43), &strict);
    table.use_name(Sigil::Hash, "ENV", TextRange::new(44, 48), &strict);
    assert_eq!(codes(&table), vec![Code::UndeclaredVariable]);
    assert_eq!(table.diagnostics()[0].message, "`$nope` is not declared in this scope");
    let loose = StrictRegions::of(&root(vec![]));
    let mut quiet = ScopeTable::new();
    quiet.push_scope();
    quiet.use_name(Sigil::Scalar, "nope", TextRange::new(18, 23), &loose);
    assert!(codes(&quiet).is_empty());
}

#[test]
fn an_inner_declaration_shadowing_an_outer_one_is_reported() {
    let source = "my $x = 1;\nif (1) { my $x = 2; }\n";
    let mut table = ScopeTable::new();
    table.push_scope();
    table.declare(Sigil::Scalar, "x".to_string(), TextRange::new(3, 5), BindingKind::My, source);
    table.push_scope();
    table.declare(Sigil::Scalar, "x".to_string(), TextRange::new(23, 25), BindingKind::My, source);
    assert_eq!(codes(&table), vec![Code::ShadowedVariable]);
    assert_eq!(table.diagnostics()[0].message, "`$x` shadows the one declared on line 1");
}

#[test]
fn a_redeclaration_in_one_scope_is_not_shadowing() {
    let mut table = ScopeTable::new();
    table.push_scope();
    table.declare(Sigil::Scalar, "x".to_string(), TextRange::new(3, 5), BindingKind::My, "");
    assert_eq!(table.lookup_outer(Sigil::Scalar, "x"), Some(0));
    table.push_scope();
    table.declare(Sigil::Scalar, "x".to_string(), TextRange::new(13, 15), BindingKind::My, "");
    assert_eq!(table.lookup_outer(Sigil::Scalar, "x"), Some(1));
    assert!(table.resolve(Sigil::Scalar, "x"));
    assert!(!table.resolve(Sigil::Array, "x"));
}

#[test]
fn lines_are_counted_from_one() {
    assert_eq!(line_of("a\nb\nc", 0), 1);
    assert_eq!(line_of("a\nb\nc", 2), 2);
    assert_eq!(line_of("a\nb\nc", 100), 3);
}

use camello::scope::{declared_names, split_sigil};

#[test]
fn use_vars_names_are_read_however_written() {
    let qw = SyntaxElement::Node(node(NodeKind::QwExpr, 0, 0, vec![token(TokenKind::Keyword, "qw"), token(TokenKind::QwString, "$x @y")]));
    let quoted = SyntaxElement::Node(node(NodeKind::Literal, 0, 0, vec![token(TokenKind::StringLit, "'%z'")]));
    let list = node(NodeKind::ListExpr, 0, 0, vec![qw, token(TokenKind::Comma, ","), quoted]);
    assert_eq!(declared_names(&list), vec!["$x", "@y", "%z"]);
}

#[test]
fn a_sigil_is_split_off_its_name() {
    assert_eq!(split_sigil("$x"), (Some(Sigil::Scalar), "x".to_string()));
    assert_eq!(split_sigil("@rows"), (Some(Sigil::Array), "rows".to_string()));
    assert_eq!(split_sigil("name"), (None, "ame".to_string()));
    assert_eq!(split_sigil(""), (None, String::new()));
}
