use camello::annotate::{Dialect, Framework, Frameworks, Sink};
use camello::decl::{FileDecls, Params, SymbolSource};
use camello::declare::{collect_frameworks, constant_names, imported_names, DeclPass};
use camello::span::TextRange;
use camello::syntax::{NodeKind, SyntaxElement, SyntaxNode, SyntaxToken, TokenKind};

fn t(kind: TokenKind, text: &str) -> SyntaxElement {
    SyntaxElement::Token(SyntaxToken { kind, text: text.to_string(), range: TextRange::new(0, text.len() as u32) })
}

fn tree(kind: NodeKind, children: Vec<SyntaxElement>) -> SyntaxNode {
    SyntaxNode { kind, range: TextRange::new(0, 0), children, before: Vec::new(), at_start: false }
}

fn at(kind: NodeKind, start: u32, children: Vec<SyntaxElement>) -> SyntaxElement {
    SyntaxElement::Node(SyntaxNode { kind, range: TextRange::new(start, start + 4), children, before: Vec::new(), at_start: false })
}

fn n(kind: NodeKind, children: Vec<SyntaxElement>) -> SyntaxElement {
    SyntaxElement::Node(tree(kind, children))
}

fn name(text: &str) -> SyntaxElement {
    let mut children = Vec::new();
    for (i, part) in text.split("::").enumerate() {
        if i > 0 {
            children.push(t(TokenKind::DoubleColon, "::"));
        }
        children.push(t(TokenKind::Ident, part));
    }
    n(NodeKind::SubName, children)
}

fn bareword(text: &str) -> SyntaxElement {
    n(NodeKind::ListCallExpr, vec![name(text)])
}

fn string(text: &str) -> SyntaxElement {
    n(NodeKind::Literal, vec![t(TokenKind::StringLit, &format!("'{text}'"))])
}

fn number(text: &str) -> SyntaxElement {
    n(NodeKind::Literal, vec![t(TokenKind::Number, text)])
}

fn qw(words: &str) -> SyntaxElement {
    n(NodeKind::QwExpr, vec![t(TokenKind::Keyword, "qw"), t(TokenKind::QwString, words)])
}

fn list(elements: Vec<SyntaxElement>) -> SyntaxElement {
    let mut children = Vec::new();
    for (i, element) in elements.into_iter().enumerate() {
        if i > 0 {
            children.push(t(TokenKind::Comma, ","));
        }
        children.push(element);
    }
    n(NodeKind::ListExpr, children)
}

/// `key => value, ...` as one comma series.
fn pairs(items: Vec<(SyntaxElement, SyntaxElement)>) -> SyntaxElement {
    let mut children = Vec::new();
    for (i, (key, value)) in items.into_iter().enumerate() {
        if i > 0 {
            children.push(t(TokenKind::Comma, ","));
        }
        children.push(key);
        children.push(t(TokenKind::FatComma, "=>"));
        children.push(value);
    }
    n(NodeKind::ListExpr, children)
}

fn hash(items: Vec<(SyntaxElement, SyntaxElement)>) -> SyntaxElement {
    n(NodeKind::AnonHash, vec![t(TokenKind::Punct, "{"), pairs(items), t(TokenKind::Punct, "}")])
}

fn array(elements: Vec<SyntaxElement>) -> SyntaxElement {
    n(NodeKind::AnonArray, vec![t(TokenKind::Punct, "["), list(elements), t(TokenKind::Punct, "]")])
}

fn flag(text: &str) -> SyntaxElement {
    n(NodeKind::PrefixExpr, vec![t(TokenKind::Minus, "-"), bareword(text)])
}

fn node(element: SyntaxElement) -> SyntaxNode {
    match element {
        SyntaxElement::Node(node) => node,
        SyntaxElement::Token(_) => panic!("a node wanted"),
    }
}

/// `use MODULE ARGUMENTS;`
fn use_of(module: &str, arguments: Option<SyntaxElement>) -> SyntaxNode {
    statement(NodeKind::UseStmt, "use", module, arguments)
}

fn no_of(module: &str, arguments: Option<SyntaxElement>) -> SyntaxNode {
    statement(NodeKind::NoStmt, "no", module, arguments)
}

fn statement(kind: NodeKind, keyword: &str, module: &str, arguments: Option<SyntaxElement>) -> SyntaxNode {
    let mut children = vec![t(TokenKind::Keyword, keyword), t(TokenKind::Whitespace, " "), name(module)];
    if let Some(arguments) = arguments {
        children.push(t(TokenKind::Whitespace, " "));
        children.push(arguments);
    }
    children.push(t(TokenKind::Punct, ";"));
    tree(kind, children)
}

fn pass_with(dialect: Dialect, frameworks: Vec<(String, Frameworks)>) -> DeclPass {
    DeclPass {
        decls: FileDecls {
            subs: Vec::new(),
            imports: Vec::new(),
            packages: Vec::new(),
            facts: Vec::new(),
            uses: Vec::new(),
            diagnostics: Vec::new(),
            annotations: Vec::new(),
        },
        sink: Sink::new(),
        frameworks,
        dialect,
        dynamic: false,
        decided_constructor: Vec::new(),
    }
}

fn pass() -> DeclPass {
    pass_with(Dialect::empty(), Vec::new())
}

#[test]
fn use_parent_gives_the_package_its_parents() {
    let mut pass = pass();
    pass.use_statement(&use_of("parent", Some(list(vec![flag("norequire"), string("Base")]))), "Other");
    let facts = pass.decls.facts_for("Other").expect("Other");
    assert_eq!(facts.isa, vec!["Base"]);
    assert_eq!(facts.uses, vec!["parent"]);
    assert_eq!(pass.decls.uses, vec!["parent"]);
    assert!(pass.decls.imports.is_empty(), "a parent is not an import");
}

#[test]
fn use_base_with_a_qw_list_drops_the_flag() {
    let mut pass = pass();
    pass.use_statement(&use_of("base", Some(qw("-norequire norequire First Second"))), "Child");
    assert_eq!(pass.decls.facts_for("Child").expect("Child").isa, vec!["First", "Second"]);
}

#[test]
fn an_import_list_names_the_subs_it_brings_in() {
    let mut pass = pass();
    pass.use_statement(&use_of("List::Util", Some(qw("first max $VERSION :all -flag _private"))), "main");
    let imports: Vec<(&str, &str)> = pass.decls.imports.iter().map(|(a, b)| (a.as_str(), b.as_str())).collect();
    assert_eq!(imports, [("first", "List::Util"), ("max", "List::Util"), ("_private", "List::Util")]);
    assert_eq!(pass.decls.facts_for("main").expect("main").uses, vec!["List::Util"]);
}

#[test]
fn a_later_import_of_a_name_replaces_the_earlier() {
    let mut pass = pass();
    pass.use_statement(&use_of("Foo", Some(string("helper"))), "main");
    pass.use_statement(&use_of("Bar", Some(list(vec![string("helper"), string("other")]))), "main");
    let imports: Vec<(&str, &str)> = pass.decls.imports.iter().map(|(a, b)| (a.as_str(), b.as_str())).collect();
    assert_eq!(imports, [("helper", "Bar"), ("other", "Bar")]);
    assert_eq!(pass.decls.uses, vec!["Foo", "Bar"]);
}

#[test]
fn use_constant_declares_subs() {
    let mut pass = pass();
    let table = hash(vec![(bareword("PI"), number("3")), (string("E"), number("2"))]);
    pass.use_statement(&use_of("constant", Some(list(vec![table]))), "Math");
    pass.use_statement(&use_of("constant", Some(pairs(vec![(bareword("ANSWER"), number("42"))]))), "Math");
    let names: Vec<&str> = pass.decls.subs.iter().map(|s| s.name.as_str()).collect();
    assert_eq!(names, ["PI", "E", "ANSWER"]);
    for symbol in &pass.decls.subs {
        assert_eq!(symbol.package, "Math");
        assert!(matches!(symbol.params, Params::Unknown), "a constant takes anything");
        assert_eq!(symbol.source, SymbolSource::Unknown);
        assert_eq!(symbol.file, 0);
    }
    assert!(pass.decls.imports.is_empty(), "the names are declarations, not imports");
}

#[test]
fn constant_names_keep_where_each_was_written() {
    let arguments = node(list(vec![at(NodeKind::ListCallExpr, 7, vec![name("LIMIT")]), number("10")]));
    let names = constant_names(&arguments);
    assert_eq!(names, vec![("LIMIT".to_string(), TextRange::new(7, 11))]);
    let nothing = node(list(vec![number("10")]));
    assert!(constant_names(&nothing).is_empty());
}

#[test]
fn imported_names_skip_what_is_not_a_sub() {
    let arguments = node(list(vec![qw("a $b @c %d &e :tag -x y_z"), string("Str"), number("1"), string("$s")]));
    assert_eq!(imported_names(&arguments), vec!["a", "y_z", "Str"]);
}

#[test]
fn class_accessor_typed_is_a_declaration() {
    let mut pass = pass();
    let declaration = pairs(vec![
        (bareword("rw"), hash(vec![(bareword("name"), string("Str"))])),
        (bareword("new"), number("0")),
    ]);
    pass.use_statement(&use_of("Class::Accessor::Typed", Some(declaration)), "Point");
    let facts = pass.decls.facts_for("Point").expect("Point");
    assert_eq!(facts.attributes.len(), 1);
    assert_eq!(facts.attributes[0].name, "name");
    assert!(!facts.constructor, "`new => 0` takes the constructor away");
    assert_eq!(pass.decided_constructor, vec!["Point"]);
    assert!(pass.decls.imports.is_empty());
}

#[test]
fn a_package_in_class_accessor_typed_starts_with_a_constructor() {
    let mut typed = Frameworks::with_dialect(Dialect::empty());
    typed.note("Class::Accessor::Typed");
    let mut pass = pass_with(Dialect::empty(), vec![("Point".to_string(), typed)]);
    pass.use_statement(&use_of("Exporter", None), "Point");
    let facts = pass.decls.facts_for("Point").expect("Point");
    assert_eq!(facts.framework, Framework::AccessorTyped);
    assert!(facts.constructor);
}

#[test]
fn class_accessor_lite_asks_for_an_open_constructor() {
    let mut pass = pass();
    let declaration = pairs(vec![(bareword("new"), number("1")), (bareword("ro"), array(vec![qw("x y")]))]);
    pass.use_statement(&use_of("Class::Accessor::Lite", Some(declaration)), "Pt");
    let facts = pass.decls.facts_for("Pt").expect("Pt");
    assert!(facts.constructor && facts.open_constructor);
    let names: Vec<&str> = facts.attributes.iter().map(|a| a.name.as_str()).collect();
    assert_eq!(names, ["x", "y"]);
    assert!(pass.decls.imports.is_empty(), "`rw`, `ro` and `new` are the declaration's own words");
}

#[test]
fn a_module_that_loads_xs_makes_the_file_dynamic() {
    let mut pass = pass();
    pass.use_statement(&use_of("strict", None), "main");
    assert!(!pass.dynamic);
    pass.use_statement(&use_of("XSLoader", None), "main");
    assert!(pass.dynamic);
}

#[test]
fn no_records_no_dependency() {
    let mut pass = pass();
    pass.use_statement(&no_of("warnings", Some(qw("once"))), "main");
    assert!(pass.decls.uses.is_empty());
    assert!(pass.decls.facts.is_empty(), "nothing was said of the package");
    assert_eq!(pass.decls.imports.len(), 1, "the list is read all the same");
}

#[test]
fn a_wrapper_module_is_read_as_what_it_stands_for() {
    let dialect = Dialect::new(vec![("My::Base".to_string(), "parent".to_string())]);
    let mut pass = pass_with(dialect, Vec::new());
    pass.use_statement(&use_of("My::Base", Some(string("Root"))), "Leaf");
    let facts = pass.decls.facts_for("Leaf").expect("Leaf");
    assert_eq!(facts.isa, vec!["Root"]);
    assert_eq!(facts.uses, vec!["My::Base"], "the dependency keeps the name that was written");
}

#[test]
fn a_version_statement_declares_nothing() {
    let mut pass = pass();
    let version = tree(NodeKind::UseStmt, vec![t(TokenKind::Keyword, "use"), number("5.010")]);
    pass.use_statement(&version, "main");
    assert!(pass.decls.uses.is_empty() && pass.decls.facts.is_empty());
}

#[test]
fn a_require_is_a_dependency_to_follow() {
    let mut pass = pass();
    let statement = tree(
        NodeKind::ExprStmt,
        vec![n(NodeKind::RequireExpr, vec![t(TokenKind::Ident, "require"), name("Time::Local")])],
    );
    pass.require_statement(&statement);
    assert_eq!(pass.decls.uses, vec!["Time::Local"]);
}

#[test]
fn the_pass_ends_by_finishing_every_package() {
    let moose = Frameworks { moose: true, ..Frameworks::with_dialect(Dialect::empty()) };
    let mut pass = pass_with(Dialect::empty(), vec![("Auto".to_string(), moose.clone()), ("Chosen".to_string(), moose)]);
    pass.ensure_facts("Auto");
    pass.ensure_facts("Chosen");
    pass.ensure_facts("Plain");
    pass.decided_constructor.push("Chosen".to_string());
    pass.dynamic = true;
    let decls = pass.finish();
    let auto = decls.facts_for("Auto").expect("Auto");
    assert!(auto.constructor);
    assert!(auto.dynamic);
    let chosen = decls.facts_for("Chosen").expect("Chosen");
    assert!(!chosen.constructor);
    let plain = decls.facts_for("Plain").expect("Plain");
    assert!(!plain.constructor);
    assert!(plain.dynamic);
}

/// `our @<array> = <value>;` in package `main`.
fn our_array(array: &str, value: SyntaxElement) -> SyntaxNode {
    let mut parts = vec![t(TokenKind::Punct, "@")];
    parts.extend(name_tokens(array));
    let target = n(NodeKind::ArrayVar, parts);
    tree(NodeKind::VarDeclStmt, vec![n(NodeKind::AssignExpr, vec![target, t(TokenKind::Assign, "="), value])])
}

fn name_tokens(text: &str) -> Vec<SyntaxElement> {
    let mut out = Vec::new();
    for (i, part) in text.split("::").enumerate() {
        if i > 0 {
            out.push(t(TokenKind::DoubleColon, "::"));
        }
        out.push(t(TokenKind::Ident, part));
    }
    out
}

#[test]
fn an_isa_assignment_names_the_parents() {
    let mut pass = pass();
    pass.isa_assignment(&our_array("ISA", list(vec![string("Base"), qw("Mixin Other")])), "Child");
    let facts = pass.decls.facts_for("Child").expect("Child");
    assert_eq!(facts.isa, vec!["Base", "Mixin", "Other"]);
    assert!(!facts.dynamic);
}

#[test]
fn a_qualified_isa_names_its_own_package() {
    let mut pass = pass();
    pass.isa_assignment(&our_array("CPAN::FTP::ISA", qw("CPAN::Debug")), "main");
    assert_eq!(pass.decls.facts_for("CPAN::FTP").expect("CPAN::FTP").isa, vec!["CPAN::Debug"]);
    assert!(pass.decls.facts_for("main").is_none());
}

#[test]
fn an_export_list_is_read_and_a_computed_one_is_marked() {
    let mut listed = pass();
    listed.export_assignment(&our_array("EXPORT", qw("&first second $var")), "Tools");
    let facts = listed.decls.facts_for("Tools").expect("Tools");
    assert_eq!(facts.exports, vec!["first", "second"]);
    assert!(!facts.exports_unknown);
    let mut computed = pass();
    computed.export_assignment(&our_array("EXPORT", bareword("get_public_functions")), "Mixin");
    assert!(computed.decls.facts_for("Mixin").expect("Mixin").exports_unknown);
}

fn framework_of<'a>(table: &'a [(String, Frameworks)], package: &str) -> &'a Frameworks {
    &table.iter().find(|(name, _)| name == package).expect(package).1
}

#[test]
fn imports_are_read_by_the_package_they_are_written_in() {
    let block = n(NodeKind::Block, vec![SyntaxElement::Node(use_of("Class::Accessor::Lite", None))]);
    let root = tree(
        NodeKind::Root,
        vec![
            SyntaxElement::Node(use_of("Moose", None)),
            n(NodeKind::PackageStmt, vec![t(TokenKind::Keyword, "package"), name("Foo")]),
            SyntaxElement::Node(use_of("parent", Some(list(vec![string("Class::Accessor::Typed")])))),
            n(NodeKind::PackageStmt, vec![t(TokenKind::Keyword, "package"), name("Bar"), block]),
            SyntaxElement::Node(use_of("Smart::Args", None)),
        ],
    );
    let mut table: Vec<(String, Frameworks)> = Vec::new();
    collect_frameworks(&root, "main", &Dialect::empty(), &mut table);
    let names: Vec<&str> = table.iter().map(|(name, _)| name.as_str()).collect();
    assert_eq!(names, vec!["main", "Foo", "Bar"]);
    assert!(framework_of(&table, "main").moose);
    let foo = framework_of(&table, "Foo");
    assert!(!foo.moose);
    assert!(foo.accessor_typed, "a parent named in `use parent` is a framework");
    assert!(foo.smart_args, "after the block, the package is Foo again");
    let bar = framework_of(&table, "Bar");
    assert!(bar.accessor_lite);
    assert!(!bar.smart_args);
}
