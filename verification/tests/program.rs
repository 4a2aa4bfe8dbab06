use camello::annotate::{Access, AccessorRole, AttributeDecl, Framework, GeneratedMethod, NamedType};
use camello::decl::{FileDecls, PackageFacts, Params, SubDecl, SymbolSource};
use camello::program::{MethodKind, MethodLookup, Program, Wanted};
use camello::rounds::RoundAction;
use camello::shape::{ListShape, Returns};
use camello::ast::Arg;
use camello::diag::Code;
use camello::span::TextRange;
use camello::syntax::{NodeKind, SyntaxNode};
use camello::types::Type;
use camello::walk::method_result;

fn facts(name: &str) -> PackageFacts {
    PackageFacts {
        name: name.to_string(),
        isa: Vec::new(),
        roles: Vec::new(),
        framework: Framework::Plain,
        attributes: Vec::new(),
        types: Vec::new(),
        constructor: false,
        buildargs: false,
        open_constructor: false,
        dynamic: false,
        exports: Vec::new(),
        exports_unknown: false,
        uses: Vec::new(),
        file_scope_calls: Vec::new(),
    }
}

fn with_isa(name: &str, parents: &[&str]) -> PackageFacts {
    let mut f = facts(name);
    f.isa = parents.iter().map(|p| p.to_string()).collect();
    f
}

fn sub(package: &str, name: &str) -> SubDecl {
    SubDecl {
        package: package.to_string(),
        name: name.to_string(),
        params: Params::Unknown,
        returns: Returns::default(),
        source: SymbolSource::Unknown,
        constructs_own_class: false,
        range: TextRange::new(0, 0),
        file: 0,
    }
}

fn returning(package: &str, name: &str, ty: Type) -> SubDecl {
    let mut s = sub(package, name);
    s.returns = Returns { scalar: ty, list: ListShape::Unknown, inferred: false, invocant: false };
    s
}

fn attribute(name: &str, ty: Type) -> AttributeDecl {
    AttributeDecl {
        name: name.to_string(),
        ty,
        access: Access::Rw,
        required: false,
        defaulted: false,
        coerce: false,
        methods: Vec::new(),
        opaque_delegation: false,
        builder: None,
        range: TextRange::new(0, 0),
    }
}

/// A file that opens each of `packages` once.
fn file(packages: &[&str], facts: Vec<PackageFacts>, subs: Vec<SubDecl>) -> FileDecls {
    FileDecls {
        subs,
        imports: Vec::new(),
        packages: packages.iter().enumerate().map(|(i, p)| (i as u32 * 10, p.to_string())).collect(),
        facts,
        uses: Vec::new(),
        diagnostics: Vec::new(),
        annotations: Vec::new(),
    }
}

fn names(list: &[String]) -> Vec<&str> {
    list.iter().map(|s| s.as_str()).collect()
}

/// `Child` isa `Left` and `Right`, both of which are `Base`s.
fn diamond() -> Program {
    let mut program = Program::new();
    program.add(
        "lib/Base.pm",
        file(&["Base"], vec![facts("Base")], vec![sub("Base", "new"), sub("Base", "greet"), sub("Base", "DESTROY")]),
        true,
    );
    program.add(
        "lib/Left.pm",
        file(&["Left"], vec![with_isa("Left", &["Base"])], vec![sub("Left", "greet"), sub("Left", "left")]),
        true,
    );
    program.add("lib/Right.pm", file(&["Right"], vec![with_isa("Right", &["Base"])], vec![sub("Right", "right")]), true);
    program.add("lib/Child.pm", file(&["Child"], vec![with_isa("Child", &["Left", "Right"])], vec![sub("Child", "own")]), true);
    program
}

#[test]
fn linearise_is_depth_first_and_names_each_class_once() {
    let program = diamond();
    assert_eq!(names(&program.linearise("Child")), ["Child", "Left", "Base", "Right"]);
    assert_eq!(names(&program.linearise("Base")), ["Base"]);
    assert_eq!(names(&program.linearise("Nowhere")), ["Nowhere"], "a class the run never saw is still itself");
}

#[test]
fn a_cycle_in_the_hierarchy_ends() {
    let mut program = Program::new();
    program.add("a.pm", file(&["A", "B"], vec![with_isa("A", &["B"]), with_isa("B", &["A"])], vec![sub("A", "x")]), true);
    assert_eq!(names(&program.linearise("A")), ["A", "B"]);
}

#[test]
fn roles_are_folded_in_after_the_parents() {
    let mut program = Program::new();
    let mut child = with_isa("Child", &["Base"]);
    child.roles = vec!["Role".to_string()];
    program.add("c.pm", file(&["Child", "Base", "Role"], vec![child, facts("Base"), facts("Role")], Vec::new()), true);
    assert_eq!(names(&program.linearise("Child")), ["Child", "Base", "Role"]);
    assert!(program.isa("Child", "Role"));
    assert!(program.isa("Child", "Child"));
    assert!(!program.isa("Base", "Child"));
}

#[test]
fn the_first_declaration_of_a_name_wins() {
    let mut program = Program::new();
    let first = program.add("a.pm", file(&["Foo"], vec![facts("Foo")], vec![returning("Foo", "bar", Type::Int)]), true);
    let second = program.add("b.pm", file(&["Foo"], vec![facts("Foo")], vec![returning("Foo", "bar", Type::Str)]), false);
    assert_eq!((first, second), (0, 1));
    let found = program.sub("Foo", "bar").expect("declared");
    assert_eq!(found.returns.scalar, Type::Int);
    assert_eq!(found.file, 0);
    assert_eq!(program.sub_in(1, "Foo", "bar").expect("declared").returns.scalar, Type::Str, "a file answers for itself");
    assert_eq!(program.add("a.pm", file(&[], Vec::new(), Vec::new()), true), 0, "a path already held is that file");
    assert_eq!(program.index_of("b.pm"), Some(1));
    assert_eq!(program.facts("Foo").len(), 2, "one package spans two files");
}

#[test]
fn method_resolution_walks_the_linearisation() {
    let program = diamond();
    match program.resolve_method("Child", "greet") {
        MethodLookup::Sub(symbol) => assert_eq!(symbol.package, "Left", "Left comes before Base"),
        other => panic!("{other:?}"),
    }
    match program.resolve_method("Child", "right") {
        MethodLookup::Sub(symbol) => assert_eq!(symbol.package, "Right"),
        other => panic!("{other:?}"),
    }
    assert!(matches!(program.resolve_method("Child", "can"), MethodLookup::Universal));
    assert!(matches!(program.resolve_method("Child", "nothing"), MethodLookup::Missing));
    assert!(!program.has_unknown_ancestor("Child"));
    assert!(program.has_destructor("Child"));
    assert!(!program.has_destructor("Nowhere"));
}

#[test]
fn an_unknown_parent_leaves_the_method_set_open() {
    let mut program = Program::new();
    program.add("c.pm", file(&["Child"], vec![with_isa("Child", &["Elsewhere"])], vec![sub("Child", "x")]), true);
    assert!(program.has_unknown_ancestor("Child"));
    assert!(program.has_unknown_ancestor("Unseen"));
    assert!(matches!(program.resolve_method("Child", "y"), MethodLookup::Unknown));
}

#[test]
fn autoload_and_dynamic_packages_answer_anything() {
    let mut program = Program::new();
    let mut outer = facts("Net::DBus");
    outer.dynamic = true;
    program.add(
        "x.pm",
        file(
            &["Auto", "Net::DBus", "Net::DBus::Binding"],
            vec![facts("Auto"), outer, facts("Net::DBus::Binding")],
            vec![sub("Auto", "AUTOLOAD"), sub("Net::DBus", "x"), sub("Net::DBus::Binding", "y")],
        ),
        true,
    );
    assert!(program.has_unknown_ancestor("Auto"));
    assert!(program.has_unknown_ancestor("Net::DBus::Binding"), "a dynamic outer package reaches in");
}

#[test]
fn a_package_known_only_by_name_is_open() {
    let mut program = Program::new();
    program.add("x.pm", file(&["Shell"], vec![facts("Shell")], Vec::new()), true);
    assert!(program.has_unknown_ancestor("Shell"), "nothing declared, so nothing can be said missing");
}

#[test]
fn attributes_and_generated_constructors_answer_methods() {
    let mut program = Program::new();
    let mut point = facts("Point");
    let mut x = attribute("x", Type::Int);
    x.methods = vec![GeneratedMethod { name: "has_x".to_string(), role: AccessorRole::Predicate }];
    point.attributes = vec![x];
    point.constructor = true;
    program.add("p.pm", file(&["Point"], vec![point], Vec::new()), true);
    assert!(matches!(program.resolve_method("Point", "x"), MethodLookup::Attribute(a) if a.name == "x"));
    assert!(matches!(program.resolve_method("Point", "has_x"), MethodLookup::Attribute(a) if a.name == "x"));
    assert!(matches!(program.resolve_method("Point", "new"), MethodLookup::Constructor));
    assert!(matches!(program.resolve_method("Point", "y"), MethodLookup::Missing));
    assert_eq!(program.attributes("Point").len(), 1);
}

#[test]
fn an_exported_sub_is_a_method_of_the_importer() {
    let mut program = Program::new();
    let mut exporter = facts("Util");
    exporter.exports = vec!["helper".to_string()];
    let mut user = facts("App");
    user.uses = vec!["Util".to_string()];
    program.add("u.pm", file(&["Util"], vec![exporter], vec![sub("Util", "helper")]), true);
    program.add("a.pm", file(&["App"], vec![user], vec![sub("App", "run")]), true);
    match program.resolve_method("App", "helper") {
        MethodLookup::Sub(symbol) => assert_eq!(symbol.package, "Util"),
        other => panic!("{other:?}"),
    }
    assert!(program.has_unknown_ancestor("Util"), "a package that exports its subs is a mixin");
}

#[test]
fn super_looks_in_the_parents_of_the_calling_package() {
    let program = diamond();
    match program.resolve_method_from("Child", "SUPER::greet", "Left") {
        MethodLookup::Sub(symbol) => assert_eq!(symbol.package, "Base"),
        other => panic!("{other:?}"),
    }
    assert!(matches!(program.resolve_method_from("Child", "SUPER::greet", "Base"), MethodLookup::Unknown));
    match program.resolve_method_from("Child", "Right::right", "Child") {
        MethodLookup::Sub(symbol) => assert_eq!(symbol.package, "Right"),
        other => panic!("{other:?}"),
    }
}

#[test]
fn a_call_resolves_in_its_package_then_through_imports() {
    let mut program = Program::new();
    let mut decls = file(&["App"], vec![facts("App")], vec![sub("App", "local"), sub("App", "print")]);
    decls.imports = vec![("helper".to_string(), "Util".to_string())];
    program.add("u.pm", file(&["Util"], vec![facts("Util")], vec![sub("Util", "helper")]), true);
    let app = program.add("a.pm", decls, true);
    assert_eq!(program.resolve_call(app, 5, "local", false).expect("local").package, "App");
    assert_eq!(program.resolve_call(app, 5, "helper", false).expect("imported").package, "Util");
    assert!(program.resolve_call(app, 5, "print", true).is_none(), "a builtin is not the package's sub");
    assert_eq!(program.resolve_call(app, 5, "Util::helper", false).expect("qualified").package, "Util");
    assert!(program.resolve_call(app, 5, "missing", false).is_none());
}

#[test]
fn returns_are_written_to_both_copies() {
    let mut program = Program::new();
    program.add("a.pm", file(&["Foo"], vec![facts("Foo")], vec![sub("Foo", "a"), returning("Foo", "b", Type::Str)]), true);
    assert_eq!(program.unresolved_returns(0), vec![0]);
    assert_eq!(program.written_returns(0), vec![1]);
    let inferred = Returns { scalar: Type::Int, list: ListShape::Unknown, inferred: true, invocant: false };
    program.set_returns(0, 0, inferred);
    assert_eq!(program.returns_at(0, 0).scalar, Type::Int);
    assert_eq!(program.sub("Foo", "a").expect("a").returns.scalar, Type::Int);
    assert_eq!(program.inferable_returns(0), vec![0]);
    assert!(program.unresolved_returns(0).is_empty());
    assert_eq!(program.returns_at(7, 0).scalar, Type::Unknown);
}

#[test]
fn replacing_a_file_rebuilds_the_index() {
    let mut program = Program::new();
    program.add("a.pm", file(&["Foo"], vec![facts("Foo")], vec![sub("Foo", "old")]), true);
    let index = program.replace("a.pm", file(&["Foo"], vec![facts("Foo")], vec![sub("Foo", "new_one")]), true);
    assert_eq!(index, 0);
    assert!(program.sub("Foo", "old").is_none());
    assert!(program.sub("Foo", "new_one").is_some());
    let taken = program.take_decls(0);
    assert_eq!(taken.subs.len(), 1);
    assert!(program.file(0).expect("kept").decls.subs.is_empty());
}

#[test]
fn a_named_type_is_found_across_files() {
    let mut program = Program::new();
    let mut library = facts("My::Types");
    library.types = vec![NamedType { name: "Row".to_string(), ty: Type::Str }];
    program.add("t.pm", file(&["My::Types"], vec![library], Vec::new()), true);
    assert_eq!(program.named_type("Row"), Some(&Type::Str));
    assert_eq!(program.named_type("Col"), None);
}

#[test]
fn a_builder_names_the_slot_type_of_an_untyped_accessor() {
    let mut program = Program::new();
    let mut cache = facts("Cache");
    let mut slot = attribute("data", Type::Unknown);
    slot.builder = Some("_build_data".to_string());
    cache.attributes = vec![slot];
    program.add("c.pm", file(&["Cache"], vec![cache], vec![returning("Cache", "_build_data", Type::Int)]), true);
    let attributes = program.attributes("Cache");
    assert_eq!(program.slot_type("Cache", attributes[0], "data"), Type::Int);
}

#[test]
fn a_use_the_run_never_read_makes_the_world_open() {
    let mut program = Program::new();
    let mut app = facts("App");
    app.uses = vec!["strict".to_string(), "Moose".to_string(), "Some::Plugin".to_string()];
    program.add("a.pm", file(&["App"], vec![app], vec![sub("App", "x")]), true);
    assert!(!program.closed_world("App"));
    program.add("p.pm", file(&["Some::Plugin"], vec![facts("Some::Plugin")], Vec::new()), true);
    assert!(program.closed_world("App"));
}

#[test]
fn a_class_lists_each_name_once_by_the_first_class_that_declares_it() {
    let mut child = with_isa("Child", &["Parent"]);
    child.attributes = vec![attribute("label", Type::Str)];
    child.constructor = true;
    let parent = facts("Parent");
    let mut program = Program::new();
    program.add(
        "lib/Family.pm",
        file(&["Parent", "Child"], vec![parent, child], vec![sub("Child", "greet"), sub("Parent", "greet"), sub("Parent", "wave")]),
        true,
    );
    let methods = program.methods_of("Child");
    let listed: Vec<(&str, &str, usize)> = methods.iter().map(|m| (m.name.as_str(), m.class.as_str(), m.depth)).collect();
    assert_eq!(
        listed,
        vec![
            ("greet", "Child", 0),
            ("label", "Child", 0),
            ("new", "Child", 0),
            ("wave", "Parent", 1),
            ("isa", "UNIVERSAL", 2),
            ("can", "UNIVERSAL", 2),
            ("DOES", "UNIVERSAL", 2),
            ("VERSION", "UNIVERSAL", 2),
            ("import", "UNIVERSAL", 2),
            ("unimport", "UNIVERSAL", 2),
            ("DESTROY", "UNIVERSAL", 2),
        ]
    );
    assert!(matches!(methods[1].kind, MethodKind::Attribute(_)));
    assert!(matches!(methods[2].kind, MethodKind::Constructor));
    assert_eq!(methods[1].slot, Type::Str);
}

#[test]
fn linking_twice_is_linking_once() {
    let mut library = facts("My::Types");
    library.types = vec![NamedType { name: "Id".to_string(), ty: Type::Int }];
    let mut s = returning("main", "id_of", Type::InstanceOf("Id".to_string()));
    s.params = Params::Positional {
        params: vec![camello::decl::Param { name: "$x".to_string(), optional: true, ty: Type::InstanceOf("Id".to_string()) }],
        slurpy: false,
        invocant: false,
        source: camello::decl::ParamSource::Signature,
    };
    let mut program = Program::new();
    program.add("lib/My/Types.pm", file(&["My::Types"], vec![library], Vec::new()), true);
    program.add("main.pl", file(&[], Vec::new(), vec![s]), true);
    program.link_named_types();
    let once = program.sub("main", "id_of").expect("id_of");
    assert_eq!(once.returns.scalar, Type::Int);
    let once_params = format!("{:?}", once.params);
    program.link_named_types();
    let twice = program.sub("main", "id_of").expect("id_of");
    assert_eq!(twice.returns.scalar, Type::Int);
    assert_eq!(format!("{:?}", twice.params), once_params);
}

#[test]
fn the_hierarchy_answers_isa_as_the_program_does() {
    let program = diamond();
    let classes = program.hierarchy();
    assert!(classes.isa("Child", "Base"));
    assert!(classes.isa("Child", "Right"));
    assert!(!classes.isa("Base", "Child"));
    assert!(program.isa("Child", "Base"));
    let child = Type::InstanceOf("Child".to_string());
    let base = Type::InstanceOf("Base".to_string());
    assert!(camello::flow::compatible(&child, &base, &classes));
    assert!(camello::flow::is_assignable(&child, &base, &classes));
    assert!(!camello::flow::is_assignable(&base, &child, &classes));
}

#[test]
fn a_round_walks_only_the_files_with_something_unresolved() {
    let mut program = Program::new();
    program.add("a.pm", file(&["Foo"], vec![facts("Foo")], vec![sub("Foo", "a")]), true);
    program.add("b.pm", file(&["Bar"], vec![facts("Bar")], vec![returning("Bar", "b", Type::Str)]), true);
    let files = vec![0, 1];
    assert_eq!(program.pending_files(&files), vec![0]);
    assert!(matches!(program.next_round(&files, 0), RoundAction::Walk(ref f) if f == &vec![0]));
    assert!(matches!(program.next_round(&files, camello::rounds::PROGRAM_ROUNDS), RoundAction::Done));
    let int = Returns { scalar: Type::Int, list: ListShape::Unknown, inferred: true, invocant: false };
    assert!(program.install_round(&vec![(0, vec![(0, int)])]));
    assert_eq!(program.returns_at(0, 0).scalar, Type::Int);
    assert!(matches!(program.next_round(&files, 1), RoundAction::Done));
}

#[test]
fn a_known_return_is_never_set_again() {
    let mut program = Program::new();
    program.add("a.pm", file(&["Foo"], vec![facts("Foo")], vec![returning("Foo", "a", Type::Str), sub("Foo", "b")]), true);
    let int = Returns { scalar: Type::Int, list: ListShape::Unknown, inferred: true, invocant: false };
    let num = Returns { scalar: Type::Num, list: ListShape::Unknown, inferred: true, invocant: false };
    assert!(!program.install_round(&vec![(0, vec![(0, int)]), (3, vec![(0, num)])]));
    assert_eq!(program.returns_at(0, 0).scalar, Type::Str);
    let int = Returns { scalar: Type::Int, list: ListShape::Unknown, inferred: true, invocant: false };
    let num = Returns { scalar: Type::Num, list: ListShape::Unknown, inferred: true, invocant: false };
    assert!(program.install_round(&vec![(0, vec![(1, int), (1, num)])]));
    assert_eq!(program.returns_at(0, 1).scalar, Type::Int);
}

fn bare(kind: NodeKind) -> SyntaxNode {
    SyntaxNode { kind, range: TextRange::new(0, 0), children: Vec::new(), before: Vec::new(), at_start: false }
}

fn constructed(buildargs: bool) -> Program {
    let mut foo = facts("Foo");
    let mut name = attribute("name", Type::Str);
    name.required = true;
    let mut id = attribute("id", Type::Int);
    id.required = true;
    let mut restated = attribute("+age", Type::Int);
    restated.required = true;
    restated.defaulted = true;
    let mut age = attribute("age", Type::Int);
    age.required = true;
    foo.attributes = vec![name, id, age, restated];
    foo.buildargs = buildargs;
    let mut program = Program::new();
    program.add("Foo.pm", file(&["Foo"], vec![foo], vec![]), true);
    program
}

#[test]
fn a_constructor_call_is_held_to_the_attributes() {
    let program = constructed(false);
    let classes = program.hierarchy();
    let key = bare(NodeKind::Literal);
    let value = bare(NodeKind::ScalarVar);
    let pairs = vec![
        Arg::Pair { key: &key, key_text: Some("name".to_string()), value: &value },
        Arg::Pair { key: &key, key_text: Some("colour".to_string()), value: &value },
    ];
    let values = vec![Type::ArrayRef(Box::new(Type::Str)), Type::Str];
    let mut reports = Vec::new();
    program.check_constructor("Foo", &pairs, &values, TextRange::new(0, 3), &classes, &mut reports);
    let codes: Vec<Code> = reports.iter().map(|d| d.code).collect();
    assert_eq!(codes, vec![Code::TypeMismatch, Code::UnknownKey, Code::MissingArgument]);
    assert_eq!(reports[1].message, "`Foo` declares no attribute `colour`");
    assert_eq!(reports[2].message, "`Foo` requires `id`, not passed here");
}

#[test]
fn buildargs_leaves_a_constructor_call_unchecked() {
    let program = constructed(true);
    let classes = program.hierarchy();
    let key = bare(NodeKind::Literal);
    let value = bare(NodeKind::ScalarVar);
    let pairs = vec![Arg::Pair { key: &key, key_text: Some("colour".to_string()), value: &value }];
    let mut reports = Vec::new();
    program.check_constructor("Foo", &pairs, &vec![Type::Str], TextRange::new(0, 3), &classes, &mut reports);
    assert!(reports.is_empty());
}

#[test]
fn a_method_call_gives_back_what_the_lookup_found() {
    let mut reports = Vec::new();
    let mut builder = returning("Base", "set_x", Type::InstanceOf("Base".to_string()));
    builder.returns.invocant = true;
    let ty = method_result(&MethodLookup::Sub(&builder), "Child", "set_x", "main", TextRange::new(0, 5), &mut reports);
    assert_eq!(ty, Type::InstanceOf("Child".to_string()));
    let mut new = sub("Foo", "new");
    new.constructs_own_class = true;
    let ty = method_result(&MethodLookup::Sub(&new), "Foo", "new", "main", TextRange::new(0, 5), &mut reports);
    assert_eq!(ty, Type::InstanceOf("Foo".to_string()));
    let ty = method_result(&MethodLookup::Constructor, "Foo", "new", "main", TextRange::new(0, 5), &mut reports);
    assert_eq!(ty, Type::InstanceOf("Foo".to_string()));
    let slot = attribute("name", Type::Str);
    let ty = method_result(&MethodLookup::Attribute(&slot), "Foo", "name", "main", TextRange::new(0, 5), &mut reports);
    assert_eq!(ty, Type::Str);
    assert!(reports.is_empty());
    let ty = method_result(&MethodLookup::Missing, "Foo", "nmae", "main", TextRange::new(0, 5), &mut reports);
    assert_eq!(ty, Type::Unknown);
    assert_eq!(reports[0].code, Code::UnknownMethod);
    assert_eq!(reports[0].message, "`Foo` declares no method `nmae`");
    method_result(&MethodLookup::Missing, "Foo", "SUPER::init", "Child", TextRange::new(0, 5), &mut reports);
    assert_eq!(reports[1].message, "no parent of `Child` declares a method `init`");
    method_result(&MethodLookup::Missing, "Foo", "Other::init", "Child", TextRange::new(0, 5), &mut reports);
    assert_eq!(reports[2].message, "`Other` declares no method `init`");
    assert_eq!(method_result(&MethodLookup::Unknown, "Foo", "x", "main", TextRange::new(0, 5), &mut reports), Type::Unknown);
    assert_eq!(reports.len(), 3);
}
