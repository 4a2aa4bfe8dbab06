use camello::decl::{Param, ParamSource, Params};
use camello::ast::Sigil;
use camello::narrow::Env;
use camello::span::TextRange;
use camello::syntax::{NodeKind, SyntaxElement, SyntaxNode, SyntaxToken, TokenKind};
use camello::ast::{Arg, Step};
use camello::diag::{Code, Severity};
use camello::flow::Hierarchy;
use camello::shape::{ListShape, Returns};
use camello::types::{parse, Type};
use camello::walk::{
    arithmetic, binary_type, bind, bind_params, builtin_return, check_arguments, is_first_argument, is_invocant, is_plural,
    read_site, check_return, check_value, report_missing, step_type, leaves_the_sub, sole_expression, wantarray_branch, element_of, holds_own_class, is_integral, join_tails, names_a_class, with_invocant,
    Arith, Invocant, Sites, Tail,
};

fn value(ty: Type) -> Tail {
    Tail::Value { ty, invocant: false }
}

fn instance(name: &str) -> Type {
    Type::InstanceOf(name.to_string())
}

#[test]
fn an_if_without_else_leaves_its_condition() {
    assert!(matches!(join_tails(&vec![value(Type::Int)], false), Tail::Opaque));
}

#[test]
fn branches_that_all_leave_leave_the_chain() {
    assert!(matches!(join_tails(&vec![Tail::Left, Tail::Left], true), Tail::Left));
}

#[test]
fn one_opaque_branch_makes_the_chain_opaque() {
    assert!(matches!(join_tails(&vec![value(Type::Int), Tail::Opaque], true), Tail::Opaque));
}

#[test]
fn the_branches_that_give_a_value_are_joined() {
    let tails = vec![value(Type::Int), Tail::Left, Tail::Value { ty: Type::Str, invocant: true }];
    match join_tails(&tails, true) {
        Tail::Value { ty, invocant } => {
            assert_eq!(ty, Type::Union(vec![Type::Int, Type::Str]));
            assert!(invocant);
        },
        _ => panic!("a value was expected"),
    }
}

#[test]
fn the_own_class_is_found_through_unions_and_optionals() {
    let ty = Type::Optional(Box::new(Type::Union(vec![Type::Undef, instance("Foo")])));
    assert!(holds_own_class(&ty, "Foo"));
    assert!(!holds_own_class(&ty, "Bar"));
    assert!(!holds_own_class(&Type::ArrayRef(Box::new(instance("Foo"))), "Foo"));
}

#[test]
fn the_invocant_marker_becomes_the_receivers_class() {
    let ty = Type::Union(vec![instance("Base"), Type::Undef]);
    assert_eq!(with_invocant(&ty, "Base", "Child"), Type::Union(vec![instance("Child"), Type::Undef]));
    assert_eq!(with_invocant(&instance("Other"), "Base", "Child"), instance("Other"));
}

#[test]
fn a_method_names_its_invocant_without_the_sigil() {
    let params = Params::Positional {
        params: vec![Param { name: "$self".to_string(), optional: false, ty: Type::Unknown }],
        slurpy: false,
        invocant: true,
        source: ParamSource::Signature,
    };
    assert!(matches!(Invocant::of(&params), Invocant::Named(ref n) if n == "self"));
    assert!(matches!(Invocant::of(&Params::Unknown), Invocant::Implicit));
    let plain = Params::Positional { params: Vec::new(), slurpy: false, invocant: false, source: ParamSource::Signature };
    assert!(matches!(Invocant::of(&plain), Invocant::Absent));
}

#[test]
fn one_unknown_site_makes_the_return_unknown() {
    let sites = Sites { scalar: vec![Type::Int, Type::Unknown], invocant: false, opaque: false };
    let returns = sites.joined(&Tail::Left, "Foo");
    assert_eq!(returns.scalar, Type::Unknown);
    assert!(returns.inferred);
}

#[test]
fn an_opaque_tail_makes_the_return_unknown() {
    let sites = Sites { scalar: vec![Type::Int], invocant: false, opaque: false };
    assert_eq!(sites.joined(&Tail::Opaque, "Foo").scalar, Type::Unknown);
}

#[test]
fn a_goto_leaves_nothing_inferred() {
    let sites = Sites { scalar: vec![Type::Int], invocant: false, opaque: true };
    let returns = sites.joined(&Tail::Left, "Foo");
    assert_eq!(returns.scalar, Type::Unknown);
    assert!(!returns.inferred);
}

#[test]
fn a_builder_that_hands_back_its_invocant_keeps_the_marker() {
    let sites = Sites { scalar: vec![instance("Foo")], invocant: true, opaque: false };
    let returns = sites.joined(&value(Type::Undef), "Foo");
    assert_eq!(returns.scalar, Type::Union(vec![instance("Foo"), Type::Undef]));
    assert!(returns.invocant);
    let returns = sites.joined(&value(Type::Str), "Bar");
    assert!(!returns.invocant);
}

#[test]
fn arithmetic_widens_only_on_whole_numbers() {
    assert_eq!(arithmetic(Some(&Type::Int), Some(&Type::Bool), Arith::Widening), Type::Int);
    assert_eq!(arithmetic(Some(&Type::Int), Some(&Type::Num), Arith::Widening), Type::Num);
    assert_eq!(arithmetic(Some(&Type::Str), Some(&Type::Num), Arith::Integer), Type::Int);
    assert_eq!(arithmetic(Some(&Type::Int), Some(&Type::Int), Arith::Fractional), Type::Num);
    assert_eq!(arithmetic(Some(&Type::Unknown), Some(&Type::Int), Arith::Integer), Type::Unknown);
    assert_eq!(arithmetic(None, Some(&Type::Int), Arith::Integer), Type::Unknown);
    assert!(is_integral(&Type::Union(vec![Type::Int, Type::Undef])));
    assert!(!is_integral(&Type::Union(vec![Type::Int, Type::Str])));
}

#[test]
fn an_element_is_what_the_container_holds() {
    assert_eq!(element_of(&Type::ArrayRef(Box::new(Type::Str))), Type::Str);
    assert_eq!(element_of(&Type::MapOf(Box::new(Type::Str), Box::new(Type::Int))), Type::Int);
    assert_eq!(element_of(&Type::Tuple(vec![Type::Int, Type::Str, Type::Int])), Type::Union(vec![Type::Int, Type::Str]));
    assert_eq!(element_of(&Type::Str), Type::Unknown);
}

#[test]
fn a_class_name_may_hide_in_a_union() {
    assert!(names_a_class(&Type::Union(vec![Type::Undef, Type::ClassName(None)])));
    assert!(!names_a_class(&Type::Str));
}

#[test]
fn builtins_return_what_the_table_says() {
    assert_eq!(builtin_return("length"), Some(Type::Int));
    assert_eq!(builtin_return("sqrt"), Some(Type::Num));
    assert_eq!(builtin_return("join"), Some(Type::Str));
    assert_eq!(builtin_return("defined"), Some(Type::Bool));
    assert_eq!(builtin_return("sort"), Some(Type::Unknown));
    assert_eq!(builtin_return("frobnicate"), None);
}

#[test]
fn a_join_holds_what_either_branch_said() {
    let mut mine = Env::new();
    mine.set(Sigil::Scalar, "x", Type::Int);
    mine.set(Sigil::Scalar, "z", Type::Str);
    let mut other = Env::new();
    other.set(Sigil::Scalar, "x", Type::Str);
    other.set(Sigil::Array, "y", Type::Num);
    mine.join(&other);
    assert_eq!(mine.get(Sigil::Scalar, "x"), Type::Union(vec![Type::Int, Type::Str]));
    assert_eq!(mine.get(Sigil::Array, "y"), Type::Num);
    assert_eq!(mine.get(Sigil::Scalar, "z"), Type::Str);
    assert!(mine.lookup(Sigil::Hash, "w").is_none());
}

#[test]
fn a_name_without_a_sigil_binds_nothing() {
    let mut env = Env::new();
    bind(&mut env, "x", Type::Int);
    bind(&mut env, "%opts", Type::Str);
    assert!(env.lookup(Sigil::Scalar, "x").is_none());
    assert_eq!(env.get(Sigil::Hash, "opts"), Type::Str);
}

#[test]
fn the_invocant_is_bound_to_its_own_class() {
    let params = Params::Positional {
        params: vec![
            Param { name: "$self".to_string(), optional: false, ty: Type::Unknown },
            Param { name: "@rest".to_string(), optional: true, ty: Type::Int },
        ],
        slurpy: true,
        invocant: true,
        source: ParamSource::Signature,
    };
    let mut env = Env::new();
    bind_params(&mut env, &params, "Foo");
    assert_eq!(env.get(Sigil::Scalar, "self"), instance("Foo"));
    assert_eq!(env.get(Sigil::Array, "rest"), Type::Int);
    let class = Params::Positional {
        params: vec![Param { name: "$class".to_string(), optional: false, ty: Type::Unknown }],
        slurpy: false,
        invocant: true,
        source: ParamSource::Signature,
    };
    bind_params(&mut env, &class, "Foo");
    assert_eq!(env.get(Sigil::Scalar, "class"), Type::ClassName(None));
    let named = Params::Named {
        params: vec![Param { name: "$x".to_string(), optional: false, ty: Type::Str }],
        invocant: Some("$self".to_string()),
        source: ParamSource::Args,
    };
    let mut env = Env::new();
    bind_params(&mut env, &named, "Bar");
    assert_eq!(env.get(Sigil::Scalar, "self"), instance("Bar"));
    assert_eq!(env.get(Sigil::Scalar, "x"), Type::Str);
}

fn tok(kind: TokenKind, text: &str) -> SyntaxElement {
    SyntaxElement::Token(SyntaxToken { kind, text: text.to_string(), range: TextRange::new(0, text.len() as u32) })
}

fn tree(kind: NodeKind, children: Vec<SyntaxElement>) -> SyntaxNode {
    SyntaxNode { kind, range: TextRange::new(0, 0), children, before: Vec::new(), at_start: false }
}

fn node(kind: NodeKind, children: Vec<SyntaxElement>) -> SyntaxElement {
    SyntaxElement::Node(tree(kind, children))
}

fn name(text: &str) -> SyntaxElement {
    node(NodeKind::SubName, vec![tok(TokenKind::Ident, text)])
}

fn call(callee: &str) -> SyntaxElement {
    node(NodeKind::ListCallExpr, vec![name(callee), node(NodeKind::ListExpr, vec![node(NodeKind::Literal, vec![tok(TokenKind::Number, "1")])])])
}

fn statement(expression: SyntaxElement) -> SyntaxNode {
    tree(NodeKind::ExprStmt, vec![node(NodeKind::ListExpr, vec![expression]), tok(TokenKind::Punct, ";")])
}

#[test]
fn a_return_or_a_die_leaves_the_sub() {
    assert!(leaves_the_sub(&statement(call("return"))));
    assert!(leaves_the_sub(&statement(call("croak"))));
    assert!(!leaves_the_sub(&statement(call("print"))));
    let throw = node(
        NodeKind::MethodCallExpr,
        vec![node(NodeKind::CallExpr, vec![name("My::Error")]), tok(TokenKind::Arrow, "->"), name("throw")],
    );
    assert!(leaves_the_sub(&statement(throw)));
}

#[test]
fn a_statement_of_two_expressions_has_no_sole_one() {
    let two = tree(NodeKind::ExprStmt, vec![node(NodeKind::ListExpr, vec![call("a"), tok(TokenKind::Comma, ","), call("b")])]);
    assert!(sole_expression(&two).is_none());
    let one = statement(call("a"));
    assert_eq!(sole_expression(&one).map(|e| e.kind), Some(NodeKind::ListCallExpr));
}

#[test]
fn the_scalar_branch_of_wantarray_is_the_third() {
    let ternary = tree(
        NodeKind::TernaryExpr,
        vec![
            node(NodeKind::CallExpr, vec![name("wantarray")]),
            tok(TokenKind::Punct, "?"),
            node(NodeKind::ArrayVar, vec![tok(TokenKind::Punct, "@"), tok(TokenKind::Ident, "list")]),
            tok(TokenKind::Punct, ":"),
            node(NodeKind::ScalarVar, vec![tok(TokenKind::Punct, "$"), tok(TokenKind::Ident, "one")]),
        ],
    );
    assert_eq!(wantarray_branch(&ternary).map(|e| e.kind), Some(NodeKind::ScalarVar));
    let other = tree(
        NodeKind::TernaryExpr,
        vec![call("ready"), node(NodeKind::ArrayVar, vec![]), node(NodeKind::ScalarVar, vec![])],
    );
    assert!(wantarray_branch(&other).is_none());
}

#[test]
fn a_dict_slot_is_found_by_name() {
    let here = tree(NodeKind::Subscript, vec![]);
    let dict = parse("Dict[name => Str, age => Optional[Int]]").unwrap();
    let mut reports = Vec::new();
    let name = step_type(&dict, &Step::Hash { key: Some("name".to_string()), node: &here }, TextRange::new(0, 4), &mut reports);
    assert_eq!(name, Type::Str);
    let age = step_type(&dict, &Step::Hash { key: Some("age".to_string()), node: &here }, TextRange::new(0, 4), &mut reports);
    assert_eq!(age, Type::Int);
    assert!(reports.is_empty());
}

#[test]
fn a_key_a_closed_dict_lacks_is_reported() {
    let here = tree(NodeKind::Subscript, vec![]);
    let dict = parse("Dict[name => Str]").unwrap();
    let mut reports = Vec::new();
    let ty = step_type(&dict, &Step::Hash { key: Some("nmae".to_string()), node: &here }, TextRange::new(3, 9), &mut reports);
    assert_eq!(ty, Type::Unknown);
    assert_eq!(reports.len(), 1);
    assert_eq!(reports[0].code, Code::UnknownKey);
    assert_eq!(reports[0].message, "`nmae` is not a key of `Dict[name => Str]`");
    assert_eq!(reports[0].range, TextRange::new(3, 9));
}

#[test]
fn stepping_through_a_maybe_is_reported_once() {
    let here = tree(NodeKind::Subscript, vec![]);
    let maybe = parse("Maybe[HashRef[Int]]").unwrap();
    let mut reports = Vec::new();
    let ty = step_type(&maybe, &Step::Hash { key: Some("k".to_string()), node: &here }, TextRange::new(0, 1), &mut reports);
    assert_eq!(ty, parse("Maybe[Int]").unwrap());
    assert_eq!(reports.len(), 1);
    assert_eq!(reports[0].code, Code::MaybeDeref);
    let tuple = parse("Tuple[Int, Str]").unwrap();
    assert_eq!(step_type(&tuple, &Step::Array { index: Some(1), node: &here }, TextRange::new(0, 1), &mut reports), Type::Str);
    assert_eq!(step_type(&tuple, &Step::Array { index: Some(5), node: &here }, TextRange::new(0, 1), &mut reports), Type::Unknown);
    let array = parse("ArrayRef[Str]").unwrap();
    assert_eq!(step_type(&array, &Step::Deref { sigil: Sigil::Array, node: &here }, TextRange::new(0, 1), &mut reports), Type::Str);
    assert_eq!(step_type(&Type::Unknown, &Step::Slice { node: &here }, TextRange::new(0, 1), &mut reports), Type::Unknown);
    assert_eq!(reports.len(), 1);
}

#[test]
fn a_binary_operator_types_its_result() {
    assert_eq!(binary_type(Some("+"), Some(&Type::Int), Some(&Type::Int)), Type::Int);
    assert_eq!(binary_type(Some("/"), Some(&Type::Int), Some(&Type::Int)), Type::Num);
    assert_eq!(binary_type(Some("."), Some(&Type::Int), None), Type::Str);
    assert_eq!(binary_type(Some("eq"), Some(&Type::Str), Some(&Type::Str)), Type::Bool);
    assert_eq!(binary_type(Some("<=>"), Some(&Type::Int), Some(&Type::Int)), Type::Int);
    let maybe = parse("Maybe[Str]").unwrap();
    assert_eq!(binary_type(Some("//"), Some(&maybe), Some(&Type::Int)), Type::Union(vec![Type::Str, Type::Int]));
    assert_eq!(binary_type(Some("&&"), Some(&Type::Int), Some(&Type::Str)), Type::Str);
    assert_eq!(binary_type(Some("=~"), Some(&Type::Str), Some(&Type::Str)), Type::Unknown);
}

fn literal() -> SyntaxNode {
    tree(NodeKind::Literal, vec![tok(TokenKind::StringLit, "'x'")])
}

fn variable() -> SyntaxNode {
    tree(NodeKind::ScalarVar, vec![tok(TokenKind::Punct, "$"), tok(TokenKind::Ident, "x")])
}

#[test]
fn a_value_that_contradicts_its_slot_is_reported() {
    let classes = Hierarchy::new(Vec::new());
    let mut reports = Vec::new();
    check_value(&Type::Str, &Type::ArrayRef(Box::new(Type::Int)), &literal(), "`$x` of `f`", &classes, &mut reports);
    assert_eq!(reports.len(), 1);
    assert_eq!(reports[0].code, Code::TypeMismatch);
    assert_eq!(reports[0].severity, Severity::Error);
    assert_eq!(reports[0].message, "`Str` passed to `$x` of `f`, which is declared `ArrayRef[Int]`");
    check_value(&Type::Str, &Type::ArrayRef(Box::new(Type::Int)), &variable(), "`$x` of `f`", &classes, &mut reports);
    assert_eq!(reports[1].severity, Severity::Warning);
    check_value(&Type::Int, &Type::Str, &literal(), "`$x` of `f`", &classes, &mut reports);
    check_value(&Type::Unknown, &Type::Str, &literal(), "`$x` of `f`", &classes, &mut reports);
    check_value(&Type::Str, &Type::Optional(Box::new(Type::Any)), &literal(), "`$x` of `f`", &classes, &mut reports);
    assert_eq!(reports.len(), 2);
}

#[test]
fn a_return_is_held_to_the_declared_type() {
    let classes = Hierarchy::new(Vec::new());
    let mut reports = Vec::new();
    let int = Returns { scalar: Type::Int, list: ListShape::Unknown, inferred: false, invocant: false };
    let value = literal();
    check_return(&int, &vec![&value], &vec![Type::Str], &classes, &mut reports);
    assert_eq!(reports.len(), 1);
    assert_eq!(reports[0].code, Code::ReturnMismatch);
    assert_eq!(reports[0].message, "`Str` returned from a sub declared `Returns: Int`");
    let other = variable();
    check_return(&int, &vec![&value, &other], &vec![Type::Str, Type::Str], &classes, &mut reports);
    assert_eq!(reports.len(), 1);
    let nothing = Returns { scalar: Type::Unknown, list: ListShape::Nothing, inferred: false, invocant: false };
    check_return(&nothing, &vec![&other], &vec![Type::Int], &classes, &mut reports);
    assert_eq!(reports.len(), 2);
    assert_eq!(reports[1].message, "this sub is declared `Returns: ()` and returns a value");
}

#[test]
fn missing_names_are_reported_once_against_the_call() {
    let mut reports = Vec::new();
    report_missing(&Vec::new(), TextRange::new(0, 5), "`Foo`", &mut reports);
    assert!(reports.is_empty());
    report_missing(&vec!["name".to_string(), "age".to_string()], TextRange::new(0, 5), "`Foo`", &mut reports);
    assert_eq!(reports.len(), 1);
    assert_eq!(reports[0].code, Code::MissingArgument);
    assert_eq!(reports[0].message, "`Foo` requires `name`, `age`, not passed here");
}

fn param(name: &str, optional: bool, ty: Type) -> Param {
    Param { name: name.to_string(), optional, ty }
}

#[test]
fn named_arguments_are_held_to_their_parameters() {
    let classes = Hierarchy::new(Vec::new());
    let params = Params::Named {
        params: vec![param("$name", false, Type::Str), param("$size", true, Type::Int), param("$id", false, Type::Int)],
        invocant: Some("$self".to_string()),
        source: ParamSource::Args,
    };
    let key = tree(NodeKind::Literal, vec![tok(TokenKind::Ident, "k")]);
    let value = variable();
    let pairs = vec![
        Arg::Pair { key: &key, key_text: Some("name".to_string()), value: &value },
        Arg::Pair { key: &key, key_text: Some("size".to_string()), value: &value },
        Arg::Pair { key: &key, key_text: Some("colour".to_string()), value: &value },
    ];
    let values = vec![Type::ArrayRef(Box::new(Type::Str)), Type::Undef, Type::Str];
    let mut reports = Vec::new();
    check_arguments(&params, &pairs, &values, &Vec::new(), &Vec::new(), "make", TextRange::new(0, 9), &classes, &mut reports);
    let codes: Vec<Code> = reports.iter().map(|d| d.code).collect();
    assert_eq!(codes, vec![Code::TypeMismatch, Code::UnknownKey, Code::MissingArgument]);
    assert_eq!(reports[0].message, "`ArrayRef[Str]` passed to `name` of `make`, which is declared `Str`");
    assert_eq!(reports[1].message, "`make` takes no argument named `colour`");
    assert_eq!(reports[2].message, "`make` requires `id`, not passed here");
}

#[test]
fn an_argument_list_that_is_not_all_pairs_is_not_counted() {
    let classes = Hierarchy::new(Vec::new());
    let params = Params::Named { params: vec![param("$id", false, Type::Int)], invocant: None, source: ParamSource::Args };
    let value = variable();
    let pairs = vec![Arg::Positional(&value)];
    let mut reports = Vec::new();
    check_arguments(&params, &pairs, &vec![Type::Str], &Vec::new(), &Vec::new(), "make", TextRange::new(0, 9), &classes, &mut reports);
    assert!(reports.is_empty());
}

#[test]
fn positional_arguments_skip_the_invocant() {
    let classes = Hierarchy::new(Vec::new());
    let params = Params::Positional {
        params: vec![param("$self", false, Type::Unknown), param("$n", false, Type::Int), param("$s", false, Type::Str)],
        slurpy: false,
        invocant: true,
        source: ParamSource::Signature,
    };
    let first = literal();
    let second = variable();
    let mut reports = Vec::new();
    check_arguments(
        &params,
        &Vec::new(),
        &Vec::new(),
        &vec![&first, &second],
        &vec![Type::HashRef(Box::new(Type::Int)), Type::Int],
        "go",
        TextRange::new(0, 2),
        &classes,
        &mut reports,
    );
    assert_eq!(reports.len(), 1);
    assert_eq!(reports[0].message, "`HashRef[Int]` passed to `$n` of `go`, which is declared `Int`");
    assert_eq!(reports[0].severity, Severity::Error);
}

#[test]
fn a_list_is_told_from_one_value() {
    let array = node(NodeKind::ArrayVar, vec![tok(TokenKind::Punct, "@"), tok(TokenKind::Ident, "a")]);
    let scalar = || node(NodeKind::ScalarVar, vec![tok(TokenKind::Punct, "$"), tok(TokenKind::Ident, "x")]);
    assert!(is_plural(&tree(NodeKind::ArrayVar, vec![])));
    assert!(!is_plural(&tree(NodeKind::ScalarVar, vec![])));
    assert!(is_plural(&tree(NodeKind::ListExpr, vec![scalar(), tok(TokenKind::Comma, ","), scalar()])));
    assert!(is_plural(&tree(NodeKind::ListExpr, vec![])));
    assert!(!is_plural(&tree(NodeKind::ListExpr, vec![scalar()])));
    assert!(is_plural(&tree(NodeKind::ParenExpr, vec![tok(TokenKind::Punct, "("), array, tok(TokenKind::Punct, ")")])));
    assert!(is_plural(&tree(NodeKind::TernaryExpr, vec![scalar(), scalar(), node(NodeKind::HashVar, vec![])])));
    assert!(!is_plural(&tree(NodeKind::TernaryExpr, vec![node(NodeKind::ArrayVar, vec![]), scalar(), scalar()])));
    assert!(is_plural(&tree(NodeKind::DerefExpr, vec![tok(TokenKind::Punct, "@"), scalar()])));
    assert!(!is_plural(&tree(NodeKind::DerefExpr, vec![tok(TokenKind::ScalarSigil, "$"), scalar()])));
    assert!(is_plural(&tree(NodeKind::PostfixDerefExpr, vec![scalar(), tok(TokenKind::DerefArray, "->@*")])));
}

fn first_argument(arrow: bool) -> SyntaxElement {
    let mut children = vec![node(NodeKind::ScalarVar, vec![tok(TokenKind::Punct, "$"), tok(TokenKind::Ident, "_")])];
    if arrow {
        children.push(tok(TokenKind::Arrow, "->"));
    }
    children.push(node(
        NodeKind::Subscript,
        vec![tok(TokenKind::Punct, "["), node(NodeKind::Literal, vec![tok(TokenKind::Number, "0")]), tok(TokenKind::Punct, "]")],
    ));
    node(NodeKind::ArraySubscriptExpr, children)
}

fn self_var() -> SyntaxElement {
    node(NodeKind::ScalarVar, vec![tok(TokenKind::Punct, "$"), tok(TokenKind::Ident, "self")])
}

fn as_node(e: SyntaxElement) -> SyntaxNode {
    match e {
        SyntaxElement::Node(n) => n,
        SyntaxElement::Token(_) => panic!("a node was expected"),
    }
}

#[test]
fn the_first_argument_is_told_from_an_arrowed_one() {
    assert!(is_first_argument(&as_node(first_argument(false))));
    assert!(!is_first_argument(&as_node(first_argument(true))));
}

#[test]
fn the_invocant_is_found_in_a_choice_and_a_bless() {
    let named = Invocant::Named("self".to_string());
    assert!(is_invocant(&named, &as_node(self_var())));
    assert!(!is_invocant(&Invocant::Absent, &as_node(self_var())));
    assert!(is_invocant(&Invocant::Implicit, &as_node(first_argument(false))));
    assert!(!is_invocant(&named, &as_node(first_argument(false))));
    let choice = tree(NodeKind::TernaryExpr, vec![call("ok"), self_var(), node(NodeKind::UndefExpr, vec![])]);
    assert!(is_invocant(&named, &choice));
    let class = Invocant::Named("class".to_string());
    let bless = tree(
        NodeKind::ListCallExpr,
        vec![
            name("bless"),
            node(
                NodeKind::ListExpr,
                vec![
                    node(NodeKind::AnonHash, vec![]),
                    tok(TokenKind::Comma, ","),
                    node(NodeKind::ScalarVar, vec![tok(TokenKind::Punct, "$"), tok(TokenKind::Ident, "class")]),
                ],
            ),
        ],
    );
    assert!(is_invocant(&class, &bless));
    assert!(!is_invocant(&named, &bless));
}

#[test]
fn a_site_reads_the_invocant_and_leaves_lists_unknown() {
    let named = Invocant::Named("self".to_string());
    let (ty, invocant) = read_site(&named, "P", &as_node(self_var()), &Type::Unknown, &Type::Unknown);
    assert_eq!(ty, instance("P"));
    assert!(invocant);
    let (ty, invocant) = read_site(&named, "P", &tree(NodeKind::ArrayVar, vec![]), &Type::Int, &Type::Unknown);
    assert_eq!(ty, Type::Unknown);
    assert!(!invocant);
    let (ty, _) = read_site(&named, "P", &tree(NodeKind::ScalarVar, vec![]), &Type::Str, &Type::Unknown);
    assert_eq!(ty, Type::Str);
    let mut sites = Sites { scalar: Vec::new(), invocant: false, opaque: false };
    sites.add_return(&named, "P", &Vec::new(), &Vec::new(), &Type::Unknown);
    let one = as_node(self_var());
    sites.add_return(&named, "P", &vec![&one], &vec![Type::Unknown], &Type::Unknown);
    assert_eq!(sites.scalar, vec![Type::Undef, instance("P")]);
    assert!(sites.invocant);
    let returns = sites.joined(&Tail::Left, "P");
    assert_eq!(returns.scalar, Type::Union(vec![Type::Undef, instance("P")]));
    assert!(returns.invocant);
}
