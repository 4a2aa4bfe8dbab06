use camello::decl::{Param, ParamSource, Params, SubDecl, SymbolSource};
use camello::shape::{ListShape, Returns};
use camello::signature::signature_of;
use camello::span::TextRange;
use camello::types::Type;

fn param(name: &str, optional: bool, ty: Type) -> Param {
    Param { name: name.to_string(), optional, ty }
}

fn sub(package: &str, name: &str, params: Params, scalar: Type, list: ListShape, inferred: bool) -> SubDecl {
    SubDecl {
        package: package.to_string(),
        name: name.to_string(),
        params,
        returns: Returns { scalar, list, inferred, invocant: false },
        source: SymbolSource::Annotated,
        constructs_own_class: false,
        range: TextRange::new(0, 0),
        file: 0,
    }
}

#[test]
fn a_sub_with_nothing_known_is_its_name() {
    let s = sub("main", "helper", Params::Unknown, Type::Unknown, ListShape::Unknown, false);
    assert_eq!(signature_of(&s), "helper");
}

#[test]
fn a_positional_list_shows_each_parameter() {
    let params = Params::Positional {
        params: vec![param("$x", false, Type::Int), param("$y", true, Type::Unknown)],
        slurpy: true,
        invocant: false,
        source: ParamSource::Signature,
    };
    let s = sub("Foo::Bar", "add", params, Type::Int, ListShape::Unknown, false);
    assert_eq!(signature_of(&s), "Foo::Bar::add($x : Int, $y?, ...) -> Int");
}

#[test]
fn a_named_list_shows_its_invocant_beside_the_keys() {
    let params = Params::Named {
        params: vec![param("$name", false, Type::Str), param("$age", true, Type::Int)],
        invocant: Some("$class".to_string()),
        source: ParamSource::Args,
    };
    let s = sub("Person", "new", params, Type::Unknown, ListShape::Unknown, false);
    assert_eq!(signature_of(&s), "Person::new($class, { name => Str, age? => Int })");
}

#[test]
fn nothing_returned_is_shown_once() {
    let params = Params::Positional { params: vec![], slurpy: false, invocant: false, source: ParamSource::Signature };
    let s = sub("", "quiet", params, Type::Undef, ListShape::Nothing, false);
    assert_eq!(signature_of(&s), "quiet() -> ()");
}

#[test]
fn a_list_of_just_the_scalar_is_left_out_and_inferred_is_said_once() {
    let s = sub("main", "count", Params::Unknown, Type::Int, ListShape::Fixed(vec![Type::Int]), true);
    assert_eq!(signature_of(&s), "count -> Int (inferred)");
    let t = sub("main", "pair", Params::Unknown, Type::Str, ListShape::Fixed(vec![Type::Str, Type::Int]), true);
    assert_eq!(signature_of(&t), "pair -> Str, (Str, Int) (inferred)");
}
