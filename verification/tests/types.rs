use camello::types::{is_type_shaped, parse, Type};

fn read(text: &str) -> Type {
    parse(text).unwrap_or_else(|error| panic!("{text:?} did not parse: {}", error.message))
}

#[test]
fn the_two_syntaxes_are_one_grammar() {
    assert_eq!(
        read("ArrayRef[HashRef[Str]]"),
        Type::ArrayRef(Box::new(Type::HashRef(Box::new(Type::Str))))
    );
}

#[test]
fn a_union_flattens_and_deduplicates() {
    assert_eq!(read("Str|Undef"), Type::union(vec![Type::Str, Type::Undef]));
    assert_eq!(read("Str | Str"), Type::Str);
    assert_eq!(read("Str | Int | Str"), read("Str|Int"));
}

#[test]
fn maybe_is_a_union_with_undef() {
    assert_eq!(read("Maybe[Str]"), read("Str|Undef"));
    assert!(read("Maybe[Str]").is_maybe());
    assert!(!read("Str").is_maybe());
    assert_eq!(read("Maybe[Str]").without_undef(), Type::Str);
}

#[test]
fn a_dict_keeps_its_slots_in_order() {
    let ty = read("Dict[name => Str, age => Optional[Int]]");
    let Type::Dict { slots, slurpy } = &ty else {
        panic!("not a Dict: {ty:?}");
    };
    assert_eq!(slots.len(), 2);
    assert_eq!(slots[0].0, "name");
    assert_eq!(slots[0].1, Type::Str);
    assert!(slots[1].1.is_optional());
    assert!(slurpy.is_none(), "a Dict without a slurpy is restricted");
}

#[test]
fn a_slurpy_dict_accepts_any_key() {
    let ty = read("Dict[name => Str, slurpy HashRef[Str]]");
    let Type::Dict { slurpy, .. } = &ty else {
        panic!("not a Dict: {ty:?}");
    };
    assert_eq!(slurpy.as_deref(), Some(&Type::HashRef(Box::new(Type::Str))));
}

#[test]
fn a_quoted_argument_is_a_name() {
    assert_eq!(
        read("InstanceOf['Foo::Bar']"),
        Type::InstanceOf("Foo::Bar".into())
    );
    assert_eq!(read("ConsumerOf['Role']"), Type::ConsumerOf("Role".into()));
}

#[test]
fn an_unrecognised_bareword_is_a_class_name() {
    assert_eq!(read("Foo::Bar"), Type::InstanceOf("Foo::Bar".into()));
    assert_eq!(read("Srt"), Type::InstanceOf("Srt".into()));
}

#[test]
fn a_refinement_reads_as_its_base_type() {
    assert_eq!(read("PositiveInt"), Type::Int);
    assert_eq!(read("NonEmptyStr"), Type::Str);
    assert_eq!(read("StrictNum"), Type::Num);
}

#[test]
fn bool_is_not_int() {
    assert_ne!(read("Bool"), read("Int"));
}

#[test]
fn a_tuple_keeps_its_members() {
    assert_eq!(
        read("Tuple[Str, Int]"),
        Type::Tuple(vec![Type::Str, Type::Int])
    );
}

#[test]
fn a_parenthesised_union_is_that_union() {
    assert_eq!(read("ArrayRef[(Str|Int)]"), read("ArrayRef[Str|Int]"));
}

#[test]
fn what_is_not_a_type_expression_says_so() {
    assert!(parse("$MyType").is_err());
    assert!(parse("ArrayRef[Str").is_err());
    assert!(parse("").is_err());
    assert!(parse("Str Int").is_err());
}

#[test]
fn unknown_swallows_a_union() {
    assert_eq!(Type::union(vec![Type::Str, Type::Unknown]), Type::Unknown);
    assert_eq!(Type::maybe(Type::Unknown), Type::Unknown);
}

#[test]
fn a_type_prints_the_way_it_was_written() {
    assert_eq!(read("ArrayRef[Str]").render(), "ArrayRef[Str]");
    assert_eq!(read("Maybe[Str]").render(), "Str|Undef");
    assert_eq!(read("Dict[a => Int]").render(), "Dict[a => Int]");
}

#[test]
fn each_error_says_what_went_wrong() {
    assert_eq!(parse("$MyType").unwrap_err().message, "`$` is not part of a type expression");
    assert_eq!(parse("ArrayRef[Str").unwrap_err().message, "`ArrayRef[` is not closed");
    assert_eq!(parse("").unwrap_err().message, "an empty type expression");
    assert_eq!(parse("Str Int").unwrap_err().message, "unexpected `Int`");
    assert_eq!(parse("'abc").unwrap_err().message, "unterminated string in a type expression");
    assert_eq!(parse("(Str").unwrap_err().message, "a `(` in a type expression is not closed");
    assert_eq!(parse("]").unwrap_err().message, "a type expression cannot begin with `]`");
    assert_eq!(parse("Map[Str]").unwrap_err().message, "`Map` takes a key type and a value type");
    assert_eq!(
        parse("ArrayRef[a => Str]").unwrap_err().message,
        "`ArrayRef` does not take a named parameter `a`"
    );
    assert_eq!(
        parse("Tuple[slurpy Str]").unwrap_err().message,
        "`Tuple` does not take a `slurpy`"
    );
}

#[test]
fn bare_structures_constrain_only_their_kind() {
    assert_eq!(read("Dict"), Type::HashRef(Box::new(Type::Unknown)));
    assert_eq!(read("Map"), Type::HashRef(Box::new(Type::Unknown)));
    assert_eq!(read("Tuple"), Type::ArrayRef(Box::new(Type::Unknown)));
    assert_eq!(read("Foo[Bar]"), Type::Unknown);
}

#[test]
fn quoted_values_are_an_enum() {
    assert_eq!(read("'foo' | 'bar'"), Type::Enum(vec!["foo".into(), "bar".into()]));
    assert_eq!(read("Enum['a', 'b']").render(), "Enum[a, b]");
    assert_eq!(read("Map[Str, Int]").render(), "Map[Str, Int]");
    assert_eq!(read("ClassName['Foo']").render(), "ClassName['Foo']");
}

#[test]
fn prose_is_not_type_shaped() {
    assert!(!is_type_shaped("modified template"));
    assert!(is_type_shaped("ArrayRef[Str"));
    assert!(is_type_shaped("(Str, Int)"));
    assert!(!is_type_shaped(""));
    assert!(!is_type_shaped("$x"));
}

#[test]
fn a_library_name_stands_for_its_type() {
    let library = vec![
        ("Id".to_string(), Type::union(vec![Type::Int, Type::Str])),
        ("Loop".to_string(), Type::InstanceOf("Loop".into())),
    ];
    assert_eq!(
        Type::ArrayRef(Box::new(Type::InstanceOf("Id".into()))).substituted(&library),
        Type::ArrayRef(Box::new(Type::union(vec![Type::Int, Type::Str])))
    );
    assert_eq!(Type::InstanceOf("Loop".into()).substituted(&library), Type::InstanceOf("Loop".into()));
    assert_eq!(Type::InstanceOf("Other".into()).substituted(&library), Type::InstanceOf("Other".into()));
}

#[test]
fn a_cycle_of_names_runs_out_to_unknown() {
    let library = vec![
        ("A".to_string(), Type::InstanceOf("B".into())),
        ("B".to_string(), Type::InstanceOf("A".into())),
    ];
    assert_eq!(Type::InstanceOf("A".into()).substituted(&library), Type::Unknown);
}
