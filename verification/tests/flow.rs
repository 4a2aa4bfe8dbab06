use camello::flow::{compatible, is_assignable, returns_nothing, Hierarchy};
use camello::annotate::{ListShape, Returns};
use camello::types::{parse, Type};

fn ty(text: &str) -> Type {
    parse(text).unwrap_or_else(|error| panic!("{text:?} did not parse: {}", error.message))
}

fn nothing_known() -> Hierarchy {
    Hierarchy::new(Vec::new())
}

fn every_type() -> Vec<Type> {
    [
        "Any",
        "Defined",
        "Value",
        "Str",
        "Num",
        "Int",
        "Bool",
        "ClassName",
        "RoleName",
        "Enum['a','b']",
        "Ref",
        "ScalarRef[Str]",
        "ArrayRef[Int]",
        "Tuple[Int, Str]",
        "HashRef[Str]",
        "Dict[a => Str]",
        "Map[Str, Int]",
        "CodeRef",
        "RegexpRef",
        "GlobRef",
        "FileHandle",
        "Object",
        "InstanceOf['Foo']",
        "Undef",
        "Str|Undef",
        "Int|ArrayRef[Int]",
    ]
    .into_iter()
    .map(ty)
    .collect()
}

#[test]
fn assignable_implies_compatible() {
    let program = nothing_known();
    for value in every_type() {
        for slot in every_type() {
            if is_assignable(&value, &slot, &program) {
                assert!(
                    compatible(&value, &slot, &program),
                    "{} is assignable to {} and yet not compatible with it",
                    value.render(),
                    slot.render()
                );
            }
        }
    }
}

#[test]
fn both_relations_are_reflexive() {
    let program = nothing_known();
    for one in every_type() {
        assert!(is_assignable(&one, &one, &program), "{} is not itself", one.render());
        assert!(compatible(&one, &one, &program), "{} does not meet itself", one.render());
    }
}

#[test]
fn compatible_is_directed() {
    let program = nothing_known();
    for (narrow, broad) in [
        ("Int", "Str"),
        ("Int", "Num"),
        ("Num", "Str"),
        ("HashRef[Int]", "HashRef[Str]"),
    ] {
        let (narrow, broad) = (ty(narrow), ty(broad));
        assert!(compatible(&narrow, &broad, &program), "{} should fit a {} slot", narrow.render(), broad.render());
        assert!(!compatible(&broad, &narrow, &program), "{} should not fit a {} slot", broad.render(), narrow.render());
    }
}

#[test]
fn a_kind_meets_its_family_from_either_side() {
    let program = nothing_known();
    for (head, member) in [
        ("Ref", "ArrayRef[Int]"),
        ("Ref", "Dict[a => Str]"),
        ("Ref", "CodeRef"),
        ("Defined", "Str"),
        ("Defined", "ArrayRef[Int]"),
        ("Value", "Str"),
        ("Object", "InstanceOf['Foo']"),
        ("GlobRef", "FileHandle"),
        ("Str", "ClassName"),
        ("Str", "Enum['a','b']"),
    ] {
        let (head, member) = (ty(head), ty(member));
        assert!(compatible(&member, &head, &program), "{} should fit a {} slot", member.render(), head.render());
        assert!(
            compatible(&head, &member, &program),
            "a {} could be a {}, so nothing is ruled out",
            head.render(),
            member.render()
        );
    }
}

#[test]
fn a_family_head_holds_its_family() {
    let program = nothing_known();
    for narrow in [
        "ScalarRef[Str]",
        "ArrayRef[Int]",
        "Tuple[Int, Str]",
        "HashRef[Str]",
        "Dict[a => Str]",
        "Map[Str, Int]",
        "CodeRef",
        "RegexpRef",
        "GlobRef",
        "Object",
        "InstanceOf['Foo']",
    ] {
        let narrow = ty(narrow);
        assert!(is_assignable(&narrow, &Type::Ref, &program), "{} is not a Ref", narrow.render());
        assert!(compatible(&narrow, &Type::Ref, &program), "{} does not meet Ref", narrow.render());
    }
    for narrow in ["Str", "Num", "Int", "Enum['a']", "ClassName", "RoleName"] {
        let narrow = ty(narrow);
        assert!(is_assignable(&narrow, &Type::Value, &program), "{} is not a Value", narrow.render());
    }
    assert!(is_assignable(&ty("Int"), &ty("Num"), &program));
    assert!(is_assignable(&ty("Num"), &ty("Str"), &program));
    assert!(is_assignable(&ty("InstanceOf['Foo']"), &Type::Object, &program));
    assert!(is_assignable(&ty("FileHandle"), &Type::GlobRef, &program));
}

#[test]
fn the_two_relations_part_company_where_they_should() {
    let program = nothing_known();
    let both = ty("Int|ArrayRef[Int]");
    assert!(compatible(&both, &Type::Int, &program));
    assert!(!is_assignable(&both, &Type::Int, &program));

    assert!(compatible(&ty("Str|Undef"), &Type::Str, &program));
    assert!(!is_assignable(&ty("Str|Undef"), &Type::Str, &program));

    assert!(compatible(&Type::Bool, &Type::Value, &program));
    assert!(!is_assignable(&Type::Bool, &Type::Value, &program));
    assert!(!is_assignable(&Type::Bool, &Type::Defined, &program));

    assert!(compatible(&Type::Ref, &ty("ArrayRef[Int]"), &program));
    assert!(!is_assignable(&Type::Ref, &ty("ArrayRef[Int]"), &program));
}

#[test]
fn what_neither_relation_allows() {
    let program = nothing_known();
    for (value, slot) in [
        ("Str", "Ref"),
        ("ArrayRef[Int]", "Value"),
        ("Undef", "Defined"),
        ("ArrayRef[Int]", "HashRef[Str]"),
        ("CodeRef", "ArrayRef[Int]"),
    ] {
        let (value, slot) = (ty(value), ty(slot));
        assert!(!compatible(&value, &slot, &program), "{} should not meet {}", value.render(), slot.render());
        assert!(!is_assignable(&value, &slot, &program), "{} should not be a {}", value.render(), slot.render());
    }
}

fn family_tree() -> Hierarchy {
    Hierarchy::new(vec![
        ("Child".to_string(), vec!["Parent".to_string(), "Loggable".to_string()]),
        ("Parent".to_string(), vec!["Base".to_string()]),
        ("Base".to_string(), Vec::new()),
        ("Loggable".to_string(), Vec::new()),
        ("Other".to_string(), Vec::new()),
    ])
}

#[test]
fn isa_walks_parents_and_roles() {
    let classes = family_tree();
    assert!(classes.isa("Child", "Child"));
    assert!(classes.isa("Child", "Parent"));
    assert!(classes.isa("Child", "Base"));
    assert!(classes.isa("Child", "Loggable"));
    assert!(!classes.isa("Parent", "Child"));
    assert!(!classes.isa("Child", "Other"));
    assert!(classes.isa("Nowhere", "Nowhere"));
    assert!(!classes.isa("Nowhere", "Base"));
}

#[test]
fn isa_survives_a_cycle() {
    let classes = Hierarchy::new(vec![
        ("A".to_string(), vec!["B".to_string()]),
        ("B".to_string(), vec!["A".to_string(), "C".to_string()]),
    ]);
    assert!(classes.isa("A", "C"));
    assert!(classes.isa("B", "A"));
    assert!(!classes.isa("C", "A"));
}

#[test]
fn a_known_class_is_told_apart_from_an_unrelated_one() {
    let classes = family_tree();
    assert!(classes.knows_package("Child"));
    assert!(!classes.knows_package("Nowhere"));
    let child = Type::InstanceOf("Child".to_string());
    let base = Type::InstanceOf("Base".to_string());
    let other = Type::InstanceOf("Other".to_string());
    let unknown = Type::InstanceOf("Nowhere".to_string());
    assert!(compatible(&child, &base, &classes));
    assert!(is_assignable(&child, &base, &classes));
    assert!(!compatible(&base, &child, &classes));
    assert!(!compatible(&child, &other, &classes));
    assert!(!is_assignable(&child, &other, &classes));
    // A class nothing declares is one nothing can be shown about.
    assert!(compatible(&child, &unknown, &classes));
    assert!(is_assignable(&unknown, &child, &classes));
    // Any reference could be an object of a class the run never saw.
    assert!(compatible(&ty("ArrayRef[Int]"), &unknown, &classes));
    assert!(!compatible(&ty("ArrayRef[Int]"), &base, &classes));
}

#[test]
fn a_regexp_is_one_type_under_two_names() {
    let program = nothing_known();
    let regexp = Type::InstanceOf("Regexp".to_string());
    assert!(compatible(&Type::RegexpRef, &regexp, &program));
    assert!(is_assignable(&Type::RegexpRef, &regexp, &program));
    assert!(is_assignable(&regexp, &Type::RegexpRef, &program));
    assert!(!is_assignable(&Type::RegexpRef, &Type::InstanceOf("Foo".to_string()), &program));
}

#[test]
fn a_dict_declaration_names_what_it_needs() {
    let program = nothing_known();
    let declared = ty("Dict[name => Str, age => Optional[Int]]");
    let full = ty("Dict[name => Str, age => Int]");
    let partial = ty("Dict[name => Str]");
    let wrong = ty("Dict[name => ArrayRef[Int]]");
    let extra = ty("Dict[name => Str, other => Int]");
    assert!(compatible(&full, &declared, &program));
    assert!(is_assignable(&full, &declared, &program));
    assert!(compatible(&partial, &declared, &program));
    assert!(is_assignable(&partial, &declared, &program));
    assert!(!compatible(&wrong, &declared, &program));
    assert!(!is_assignable(&wrong, &declared, &program));
    // A key the declaration does not name is no contradiction, and is not
    // allowed by a closed declaration either.
    assert!(compatible(&extra, &declared, &program));
    assert!(!is_assignable(&extra, &declared, &program));
    let open = ty("Dict[name => Str, slurpy HashRef[Int]]");
    assert!(is_assignable(&extra, &open, &program));
    // A missing key the declaration needs is a contradiction.
    assert!(!compatible(&ty("Dict[age => Int]"), &declared, &program));
}

#[test]
fn enums_fit_where_their_values_do() {
    let program = nothing_known();
    assert!(compatible(&ty("Enum['a']"), &ty("Enum['a','b']"), &program));
    assert!(!compatible(&ty("Enum['a','c']"), &ty("Enum['a','b']"), &program));
    assert!(is_assignable(&ty("Enum['b']"), &ty("Enum['a','b']"), &program));
    assert!(compatible(&Type::Int, &ty("Enum['a']"), &program));
}

#[test]
fn a_tuple_in_a_tuple_slot_is_compared_whole() {
    // Set inclusion looks inside; `compatible` asks only whether the two are
    // the same, which is where the first does not imply the second.
    let program = nothing_known();
    let value = ty("Tuple[Int]");
    let slot = ty("Tuple[Num]");
    assert!(is_assignable(&value, &slot, &program));
    assert!(!compatible(&value, &slot, &program));
}

#[test]
fn undef_fits_undef_maybe_and_bool() {
    let program = nothing_known();
    assert!(compatible(&Type::Undef, &Type::Undef, &program));
    assert!(compatible(&Type::Undef, &Type::Bool, &program));
    assert!(compatible(&Type::Undef, &ty("Maybe[Str]"), &program));
    assert!(!compatible(&Type::Undef, &Type::Str, &program));
    assert!(is_assignable(&Type::Undef, &Type::Bool, &program));
    assert!(!is_assignable(&Type::Undef, &Type::Str, &program));
}

#[test]
fn returns_nothing_is_the_empty_list() {
    let mut summary = Returns::default();
    assert!(!returns_nothing(&summary));
    summary.list = ListShape::Nothing;
    assert!(returns_nothing(&summary));
}
