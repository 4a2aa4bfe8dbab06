use camello::interp::{scan, scan_extended};

fn names(text: &str) -> Vec<String> {
    scan(text)
        .into_iter()
        .map(|item| format!("{}{}", item.sigil.as_str(), item.name))
        .collect()
}

#[test]
fn a_plain_scalar_is_a_use() {
    assert_eq!(names("hi $who"), vec!["$who"]);
}

#[test]
fn an_escaped_sigil_is_not() {
    assert_eq!(names("hi \\$who"), Vec::<String>::new());
    assert_eq!(names("a\\@b $c"), vec!["$c"]);
}

#[test]
fn an_element_names_its_container() {
    assert_eq!(names("$h{k}"), vec!["%h"]);
    assert_eq!(names("$a[0]"), vec!["@a"]);
    assert_eq!(names("$x->{k}"), vec!["$x"]);
    assert_eq!(names("$x->[0]"), vec!["$x"]);
}

#[test]
fn a_key_expression_is_scanned_too() {
    assert_eq!(names("$h{$key}"), vec!["$key", "%h"]);
}

#[test]
fn a_chain_is_walked_to_its_end() {
    assert_eq!(names("$x->{a}[0]{$b}"), vec!["$b", "$x"]);
}

#[test]
fn a_braced_name_is_that_variable() {
    assert_eq!(names("${who}"), vec!["$who"]);
    assert_eq!(names("@{list}"), vec!["@list"]);
}

#[test]
fn a_braced_block_is_scanned_as_code() {
    assert_eq!(names("@{[ join ',', @parts ]}"), vec!["@parts"]);
    assert_eq!(names("${ $ref }"), vec!["$ref"]);
}

#[test]
fn a_dereference_names_the_reference() {
    assert_eq!(names("$$ref"), vec!["$ref"]);
    assert_eq!(names("@$ref"), vec!["$ref"]);
}

#[test]
fn a_subscript_after_a_dereference_belongs_to_it() {
    assert_eq!(names("$$argv[0]"), vec!["$argv"]);
    assert_eq!(names("$$row{name}"), vec!["$row"]);
    assert_eq!(names("$$argv[$i]"), vec!["$argv", "$i"]);
}

#[test]
fn an_extended_pattern_ignores_its_comments() {
    let pattern = "(\")   # $quote\n  $real";
    assert_eq!(
        scan_extended(pattern)
            .into_iter()
            .map(|item| item.name)
            .collect::<Vec<_>>(),
        vec!["real"]
    );
    assert_eq!(
        scan_extended(pattern)[0].offset,
        pattern.find("$real").expect("it is there")
    );
    assert_eq!(
        scan_extended("[#$a]")
            .into_iter()
            .map(|item| item.name)
            .collect::<Vec<_>>(),
        vec!["a"]
    );
}

#[test]
fn a_last_index_names_the_array() {
    assert_eq!(names("$#items"), vec!["@items"]);
}

#[test]
fn a_method_call_is_not_interpolated() {
    assert_eq!(names("$obj->name"), vec!["$obj"]);
}

#[test]
fn a_punctuation_variable_is_not_a_lexical() {
    assert_eq!(names("$@ $! $1 $_"), vec!["$_"]);
}

#[test]
fn an_address_holds_no_array() {
    assert_eq!(names("foo@.com"), Vec::<String>::new());
    assert_eq!(names("100% @ once"), Vec::<String>::new());
}

#[test]
fn an_anchor_is_not_a_variable() {
    assert_eq!(names("^foo$"), Vec::<String>::new());
    assert_eq!(names("(foo$|bar)"), Vec::<String>::new());
}

#[test]
fn a_qualified_name_keeps_its_package() {
    assert_eq!(names("$Foo::bar"), vec!["$Foo::bar"]);
}

#[test]
fn a_single_colon_ends_the_name() {
    assert_eq!(names("$filename: not found"), vec!["$filename"]);
    assert_eq!(names("${file}: bad"), vec!["$file"]);
}

#[test]
fn the_offset_points_at_the_sigil() {
    let found = scan("hi $who there");
    assert_eq!(found[0].offset, 3);
    assert_eq!(found[0].len, 4);
}

#[test]
fn offsets_are_counted_in_bytes() {
    let found = scan("é $x");
    assert_eq!(found[0].offset, 3);
    assert_eq!(found[0].len, 2);
}

#[test]
fn a_braced_name_may_be_padded_with_any_whitespace() {
    assert_eq!(names("${\u{a0}who }"), vec!["$who"]);
    assert_eq!(names("@{ list\u{3000}}"), vec!["@list"]);
}

#[test]
fn an_unclosed_brace_begins_nothing() {
    assert_eq!(names("${who"), Vec::<String>::new());
    assert_eq!(names("$h{k"), vec!["%h"]);
}

#[test]
fn blanking_a_comment_keeps_the_length() {
    let pattern = "a # $b\n$c";
    let found = scan_extended(pattern);
    assert_eq!(found.len(), 1);
    assert_eq!(found[0].offset, 7);
}
