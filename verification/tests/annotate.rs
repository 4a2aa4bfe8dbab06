use camello::annotate::{ListShape, Returns, Sink};
use camello::ast::SubDef;
use camello::diag::Code;
use camello::span::TextRange;
use camello::syntax::{NodeKind, SyntaxNode, SyntaxToken, TokenKind};
use camello::types::Type;
use camello::written::read_returns;

/// A `sub` node with the given comment lines directly above it, each on a
/// line of its own, starting the file.
fn sub_below(lines: &[&str]) -> SyntaxNode {
    let mut before = Vec::new();
    let mut offset: u32 = 0;
    for line in lines {
        let end = offset + line.len() as u32;
        before.push(SyntaxToken {
            kind: TokenKind::Comment,
            text: line.to_string(),
            range: TextRange::new(offset, end),
        });
        before.push(SyntaxToken {
            kind: TokenKind::Newline,
            text: "\n".to_string(),
            range: TextRange::new(end, end + 1),
        });
        offset = end + 1;
    }
    SyntaxNode {
        kind: NodeKind::SubDef,
        range: TextRange::new(offset, offset + 10),
        children: Vec::new(),
        before,
        at_start: true,
    }
}

fn returns_of(lines: &[&str]) -> Returns {
    let node = sub_below(lines);
    let mut sink = Sink::new();
    read_returns(&SubDef(&node), &mut sink).unwrap_or_default()
}

#[test]
fn returns_annotates_scalar_context() {
    let returns = returns_of(&["# Returns: ArrayRef[MyItem]"]);
    assert_eq!(
        returns.scalar,
        Type::ArrayRef(Box::new(Type::InstanceOf("MyItem".into())))
    );
    assert_eq!(returns.list, ListShape::Unknown);
}

#[test]
fn returns_annotates_both_contexts_in_two_lines() {
    let returns = returns_of(&["# Returns: Maybe[Str]", "# Returns: (Str, Int)"]);
    assert!(returns.scalar.is_maybe());
    assert_eq!(returns.list, ListShape::Fixed(vec![Type::Str, Type::Int]));

    let swapped = returns_of(&["# Returns: (Str, Int)", "# Returns: Maybe[Str]"]);
    assert!(swapped.scalar.is_maybe());
    assert_eq!(swapped.list, ListShape::Fixed(vec![Type::Str, Type::Int]));
}

#[test]
fn a_repeated_slot_is_a_list_of_any_length() {
    let returns = returns_of(&["# Returns: (Str ...)"]);
    assert_eq!(returns.list, ListShape::Of(Type::Str));
    assert!(returns.scalar.is_unknown(), "and says nothing about scalar");
}

#[test]
fn one_slot_is_a_list_of_one_and_not_a_grouping() {
    let returns = returns_of(&["# Returns: (Str)"]);
    assert_eq!(returns.list, ListShape::Fixed(vec![Type::Str]));
    assert!(returns.scalar.is_unknown());
}

#[test]
fn a_parenthesis_inside_a_slot_still_groups() {
    let returns = returns_of(&["# Returns: (Str | Undef, Int)"]);
    let ListShape::Fixed(slots) = returns.list else {
        panic!("two slots wanted");
    };
    assert_eq!(slots.len(), 2, "{slots:?}");
    assert!(slots[0].is_maybe());
}

#[test]
fn shapes_join_slot_wise_and_widen_when_the_length_does_not_agree() {
    let pair = || ListShape::Fixed(vec![Type::Str, Type::Int]);
    assert_eq!(pair().join(pair()), pair());
    assert_eq!(
        pair().join(ListShape::Fixed(vec![Type::Str])),
        ListShape::Of(Type::union(vec![Type::Str, Type::Int])),
    );
    assert_eq!(
        ListShape::Fixed(vec![Type::Str]).join(ListShape::Fixed(Vec::new())),
        ListShape::Of(Type::Str),
    );
    assert_eq!(pair().join(ListShape::Unknown), ListShape::Unknown);
}

#[test]
fn returns_nothing_is_written_with_empty_parentheses() {
    let returns = returns_of(&["# Returns: ()"]);
    assert_eq!(returns.list, ListShape::Nothing);
}

#[test]
fn a_returns_that_does_not_parse_is_reported() {
    let node = sub_below(&["# Returns: ArrayRef[Str"]);
    let mut sink = Sink::new();
    let _ = read_returns(&SubDef(&node), &mut sink);
    assert_eq!(sink.diagnostics.len(), 1, "{:?}", sink.diagnostics);
    assert_eq!(sink.diagnostics[0].code, Code::BadAnnotation);
}

#[test]
fn a_comment_that_is_not_an_annotation_is_left_alone() {
    let node = sub_below(&["# just a note"]);
    let mut sink = Sink::new();
    assert!(read_returns(&SubDef(&node), &mut sink).is_none());
    assert!(sink.diagnostics.is_empty());
    assert!(sink.annotations.is_empty());
}

#[test]
fn blank_lines_between_the_block_and_the_sub_are_a_gap() {
    let mut node = sub_below(&["# Returns: Int"]);
    let end = node.before.last().unwrap().range.end;
    node.before.push(SyntaxToken {
        kind: TokenKind::Newline,
        text: "\n".to_string(),
        range: TextRange::new(end, end + 1),
    });
    let mut sink = Sink::new();
    let returns = read_returns(&SubDef(&node), &mut sink).unwrap();
    assert_eq!(returns.scalar, Type::Int);
}

#[test]
fn a_blank_line_inside_the_block_ends_it() {
    let mut node = sub_below(&["# Returns: Int"]);
    node.before.insert(0, SyntaxToken {
        kind: TokenKind::Newline,
        text: "\n".to_string(),
        range: TextRange::new(0, 1),
    });
    node.before.insert(0, SyntaxToken {
        kind: TokenKind::Comment,
        text: "# Returns: Str".to_string(),
        range: TextRange::new(0, 14),
    });
    node.before.insert(1, SyntaxToken {
        kind: TokenKind::Newline,
        text: "\n".to_string(),
        range: TextRange::new(14, 15),
    });
    let mut sink = Sink::new();
    let returns = read_returns(&SubDef(&node), &mut sink).unwrap();
    assert_eq!(returns.scalar, Type::Int);
    assert_eq!(sink.annotations.len(), 1);
}

#[test]
fn an_annotation_is_recorded_where_it_was_read() {
    let node = sub_below(&["# Returns: Str"]);
    let mut sink = Sink::new();
    let returns = read_returns(&SubDef(&node), &mut sink).unwrap();
    assert_eq!(returns.scalar, Type::Str);
    assert!(!returns.inferred);
    assert_eq!(sink.annotations.len(), 1);
}
