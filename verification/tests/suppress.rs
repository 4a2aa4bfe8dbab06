use camello::diag::{Code, Diagnostic, LineIndex};
use camello::span::TextRange;
use camello::suppress::{marker_codes, Suppressions};
use camello::syntax::{NodeKind, SyntaxElement, SyntaxNode, SyntaxToken, TokenKind};

/// A file whose comments are the tokens the suppression reads, each where the
/// source has it.
fn file(source: &str) -> SyntaxNode {
    let mut children = Vec::new();
    let mut offset = 0;
    for line in source.split_inclusive('\n') {
        if let Some(at) = line.find('#') {
            let text = line[at..].trim_end_matches('\n');
            let start = (offset + at) as u32;
            children.push(SyntaxElement::Token(SyntaxToken {
                kind: TokenKind::Comment,
                text: text.to_string(),
                range: TextRange::new(start, start + text.len() as u32),
            }));
        }
        offset += line.len();
    }
    SyntaxNode { kind: NodeKind::Root, range: TextRange::new(0, source.len() as u32), children, before: Vec::new(), at_start: true }
}

/// Whether a diagnostic of `code` starting at byte `at` is silenced.
fn silenced(source: &str, code: Code, at: u32) -> bool {
    let root = file(source);
    let quiet = Suppressions::of(&root, source);
    let diagnostic = Diagnostic::new(code, TextRange::new(at, at + 1), String::from("x"));
    quiet.silences(&diagnostic, source, &LineIndex::new(source))
}

#[test]
fn a_trailing_marker_silences_its_own_line() {
    let source = "use strict;\nmy $unread = 1;  ## camello-disable: unused-variable\n";
    assert!(silenced(source, Code::UnusedVariable, 15));
    assert!(!silenced(source, Code::UnusedVariable, 0));
}

#[test]
fn an_own_line_marker_silences_the_line_below() {
    let source = "use strict;\n## camello-disable: unused-variable\nmy $unread = 1;\n";
    let third_line = source.find("my").unwrap() as u32;
    assert!(silenced(source, Code::UnusedVariable, third_line + 3));
    assert!(!silenced(source, Code::UnusedVariable, 12));
}

#[test]
fn a_marker_names_the_code_it_means() {
    let source = "use strict;\nmy $unread = 1;  ## camello-disable: arity\n";
    assert!(!silenced(source, Code::UnusedVariable, 15));
    assert!(silenced(source, Code::Arity, 15));
}

#[test]
fn a_marker_with_no_code_silences_the_line() {
    let source = "use strict;\nmy $unread = 1;  ## camello-disable:\n";
    assert!(silenced(source, Code::UnusedVariable, 15));
    assert!(silenced(source, Code::TypeMismatch, 15));
}

#[test]
fn a_marker_naming_no_code_silences_the_line() {
    let source = "my $unread = 1;  ## camello-disable: no-such-code\n";
    assert!(silenced(source, Code::Arity, 3));
}

#[test]
fn several_codes_are_one_marker() {
    let source = "use strict;\nmy $x = 1;\nif (1) { my $x = 2; print $x }  ## camello-disable: shadowed-variable, unused-variable\nprint $x;\n";
    let third_line = source.find("if").unwrap() as u32;
    assert!(silenced(source, Code::ShadowedVariable, third_line + 12));
    assert!(silenced(source, Code::UnusedVariable, third_line + 12));
    assert!(!silenced(source, Code::Arity, third_line + 12));
}

#[test]
fn no_critic_is_a_different_comment() {
    let source = "use strict;\nmy $unread = 1;  ## no critic\n";
    assert!(!silenced(source, Code::UnusedVariable, 15));
    assert!(Suppressions::of(&file(source), source).is_empty());
}

#[test]
fn two_markers_on_one_line_are_merged() {
    let source = "## camello-disable: arity\nfoo(1);  ## camello-disable: type-mismatch\n";
    let second_line = source.find("foo").unwrap() as u32;
    assert!(silenced(source, Code::Arity, second_line));
    assert!(silenced(source, Code::TypeMismatch, second_line));
    assert!(!silenced(source, Code::UnknownKey, second_line));
    assert!(!Suppressions::of(&file(source), source).is_empty());
}

#[test]
fn a_marker_is_read_from_its_text() {
    assert!(marker_codes("# a comment").is_none());
    assert_eq!(marker_codes("## camello-disable:  arity , unknown-key"), Some(Some(vec![Code::Arity, Code::UnknownKey])));
    assert_eq!(marker_codes("## camello-disable: , "), Some(None));
    assert_eq!(marker_codes("## camello-disable: arity, nonsense"), Some(None));
}
