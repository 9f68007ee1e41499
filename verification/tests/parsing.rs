use rbfmt::convert::{format_source, PrismKind, PrismNode};
use rbfmt::fmt::node::prefix_spaces_of_empty_line;
use rbfmt::meaning::{calc_squiggly_heredoc_indent, is_squiggly_heredoc, Meaning};
use rbfmt::parse::{check_syntax, error_message, push_decimal, trailing_ends, ParseError, ParseState, SyntaxError};

#[test]
fn valid_code_has_no_syntax_error() {
    assert!(check_syntax(b"foo.bar(1, 2)\n").is_ok());
}

#[test]
fn syntax_errors_are_reported_with_offsets() {
    let err = check_syntax(b"foo(").unwrap_err();
    assert!(!err.messages.is_empty());
    for message in &err.messages {
        assert!(message.starts_with('['));
    }
    assert!(err.to_message().starts_with("parse error:\n["));
}

#[test]
fn error_lines_show_offsets_and_message() {
    let e = SyntaxError { start: 12, end: 305, message: b"unexpected end".to_vec() };
    assert_eq!(error_message(&e), "[12,305] unexpected end");
    let pe = ParseError::from_syntax_errors(&vec![e]);
    assert_eq!(pe.to_message(), "parse error:\n[12,305] unexpected end\n");
}

#[test]
fn decimal_numbers() {
    let mut s = String::new();
    push_decimal(&mut s, 0);
    s.push(' ');
    push_decimal(&mut s, 1907);
    assert_eq!(s, "0 1907");
}

#[test]
fn positions_count_up_from_one() {
    let mut state = ParseState::new(b"a\nb".to_vec());
    assert_eq!(state.next_pos().0, 1);
    assert_eq!(state.next_pos().0, 2);
}

#[test]
fn line_breaks_between_offsets() {
    let state = ParseState::new(b"ab\ncd".to_vec());
    assert!(state.does_line_break_exist_in(0, 5));
    assert!(state.does_line_break_exist_in(2, 100));
    assert!(!state.does_line_break_exist_in(3, 5));
    assert!(!state.does_line_break_exist_in(0, 2));
    assert!(!state.does_line_break_exist_in(4, 1));
}

#[test]
fn trailing_ends_are_next_starts() {
    assert_eq!(trailing_ends(&vec![0, 5, 9], Some(20)), vec![Some(5), Some(9), Some(20)]);
    assert_eq!(trailing_ends(&vec![3], None), vec![None]);
    assert_eq!(trailing_ends(&vec![], Some(1)), vec![]);
}

#[test]
fn squiggly_indent_of_heredoc_parts() {
    let parts = vec![Some(b"    a\n".to_vec()), Some(b"  b\n".to_vec()), Some(b"\n".to_vec())];
    let (indent, starts) = calc_squiggly_heredoc_indent(&parts).unwrap();
    assert_eq!(indent, 2);
    assert!(starts.contains(&0) && starts.contains(&1) && starts.contains(&2));
    assert!(calc_squiggly_heredoc_indent(&vec![]).is_none());
    assert!(calc_squiggly_heredoc_indent(&vec![Some(b"  \tx\n".to_vec())]).is_none());
    let (indent, starts) = calc_squiggly_heredoc_indent(&vec![None, Some(b"x\n".to_vec())]).unwrap();
    assert_eq!(indent, 0);
    assert!(starts.is_empty());
}

#[test]
fn squiggly_opening() {
    assert!(is_squiggly_heredoc(&Some(b"<<~EOS".to_vec())));
    assert!(!is_squiggly_heredoc(&Some(b"<<-EOS".to_vec())));
    assert!(!is_squiggly_heredoc(&None));
}

#[test]
fn meaning_of_nodes_and_fields() {
    let mut m = Meaning::new();
    m.start_node("CallNode");
    m.call_operator_loc_field(Some(b"::".to_vec()));
    m.message_loc_field(Some(b"[ 1 ]".to_vec()));
    m.opt_loc_field("opening_loc", None);
    m.start_index_field(0);
    m.atom_node("IntegerNode", b"1".to_vec());
    m.end_field();
    m.end_node();
    assert_eq!(
        m.into_text(),
        "[CallNode]\n  call_operator_loc:\n    .\n  message_loc:\n    []\n  opening_loc:\n    (none)\n  0:\n    [IntegerNode] 1"
    );
}

#[test]
fn meaning_of_a_call_without_message() {
    let mut m = Meaning::new();
    m.message_loc_field(None);
    assert_eq!(m.into_text(), "message_loc:\n  call");
}

#[test]
fn meaning_of_strings() {
    let mut m = Meaning::new();
    m.string_or_heredoc(Some(b"<<~EOS".to_vec()), b"   text\n".to_vec());
    assert_eq!(m.buffer, "\n---\ntext\n\n---");
    let mut m = Meaning::new();
    m.u8_bytes(vec![0xff]);
    assert!(m.buffer.starts_with("(non-utf8) "));
}

#[test]
fn spaces_of_blank_lines() {
    assert_eq!(prefix_spaces_of_empty_line(&b"  \n".to_vec()), Some(2));
    assert_eq!(prefix_spaces_of_empty_line(&b"\n".to_vec()), Some(0));
    assert_eq!(prefix_spaces_of_empty_line(&b"  a\n".to_vec()), None);
    assert_eq!(prefix_spaces_of_empty_line(&b"  ".to_vec()), None);
    assert_eq!(prefix_spaces_of_empty_line(&b"".to_vec()), None);
}

fn leaf(kind: PrismKind, start: usize, end: usize) -> PrismNode {
    PrismNode { kind, start, end, children: vec![] }
}

fn program(start: usize, end: usize, statements: Vec<PrismNode>) -> PrismNode {
    let body = PrismNode { kind: PrismKind::Statements, start, end, children: statements };
    PrismNode { kind: PrismKind::Program, start, end, children: vec![body] }
}

#[test]
fn converted_statements_keep_their_comments() {
    let source = b"a\n\n# c\nb # d\n".to_vec();
    let tree = program(0, 8, vec![leaf(PrismKind::Atom, 0, 1), leaf(PrismKind::Atom, 7, 8)]);
    let code = format_source(source, &tree, vec![(3, 6), (9, 12)], 100).unwrap();
    assert_eq!(String::from_utf8(code).unwrap(), "a\n\n# c\nb # d\n");
}

#[test]
fn converted_statements_lose_extra_empty_lines() {
    let source = b"a\n\n\n\nb".to_vec();
    let tree = program(0, 6, vec![leaf(PrismKind::Atom, 0, 1), leaf(PrismKind::Other, 5, 6)]);
    let code = format_source(source, &tree, vec![], 100).unwrap();
    assert_eq!(String::from_utf8(code).unwrap(), "a\n\nb\n");
}

#[test]
fn formatting_refuses_syntax_errors() {
    let source = b"foo(".to_vec();
    let tree = program(0, 4, vec![leaf(PrismKind::Other, 0, 4)]);
    let err = format_source(source, &tree, vec![], 100).unwrap_err();
    assert!(!err.messages.is_empty());
}

#[test]
fn an_empty_program_formats_to_nothing() {
    let code = format_source(vec![], &program(0, 0, vec![]), vec![], 100).unwrap();
    assert!(code.is_empty());
}

#[test]
fn code_that_the_layout_would_lose_is_left_as_it_is() {
    let source = b"foo(<<~EOS)\n  x\nEOS\n".to_vec();
    let tree = program(0, 11, vec![leaf(PrismKind::Other, 0, 11)]);
    let code = format_source(source.clone(), &tree, vec![], 100).unwrap();
    assert_eq!(code, source);
}

#[test]
fn comments_inside_a_node_kept_as_written_are_not_repeated() {
    let source = b"foo(1, # one\n  2)\nbar\n".to_vec();
    let tree = program(0, 21, vec![leaf(PrismKind::Other, 0, 17), leaf(PrismKind::Atom, 18, 21)]);
    let code = format_source(source, &tree, vec![(7, 12)], 100).unwrap();
    assert_eq!(String::from_utf8(code).unwrap(), "foo(1, # one\n  2)\nbar\n");
}

#[test]
fn calls_and_operators_are_laid_out() {
    // foo  . bar(1  ,2+3,  4 )
    let source = b"foo  . bar(1  ,2+3,  4 )".to_vec();
    let sum = PrismNode {
        kind: PrismKind::Infix { operator: (16, 17) },
        start: 15,
        end: 18,
        children: vec![leaf(PrismKind::Atom, 15, 16), leaf(PrismKind::Atom, 17, 18)],
    };
    let call = PrismNode {
        kind: PrismKind::Call { operator: Some((5, 6)), message: (7, 10), opening: Some((10, 11)), closing: Some((23, 24)) },
        start: 0,
        end: 24,
        children: vec![leaf(PrismKind::Atom, 0, 3), leaf(PrismKind::Atom, 11, 12), sum, leaf(PrismKind::Atom, 21, 22)],
    };
    let tree = program(0, 24, vec![call]);
    let code = format_source(source, &tree, vec![], 100).unwrap();
    assert_eq!(String::from_utf8(code).unwrap(), "foo.bar(1, 2 + 3, 4)\n");
}

#[test]
fn arrays_get_a_space_after_each_comma() {
    let source = b"[1,2]".to_vec();
    let array = PrismNode {
        kind: PrismKind::Array { opening: Some((0, 1)), closing: Some((4, 5)) },
        start: 0,
        end: 5,
        children: vec![leaf(PrismKind::Atom, 1, 2), leaf(PrismKind::Atom, 3, 4)],
    };
    let code = format_source(source, &program(0, 5, vec![array]), vec![], 100).unwrap();
    assert_eq!(String::from_utf8(code).unwrap(), "[1, 2]\n");
}

#[test]
fn a_word_operator_is_kept_between_spaces() {
    let source = b"a  and  b".to_vec();
    let and = PrismNode {
        kind: PrismKind::Infix { operator: (3, 6) },
        start: 0,
        end: 9,
        children: vec![leaf(PrismKind::Atom, 0, 1), leaf(PrismKind::Atom, 8, 9)],
    };
    let code = format_source(source, &program(0, 9, vec![and]), vec![], 100).unwrap();
    assert_eq!(String::from_utf8(code).unwrap(), "a and b\n");
}

#[test]
fn assignments_get_spaces_around_the_operator() {
    let source = b"a=1".to_vec();
    let assign = PrismNode {
        kind: PrismKind::Assign { name: (0, 1), operator: (1, 2) },
        start: 0,
        end: 3,
        children: vec![leaf(PrismKind::Atom, 2, 3)],
    };
    let code = format_source(source, &program(0, 3, vec![assign]), vec![], 100).unwrap();
    assert_eq!(String::from_utf8(code).unwrap(), "a = 1\n");
}
