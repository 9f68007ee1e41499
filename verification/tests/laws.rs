use rbfmt::error::AppError;
use rbfmt::fmt::node::{
    inspect_body_indent, HeredocIndentMode, HeredocPart, SquigglyHeredocEmptyLineInfo, SquigglyHeredocLineStartPartInfo,
    StringLike,
};
use rbfmt::fmt::output::{DraftResult, FormatConfig, Output};
use rbfmt::fmt::shape::{ArgumentStyle, Shape};
use rbfmt::meaning::{calc_squiggly_heredoc_indent, Meaning};
use rbfmt::parse::{error_message, ParseError, SyntaxError};

#[test]
fn shape_concat_adds_inline_lengths() {
    let a = Shape::inline(2);
    let b = Shape::inline(3);
    let c = Shape::LineEnd { len: 4 };
    assert_eq!(a.add(&b), Shape::inline(5));
    assert_eq!(a.add(&b).add(&c), a.add(&b.add(&c)));
    assert_eq!(a.add(&c), Shape::LineEnd { len: 6 });
    assert_eq!(c.add(&a), Shape::Multilines);
    assert_eq!(Shape::inline(0).add(&c), c);
    assert_eq!(a.add(&Shape::Multilines), Shape::Multilines);
    assert_eq!(Shape::Multilines.add(&a), Shape::Multilines);
}

#[test]
fn shape_insert_agrees_with_concat_but_for_line_ends() {
    let mut s = Shape::inline(2);
    s.insert(&Shape::inline(3));
    assert_eq!(s, Shape::inline(2).add(&Shape::inline(3)));
    let mut t = Shape::inline(2);
    t.insert(&Shape::LineEnd { len: 1 });
    assert_eq!(t, Shape::Multilines);
    let mut u = Shape::inline(0);
    u.insert(&Shape::LineEnd { len: 1 });
    assert_eq!(u, Shape::LineEnd { len: 1 });
}

#[test]
fn fitting_is_monotonic_in_the_width() {
    let s = Shape::inline(10);
    assert!(!s.fits_in_inline(9));
    assert!(s.fits_in_inline(10));
    assert!(s.fits_in_inline(11));
    assert!(Shape::LineEnd { len: 3 }.fits_in_one_line(3));
    assert!(!Shape::LineEnd { len: 3 }.fits_in_inline(3));
    assert_eq!(s.argument_style(), ArgumentStyle::Horizontal { min_first_line_len: 10 });
    assert_eq!(Shape::Multilines.argument_style(), ArgumentStyle::Vertical);
}

#[test]
fn rolled_back_draft_restores_the_output() {
    let mut o = Output::new(FormatConfig { line_width: 20, indent_size: 2 });
    o.push_str(b"abc");
    let before = o.buffer.clone();
    let width = o.remaining_width;
    let snapshot = o.snapshot();
    o.indent();
    o.push_str(b"defgh");
    o.push_str(b"ij");
    assert_eq!(o.draft(snapshot, DraftResult::Rollback), DraftResult::Rollback);
    assert_eq!(o.buffer, before);
    assert_eq!(o.remaining_width, width);
    assert_eq!(o.indent, 0);
}

#[test]
fn committed_draft_keeps_the_output() {
    let mut o = Output::new(FormatConfig { line_width: 20, indent_size: 2 });
    let snapshot = o.snapshot();
    o.push_str(b"abc");
    o.draft(snapshot, DraftResult::Commit);
    assert_eq!(o.buffer, b"abc".to_vec());
    assert_eq!(o.remaining_width, 17);
}

#[test]
fn pushes_indent_at_the_start_of_a_line_only() {
    let mut o = Output::new(FormatConfig { line_width: 20, indent_size: 2 });
    o.indent();
    o.push_str(b"a");
    o.push_str(b"b");
    assert_eq!(o.buffer, b"  ab".to_vec());
    assert_eq!(o.remaining_width, 16);
}

#[test]
fn dedent_undoes_indent() {
    let mut o = Output::new(FormatConfig { line_width: 20, indent_size: 2 });
    o.indent();
    o.indent();
    assert_eq!(o.indent, 4);
    o.dedent();
    o.dedent();
    assert_eq!(o.indent, 0);
    o.dedent();
    assert_eq!(o.indent, 0);
}

#[test]
fn heredoc_openings_read_back() {
    for mode in [HeredocIndentMode::NoIndent, HeredocIndentMode::EndIndented, HeredocIndentMode::AllIndented] {
        let mut opening = mode.prefix_symbols().to_vec();
        opening.extend_from_slice(b"EOS");
        let (read_mode, id) = HeredocIndentMode::parse_mode_and_id(&opening);
        assert_eq!(read_mode, mode);
        assert_eq!(id, b"EOS");
    }
    assert_eq!(HeredocIndentMode::AllIndented.prefix_symbols(), b"<<~");
}

fn text_part(s: &str) -> HeredocPart {
    HeredocPart::Str(StringLike::new(None, s.as_bytes().to_vec(), None))
}

#[test]
fn squiggly_body_indent_is_the_smallest_one() {
    let parts = vec![text_part("    a\n"), text_part("  b\n"), text_part("   \n"), text_part("      c\n")];
    let info = inspect_body_indent(&parts).unwrap();
    assert_eq!(info.min_spaces, 2);
    assert_eq!(info.line_starts.len(), 4);
    assert_eq!(info.line_starts[0], Some(SquigglyHeredocLineStartPartInfo { empty_line: None }));
    assert_eq!(
        info.line_starts[2],
        Some(SquigglyHeredocLineStartPartInfo { empty_line: Some(SquigglyHeredocEmptyLineInfo { prefix_spaces: 3 }) })
    );
    assert!(inspect_body_indent(&vec![]).is_none());
    assert!(inspect_body_indent(&vec![text_part("  \tx\n")]).is_none());
}

#[test]
fn parse_error_reports_agree() {
    let messages = vec!["[0,3] unexpected end-of-input".to_string()];
    let a = ParseError { messages: messages.clone() }.to_message();
    let b = AppError::ParseFailed(messages).to_message();
    assert_eq!(a, b);
    assert_eq!(a, "parse error:\n[0,3] unexpected end-of-input\n");
}

#[test]
fn invalid_utf8_in_a_message_is_replaced() {
    let e = SyntaxError { start: 1, end: 2, message: vec![b'x', 0xff] };
    assert_eq!(error_message(&e), "[1,2] x\u{FFFD}");
}

#[test]
fn nesting_restores_the_indentation() {
    let mut m = Meaning::new();
    m.start_node("A");
    m.start_field("f");
    assert_eq!(m.indent, 4);
    m.end_field();
    m.end_node();
    assert_eq!(m.indent, 0);
}

#[test]
fn scope_operator_and_index_calls_read_alike() {
    let mut a = Meaning::new();
    a.call_operator_loc_field(Some(b"::".to_vec()));
    a.message_loc_field(Some(b"[a, b]".to_vec()));
    let mut b = Meaning::new();
    b.call_operator_loc_field(Some(b".".to_vec()));
    b.message_loc_field(Some(b"[]".to_vec()));
    assert_eq!(a.buffer, b.buffer);
}

#[test]
fn meaning_text_is_trimmed() {
    let mut m = Meaning::new();
    m.none_value();
    assert_eq!(m.buffer, "\n(none)");
    assert_eq!(m.into_text(), "(none)");
}

#[test]
fn both_squiggly_scans_remove_the_same_indentation() {
    let lines = ["    a\n", "  b\n", "   \n", "      c\n"];
    let parts: Vec<HeredocPart> = lines.iter().map(|l| text_part(l)).collect();
    let texts: Vec<Option<Vec<u8>>> = lines.iter().map(|l| Some(l.as_bytes().to_vec())).collect();
    let info = inspect_body_indent(&parts).unwrap();
    let (indent, _) = calc_squiggly_heredoc_indent(&texts).unwrap();
    assert_eq!(info.min_spaces, indent);
    let tabbed = vec![text_part("\tx\n")];
    assert!(inspect_body_indent(&tabbed).is_none());
    assert!(calc_squiggly_heredoc_indent(&vec![Some(b"\tx\n".to_vec())]).is_none());
}
