pub mod flat;
pub mod growth;
pub mod node;
pub mod output;
pub mod shape;
pub mod text;
pub mod trivia;

use vstd::prelude::*;

use self::node::Node;
use self::flat::{
    budget, joined, lemma_node_flat_nonempty, lemma_wrote_fitting, lines_ok, lines_text, lines_written, node_flat,
    node_flat_ok,
    total_len,
};
use self::node::Kind;
use self::output::{spaces, FormatConfig, FormatContext, HeredocMap, Output};

verus! {

/// Indentation added by each level of nesting.
pub const INDENT_SIZE: usize = 2;

/// Lays out `node` in lines of `line_width` bytes, writing the heredoc bodies that
/// `heredoc_map` holds after the lines that open them. The text ends with a line
/// break unless it is empty. A node made of the parts that `node_flat` describes
/// whose flat text fits in the line is written as that text and a line break; an
/// empty program gives empty text.
pub fn format(node: Node, heredoc_map: HeredocMap, line_width: usize) -> (text: Vec<u8>)
    requires
        (FormatContext { heredoc_map }).wf(),
        node.ok_in(0, heredoc_map@),
    ensures
        text@.len() > 0 ==> text@.last() == 10u8,
        node_flat_ok(node) && total_len(node_flat(node)) <= line_width ==> text@ == if joined(
            node_flat(node),
        ).len() > 0 {
            joined(node_flat(node)).push(10u8)
        } else {
            Seq::<u8>::empty()
        },
        node.kind matches Kind::Statements(s) ==> (!(s.shape is Inline) && lines_ok(s, line_width as int)
            ==> text@ == if lines_text(s.nodes@, s.nodes@.len() as int, seq![10u8]).len() > 0 {
            lines_text(s.nodes@, s.nodes@.len() as int, seq![10u8]).push(10u8)
        } else {
            Seq::<u8>::empty()
        }),
        node.kind matches Kind::Statements(s) && s.nodes@.len() == 0 && s.virtual_end is None ==> text@.len()
            == 0,
{
    let config = FormatConfig { line_width, indent_size: INDENT_SIZE };
    let ctx = FormatContext { heredoc_map };
    let mut output = Output::new(config);
    let ghost o0 = output;
    let ghost flat = node_flat_ok(node) && total_len(node_flat(node)) <= line_width;
    proof {
        assert(spaces(0) =~= Seq::<u8>::empty());
        assert(budget(o0) == line_width);
    }
    node.format(&mut output, &ctx, Ghost(0));
    proof {
        reveal(lines_written);
        if let Kind::Statements(s) = node.kind {
            if !(s.shape is Inline) && lines_ok(s, line_width as int) {
                assert(s.nodes@[0] == s.nodes@[0]);
                assert(seq![10u8] + spaces(0) =~= seq![10u8]);
                assert(output.buffer@ =~= lines_text(s.nodes@, s.nodes@.len() as int, seq![10u8]));
            }
        }
        if flat {
            lemma_node_flat_nonempty(node);
            lemma_wrote_fitting(o0, output, node_flat(node));
            assert(output.buffer@ =~= joined(node_flat(node)));
        }
    }
    if output.buffer.len() > 0 {
        output.break_line(&ctx, Ghost(0));
    }
    output.buffer
}

} // verus!
