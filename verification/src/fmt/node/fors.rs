use vstd::prelude::*;

use crate::fmt::flat::{
    budget, joined, lemma_flat_continues_line, lemma_node_flat_nonempty, lemma_total_len_one, lemma_wrote_fitting,
    node_flat, node_flat_ok, total_len,
};
use crate::fmt::output::{advanced, heredoc_measure, ready, FormatContext, Output};
use crate::fmt::shape::Shape;
use crate::fmt::text::{END, FOR, SPACE_IN};
use crate::fmt::trivia::EmptyLineHandling;

use super::ifs::{closing_end, lemma_end_written};
use super::statements::{block_lines, block_ok};
use super::{Heredoc, Node, Statements};

verus! {

broadcast use crate::fmt::growth::group_output_growth;

/// `for index in collection ... end`
#[derive(Debug)]
pub struct For {
    pub index: Box<Node>,
    pub collection: Box<Node>,
    pub body: Statements,
}

impl For {
    pub open spec fn ok_in(&self, c: int, m: Map<usize, Heredoc>) -> bool
        decreases self,
    {
        self.index.ok_in(c, m) && self.collection.ok_in(c, m) && self.body.ok_in(c, m)
    }

    pub fn shape() -> (s: Shape)
        ensures
            s == Shape::Multilines,
    {
        Shape::Multilines
    }

    /// A loop laid out plainly at `o`: the index and the collection can be written flat
    /// after the keywords, with no comment after the collection, and the statements, if
    /// it shows any, can each be written flat on a line of their own one level deeper.
    pub open spec fn plain_layout_ok(&self, o: Output) -> bool {
        &&& block_ok(self.body, o)
        &&& node_flat_ok(*self.index)
        &&& node_flat_ok(*self.collection)
        &&& self.collection.trailing_trivia.spec_comment() is None
        &&& FOR@.len() + 1 + total_len(node_flat(*self.index)) + SPACE_IN@.len() + 1 + total_len(
            node_flat(*self.collection),
        ) <= budget(o)
    }

    /// The text of such a loop at indentation `indent`: `for`, the index, `in`, the
    /// collection, the statements one level deeper, and `end`.
    pub open spec fn plain_text(&self, indent: nat, indent_size: nat) -> Seq<u8> {
        FOR@ + seq![32u8] + joined(node_flat(*self.index)) + SPACE_IN@ + seq![32u8] + joined(
            node_flat(*self.collection),
        ) + block_lines(self.body, indent + indent_size) + closing_end(indent)
    }

    /// The first line of such a loop: `for`, the index, `in` and the collection.
    pub open spec fn head_text(&self) -> Seq<u8> {
        FOR@ + seq![32u8] + joined(node_flat(*self.index)) + SPACE_IN@ + seq![32u8] + joined(
            node_flat(*self.collection),
        )
    }

    /// Writes `for`, the index, `in`, the collection, the statements one level deeper
    /// and `end`. A loop laid out plainly comes out as `plain_text`.
    pub fn format(&self, o: &mut Output, ctx: &FormatContext, Ghost(c): Ghost<int>)
        requires
            ready(*old(o), *ctx, c),
            self.ok_in(c, ctx.heredoc_map@),
        ensures
            advanced(*old(o), *final(o), *ctx, c),
            self.plain_layout_ok(*old(o)) ==> final(o).buffer@ == old(o).buffer@ + old(o).indent_prefix()
                + self.plain_text(old(o).indent as nat, old(o).config.indent_size as nat),
        decreases heredoc_measure(c), 2int, self, 2int,
    {
        let ghost o0 = *o;
        self.format_head(o, ctx, Ghost(c));
        self.body.format_block(o, ctx, Ghost(c));
        let ghost om = *o;
        o.break_line(ctx, Ghost(c));
        let ghost on = *o;
        o.push_str(&END);
        proof {
            if self.plain_layout_ok(o0) {
                lemma_end_written(om, on, *o);
                assert(o.buffer@ =~= o0.buffer@ + o0.indent_prefix() + self.plain_text(
                    o0.indent as nat,
                    o0.config.indent_size as nat,
                ));
            }
        }
    }

    /// Writes `for`, the index, `in` and the collection; the index and the collection
    /// go on the next line where they neither fit nor can continue the line.
    pub fn format_head(&self, o: &mut Output, ctx: &FormatContext, Ghost(c): Ghost<int>)
        requires
            ready(*old(o), *ctx, c),
            self.ok_in(c, ctx.heredoc_map@),
        ensures
            advanced(*old(o), *final(o), *ctx, c),
            self.plain_layout_ok(*old(o)) ==> {
                &&& final(o).buffer@ == old(o).buffer@ + old(o).indent_prefix() + self.head_text()
                &&& final(o).indent == old(o).indent
                &&& final(o).heredoc_queue@ == old(o).heredoc_queue@
                &&& final(o).config == old(o).config
            },
        decreases heredoc_measure(c), 2int, self, 1int,
    {
        let ghost o0 = *o;
        let ghost plain = self.plain_layout_ok(o0);
        let ghost ip = node_flat(*self.index);
        let ghost cp = node_flat(*self.collection);
        proof {
            if plain {
                lemma_flat_continues_line(*self.index);
                lemma_flat_continues_line(*self.collection);
                lemma_node_flat_nonempty(*self.index);
                lemma_node_flat_nonempty(*self.collection);
                lemma_total_len_one(FOR@);
                lemma_total_len_one(SPACE_IN@);
                lemma_total_len_one(seq![32u8]);
            }
        }
        o.push_str(&FOR);
        let ghost o1 = *o;
        proof {
            if plain {
                lemma_wrote_fitting(o0, o1, seq![FOR@]);
            }
        }
        if self.index.shape.fits_in_inline(o.remaining_width) || self.index.can_continue_line() {
            o.push(32u8);
            let ghost o2 = *o;
            proof {
                if plain {
                    lemma_wrote_fitting(o1, o2, seq![seq![32u8]]);
                }
            }
            self.index.format(o, ctx, Ghost(c));
            proof {
                if plain {
                    lemma_wrote_fitting(o2, *o, ip);
                }
            }
        } else {
            o.indent();
            o.break_line(ctx, Ghost(c));
            self.index.leading_trivia.format(o, ctx, EmptyLineHandling::trim(), Ghost(c));
            self.index.format(o, ctx, Ghost(c));
            o.dedent();
        }
        let ghost o3 = *o;
        o.push_str(&SPACE_IN);
        let ghost o4 = *o;
        proof {
            if plain {
                lemma_wrote_fitting(o3, o4, seq![SPACE_IN@]);
            }
        }
        let collection = &self.collection;
        if collection.shape.fits_in_inline(o.remaining_width) || collection.can_continue_line() {
            o.push(32u8);
            let ghost o5 = *o;
            proof {
                if plain {
                    lemma_wrote_fitting(o4, o5, seq![seq![32u8]]);
                }
            }
            collection.format(o, ctx, Ghost(c));
            proof {
                if plain {
                    lemma_wrote_fitting(o5, *o, cp);
                }
            }
            collection.trailing_trivia.format(o);
        } else {
            o.indent();
            o.break_line(ctx, Ghost(c));
            collection.leading_trivia.format(o, ctx, EmptyLineHandling::trim(), Ghost(c));
            collection.format(o, ctx, Ghost(c));
            collection.trailing_trivia.format(o);
            o.dedent();
        }
        let ghost o6 = *o;
        proof {
            if plain {
                assert(o6.buffer@ =~= o0.buffer@ + o0.indent_prefix() + self.head_text());
            }
        }
    }
}

} // verus!
