use vstd::prelude::*;

use crate::fmt::flat::{
    budget, joined, lemma_flat_continues_line, lemma_node_flat_nonempty, lemma_total_len_concat, lemma_total_len_one,
    lemma_wrote_fitting, node_flat, node_flat_ok, total_len,
};
use crate::fmt::output::{
    advanced, heredoc_measure, lemma_wrote_pieces_concat, ready, wrote_pieces, FormatContext, Output,
};
use crate::fmt::shape::Shape;
use crate::fmt::text::{CLASS_SINGLETON, END};
use crate::fmt::trivia::EmptyLineHandling;

use super::block::lemma_plain_ok_settings;
use super::ifs::{closing_end, lemma_end_written_after_indent};
use super::{BlockBody, Heredoc, Node};

verus! {

broadcast use crate::fmt::growth::group_output_growth;

/// `class << expression ... end`
#[derive(Debug)]
pub struct SingletonClass {
    pub expression: Box<Node>,
    pub body: BlockBody,
}

impl SingletonClass {
    pub open spec fn ok_in(&self, c: int, m: Map<usize, Heredoc>) -> bool
        decreases self,
    {
        self.expression.ok_in(c, m) && self.body.ok_in(c, m)
    }

    pub fn shape() -> (s: Shape)
        ensures
            s == Shape::Multilines,
    {
        Shape::Multilines
    }

    /// The first line: `class <<` and the expression.
    pub open spec fn head_pieces(&self) -> Seq<Seq<u8>> {
        seq![CLASS_SINGLETON@, seq![32u8]] + node_flat(*self.expression)
    }

    /// A singleton class laid out plainly at `o`: its expression can be written flat on
    /// the first line, with no comment after it; the line has room for the indentation;
    /// and the body is laid out plainly (see `BlockBody::plain_ok`).
    pub open spec fn plain_layout_ok(&self, o: Output) -> bool {
        &&& node_flat_ok(*self.expression)
        &&& self.expression.trailing_trivia.spec_comment() is None
        &&& total_len(self.head_pieces()) <= budget(o)
        &&& o.indent < o.config.line_width
        &&& self.body.plain_ok(o)
    }

    /// Writes `class <<`, the expression, the body one level deeper and `end`. A
    /// singleton class laid out plainly comes out as its first line, its statements one
    /// per line, and `end`.
    #[verifier::spinoff_prover]
    #[verifier::rlimit(30)]
    pub fn format(&self, o: &mut Output, ctx: &FormatContext, Ghost(c): Ghost<int>)
        requires
            ready(*old(o), *ctx, c),
            self.ok_in(c, ctx.heredoc_map@),
        ensures
            advanced(*old(o), *final(o), *ctx, c),
            self.plain_layout_ok(*old(o)) ==> final(o).buffer@ == old(o).buffer@ + old(o).indent_prefix()
                + (joined(self.head_pieces()) + self.body.plain_text(
                old(o).indent as nat,
                old(o).config.indent_size as nat,
            ) + closing_end(old(o).indent as nat)),
        decreases heredoc_measure(c), 2int, self, 1int,
    {
        let ghost o0 = *o;
        let ghost plain = self.plain_layout_ok(o0);
        self.format_head(o, ctx, Ghost(c));
        proof {
            if plain {
                assert(self.head_pieces()[0] == CLASS_SINGLETON@);
                lemma_wrote_fitting(o0, *o, self.head_pieces());
            }
        }
        let ghost ob = *o;
        proof {
            if plain {
                lemma_plain_ok_settings(self.body, o0, ob);
            }
        }
        self.body.format(o, ctx, true, Ghost(c));
        let ghost om = *o;
        o.break_line(ctx, Ghost(c));
        let ghost on = *o;
        o.put_indent_if_needed();
        let ghost o3 = *o;
        o.push_str(&END);
        proof {
            if plain {
                lemma_end_written_after_indent(om, on, o3, *o);
            }
        }
    }

    /// Writes `class <<` and the expression, which goes on the next lines where it
    /// neither fits nor can continue the line.
    #[verifier::spinoff_prover]
    pub fn format_head(&self, o: &mut Output, ctx: &FormatContext, Ghost(c): Ghost<int>)
        requires
            ready(*old(o), *ctx, c),
            self.ok_in(c, ctx.heredoc_map@),
        ensures
            advanced(*old(o), *final(o), *ctx, c),
            self.plain_layout_ok(*old(o)) ==> wrote_pieces(*old(o), *final(o), self.head_pieces()),
        decreases heredoc_measure(c), 2int, self, 0int,
    {
        let ghost o0 = *o;
        let ghost plain = self.plain_layout_ok(o0);
        let ghost kp = seq![CLASS_SINGLETON@, seq![32u8]];
        let ghost ep = node_flat(*self.expression);
        proof {
            if plain {
                assert(kp =~= seq![CLASS_SINGLETON@] + seq![seq![32u8]]);
                lemma_total_len_concat(seq![CLASS_SINGLETON@], seq![seq![32u8]]);
                lemma_total_len_concat(kp, ep);
                lemma_total_len_one(CLASS_SINGLETON@);
                lemma_total_len_one(seq![32u8]);
                lemma_node_flat_nonempty(*self.expression);
                lemma_flat_continues_line(*self.expression);
            }
        }
        o.push_str(&CLASS_SINGLETON);
        let ghost o1 = *o;
        proof {
            if plain {
                lemma_wrote_fitting(o0, o1, seq![CLASS_SINGLETON@]);
            }
        }
        if self.expression.shape.fits_in_one_line(o.remaining_width) || self.expression.can_continue_line() {
            o.push(32u8);
            let ghost o2 = *o;
            proof {
                if plain {
                    lemma_wrote_fitting(o1, o2, seq![seq![32u8]]);
                    lemma_wrote_pieces_concat(o0, o1, o2, seq![CLASS_SINGLETON@], seq![seq![32u8]]);
                }
            }
            self.expression.format(o, ctx, Ghost(c));
            self.expression.trailing_trivia.format(o);
            proof {
                if plain {
                    lemma_wrote_pieces_concat(o0, o2, *o, kp, ep);
                }
            }
        } else {
            o.indent();
            o.indent();
            o.break_line(ctx, Ghost(c));
            self.expression.leading_trivia.format(o, ctx, EmptyLineHandling::none(), Ghost(c));
            o.put_indent_if_needed();
            self.expression.format(o, ctx, Ghost(c));
            self.expression.trailing_trivia.format(o);
            o.dedent();
            o.dedent();
        }
    }
}

} // verus!
