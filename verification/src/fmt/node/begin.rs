use vstd::prelude::*;

use crate::fmt::flat::{budget, lemma_total_len_one, lemma_wrote_fitting};
use crate::fmt::output::{advanced, heredoc_measure, lemma_pushes_one, ready, FormatContext, Output};
use crate::fmt::shape::Shape;
use crate::fmt::text::{BEGIN, END};
use crate::fmt::trivia::TrailingTrivia;

use super::block::lemma_plain_ok_settings;
use super::ifs::{closing_end, lemma_end_written_after_indent};
use super::{BlockBody, Heredoc};

verus! {

broadcast use crate::fmt::growth::group_output_growth;

/// `begin ... end`
#[derive(Debug)]
pub struct Begin {
    pub keyword_trailing: TrailingTrivia,
    pub body: BlockBody,
}

impl Begin {
    pub open spec fn ok_in(&self, c: int, m: Map<usize, Heredoc>) -> bool
        decreases self,
    {
        self.body.ok_in(c, m)
    }

    pub fn shape() -> (s: Shape)
        ensures
            s == Shape::Multilines,
    {
        Shape::Multilines
    }

    /// A `begin` laid out plainly at `o`: no comment after the keyword, which fits on the
    /// line, and a body laid out plainly (see `BlockBody::plain_ok`).
    pub open spec fn plain_layout_ok(&self, o: Output) -> bool {
        &&& self.keyword_trailing.spec_comment() is None
        &&& BEGIN@.len() <= budget(o)
        &&& o.indent < o.config.line_width
        &&& self.body.plain_ok(o)
    }

    /// Writes `begin`, the body one level deeper, and `end`. A `begin` laid out plainly
    /// comes out as `begin`, its statements one per line, and `end`.
    pub fn format(&self, o: &mut Output, ctx: &FormatContext, Ghost(c): Ghost<int>)
        requires
            ready(*old(o), *ctx, c),
            self.ok_in(c, ctx.heredoc_map@),
        ensures
            advanced(*old(o), *final(o), *ctx, c),
            self.plain_layout_ok(*old(o)) ==> final(o).buffer@ == old(o).buffer@ + old(o).indent_prefix()
                + (BEGIN@ + self.body.plain_text(
                old(o).indent as nat,
                old(o).config.indent_size as nat,
            ) + closing_end(old(o).indent as nat)),
        decreases heredoc_measure(c), 2int, self, 1int,
    {
        let ghost o0 = *o;
        let ghost plain = self.plain_layout_ok(o0);
        o.push_str(&BEGIN);
        let ghost o1 = *o;
        proof {
            if plain {
                lemma_total_len_one(BEGIN@);
                lemma_wrote_fitting(o0, o1, seq![BEGIN@]);
            }
        }
        self.keyword_trailing.format(o);
        let ghost o2 = *o;
        o.put_indent_if_needed();
        proof {
            if plain {
                lemma_pushes_one(o2.text_state(), o2.config.line_width as int, o2.indent as nat, Seq::<u8>::empty());
                assert(o.buffer@ =~= o0.buffer@ + o0.indent_prefix() + BEGIN@);
            }
        }
        let ghost ob = *o;
        proof {
            if plain {
                lemma_plain_ok_settings(self.body, o0, ob);
            }
        }
        self.body.format(o, ctx, true, Ghost(c));
        let ghost om = *o;
        o.break_line(ctx, Ghost(c));
        let ghost on = *o;
        o.put_indent_if_needed();
        let ghost o3 = *o;
        o.push_str(&END);
        proof {
            if plain {
                lemma_end_written_after_indent(om, on, o3, *o);
            }
        }
    }
}

} // verus!
