use vstd::prelude::*;

use crate::fmt::flat::{budget, kind_flat, kind_flat_ok, lemma_total_len_concat, lemma_total_len_one, lemma_wrote_fitting, total_len};
use crate::fmt::output::{
    advanced, heredoc_measure, lemma_pushes_one, lemma_wrote_nothing, lemma_wrote_pieces_concat, ready, spaces,
    wrote_pieces, FormatContext, Output,
};
use crate::fmt::shape::Shape;
use crate::fmt::text::SPACE_LBRACE;

use super::statements::{block_lines, block_ok};
use super::{Heredoc, Kind, Statements};

verus! {

broadcast use crate::fmt::growth::group_output_growth;

/// `BEGIN { ... }` or `END { ... }`
#[derive(Debug)]
pub struct PrePostExec {
    pub shape: Shape,
    pub keyword: Vec<u8>,
    pub statements: Statements,
}

impl PrePostExec {
    pub open spec fn ok_in(&self, c: int, m: Map<usize, Heredoc>) -> bool
        decreases self,
    {
        self.statements.ok_in(c, m)
    }

    pub fn new(keyword: Vec<u8>, statements: Statements, was_flat: bool) -> (e: PrePostExec)
        requires
            keyword@.len() + statements.shape.size() <= usize::MAX,
        ensures
            e.shape == if was_flat {
                (Shape::Inline { len: keyword@.len() as usize }).concat(statements.shape)
            } else {
                Shape::Multilines
            },
            e.keyword == keyword,
            e.statements == statements,
    {
        let shape = if was_flat {
            Shape::inline(keyword.len()).add(&statements.shape())
        } else {
            Shape::Multilines
        };
        PrePostExec { shape, keyword, statements }
    }

    /// The statements between the braces on one line, with a space on each side, where
    /// there are any.
    pub open spec fn inner_pieces(&self) -> Seq<Seq<u8>> {
        if self.statements.shape.spec_is_empty() {
            Seq::empty()
        } else {
            seq![seq![32u8]] + kind_flat(Kind::Statements(self.statements)) + seq![seq![32u8]]
        }
    }

    /// The block on one line: the keyword, ` {`, the statements, and `}`.
    pub open spec fn line_pieces(&self) -> Seq<Seq<u8>> {
        seq![self.keyword@, SPACE_LBRACE@] + self.inner_pieces() + seq![seq![125u8]]
    }

    /// A block that its shape lets stand on the line, whose statement, if any, can be
    /// written flat, and whose text fits in the room left on the line.
    pub open spec fn one_line_ok(&self, o: Output) -> bool {
        &&& self.shape.spec_fits_in_one_line(budget(o))
        &&& !self.statements.shape.spec_is_empty() ==> kind_flat_ok(Kind::Statements(self.statements))
        &&& total_len(self.line_pieces()) <= budget(o)
    }

    /// Writes the block on one line where its shape fits there, else its statements one
    /// level deeper and the closing brace on a line of its own. A block that
    /// `one_line_ok` describes is written as `line_pieces`; one whose shape does not fit,
    /// with statements that can each be written flat one level deeper, comes out as the
    /// keyword, ` {`, the statements one per line, and `}` on a line of its own.
    pub fn format(&self, o: &mut Output, ctx: &FormatContext, Ghost(c): Ghost<int>)
        requires
            ready(*old(o), *ctx, c),
            self.ok_in(c, ctx.heredoc_map@),
        ensures
            advanced(*old(o), *final(o), *ctx, c),
            self.one_line_ok(*old(o)) ==> wrote_pieces(*old(o), *final(o), self.line_pieces()),
            !self.shape.spec_fits_in_one_line(old(o).remaining_width as int) && self.keyword@.len() > 0
                && old(o).indent < old(o).config.line_width && block_ok(self.statements, *old(o)) ==> final(o).buffer@ == old(o).buffer@ + old(o).indent_prefix() + (self.keyword@ + SPACE_LBRACE@
                + block_lines(self.statements, old(o).indent as nat + old(o).config.indent_size as nat)
                + seq![10u8] + spaces(old(o).indent as nat) + seq![125u8]),
        decreases heredoc_measure(c), 2int, self, 1int,
    {
        let ghost o0 = *o;
        let ghost flat = self.one_line_ok(o0);
        let ghost kp = seq![self.keyword@, SPACE_LBRACE@];
        let ghost ip = self.inner_pieces();
        proof {
            assert(kp =~= seq![self.keyword@] + seq![SPACE_LBRACE@]);
            lemma_total_len_concat(seq![self.keyword@], seq![SPACE_LBRACE@]);
            lemma_total_len_concat(kp, ip);
            lemma_total_len_concat(kp + ip, seq![seq![125u8]]);
            lemma_total_len_one(self.keyword@);
            lemma_total_len_one(SPACE_LBRACE@);
            lemma_total_len_one(seq![125u8]);
        }
        if self.shape.fits_in_one_line(o.remaining_width) {
            o.push_str(self.keyword.as_slice());
            let ghost o1 = *o;
            o.push_str(&SPACE_LBRACE);
            let ghost o2 = *o;
            proof {
                if flat {
                    lemma_wrote_fitting(o0, o1, seq![self.keyword@]);
                    lemma_wrote_fitting(o1, o2, seq![SPACE_LBRACE@]);
                    lemma_wrote_pieces_concat(o0, o1, o2, seq![self.keyword@], seq![SPACE_LBRACE@]);
                }
            }
            if !self.statements.shape.is_empty() {
                o.push(32u8);
                let ghost o3 = *o;
                let ghost sp = kind_flat(Kind::Statements(self.statements));
                proof {
                    if flat {
                        lemma_total_len_one(seq![32u8]);
                        lemma_total_len_concat(seq![seq![32u8]], sp);
                        lemma_total_len_concat(seq![seq![32u8]] + sp, seq![seq![32u8]]);
                        lemma_wrote_fitting(o2, o3, seq![seq![32u8]]);
                    }
                }
                self.statements.format(o, ctx, false, Ghost(c));
                let ghost o4 = *o;
                o.push(32u8);
                proof {
                    if flat {
                        lemma_wrote_pieces_concat(o2, o3, o4, seq![seq![32u8]], sp);
                        lemma_wrote_pieces_concat(o2, o4, *o, seq![seq![32u8]] + sp, seq![seq![32u8]]);
                    }
                }
            } else {
                proof {
                    lemma_wrote_nothing(o2);
                }
            }
            let ghost o5 = *o;
            o.push(125u8);
            proof {
                if flat {
                    lemma_wrote_pieces_concat(o0, o2, o5, kp, ip);
                    lemma_wrote_pieces_concat(o0, o5, *o, kp + ip, seq![seq![125u8]]);
                }
            }
        } else {
            let ghost plain = self.keyword@.len() > 0 && o0.indent < o0.config.line_width && block_ok(
                self.statements,
                o0,
            );
            o.push_str(self.keyword.as_slice());
            let ghost o1 = *o;
            o.push_str(&SPACE_LBRACE);
            let ghost o2 = *o;
            proof {
                if plain {
                    lemma_pushes_one(o0.text_state(), o0.config.line_width as int, o0.indent as nat, self.keyword@);
                    lemma_pushes_one(o1.text_state(), o1.config.line_width as int, o1.indent as nat, SPACE_LBRACE@);
                    assert(!o1.at_line_start());
                    assert(o2.buffer@ =~= o0.buffer@ + o0.indent_prefix() + self.keyword@ + SPACE_LBRACE@);
                }
            }
            self.statements.format_block(o, ctx, Ghost(c));
            let ghost om = *o;
            o.break_line(ctx, Ghost(c));
            let ghost on = *o;
            o.push(125u8);
            proof {
                if plain {
                    lemma_pushes_one(on.text_state(), on.config.line_width as int, on.indent as nat, seq![125u8]);
                    assert(o.buffer@ =~= o0.buffer@ + o0.indent_prefix() + (self.keyword@ + SPACE_LBRACE@ + block_lines(
                        self.statements,
                        o0.indent as nat + o0.config.indent_size as nat,
                    ) + seq![10u8] + spaces(o0.indent as nat) + seq![125u8]));
                }
            }
        }
    }
}

} // verus!
