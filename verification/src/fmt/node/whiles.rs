use vstd::prelude::*;

use crate::fmt::output::{advanced, heredoc_measure, ready, FormatContext, Output};
use crate::fmt::shape::Shape;
use crate::fmt::text::{END, UNTIL, WHILE};

use super::ifs::{closing_end, lemma_assembled, lemma_end_written};
use super::{Conditional, Heredoc};

verus! {

broadcast use crate::fmt::growth::group_output_growth;

/// `while`/`until` loops.
#[derive(Debug)]
pub struct While {
    pub is_while: bool,
    pub content: Conditional,
}

impl While {
    pub open spec fn ok_in(&self, c: int, m: Map<usize, Heredoc>) -> bool
        decreases self,
    {
        self.content.ok_in(c, m)
    }

    pub fn shape() -> (s: Shape)
        ensures
            s == Shape::Multilines,
    {
        Shape::Multilines
    }

    /// The keyword that opens the loop.
    pub open spec fn keyword(&self) -> Seq<u8> {
        if self.is_while {
            WHILE@
        } else {
            UNTIL@
        }
    }

    /// Writes the keyword, the predicate, the statements one level deeper and `end`. A
    /// loop laid out plainly (see `Conditional::headed_ok`) comes out as its
    /// `headed_text` and `end` on a line of its own.
    pub fn format(&self, o: &mut Output, ctx: &FormatContext, Ghost(c): Ghost<int>)
        requires
            ready(*old(o), *ctx, c),
            self.ok_in(c, ctx.heredoc_map@),
        ensures
            advanced(*old(o), *final(o), *ctx, c),
            self.content.headed_ok(self.keyword(), *old(o)) ==> final(o).buffer@ == old(o).buffer@
                + old(o).indent_prefix() + (self.content.headed_text(
                self.keyword(),
                old(o).indent as nat,
                old(o).config.indent_size as nat,
            ) + closing_end(old(o).indent as nat)),
        decreases heredoc_measure(c), 2int, self, 1int,
    {
        let ghost o0 = *o;
        if self.is_while {
            self.content.format_headed(&WHILE, o, ctx, Ghost(c));
        } else {
            self.content.format_headed(&UNTIL, o, ctx, Ghost(c));
        }
        let ghost om = *o;
        o.break_line(ctx, Ghost(c));
        let ghost on = *o;
        o.push_str(&END);
        proof {
            if self.content.headed_ok(self.keyword(), o0) {
                lemma_end_written(om, on, *o);
                lemma_assembled(
                    o0.buffer@,
                    o0.indent_prefix(),
                    self.content.headed_text(self.keyword(), o0.indent as nat, o0.config.indent_size as nat),
                    closing_end(o0.indent as nat),
                );
            }
        }
    }
}

} // verus!
