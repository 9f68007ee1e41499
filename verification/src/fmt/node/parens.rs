use vstd::prelude::*;

use crate::fmt::flat::{
    budget, kind_flat, kind_flat_ok, lemma_node_flat_nonempty, lemma_total_len_concat, lemma_total_len_one,
    lemma_wrote_fitting, total_len,
};
use crate::fmt::output::{
    advanced, heredoc_measure, lemma_wrote_pieces_concat, ready, wrote_pieces, FormatContext, Output,
};
use crate::fmt::shape::Shape;
use crate::fmt::text::EMPTY_PARENS;

use super::{Heredoc, Kind, Statements};

verus! {

broadcast use crate::fmt::growth::group_output_growth;

/// `( ... )`
#[derive(Debug)]
pub struct Parens {
    pub shape: Shape,
    pub body: Statements,
    pub closing_break_allowed: bool,
}

impl Parens {
    pub open spec fn ok_in(&self, c: int, m: Map<usize, Heredoc>) -> bool
        decreases self,
    {
        self.body.ok_in(c, m)
    }

    pub fn new(body: Statements) -> (p: Parens)
        requires
            (Shape::Inline { len: 2 }).insert_fits(body.shape),
        ensures
            p.shape == (Shape::Inline { len: 2 }).inserted(body.shape),
            p.body == body,
            p.closing_break_allowed,
    {
        let mut shape = Shape::inline(2);
        shape.insert(&body.shape);
        Parens { shape, body, closing_break_allowed: true }
    }

    /// `()`, or the body between parentheses, broken over lines if it does not fit;
    /// where it is made of parts that `kind_flat` describes and fits in the room left
    /// on the line, it is written flat.
    pub fn format(&self, o: &mut Output, ctx: &FormatContext, Ghost(c): Ghost<int>)
        requires
            ready(*old(o), *ctx, c),
            self.ok_in(c, ctx.heredoc_map@),
        ensures
            advanced(*old(o), *final(o), *ctx, c),
            kind_flat_ok(Kind::Parens(*self)) && total_len(kind_flat(Kind::Parens(*self))) <= budget(
                *old(o),
            ) ==> wrote_pieces(*old(o), *final(o), kind_flat(Kind::Parens(*self))),
        decreases heredoc_measure(c), 2int, self, 1int,
    {
        let ghost o0 = *o;
        let ghost flat = kind_flat_ok(Kind::Parens(*self)) && total_len(kind_flat(Kind::Parens(*self)))
            <= budget(o0);
        if self.body.shape().is_empty() {
            o.push_str(&EMPTY_PARENS);
        } else {
            o.push(40u8);
            let ghost o1 = *o;
            let ghost bp = kind_flat(Kind::Statements(self.body));
            proof {
                if flat {
                    assert(kind_flat(Kind::Parens(*self)) =~= seq![seq![40u8]] + bp + seq![seq![41u8]]);
                    lemma_total_len_concat(seq![seq![40u8]], bp);
                    lemma_total_len_concat(seq![seq![40u8]] + bp, seq![seq![41u8]]);
                    lemma_total_len_one(seq![40u8]);
                    lemma_total_len_one(seq![41u8]);
                    lemma_wrote_fitting(o0, o1, seq![seq![40u8]]);
                    assert(self.body.shape.spec_fits_in_inline(o1.remaining_width as int));
                }
            }
            if self.body.shape.fits_in_inline(o.remaining_width) {
                self.body.format(o, ctx, false, Ghost(c));
            } else {
                o.indent();
                o.break_line(ctx, Ghost(c));
                self.body.format(o, ctx, true, Ghost(c));
                o.dedent();
                if self.closing_break_allowed {
                    o.break_line(ctx, Ghost(c));
                    o.put_indent_if_needed();
                }
            }
            let ghost o2 = *o;
            o.push(41u8);
            proof {
                if flat {
                    lemma_node_flat_nonempty(self.body.nodes@[0]);
                    lemma_wrote_pieces_concat(o0, o1, o2, seq![seq![40u8]], bp);
                    lemma_wrote_pieces_concat(o0, o2, *o, seq![seq![40u8]] + bp, seq![seq![41u8]]);
                }
            }
        }
    }
}

} // verus!
