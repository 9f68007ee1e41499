use vstd::prelude::*;

use crate::fmt::flat::{
    budget, kind_flat, kind_flat_ok, lemma_flat_continues_line, lemma_node_flat_nonempty, lemma_total_len_concat,
    lemma_total_len_one, lemma_wrote_fitting, node_flat, total_len,
};
use crate::fmt::output::{
    advanced, heredoc_measure, lemma_wrote_pieces_concat, ready, wrote_pieces, FormatContext, Output,
};
use crate::fmt::shape::Shape;
use crate::fmt::trivia::EmptyLineHandling;

use super::{Conditional, Heredoc, Kind};

verus! {

broadcast use crate::fmt::growth::group_output_growth;

/// `body if predicate` and the like.
#[derive(Debug)]
pub struct Postmodifier {
    pub shape: Shape,
    pub keyword: Vec<u8>,
    pub conditional: Conditional,
}

impl Postmodifier {
    pub open spec fn ok_in(&self, c: int, m: Map<usize, Heredoc>) -> bool
        decreases self,
    {
        self.conditional.ok_in(c, m)
    }

    pub fn new(keyword: Vec<u8>, conditional: Conditional) -> (p: Postmodifier)
        requires
            keyword@.len() + 2 + conditional.shape.size() <= usize::MAX,
        ensures
            // the keyword and a space on each side of it
            p.shape == conditional.shape.concat(Shape::Inline { len: (keyword@.len() + 2) as usize }),
            p.keyword == keyword,
            p.conditional == conditional,
    {
        let kwd_shape = Shape::inline(keyword.len() + 2);
        let shape = conditional.shape.add(&kwd_shape);
        Postmodifier { shape, keyword, conditional }
    }

    /// The statement, the keyword, then the condition; where it is made of parts that
    /// `kind_flat` describes and fits in the room left on the line, it is written flat.
    pub fn format(&self, o: &mut Output, ctx: &FormatContext, Ghost(c): Ghost<int>)
        requires
            ready(*old(o), *ctx, c),
            self.ok_in(c, ctx.heredoc_map@),
        ensures
            advanced(*old(o), *final(o), *ctx, c),
            kind_flat_ok(Kind::Postmodifier(*self)) && total_len(kind_flat(Kind::Postmodifier(*self)))
                <= budget(*old(o)) ==> wrote_pieces(*old(o), *final(o), kind_flat(Kind::Postmodifier(*self))),
        decreases heredoc_measure(c), 2int, self, 1int,
    {
        let ghost o0 = *o;
        let ghost bp = kind_flat(Kind::Statements(self.conditional.body));
        let ghost mid = seq![seq![32u8], self.keyword@];
        let ghost pp = seq![seq![32u8]] + node_flat(*self.conditional.predicate);
        let ghost flat = kind_flat_ok(Kind::Postmodifier(*self)) && total_len(
            kind_flat(Kind::Postmodifier(*self)),
        ) <= budget(o0);
        proof {
            assert(kind_flat(Kind::Postmodifier(*self)) =~= bp + mid + pp);
            if flat {
                lemma_total_len_concat(bp, mid);
                lemma_total_len_concat(bp + mid, pp);
                lemma_total_len_concat(seq![seq![32u8]], node_flat(*self.conditional.predicate));
                lemma_total_len_concat(seq![seq![32u8]], seq![self.keyword@]);
                assert(seq![seq![32u8]] + seq![self.keyword@] =~= mid);
                lemma_total_len_one(seq![32u8]);
                lemma_total_len_one(self.keyword@);
                lemma_node_flat_nonempty(self.conditional.body.nodes@[0]);
                lemma_flat_continues_line(*self.conditional.predicate);
            }
        }
        self.conditional.body.format(o, ctx, false, Ghost(c));
        let ghost o1 = *o;
        o.push(32u8);
        let ghost o2 = *o;
        o.push_str(self.keyword.as_slice());
        let ghost o3 = *o;
        proof {
            lemma_wrote_pieces_concat(o1, o2, o3, seq![seq![32u8]], seq![self.keyword@]);
            if flat {
                lemma_wrote_fitting(o0, o1, bp);
                lemma_wrote_fitting(o1, o3, mid);
            }
        }
        let cond = &self.conditional;
        if cond.predicate.can_continue_line() {
            o.push(32u8);
            let ghost o4 = *o;
            proof {
                if flat {
                    lemma_wrote_fitting(o3, o4, seq![seq![32u8]]);
                    lemma_node_flat_nonempty(*cond.predicate);
                }
            }
            cond.predicate.format(o, ctx, Ghost(c));
            cond.predicate.trailing_trivia.format(o);
            proof {
                if flat {
                    lemma_wrote_pieces_concat(o3, o4, *o, seq![seq![32u8]], node_flat(*cond.predicate));
                    lemma_wrote_pieces_concat(o0, o1, o3, bp, mid);
                    lemma_wrote_pieces_concat(o0, o3, *o, bp + mid, pp);
                }
            }
        } else {
            o.indent();
            o.break_line(ctx, Ghost(c));
            cond.predicate.leading_trivia.format(o, ctx, EmptyLineHandling::trim(), Ghost(c));
            cond.predicate.format(o, ctx, Ghost(c));
            cond.predicate.trailing_trivia.format(o);
            o.dedent();
        }
    }
}

} // verus!
