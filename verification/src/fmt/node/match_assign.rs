use vstd::prelude::*;

use crate::fmt::flat::{
    budget, kind_flat, kind_flat_ok, lemma_flat_continues_line, lemma_node_flat_nonempty, lemma_total_len_concat,
    lemma_total_len_one, lemma_wrote_fitting, node_flat, node_flat_ok, total_len,
};
use crate::fmt::output::{
    advanced, heredoc_measure, lemma_wrote_pieces_concat, ready, wrote_pieces, FormatContext, Output,
};
use crate::fmt::shape::Shape;
use crate::fmt::trivia::EmptyLineHandling;

use super::{Heredoc, Kind, Node};

verus! {

broadcast use crate::fmt::growth::group_output_growth;

/// `expression => pattern` or `expression in pattern`
#[derive(Debug)]
pub struct MatchAssign {
    pub shape: Shape,
    pub expression: Box<Node>,
    pub operator: Vec<u8>,
    pub pattern: Box<Node>,
}

impl MatchAssign {
    pub open spec fn ok_in(&self, c: int, m: Map<usize, Heredoc>) -> bool
        decreases self,
    {
        self.expression.ok_in(c, m) && self.pattern.ok_in(c, m)
    }

    pub open spec fn spec_shape(&self) -> Shape {
        self.shape
    }

    pub fn new(expression: Node, operator: Vec<u8>, pattern: Node) -> (a: MatchAssign)
        requires
            expression.shape.size() + operator@.len() + 2 + pattern.shape.size() <= usize::MAX,
        ensures
            // the operator with a space on each side
            a.shape == expression.shape.concat(Shape::Inline { len: (operator@.len() + 2) as usize }).concat(
                pattern.shape,
            ),
            *a.expression == expression,
            a.operator == operator,
            *a.pattern == pattern,
    {
        let s1 = expression.shape.add(&Shape::inline(operator.len() + 2));
        let shape = s1.add(&pattern.shape);
        MatchAssign { shape, expression: Box::new(expression), operator, pattern: Box::new(pattern) }
    }

    pub fn shape(&self) -> (s: &Shape)
        ensures
            *s == self.shape,
    {
        &self.shape
    }

    /// Writes the expression, the operator and the pattern; one made of parts that
    /// `kind_flat` describes that fits in the room left on the line is written flat.
    pub fn format(&self, o: &mut Output, ctx: &FormatContext, Ghost(c): Ghost<int>)
        requires
            ready(*old(o), *ctx, c),
            self.ok_in(c, ctx.heredoc_map@),
        ensures
            advanced(*old(o), *final(o), *ctx, c),
            kind_flat_ok(Kind::MatchAssign(*self)) && total_len(kind_flat(Kind::MatchAssign(*self))) <= budget(
                *old(o),
            ) ==> wrote_pieces(*old(o), *final(o), kind_flat(Kind::MatchAssign(*self))),
        decreases heredoc_measure(c), 2int, self, 1int,
    {
        let ghost o0 = *o;
        let ghost ep = node_flat(*self.expression);
        let ghost mid = seq![seq![32u8], self.operator@];
        let ghost pp = seq![seq![32u8]] + node_flat(*self.pattern);
        let ghost flat = kind_flat_ok(Kind::MatchAssign(*self)) && total_len(kind_flat(Kind::MatchAssign(*self)))
            <= budget(o0);
        proof {
            assert(kind_flat(Kind::MatchAssign(*self)) =~= ep + mid + pp);
            if flat {
                lemma_total_len_concat(ep, mid);
                lemma_total_len_concat(ep + mid, pp);
                lemma_total_len_concat(seq![seq![32u8]], node_flat(*self.pattern));
                lemma_total_len_concat(seq![seq![32u8]], seq![self.operator@]);
                assert(seq![seq![32u8]] + seq![self.operator@] =~= mid);
                lemma_total_len_one(seq![32u8]);
                lemma_total_len_one(self.operator@);
                lemma_node_flat_nonempty(*self.expression);
                lemma_node_flat_nonempty(*self.pattern);
                lemma_flat_continues_line(*self.pattern);
            }
        }
        self.expression.format(o, ctx, Ghost(c));
        let ghost o1 = *o;
        o.push(32u8);
        let ghost o2 = *o;
        o.push_str(self.operator.as_slice());
        let ghost o3 = *o;
        proof {
            lemma_wrote_pieces_concat(o1, o2, o3, seq![seq![32u8]], seq![self.operator@]);
            if flat {
                lemma_wrote_fitting(o0, o1, ep);
                lemma_wrote_fitting(o1, o3, mid);
            }
        }
        self.format_right_hand_side(o, ctx, Ghost(c));
        proof {
            if flat {
                lemma_wrote_pieces_concat(o0, o1, o3, ep, mid);
                lemma_wrote_pieces_concat(o0, o3, *o, ep + mid, pp);
            }
        }
    }

    /// The pattern after a space, or on the next line, indented, where it neither fits
    /// nor can continue the line; a pattern that `node_flat` describes is written flat
    /// after the space where it fits.
    pub fn format_right_hand_side(&self, o: &mut Output, ctx: &FormatContext, Ghost(c): Ghost<int>)
        requires
            ready(*old(o), *ctx, c),
            self.ok_in(c, ctx.heredoc_map@),
        ensures
            advanced(*old(o), *final(o), *ctx, c),
            node_flat_ok(*self.pattern) && 1 + total_len(node_flat(*self.pattern)) <= budget(*old(o))
                ==> wrote_pieces(*old(o), *final(o), seq![seq![32u8]] + node_flat(*self.pattern)),
        decreases heredoc_measure(c), 2int, self, 0int,
    {
        let ghost o0 = *o;
        let ghost flat = node_flat_ok(*self.pattern) && 1 + total_len(node_flat(*self.pattern)) <= budget(o0);
        if self.pattern.shape.fits_in_one_line(o.remaining_width) || self.pattern.can_continue_line() {
            o.push(32u8);
            let ghost o1 = *o;
            proof {
                if flat {
                    lemma_total_len_one(seq![32u8]);
                    lemma_wrote_fitting(o0, o1, seq![seq![32u8]]);
                    lemma_node_flat_nonempty(*self.pattern);
                }
            }
            self.pattern.format(o, ctx, Ghost(c));
            proof {
                if flat {
                    lemma_wrote_pieces_concat(o0, o1, *o, seq![seq![32u8]], node_flat(*self.pattern));
                }
            }
        } else {
            proof {
                if flat {
                    lemma_flat_continues_line(*self.pattern);
                }
            }
            o.break_line(ctx, Ghost(c));
            o.indent();
            self.pattern.leading_trivia.format(o, ctx, EmptyLineHandling::trim(), Ghost(c));
            o.put_indent_if_needed();
            self.pattern.format(o, ctx, Ghost(c));
            o.dedent();
        }
    }
}

} // verus!
