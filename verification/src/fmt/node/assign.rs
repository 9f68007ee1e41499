use vstd::prelude::*;

use crate::fmt::flat::{
    budget, kind_flat, kind_flat_ok, lemma_node_flat_nonempty, lemma_total_len_concat, lemma_total_len_one,
    lemma_wrote_fitting, node_flat, node_flat_ok, total_len,
};
use crate::fmt::output::{
    advanced, heredoc_measure, lemma_wrote_pieces_concat, ready, wrote_pieces, FormatContext, Output,
};
use crate::fmt::shape::Shape;
use crate::fmt::trivia::EmptyLineHandling;

use super::{Heredoc, Kind, Node};

verus! {

broadcast use crate::fmt::growth::group_output_growth;

/// `target op= value`
#[derive(Debug)]
pub struct Assign {
    pub shape: Shape,
    pub target: Box<Node>,
    pub operator: Vec<u8>,
    pub value: Box<Node>,
}

impl Assign {
    pub open spec fn ok_in(&self, c: int, m: Map<usize, Heredoc>) -> bool
        decreases self,
    {
        self.target.ok_in(c, m) && self.value.ok_in(c, m)
    }

    pub fn new(target: Node, operator: Vec<u8>, value: Node) -> (a: Assign)
        requires
            target.shape.size() + value.shape.size() + operator@.len() + 2 <= usize::MAX,
        ensures
            // the operator with a space on each side
            a.shape == target.shape.concat(value.shape).concat(
                Shape::Inline { len: (operator@.len() + 2) as usize },
            ),
            *a.target == target,
            a.operator == operator,
            *a.value == value,
    {
        let s1 = target.shape.add(&value.shape);
        let shape = s1.add(&Shape::inline(operator.len() + 2));
        Assign { shape, target: Box::new(target), operator, value: Box::new(value) }
    }

    /// Writes the assignment; where it is made of parts that `kind_flat` describes and
    /// fits in the room left on the line, it is written flat.
    pub fn format(&self, o: &mut Output, ctx: &FormatContext, Ghost(c): Ghost<int>)
        requires
            ready(*old(o), *ctx, c),
            self.ok_in(c, ctx.heredoc_map@),
        ensures
            advanced(*old(o), *final(o), *ctx, c),
            kind_flat_ok(Kind::Assign(*self)) && total_len(kind_flat(Kind::Assign(*self))) <= budget(
                *old(o),
            ) ==> wrote_pieces(*old(o), *final(o), kind_flat(Kind::Assign(*self))),
        decreases heredoc_measure(c), 2int, self, 1int,
    {
        let ghost o0 = *o;
        let ghost tp = node_flat(*self.target);
        let ghost vp = seq![seq![32u8]] + node_flat(*self.value);
        let ghost mid = seq![seq![32u8], self.operator@];
        let ghost flat = kind_flat_ok(Kind::Assign(*self)) && total_len(kind_flat(Kind::Assign(*self)))
            <= budget(o0);
        proof {
            if flat {
                assert(kind_flat(Kind::Assign(*self)) =~= tp + mid + vp);
                lemma_total_len_concat(tp, mid);
                lemma_total_len_concat(tp + mid, vp);
                lemma_total_len_concat(seq![seq![32u8]], node_flat(*self.value));
                lemma_total_len_one(seq![32u8]);
                lemma_node_flat_nonempty(*self.target);
            }
        }
        self.target.format(o, ctx, Ghost(c));
        let ghost o1 = *o;
        o.push(32u8);
        let ghost o2 = *o;
        o.push_str(self.operator.as_slice());
        let ghost o3 = *o;
        proof {
            lemma_wrote_pieces_concat(o1, o2, o3, seq![seq![32u8]], seq![self.operator@]);
            assert(seq![seq![32u8]] + seq![self.operator@] =~= mid);
            if flat {
                lemma_wrote_fitting(o0, o1, tp);
                lemma_wrote_fitting(o1, o3, mid);
            }
        }
        self.format_assign_right(o, ctx, Ghost(c));
        proof {
            if flat {
                lemma_wrote_pieces_concat(o0, o1, o3, tp, mid);
                lemma_wrote_pieces_concat(o0, o3, *o, tp + mid, vp);
            }
        }
    }

    /// The value after the operator, or indented on the next line if it does not fit.
    pub fn format_assign_right(&self, o: &mut Output, ctx: &FormatContext, Ghost(c): Ghost<int>)
        requires
            ready(*old(o), *ctx, c),
            self.ok_in(c, ctx.heredoc_map@),
        ensures
            advanced(*old(o), *final(o), *ctx, c),
            node_flat_ok(*self.value) && (self.value.shape matches Shape::Inline { len } && len
                == total_len(node_flat(*self.value))) && 1 + total_len(node_flat(*self.value)) <= budget(
                *old(o),
            ) ==> wrote_pieces(*old(o), *final(o), seq![seq![32u8]] + node_flat(*self.value)),
        decreases heredoc_measure(c), 2int, self, 0int,
    {
        let ghost o0 = *o;
        let ghost flat = node_flat_ok(*self.value) && (self.value.shape matches Shape::Inline { len }
            && len == total_len(node_flat(*self.value))) && 1 + total_len(node_flat(*self.value))
            <= budget(o0);
        if self.value.shape.fits_in_one_line(o.remaining_width) || self.value.can_continue_line() {
            o.push(32u8);
            let ghost o1 = *o;
            proof {
                if flat {
                    lemma_total_len_one(seq![32u8]);
                    lemma_wrote_fitting(o0, o1, seq![seq![32u8]]);
                    lemma_node_flat_nonempty(*self.value);
                }
            }
            self.value.format(o, ctx, Ghost(c));
            proof {
                if flat {
                    lemma_wrote_pieces_concat(o0, o1, *o, seq![seq![32u8]], node_flat(*self.value));
                }
            }
        } else {
            o.break_line(ctx, Ghost(c));
            o.indent();
            self.value.leading_trivia.format(o, ctx, EmptyLineHandling::trim(), Ghost(c));
            self.value.format(o, ctx, Ghost(c));
            o.dedent();
        }
    }
}

} // verus!
