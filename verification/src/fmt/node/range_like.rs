use vstd::prelude::*;

use crate::fmt::flat::{
    budget, kind_flat, kind_flat_ok, lemma_node_flat_nonempty, lemma_total_len_concat, lemma_total_len_one,
    lemma_wrote_fitting, node_flat, total_len,
};
use crate::fmt::output::{
    advanced, heredoc_measure, lemma_wrote_nothing, lemma_wrote_pieces_concat, ready, wrote_pieces,
    FormatContext, Output,
};
use crate::fmt::shape::Shape;
use crate::fmt::trivia::EmptyLineHandling;

use super::{Heredoc, Kind, Node};

verus! {

broadcast use crate::fmt::growth::group_output_growth;

/// `a..b`, `a...`, `..b` and flip-flops.
#[derive(Debug)]
pub struct RangeLike {
    pub shape: Shape,
    pub left: Option<Box<Node>>,
    pub operator: Vec<u8>,
    pub right: Option<Box<Node>>,
}

impl RangeLike {
    pub open spec fn ok_in(&self, c: int, m: Map<usize, Heredoc>) -> bool
        decreases self,
    {
        &&& match self.left {
            Some(l) => l.ok_in(c, m),
            None => true,
        }
        &&& match self.right {
            Some(r) => r.ok_in(c, m),
            None => true,
        }
    }

    /// The flat text of the left bound, if there is one.
    pub open spec fn left_flat(&self) -> Seq<Seq<u8>> {
        match self.left {
            Some(l) => node_flat(*l),
            None => Seq::empty(),
        }
    }

    /// A space after the operator where the right bound is itself a range without
    /// left bound.
    pub open spec fn space_before_right(&self) -> Seq<Seq<u8>> {
        match self.right {
            Some(x) => if x.kind matches Kind::RangeLike(y) && y.left is None {
                seq![seq![32u8]]
            } else {
                Seq::empty()
            },
            None => Seq::empty(),
        }
    }

    /// The flat text of the right bound, if there is one, after the space it may need.
    pub open spec fn right_flat(&self) -> Seq<Seq<u8>> {
        match self.right {
            Some(x) => self.space_before_right() + node_flat(*x),
            None => Seq::empty(),
        }
    }

    pub fn new(left: Option<Node>, operator: Vec<u8>, right: Option<Node>) -> (r: RangeLike)
        requires
            operator@.len() + match left {
                Some(l) => l.shape.size(),
                None => 0,
            } + match right {
                Some(r) => r.shape.size(),
                None => 0,
            } <= usize::MAX,
        ensures
            r.shape == ({
                let with_left = match left {
                    Some(l) => (Shape::Inline { len: 0 }).concat(l.shape),
                    None => Shape::Inline { len: 0 },
                };
                let with_op = with_left.concat(Shape::Inline { len: operator@.len() as usize });
                match right {
                    Some(x) => with_op.concat(x.shape),
                    None => with_op,
                }
            }),
            r.operator == operator,
            match left {
                Some(l) => r.left == Some(Box::new(l)),
                None => r.left is None,
            },
            match right {
                Some(x) => r.right == Some(Box::new(x)),
                None => r.right is None,
            },
    {
        let mut shape = Shape::inline(0);
        if let Some(l) = &left {
            shape.append(&l.shape);
        }
        shape.append(&Shape::inline(operator.len()));
        if let Some(x) = &right {
            shape.append(&x.shape);
        }
        let left = match left {
            Some(l) => Some(Box::new(l)),
            None => None,
        };
        let right = match right {
            Some(x) => Some(Box::new(x)),
            None => None,
        };
        RangeLike { shape, left, operator, right }
    }

    /// Writes the bounds around the operator; where the range is made of parts that
    /// `kind_flat` describes and fits in the room left on the line, it is written flat.
    pub fn format(&self, o: &mut Output, ctx: &FormatContext, Ghost(c): Ghost<int>)
        requires
            ready(*old(o), *ctx, c),
            self.ok_in(c, ctx.heredoc_map@),
        ensures
            advanced(*old(o), *final(o), *ctx, c),
            kind_flat_ok(Kind::RangeLike(*self)) && total_len(kind_flat(Kind::RangeLike(*self)))
                <= budget(*old(o)) ==> wrote_pieces(*old(o), *final(o), kind_flat(Kind::RangeLike(*self))),
        decreases heredoc_measure(c), 2int, self, 1int,
    {
        let ghost o0 = *o;
        let ghost lp = self.left_flat();
        let ghost mid = seq![self.operator@];
        let ghost rp = self.right_flat();
        let ghost flat = kind_flat_ok(Kind::RangeLike(*self)) && total_len(kind_flat(Kind::RangeLike(*self)))
            <= budget(o0);
        proof {
            assert(kind_flat(Kind::RangeLike(*self)) == lp + mid + rp);
            if flat {
                lemma_total_len_concat(lp, mid);
                lemma_total_len_concat(lp + mid, rp);
                lemma_total_len_one(self.operator@);
            }
        }
        if let Some(left) = &self.left {
            left.format(o, ctx, Ghost(c));
            proof {
                if flat {
                    lemma_node_flat_nonempty(**left);
                    lemma_wrote_fitting(o0, *o, lp);
                }
            }
        } else {
            proof {
                lemma_wrote_nothing(o0);
            }
        }
        let ghost o1 = *o;
        o.push_str(self.operator.as_slice());
        let ghost o2 = *o;
        proof {
            if flat {
                lemma_wrote_pieces_concat(o0, o1, o2, lp, mid);
                lemma_wrote_fitting(o1, o2, mid);
            }
        }
        if let Some(right) = &self.right {
            if right.shape.fits_in_one_line(o.remaining_width) || right.can_continue_line() {
                let need_space = match &right.kind {
                    Kind::RangeLike(range) => range.left.is_none(),
                    _ => false,
                };
                let ghost sp = self.space_before_right();
                if need_space {
                    o.push(32u8);
                    proof {
                        if flat {
                            lemma_total_len_concat(sp, node_flat(**right));
                            lemma_total_len_one(seq![32u8]);
                            lemma_wrote_fitting(o2, *o, sp);
                        }
                    }
                } else {
                    proof {
                        lemma_wrote_nothing(o2);
                    }
                }
                let ghost o3 = *o;
                right.format(o, ctx, Ghost(c));
                proof {
                    if flat {
                        assert(rp =~= sp + node_flat(**right));
                        lemma_total_len_concat(sp, node_flat(**right));
                        lemma_wrote_pieces_concat(o2, o3, *o, sp, node_flat(**right));
                        lemma_wrote_pieces_concat(o0, o2, *o, lp + mid, rp);
                    }
                }
            } else {
                proof {
                    if flat {
                        lemma_total_len_concat(self.space_before_right(), node_flat(**right));
                        assert(false);
                    }
                }
                o.indent();
                o.break_line(ctx, Ghost(c));
                right.leading_trivia.format(o, ctx, EmptyLineHandling::trim(), Ghost(c));
                right.format(o, ctx, Ghost(c));
                o.dedent();
            }
        } else {
            proof {
                assert(lp + mid + rp =~= lp + mid);
            }
        }
    }
}

} // verus!
