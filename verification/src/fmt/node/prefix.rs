use vstd::prelude::*;

use crate::fmt::flat::{
    budget, kind_flat, kind_flat_ok, lemma_node_flat_nonempty, lemma_total_len_concat, lemma_total_len_one,
    lemma_wrote_fitting, node_flat, total_len,
};
use crate::fmt::output::{
    advanced, heredoc_measure, lemma_wrote_nothing, lemma_wrote_pieces_concat, ready, wrote_pieces,
    FormatContext, Output,
};
use crate::fmt::shape::Shape;

use super::{Heredoc, Kind, Node};

verus! {

broadcast use crate::fmt::growth::group_output_growth;

/// A prefix operator and its operand: `!x`, `*args`, `not x`, `defined?(x)`.
#[derive(Debug)]
pub struct Prefix {
    pub shape: Shape,
    pub operator: Vec<u8>,
    pub expression: Option<Box<Node>>,
    pub need_separation: bool,
}

impl Prefix {
    pub open spec fn ok_in(&self, c: int, m: Map<usize, Heredoc>) -> bool
        decreases self,
    {
        match self.expression {
            Some(e) => e.ok_in(c, m),
            None => true,
        }
    }

    /// A bare `*`.
    pub open spec fn spec_is_anonymous_splat(&self) -> bool {
        self.operator@ == seq![42u8] && self.expression is None
    }

    pub fn new(operator: Vec<u8>, expression: Option<Node>, need_separation: bool) -> (p: Prefix)
        requires
            operator@.len() + 1 + match expression {
                Some(e) => e.shape.size(),
                None => 0,
            } <= usize::MAX,
        ensures
            // a space between the operator and the operand where they must be apart
            p.shape == match expression {
                Some(e) => if need_separation {
                    (Shape::Inline { len: operator@.len() as usize }).concat(Shape::Inline { len: 1 }).concat(e.shape)
                } else {
                    (Shape::Inline { len: operator@.len() as usize }).concat(e.shape)
                },
                None => Shape::Inline { len: operator@.len() as usize },
            },
            p.operator == operator,
            match expression {
                Some(e) => p.expression == Some(Box::new(e)),
                None => p.expression is None,
            },
            p.need_separation == need_separation,
    {
        let mut shape = Shape::inline(operator.len());
        if let Some(e) = &expression {
            if need_separation {
                shape.append(&Shape::inline(1));
            }
            shape.append(&e.shape);
        }
        let expression = match expression {
            Some(e) => Some(Box::new(e)),
            None => None,
        };
        Prefix { shape, operator, expression, need_separation }
    }

    pub fn is_anonymous_splat(&self) -> (b: bool)
        ensures
            b == self.spec_is_anonymous_splat(),
    {
        let star = self.operator.len() == 1 && self.operator[0] == 42u8;
        proof {
            if star {
                assert(self.operator@ =~= seq![42u8]);
            }
        }
        star && self.expression.is_none()
    }

    /// The operator, then the operand; where it is made of parts that `kind_flat`
    /// describes and fits in the room left on the line, it is written flat.
    pub fn format(&self, o: &mut Output, ctx: &FormatContext, Ghost(c): Ghost<int>)
        requires
            ready(*old(o), *ctx, c),
            self.ok_in(c, ctx.heredoc_map@),
        ensures
            advanced(*old(o), *final(o), *ctx, c),
            kind_flat_ok(Kind::Prefix(*self)) && total_len(kind_flat(Kind::Prefix(*self))) <= budget(
                *old(o),
            ) ==> wrote_pieces(*old(o), *final(o), kind_flat(Kind::Prefix(*self))),
        decreases heredoc_measure(c), 2int, self, 1int,
    {
        let ghost o0 = *o;
        let ghost all = kind_flat(Kind::Prefix(*self));
        let ghost flat = kind_flat_ok(Kind::Prefix(*self)) && total_len(all) <= budget(o0);
        o.push_str(self.operator.as_slice());
        let ghost o1 = *o;
        let ghost rest = all.subrange(1, all.len() as int);
        proof {
            assert(all =~= seq![self.operator@] + rest);
            if flat {
                lemma_total_len_concat(seq![self.operator@], rest);
                lemma_total_len_one(self.operator@);
                lemma_wrote_fitting(o0, o1, seq![self.operator@]);
            }
        }
        if let Some(expr) = &self.expression {
            let ghost ep = node_flat(**expr);
            proof {
                if flat {
                    lemma_node_flat_nonempty(**expr);
                }
            }
            if self.need_separation {
                o.push(32u8);
                proof {
                    if flat {
                        assert(rest =~= seq![seq![32u8]] + ep);
                        lemma_total_len_concat(seq![seq![32u8]], ep);
                        lemma_total_len_one(seq![32u8]);
                        lemma_wrote_fitting(o1, *o, seq![seq![32u8]]);
                    }
                }
            } else {
                proof {
                    lemma_wrote_nothing(o1);
                }
            }
            let ghost o2 = *o;
            expr.format(o, ctx, Ghost(c));
            proof {
                if flat {
                    if self.need_separation {
                        lemma_wrote_pieces_concat(o1, o2, *o, seq![seq![32u8]], ep);
                    } else {
                        assert(rest =~= ep);
                    }
                    lemma_wrote_pieces_concat(o0, o1, *o, seq![self.operator@], rest);
                }
            }
        } else {
            proof {
                assert(all =~= seq![self.operator@]);
            }
        }
    }
}

} // verus!
