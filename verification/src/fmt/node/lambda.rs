use vstd::prelude::*;

use crate::fmt::flat::{budget, lemma_total_len_one, lemma_wrote_fitting, total_len};
use crate::fmt::output::{
    advanced, heredoc_measure, lemma_wrote_nothing, lemma_wrote_pieces_concat, ready, wrote_pieces, FormatContext,
    Output,
};
use crate::fmt::shape::Shape;
use crate::fmt::text::LAMBDA_ARROW;

use super::block::lemma_block_parameters_len;
use super::{Block, BlockParameters, Heredoc};

verus! {

broadcast use crate::fmt::growth::group_output_growth;

/// `->(params) { body }`
#[derive(Debug)]
pub struct Lambda {
    pub shape: Shape,
    pub parameters: Option<BlockParameters>,
    pub block: Block,
}

impl Lambda {
    pub open spec fn ok_in(&self, c: int, m: Map<usize, Heredoc>) -> bool
        decreases self,
    {
        &&& match self.parameters {
            Some(p) => p.ok_in(c, m),
            None => true,
        }
        &&& self.block.ok_in(c, m)
    }

    pub fn new(params: Option<BlockParameters>, block: Block) -> (l: Lambda)
        requires
            3 + block.shape.size() + match params {
                Some(p) => p.shape.size(),
                None => 0,
            } <= usize::MAX,
        ensures
            // `->`, the parameters, a space, the block
            l.shape == match params {
                Some(p) => (Shape::Inline { len: 2 }).concat(p.shape),
                None => Shape::Inline { len: 2 },
            }.concat(Shape::Inline { len: 1 }).concat(block.shape),
            l.parameters == params,
            l.block == block,
    {
        let mut shape = Shape::inline(2);
        if let Some(p) = &params {
            shape.append(&p.shape);
        }
        shape.append(&Shape::inline(1));
        shape.append(&block.shape);
        Lambda { shape, parameters: params, block }
    }

    /// The parameters of the lambda on one line, where it has any.
    pub open spec fn params_pieces(&self) -> Seq<Seq<u8>> {
        match self.parameters {
            Some(p) => p.line_pieces(),
            None => Seq::empty(),
        }
    }

    /// The lambda on one line: `->`, the parameters, and the block.
    pub open spec fn line_pieces(&self) -> Seq<Seq<u8>> {
        seq![LAMBDA_ARROW@] + self.params_pieces() + self.block.line_pieces()
    }

    /// A lambda whose parameters and block can each stand on the line in turn (see
    /// `BlockParameters::one_line_ok` and `Block::one_line_ok`) with `room` bytes left on
    /// it.
    pub open spec fn one_line_ok(&self, room: int) -> bool {
        &&& LAMBDA_ARROW@.len() <= room
        &&& match self.parameters {
            Some(p) => p.one_line_ok(room - LAMBDA_ARROW@.len()),
            None => true,
        }
        &&& self.block.one_line_ok(room - LAMBDA_ARROW@.len() - total_len(self.params_pieces()))
    }

    /// Writes `->`, the parameters and the block; a lambda that `one_line_ok` describes
    /// is written as `line_pieces`.
    pub fn format(&self, o: &mut Output, ctx: &FormatContext, Ghost(c): Ghost<int>)
        requires
            ready(*old(o), *ctx, c),
            self.ok_in(c, ctx.heredoc_map@),
        ensures
            advanced(*old(o), *final(o), *ctx, c),
            self.one_line_ok(budget(*old(o))) ==> wrote_pieces(*old(o), *final(o), self.line_pieces()),
        decreases heredoc_measure(c), 2int, self, 1int,
    {
        let ghost o0 = *o;
        let ghost flat = self.one_line_ok(budget(o0));
        let ghost pp = self.params_pieces();
        o.push_str(&LAMBDA_ARROW);
        let ghost o1 = *o;
        proof {
            if flat {
                lemma_total_len_one(LAMBDA_ARROW@);
                lemma_wrote_fitting(o0, o1, seq![LAMBDA_ARROW@]);
            }
        }
        if let Some(params) = &self.parameters {
            params.format(o, ctx, Ghost(c));
            proof {
                if flat {
                    lemma_block_parameters_len(*params);
                    lemma_wrote_fitting(o1, *o, pp);
                }
            }
        } else {
            proof {
                lemma_wrote_nothing(o1);
            }
        }
        let ghost o2 = *o;
        self.block.format(o, ctx, Ghost(c));
        proof {
            if flat {
                lemma_wrote_pieces_concat(o0, o1, o2, seq![LAMBDA_ARROW@], pp);
                lemma_wrote_pieces_concat(o0, o2, *o, seq![LAMBDA_ARROW@] + pp, self.block.line_pieces());
            }
        }
    }
}

} // verus!
