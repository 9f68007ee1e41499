use vstd::prelude::*;

use crate::fmt::flat::{
    budget, kind_flat, kind_flat_ok, lemma_total_len_concat, lemma_total_len_one, lemma_wrote_fitting,
    opt_arguments_pieces, total_len,
};
use crate::fmt::output::{
    advanced, heredoc_measure, lemma_wrote_nothing, lemma_wrote_pieces_concat, ready, wrote_pieces,
    FormatContext, Output,
};
use crate::fmt::shape::Shape;

use super::{Arguments, Heredoc, Kind};

verus! {

broadcast use crate::fmt::growth::group_output_growth;

/// A keyword with call-like arguments: `return x`, `break`, `yield(a)`.
#[derive(Debug)]
pub struct CallLike {
    pub shape: Shape,
    pub name: Vec<u8>,
    pub arguments: Option<Arguments>,
}

impl CallLike {
    pub open spec fn ok_in(&self, c: int, m: Map<usize, Heredoc>) -> bool
        decreases self,
    {
        match self.arguments {
            Some(a) => a.ok_in(c, m),
            None => true,
        }
    }

    pub fn new(name: Vec<u8>) -> (k: CallLike)
        ensures
            k.shape == (Shape::Inline { len: name@.len() as usize }),
            k.name == name,
            k.arguments is None,
    {
        CallLike { shape: Shape::inline(name.len()), name, arguments: None }
    }

    pub fn set_arguments(&mut self, args: Arguments)
        requires
            old(self).shape.concat_fits(args.shape),
        ensures
            final(self).shape == old(self).shape.concat(args.shape),
            final(self).arguments == Some(args),
            final(self).name == old(self).name,
    {
        self.shape.append(&args.shape);
        self.arguments = Some(args);
    }

    /// The keyword, then its arguments; where they are made of parts that
    /// `kind_flat` describes and fit in the room left on the line, written flat.
    pub fn format(&self, o: &mut Output, ctx: &FormatContext, Ghost(c): Ghost<int>)
        requires
            ready(*old(o), *ctx, c),
            self.ok_in(c, ctx.heredoc_map@),
        ensures
            advanced(*old(o), *final(o), *ctx, c),
            kind_flat_ok(Kind::CallLike(*self)) && total_len(kind_flat(Kind::CallLike(*self)))
                <= budget(*old(o)) ==> wrote_pieces(*old(o), *final(o), kind_flat(Kind::CallLike(*self))),
        decreases heredoc_measure(c), 2int, self, 1int,
    {
        let ghost o0 = *o;
        let ghost ap = opt_arguments_pieces(self.arguments);
        let ghost flat = kind_flat_ok(Kind::CallLike(*self)) && total_len(kind_flat(Kind::CallLike(*self)))
            <= budget(o0);
        proof {
            if flat {
                assert(kind_flat(Kind::CallLike(*self)) =~= seq![self.name@] + ap);
                lemma_total_len_concat(seq![self.name@], ap);
                lemma_total_len_one(self.name@);
            }
        }
        o.push_str(self.name.as_slice());
        let ghost o1 = *o;
        proof {
            if flat {
                lemma_wrote_fitting(o0, o1, seq![self.name@]);
            }
        }
        if let Some(args) = &self.arguments {
            args.format(o, ctx, Ghost(c));
        } else {
            proof {
                lemma_wrote_nothing(o1);
            }
        }
        proof {
            if flat {
                lemma_wrote_pieces_concat(o0, o1, *o, seq![self.name@], ap);
            }
        }
    }
}

} // verus!
