use vstd::prelude::*;

use crate::fmt::flat::{
    alternatives_flat, budget, kind_flat, kind_flat_ok, lemma_alternatives_flat_prefix, lemma_node_flat_nonempty,
    lemma_total_len_concat, lemma_total_len_one, lemma_wrote_fitting, node_flat, node_flat_ok, total_len,
};
use crate::fmt::output::{
    advanced, heredoc_measure, lemma_wrote_pieces_concat, ready, wrote_pieces, FormatContext, Output,
};
use crate::fmt::shape::Shape;
use crate::fmt::text::{SPACE_PIPE, SPACE_PIPE_SPACE};
use crate::fmt::trivia::EmptyLineHandling;

use super::{Heredoc, Kind, Node};

verus! {

broadcast use crate::fmt::growth::group_output_growth;

/// `a | b | c` in a pattern.
#[derive(Debug)]
pub struct AltPatternChain {
    pub shape: Shape,
    pub left: Box<Node>,
    pub rights_shape: Shape,
    pub rights: Vec<Node>,
}

impl AltPatternChain {
    pub open spec fn ok_in(&self, c: int, m: Map<usize, Heredoc>) -> bool
        decreases self,
    {
        &&& self.left.ok_in(c, m)
        &&& forall|i: int| 0 <= i < self.rights@.len() ==> (#[trigger] self.rights@[i]).ok_in(c, m)
    }

    pub open spec fn spec_shape(&self) -> Shape {
        self.shape
    }

    pub fn new(left: Node) -> (ch: AltPatternChain)
        ensures
            ch.shape == left.shape,
            *ch.left == left,
            ch.rights_shape == (Shape::Inline { len: 0 }),
            ch.rights@.len() == 0,
    {
        AltPatternChain { shape: left.shape, left: Box::new(left), rights_shape: Shape::inline(0), rights: Vec::new() }
    }

    pub fn shape(&self) -> (s: Shape)
        ensures
            s == self.shape,
    {
        self.shape
    }

    pub fn append_right(&mut self, right: Node)
        requires
            old(self).shape.concat_fits(right.shape),
            old(self).rights_shape.concat_fits(right.shape),
        ensures
            final(self).shape == old(self).shape.concat(right.shape),
            final(self).rights_shape == old(self).rights_shape.concat(right.shape),
            final(self).rights@ == old(self).rights@.push(right),
            final(self).left == old(self).left,
    {
        self.shape.append(&right.shape);
        self.rights_shape.append(&right.shape);
        self.rights.push(right);
    }

    /// Writes the alternatives after ` | ` on the line where they fit there, else each
    /// after ` |` on a line of its own; alternatives made of parts that `kind_flat`
    /// describes that fit in the room left on the line are written flat.
    pub fn format(&self, o: &mut Output, ctx: &FormatContext, Ghost(c): Ghost<int>)
        requires
            ready(*old(o), *ctx, c),
            self.ok_in(c, ctx.heredoc_map@),
        ensures
            advanced(*old(o), *final(o), *ctx, c),
            kind_flat_ok(Kind::AltPatternChain(*self)) && total_len(kind_flat(Kind::AltPatternChain(*self)))
                <= budget(*old(o)) ==> wrote_pieces(*old(o), *final(o), kind_flat(Kind::AltPatternChain(*self))),
        decreases heredoc_measure(c), 2int, self, 1int,
    {
        let ghost o0 = *o;
        let ghost rs = self.rights@;
        let ghost lp = node_flat(*self.left);
        let ghost flat = kind_flat_ok(Kind::AltPatternChain(*self)) && total_len(
            kind_flat(Kind::AltPatternChain(*self)),
        ) <= budget(o0);
        proof {
            if flat {
                lemma_total_len_concat(lp, alternatives_flat(rs, rs.len() as int));
                lemma_node_flat_nonempty(*self.left);
            }
        }
        self.left.format(o, ctx, Ghost(c));
        let ghost o1 = *o;
        proof {
            if flat {
                lemma_wrote_fitting(o0, o1, lp);
            }
        }
        let n = self.rights.len();
        let fits = self.rights_shape.fits_in_one_line(o.remaining_width);
        let mut i: usize = 0;
        while i < n
            invariant
                n == self.rights@.len(),
                rs == self.rights@,
                ready(*o, *ctx, c),
                advanced(*old(o), *o, *ctx, c),
                self.ok_in(c, ctx.heredoc_map@),
                0 <= i <= n,
                flat ==> {
                    &&& fits
                    &&& kind_flat_ok(Kind::AltPatternChain(*self))
                    &&& o1.wf()
                    &&& wrote_pieces(o1, *o, alternatives_flat(rs, i as int))
                    &&& budget(*o) == budget(o1) - total_len(alternatives_flat(rs, i as int))
                    &&& total_len(alternatives_flat(rs, n as int)) <= budget(o1)
                    &&& o.indent_prefix().len() == 0
                },
            decreases n - i,
        {
            let ghost oa = *o;
            let right = &self.rights[i];
            if fits {
                o.push_str(&SPACE_PIPE_SPACE);
                let ghost ob = *o;
                proof {
                    if flat {
                        assert(node_flat_ok(rs[i as int]));
                        lemma_node_flat_nonempty(rs[i as int]);
                        lemma_alternatives_flat_prefix(rs, i + 1, n as int);
                        lemma_total_len_concat(alternatives_flat(rs, i as int), seq![SPACE_PIPE_SPACE@]);
                        lemma_total_len_concat(
                            alternatives_flat(rs, i as int) + seq![SPACE_PIPE_SPACE@],
                            node_flat(rs[i as int]),
                        );
                        lemma_total_len_one(SPACE_PIPE_SPACE@);
                        lemma_wrote_fitting(oa, ob, seq![SPACE_PIPE_SPACE@]);
                    }
                }
                right.format(o, ctx, Ghost(c));
                proof {
                    if flat {
                        let ap = node_flat(rs[i as int]);
                        lemma_wrote_fitting(ob, *o, ap);
                        lemma_wrote_pieces_concat(oa, ob, *o, seq![SPACE_PIPE_SPACE@], ap);
                        lemma_wrote_pieces_concat(o1, oa, *o, alternatives_flat(rs, i as int), seq![SPACE_PIPE_SPACE@] + ap);
                        assert(alternatives_flat(rs, i as int) + (seq![SPACE_PIPE_SPACE@] + ap) =~= alternatives_flat(
                            rs,
                            i + 1,
                        ));
                    }
                }
            } else {
                o.push_str(&SPACE_PIPE);
                o.indent();
                o.break_line(ctx, Ghost(c));
                right.leading_trivia.format(o, ctx, EmptyLineHandling::none(), Ghost(c));
                o.put_indent_if_needed();
                right.format(o, ctx, Ghost(c));
                o.dedent();
            }
            i = i + 1;
        }
        proof {
            if flat {
                lemma_wrote_pieces_concat(o0, o1, *o, lp, alternatives_flat(rs, n as int));
            }
        }
    }
}

} // verus!
