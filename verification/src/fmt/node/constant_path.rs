use vstd::prelude::*;

use crate::fmt::flat::{
    budget, kind_flat, kind_flat_ok, lemma_node_flat_nonempty, lemma_path_parts_flat_prefix, lemma_total_len_concat,
    lemma_total_len_one, lemma_wrote_fitting, node_flat, path_parts_flat, total_len,
};
use crate::fmt::output::{
    advanced, heredoc_measure, lemma_wrote_nothing, lemma_wrote_pieces_concat, ready, wrote_pieces, FormatContext,
    Output,
};
use crate::fmt::shape::Shape;
use crate::fmt::text::COLON2;
use crate::fmt::trivia::{EmptyLineHandling, LeadingTrivia};

use super::{Heredoc, Kind, Node};

verus! {

broadcast use crate::fmt::growth::group_output_growth;

/// `A::B::C`, with the comments that may stand before a part.
#[derive(Debug)]
pub struct ConstantPath {
    pub shape: Shape,
    pub root: Option<Box<Node>>,
    pub parts: Vec<(LeadingTrivia, Vec<u8>)>,
}

impl ConstantPath {
    pub open spec fn ok_in(&self, c: int, m: Map<usize, Heredoc>) -> bool
        decreases self,
    {
        match self.root {
            Some(r) => r.ok_in(c, m),
            None => true,
        }
    }

    pub fn new(root: Option<Node>) -> (p: ConstantPath)
        ensures
            p.shape == match root {
                Some(r) => r.shape,
                None => Shape::Inline { len: 0 },
            },
            match root {
                Some(r) => p.root == Some(Box::new(r)),
                None => p.root is None,
            },
            p.parts@.len() == 0,
    {
        let shape = match &root {
            Some(r) => r.shape,
            None => Shape::inline(0),
        };
        let root = match root {
            Some(r) => Some(Box::new(r)),
            None => None,
        };
        ConstantPath { shape, root, parts: Vec::new() }
    }

    pub fn append_part(&mut self, leading: LeadingTrivia, path: Vec<u8>)
        requires
            old(self).shape.size() + 2 + path@.len() <= usize::MAX,
        ensures
            // `::` in front of the part
            final(self).shape == old(self).shape.concat(leading.spec_shape()).concat(
                Shape::Inline { len: (2 + path@.len()) as usize },
            ),
            final(self).parts@ == old(self).parts@.push((leading, path)),
            final(self).root == old(self).root,
    {
        self.shape.append(leading.shape());
        self.shape.append(&Shape::inline(2 + path.len()));
        self.parts.push((leading, path));
    }

    /// The flat text of the root, if there is one.
    pub open spec fn root_flat(&self) -> Seq<Seq<u8>> {
        match self.root {
            Some(r) => node_flat(*r),
            None => Seq::empty(),
        }
    }

    /// Writes the root, then each part after `::`, a part behind comments on a line of
    /// its own; a path made of parts that `kind_flat` describes that fits in the room
    /// left on the line is written flat.
    pub fn format(&self, o: &mut Output, ctx: &FormatContext, Ghost(c): Ghost<int>)
        requires
            ready(*old(o), *ctx, c),
            self.ok_in(c, ctx.heredoc_map@),
        ensures
            advanced(*old(o), *final(o), *ctx, c),
            kind_flat_ok(Kind::ConstantPath(*self)) && total_len(kind_flat(Kind::ConstantPath(*self)))
                <= budget(*old(o)) ==> wrote_pieces(*old(o), *final(o), kind_flat(Kind::ConstantPath(*self))),
        decreases heredoc_measure(c), 2int, self, 1int,
    {
        let ghost o0 = *o;
        let ghost ps = self.parts@;
        let ghost rp = self.root_flat();
        let ghost pf = path_parts_flat(ps, ps.len() as int, ps.len() as int);
        let ghost flat = kind_flat_ok(Kind::ConstantPath(*self)) && total_len(kind_flat(Kind::ConstantPath(*self)))
            <= budget(o0);
        proof {
            assert(kind_flat(Kind::ConstantPath(*self)) == rp + seq![COLON2@] + pf);
            if flat {
                lemma_total_len_concat(rp, seq![COLON2@]);
                lemma_total_len_concat(rp + seq![COLON2@], pf);
                lemma_total_len_one(COLON2@);
            }
        }
        if let Some(root) = &self.root {
            root.format(o, ctx, Ghost(c));
            proof {
                if flat {
                    lemma_node_flat_nonempty(**root);
                    lemma_wrote_fitting(o0, *o, rp);
                }
            }
        } else {
            proof {
                lemma_wrote_nothing(o0);
            }
        }
        let ghost oa = *o;
        o.push_str(&COLON2);
        let ghost o1 = *o;
        proof {
            if flat {
                lemma_wrote_fitting(oa, o1, seq![COLON2@]);
                lemma_wrote_pieces_concat(o0, oa, o1, rp, seq![COLON2@]);
            }
        }
        let n = self.parts.len();
        let mut i: usize = 0;
        while i < n
            invariant
                n == self.parts@.len(),
                ps == self.parts@,
                ready(*o, *ctx, c),
                advanced(*old(o), *o, *ctx, c),
                0 <= i <= n,
                flat ==> {
                    &&& kind_flat_ok(Kind::ConstantPath(*self))
                    &&& o1.wf()
                    &&& wrote_pieces(o1, *o, path_parts_flat(ps, i as int, n as int))
                    &&& budget(*o) == budget(o1) - total_len(path_parts_flat(ps, i as int, n as int))
                    &&& total_len(path_parts_flat(ps, n as int, n as int)) <= budget(o1)
                    &&& o.indent_prefix().len() == 0
                },
            decreases n - i,
        {
            let ghost ob = *o;
            let (leading, path) = &self.parts[i];
            proof {
                if flat {
                    assert(ps[i as int].0.spec_lines().len() == 0);
                }
            }
            if leading.is_empty() {
                o.push_str(path.as_slice());
            } else {
                o.indent();
                o.break_line(ctx, Ghost(c));
                leading.format(o, ctx, EmptyLineHandling::trim(), Ghost(c));
                o.put_indent_if_needed();
                o.push_str(path.as_slice());
                o.dedent();
            }
            let ghost oc = *o;
            if i + 1 < n {
                o.push_str(&COLON2);
            } else {
                proof {
                    lemma_wrote_nothing(oc);
                }
            }
            proof {
                if flat {
                    let sep = if i + 1 < n {
                        seq![COLON2@]
                    } else {
                        Seq::<Seq<u8>>::empty()
                    };
                    let step = seq![ps[i as int].1@] + sep;
                    assert(path_parts_flat(ps, i + 1, n as int) =~= path_parts_flat(ps, i as int, n as int) + step);
                    lemma_path_parts_flat_prefix(ps, i + 1, n as int, n as int);
                    lemma_total_len_concat(path_parts_flat(ps, i as int, n as int), step);
                    lemma_total_len_concat(seq![ps[i as int].1@], sep);
                    lemma_total_len_one(ps[i as int].1@);
                    lemma_wrote_pieces_concat(ob, oc, *o, seq![ps[i as int].1@], sep);
                    lemma_wrote_fitting(ob, *o, step);
                    lemma_wrote_pieces_concat(o1, ob, *o, path_parts_flat(ps, i as int, n as int), step);
                }
            }
            i = i + 1;
        }
        proof {
            if flat {
                lemma_wrote_pieces_concat(o0, o1, *o, rp + seq![COLON2@], pf);
            }
        }
    }
}

} // verus!
