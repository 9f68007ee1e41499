use vstd::prelude::*;

use crate::fmt::flat::{
    arguments_flat, budget, kind_flat, kind_flat_ok, lemma_arguments_flat_prefix, lemma_node_flat_nonempty,
    lemma_opt_piece_len, lemma_total_len_concat, lemma_total_len_one, lemma_wrote_fitting, node_flat, node_flat_ok, total_len,
};
use crate::fmt::output::{
    advanced, heredoc_measure, lemma_wrote_nothing, lemma_wrote_pieces_concat, ready, wrote_pieces, FormatContext,
    Output,
};
use crate::fmt::shape::Shape;
use crate::fmt::text::COMMA_SPACE;
use crate::fmt::trivia::EmptyLineHandling;

use super::string_like::opt_piece;
use super::{Heredoc, Kind, Node, VirtualEnd};

verus! {

broadcast use crate::fmt::growth::group_output_growth;

/// `(a, b, *c)` on the left of a multiple assignment.
#[derive(Debug)]
pub struct MultiAssignTarget {
    pub shape: Shape,
    pub lparen: Option<Vec<u8>>,
    pub rparen: Option<Vec<u8>>,
    pub targets: Vec<Node>,
    pub with_implicit_rest: bool,
    pub virtual_end: Option<VirtualEnd>,
}

impl MultiAssignTarget {
    pub open spec fn ok_in(&self, c: int, m: Map<usize, Heredoc>) -> bool
        decreases self,
    {
        forall|i: int| 0 <= i < self.targets@.len() ==> (#[trigger] self.targets@[i]).ok_in(c, m)
    }

    pub fn new(lparen: Option<Vec<u8>>, rparen: Option<Vec<u8>>) -> (t: MultiAssignTarget)
        requires
            match (lparen, rparen) {
                (Some(lp), Some(rp)) => lp@.len() + rp@.len() <= usize::MAX,
                _ => true,
            },
        ensures
            // the parentheses count only as a pair
            t.shape == (Shape::Inline {
                len: match (lparen, rparen) {
                    (Some(lp), Some(rp)) => (lp@.len() + rp@.len()) as usize,
                    _ => 0,
                },
            }),
            t.lparen == lparen,
            t.rparen == rparen,
            t.targets@.len() == 0,
            !t.with_implicit_rest,
            t.virtual_end is None,
    {
        let parens_len = match (&lparen, &rparen) {
            (Some(lp), Some(rp)) => lp.len() + rp.len(),
            _ => 0,
        };
        MultiAssignTarget {
            shape: Shape::inline(parens_len),
            lparen,
            rparen,
            targets: Vec::new(),
            with_implicit_rest: false,
            virtual_end: None,
        }
    }

    pub fn append_target(&mut self, target: Node)
        requires
            old(self).shape.insert_fits(target.shape),
        ensures
            final(self).shape == old(self).shape.inserted(target.shape),
            final(self).targets@ == old(self).targets@.push(target),
            final(self).lparen == old(self).lparen,
            final(self).rparen == old(self).rparen,
            final(self).with_implicit_rest == old(self).with_implicit_rest,
            final(self).virtual_end == old(self).virtual_end,
    {
        self.shape.insert(&target.shape);
        self.targets.push(target);
    }

    pub fn set_implicit_rest(&mut self, yes: bool)
        requires
            yes ==> old(self).shape.insert_fits(Shape::Inline { len: 1 }),
        ensures
            // a trailing `,`
            final(self).shape == if yes {
                old(self).shape.inserted(Shape::Inline { len: 1 })
            } else {
                old(self).shape
            },
            final(self).with_implicit_rest == yes,
            final(self).targets == old(self).targets,
            final(self).lparen == old(self).lparen,
            final(self).rparen == old(self).rparen,
            final(self).virtual_end == old(self).virtual_end,
    {
        if yes {
            self.shape.insert(&Shape::inline(1));
        }
        self.with_implicit_rest = yes;
    }

    pub fn set_virtual_end(&mut self, end: Option<VirtualEnd>)
        requires
            match end {
                Some(e) => old(self).shape.concat_fits(e.shape),
                None => true,
            },
        ensures
            final(self).shape == match end {
                Some(e) => old(self).shape.concat(e.shape),
                None => old(self).shape,
            },
            final(self).virtual_end == end,
            final(self).targets == old(self).targets,
            final(self).lparen == old(self).lparen,
            final(self).rparen == old(self).rparen,
            final(self).with_implicit_rest == old(self).with_implicit_rest,
    {
        if let Some(e) = &end {
            self.shape.append(&e.shape);
        }
        self.virtual_end = end;
    }

    /// Writes the targets on the line where their shape fits there, else one per line
    /// in parentheses; targets made of parts that `kind_flat` describes that fit in the
    /// room left on the line are written flat.
    pub fn format(&self, o: &mut Output, ctx: &FormatContext, Ghost(c): Ghost<int>)
        requires
            ready(*old(o), *ctx, c),
            self.ok_in(c, ctx.heredoc_map@),
        ensures
            advanced(*old(o), *final(o), *ctx, c),
            kind_flat_ok(Kind::MultiAssignTarget(*self)) && total_len(kind_flat(Kind::MultiAssignTarget(*self)))
                <= budget(*old(o)) ==> wrote_pieces(*old(o), *final(o), kind_flat(Kind::MultiAssignTarget(*self))),
        decreases heredoc_measure(c), 2int, self, 1int,
    {
        let ghost o0 = *o;
        let ghost ns = self.targets@;
        let ghost flat = kind_flat_ok(Kind::MultiAssignTarget(*self)) && total_len(
            kind_flat(Kind::MultiAssignTarget(*self)),
        ) <= budget(o0);
        let ghost lp = opt_piece(self.lparen);
        let ghost cf = arguments_flat(ns, ns.len() as int);
        let ghost rest = if self.with_implicit_rest {
            seq![seq![44u8]]
        } else {
            Seq::<Seq<u8>>::empty()
        };
        let ghost rp = opt_piece(self.rparen);
        proof {
            assert(kind_flat(Kind::MultiAssignTarget(*self)) == lp + cf + rest + rp);
            if flat {
                lemma_total_len_concat(lp, cf);
                lemma_total_len_concat(lp + cf, rest);
                lemma_total_len_concat(lp + cf + rest, rp);
                lemma_total_len_one(seq![44u8]);
                lemma_opt_piece_len(self.lparen);
                lemma_opt_piece_len(self.rparen);
            }
        }
        let n = self.targets.len();
        if self.shape.fits_in_inline(o.remaining_width) {
            if let Some(lparen) = &self.lparen {
                o.push_str(lparen.as_slice());
                proof {
                    if flat {
                        lemma_wrote_fitting(o0, *o, lp);
                    }
                }
            } else {
                proof {
                    lemma_wrote_nothing(o0);
                }
            }
            let ghost o1 = *o;
            let mut i: usize = 0;
            while i < n
                invariant
                    n == self.targets@.len(),
                    ns == self.targets@,
                    ready(*o, *ctx, c),
                    advanced(*old(o), *o, *ctx, c),
                    self.ok_in(c, ctx.heredoc_map@),
                    0 <= i <= n,
                    flat ==> {
                        &&& kind_flat_ok(Kind::MultiAssignTarget(*self))
                        &&& o1.wf()
                        &&& wrote_pieces(o1, *o, arguments_flat(ns, i as int))
                        &&& budget(*o) == budget(o1) - total_len(arguments_flat(ns, i as int))
                        &&& total_len(arguments_flat(ns, n as int)) <= budget(o1)
                        &&& (o.indent_prefix().len() == 0 || (i == 0 && *o == o0))
                    },
                decreases n - i,
            {
                let ghost oa = *o;
                let ghost glue = if i > 0 {
                    seq![seq![44u8, 32u8]]
                } else {
                    Seq::<Seq<u8>>::empty()
                };
                if i > 0 {
                    o.push_str(&COMMA_SPACE);
                    proof {
                        assert(COMMA_SPACE@ =~= seq![44u8, 32u8]);
                    }
                } else {
                    proof {
                        lemma_wrote_nothing(oa);
                    }
                }
                let ghost od = *o;
                proof {
                    if flat {
                        let ap = node_flat(ns[i as int]);
                        assert(node_flat_ok(ns[i as int]));
                        lemma_node_flat_nonempty(ns[i as int]);
                        lemma_arguments_flat_prefix(ns, i + 1, n as int);
                        lemma_total_len_concat(glue, ap);
                        if i > 0 {
                            lemma_total_len_concat(arguments_flat(ns, i as int), glue);
                            lemma_total_len_concat(arguments_flat(ns, i as int) + glue, ap);
                            lemma_total_len_one(seq![44u8, 32u8]);
                            lemma_wrote_fitting(oa, od, glue);
                        } else {
                            assert(arguments_flat(ns, 1) == ap);
                        }
                    }
                }
                self.targets[i].format(o, ctx, Ghost(c));
                proof {
                    if flat {
                        let ap = node_flat(ns[i as int]);
                        lemma_wrote_fitting(od, *o, ap);
                        lemma_wrote_pieces_concat(oa, od, *o, glue, ap);
                        lemma_wrote_pieces_concat(o1, oa, *o, arguments_flat(ns, i as int), glue + ap);
                        if i > 0 {
                            assert(arguments_flat(ns, i as int) + (glue + ap) =~= arguments_flat(ns, i + 1));
                        } else {
                            assert(arguments_flat(ns, 0) + (glue + ap) =~= arguments_flat(ns, 1));
                        }
                        lemma_total_len_concat(arguments_flat(ns, i as int), glue + ap);
                    }
                }
                i = i + 1;
            }
            let ghost o2 = *o;
            if self.with_implicit_rest {
                o.push(44u8);
                proof {
                    if flat {
                        lemma_wrote_fitting(o2, *o, rest);
                    }
                }
            } else {
                proof {
                    lemma_wrote_nothing(o2);
                }
            }
            let ghost o3 = *o;
            if let Some(rparen) = &self.rparen {
                o.push_str(rparen.as_slice());
            } else {
                proof {
                    lemma_wrote_nothing(o3);
                }
            }
            proof {
                if flat {
                    lemma_wrote_pieces_concat(o0, o1, o2, lp, cf);
                    lemma_wrote_pieces_concat(o0, o2, o3, lp + cf, rest);
                    lemma_wrote_pieces_concat(o0, o3, *o, lp + cf + rest, rp);
                }
            }
        } else {
            o.push(40u8);
            o.indent();
            let mut i: usize = 0;
            while i < n
                invariant
                    n == self.targets@.len(),
                    ready(*o, *ctx, c),
                    advanced(*old(o), *o, *ctx, c),
                    self.ok_in(c, ctx.heredoc_map@),
                decreases n - i,
            {
                let target = &self.targets[i];
                o.break_line(ctx, Ghost(c));
                target.leading_trivia.format(o, ctx, EmptyLineHandling::Trim { start: i == 0, end: false }, Ghost(c));
                target.format(o, ctx, Ghost(c));
                if i + 1 < n || self.with_implicit_rest {
                    o.push(44u8);
                }
                target.trailing_trivia.format(o);
                i = i + 1;
            }
            o.write_trivia_at_virtual_end(ctx, &self.virtual_end, true, false, Ghost(c));
            o.dedent();
            o.break_line(ctx, Ghost(c));
            o.push(41u8);
        }
    }
}

} // verus!
