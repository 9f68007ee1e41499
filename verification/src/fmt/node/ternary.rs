use vstd::prelude::*;

use crate::fmt::flat::{
    budget, joined, node_flat_ok, kind_flat, kind_flat_ok, lemma_node_flat_nonempty, lemma_total_len_concat, lemma_total_len_one,
    lemma_wrote_fitting, node_flat, total_len,
};
use crate::fmt::output::{
    advanced, heredoc_measure, lemma_pushes_one, lemma_wrote_pieces_concat, ready, spaces, wrote_pieces,
    FormatContext, Output,
};
use crate::fmt::shape::Shape;
use crate::fmt::text::{SPACE_COLON_SPACE, SPACE_QUESTION};
use crate::fmt::trivia::{EmptyLineHandling, TrailingTrivia};

use super::arguments::trailing_text;
use super::{Heredoc, Kind, Node};

verus! {

broadcast use crate::fmt::growth::group_output_growth;

/// `predicate ? then_branch : otherwise`
#[derive(Debug)]
pub struct Ternary {
    pub shape: Shape,
    pub predicate: Box<Node>,
    pub predicate_trailing: TrailingTrivia,
    pub then_branch: Box<Node>,
    pub otherwise: Box<Node>,
}

impl Ternary {
    pub open spec fn ok_in(&self, c: int, m: Map<usize, Heredoc>) -> bool
        decreases self,
    {
        self.predicate.ok_in(c, m) && self.then_branch.ok_in(c, m) && self.otherwise.ok_in(c, m)
    }

    /// The shape of ` ? ` and ` : ` around the three parts.
    pub open spec fn spec_shape_of(predicate: Shape, trailing: Shape, then_branch: Shape, otherwise: Shape) -> Shape {
        predicate.concat(Shape::Inline { len: 3 }).concat(trailing).concat(then_branch).concat(
            Shape::Inline { len: 3 },
        ).concat(otherwise)
    }

    pub fn new(predicate: Node, predicate_trailing: TrailingTrivia, then_branch: Node, otherwise: Node) -> (t: Ternary)
        requires
            predicate.shape.size() + then_branch.shape.size() + otherwise.shape.size() + 6 <= usize::MAX,
        ensures
            t.shape == Self::spec_shape_of(
                predicate.shape,
                predicate_trailing.spec_shape(),
                then_branch.shape,
                otherwise.shape,
            ),
            *t.predicate == predicate,
            t.predicate_trailing == predicate_trailing,
            *t.then_branch == then_branch,
            *t.otherwise == otherwise,
    {
        let s1 = predicate.shape.add(&Shape::inline(3));
        let s2 = s1.add(predicate_trailing.shape());
        let s3 = s2.add(&then_branch.shape);
        let s4 = s3.add(&Shape::inline(3));
        let shape = s4.add(&otherwise.shape);
        Ternary {
            shape,
            predicate: Box::new(predicate),
            predicate_trailing,
            then_branch: Box::new(then_branch),
            otherwise: Box::new(otherwise),
        }
    }

    /// A conditional expression whose predicate is followed by a comment, laid out at
    /// `o`: the predicate and ` ?` fit on the line as flat text, the then branch goes
    /// on the next line one level deeper, and the otherwise branch after `: ` on the line
    /// after that.
    pub open spec fn comment_layout_ok(&self, o: Output) -> bool {
        &&& self.predicate_trailing.spec_comment() is Some
        &&& node_flat_ok(*self.predicate)
        &&& total_len(node_flat(*self.predicate)) + 2 <= budget(o)
        &&& o.heredoc_queue@.len() == 0
        &&& o.indent + o.config.indent_size <= usize::MAX
        &&& self.then_branch.leading_trivia.spec_lines().len() == 0
        &&& node_flat_ok(*self.then_branch)
        &&& total_len(node_flat(*self.then_branch)) <= o.config.line_width - (o.indent + o.config.indent_size)
        &&& node_flat_ok(*self.otherwise)
        &&& o.indent + 2 + total_len(node_flat(*self.otherwise)) <= o.config.line_width
        &&& self.otherwise.shape.spec_fits_in_one_line(o.config.line_width - o.indent - 1)
    }

    /// The text of such a conditional expression at indentation `indent`.
    pub open spec fn comment_text(&self, indent: nat, indent_size: nat) -> Seq<u8> {
        joined(node_flat(*self.predicate)) + seq![32u8, 63u8] + self.predicate_comment() + seq![10u8] + spaces(
            indent + indent_size,
        ) + joined(node_flat(*self.then_branch)) + trailing_text(*self.then_branch) + seq![10u8] + spaces(indent)
            + seq![58u8, 32u8] + joined(node_flat(*self.otherwise)) + trailing_text(*self.otherwise)
    }

    /// Writes the conditional expression; where it is made of parts that `kind_flat`
    /// describes and fits in the room left on the line, it is written flat; a comment
    /// after the predicate puts each branch on a line of its own.
    #[verifier::spinoff_prover]
    #[verifier::rlimit(40)]
    pub fn format(&self, o: &mut Output, ctx: &FormatContext, Ghost(c): Ghost<int>)
        requires
            ready(*old(o), *ctx, c),
            self.ok_in(c, ctx.heredoc_map@),
        ensures
            advanced(*old(o), *final(o), *ctx, c),
            kind_flat_ok(Kind::Ternary(*self)) && total_len(kind_flat(Kind::Ternary(*self))) <= budget(
                *old(o),
            ) ==> wrote_pieces(*old(o), *final(o), kind_flat(Kind::Ternary(*self))),
            self.comment_layout_ok(*old(o)) ==> final(o).buffer@ == old(o).buffer@ + old(o).indent_prefix()
                + self.comment_text(old(o).indent as nat, old(o).config.indent_size as nat),
        decreases heredoc_measure(c), 2int, self, 1int,
    {
        let ghost o0 = *o;
        let ghost layout = self.comment_layout_ok(o0);
        let ghost pp = node_flat(*self.predicate);
        let ghost q = seq![seq![32u8, 63u8], seq![32u8]];
        let ghost tp = node_flat(*self.then_branch);
        let ghost col = seq![seq![32u8, 58u8, 32u8]];
        let ghost ep = node_flat(*self.otherwise);
        let ghost flat = kind_flat_ok(Kind::Ternary(*self)) && total_len(kind_flat(Kind::Ternary(*self)))
            <= budget(o0);
        proof {
            if flat {
                assert(kind_flat(Kind::Ternary(*self)) =~= pp + q + tp + col + ep);
                lemma_total_len_concat(pp, q);
                lemma_total_len_concat(pp + q, tp);
                lemma_total_len_concat(pp + q + tp, col);
                lemma_total_len_concat(pp + q + tp + col, ep);
                lemma_total_len_concat(seq![seq![32u8, 63u8]], seq![seq![32u8]]);
                assert(seq![seq![32u8, 63u8]] + seq![seq![32u8]] =~= q);
                lemma_total_len_one(seq![32u8, 63u8]);
                lemma_total_len_one(seq![32u8]);
                lemma_total_len_one(seq![32u8, 58u8, 32u8]);
                lemma_node_flat_nonempty(*self.predicate);
                lemma_node_flat_nonempty(*self.then_branch);
                lemma_node_flat_nonempty(*self.otherwise);
            }
        }
        self.predicate.format(o, ctx, Ghost(c));
        let ghost o1 = *o;
        o.push_str(&SPACE_QUESTION);
        proof {
            assert(SPACE_QUESTION@ =~= seq![32u8, 63u8]);
            if flat {
                lemma_wrote_fitting(o0, o1, pp);
                lemma_wrote_fitting(o1, *o, seq![seq![32u8, 63u8]]);
                assert(self.then_branch.shape.spec_fits_in_one_line(o.remaining_width as int));
            }
        }
        let ghost o2 = *o;
        proof {
            if layout {
                lemma_node_flat_nonempty(*self.predicate);
                lemma_total_len_one(seq![32u8, 63u8]);
                lemma_wrote_fitting(o0, o1, pp);
                lemma_wrote_fitting(o1, o2, seq![seq![32u8, 63u8]]);
                assert(o2.buffer@ =~= o0.buffer@ + o0.indent_prefix() + joined(pp) + seq![32u8, 63u8]);
                assert(self.then_below_ok(o2));
            }
        }
        if self.predicate_trailing.is_none() && self.then_branch.shape.fits_in_one_line(o.remaining_width) {
            o.push(32u8);
            let ghost o3 = *o;
            proof {
                if flat {
                    lemma_wrote_fitting(o2, o3, seq![seq![32u8]]);
                }
            }
            self.then_branch.format(o, ctx, Ghost(c));
            self.then_branch.trailing_trivia.format(o);
            proof {
                if flat {
                    lemma_wrote_pieces_concat(o1, o2, o3, seq![seq![32u8, 63u8]], seq![seq![32u8]]);
                    lemma_wrote_pieces_concat(o1, o3, *o, q, tp);
                    lemma_wrote_fitting(o3, *o, tp);
                }
            }
        } else {
            self.then_on_next_line(o, ctx, Ghost(c));
        }
        let ghost o4 = *o;
        proof {
            if layout {
                assert(o4.indent == o0.indent && o4.config == o0.config);
                assert(self.otherwise_below_ok(o4));
            }
            if flat {
                assert(self.otherwise.shape.spec_fits_in_one_line(o4.remaining_width as int));
            }
        }
        if self.predicate_trailing.is_none() && self.then_branch.shape.is_inline()
            && self.otherwise.shape.fits_in_one_line(o.remaining_width) {
            o.push_str(&SPACE_COLON_SPACE);
            let ghost o5 = *o;
            proof {
                assert(SPACE_COLON_SPACE@ =~= seq![32u8, 58u8, 32u8]);
                if flat {
                    lemma_wrote_fitting(o4, o5, col);
                }
            }
            self.otherwise.format(o, ctx, Ghost(c));
            self.otherwise.trailing_trivia.format(o);
            proof {
                if flat {
                    lemma_wrote_pieces_concat(o4, o5, *o, col, ep);
                    lemma_wrote_pieces_concat(o0, o1, o4, pp, q + tp);
                    lemma_wrote_pieces_concat(o0, o4, *o, pp + (q + tp), col + ep);
                    assert(pp + (q + tp) + (col + ep) =~= kind_flat(Kind::Ternary(*self)));
                }
            }
        } else {
            self.otherwise_on_next_line(o, ctx, Ghost(c));
        }
        proof {
            if layout {
                assert(o.buffer@ =~= o0.buffer@ + o0.indent_prefix() + self.comment_text(
                    o0.indent as nat,
                    o0.config.indent_size as nat,
                ));
            }
        }
    }

    /// What follows the predicate's comment: ` ` and the comment.
    pub open spec fn predicate_comment(&self) -> Seq<u8> {
        match self.predicate_trailing.spec_comment() {
            Some(comment) => seq![32u8] + comment@,
            None => Seq::empty(),
        }
    }

    /// The then branch on the next line one level deeper, after the predicate's comment,
    /// fits there as its flat text, from `o` with no heredoc waiting and nothing to indent.
    pub open spec fn then_below_ok(&self, o: Output) -> bool {
        &&& o.heredoc_queue@.len() == 0
        &&& o.indent_prefix().len() == 0
        &&& o.indent + o.config.indent_size <= usize::MAX
        &&& self.then_branch.leading_trivia.spec_lines().len() == 0
        &&& node_flat_ok(*self.then_branch)
        &&& total_len(node_flat(*self.then_branch)) <= o.config.line_width - (o.indent + o.config.indent_size)
    }

    /// The predicate's comment, then the then branch on a line of its own one level deeper.
    fn then_on_next_line(&self, o: &mut Output, ctx: &FormatContext, Ghost(c): Ghost<int>)
        requires
            ready(*old(o), *ctx, c),
            self.ok_in(c, ctx.heredoc_map@),
        ensures
            advanced(*old(o), *final(o), *ctx, c),
            self.then_below_ok(*old(o)) ==> {
                &&& final(o).buffer@ == old(o).buffer@ + self.predicate_comment() + seq![10u8] + spaces(
                    (old(o).indent + old(o).config.indent_size) as nat,
                ) + joined(node_flat(*self.then_branch)) + trailing_text(*self.then_branch)
                &&& final(o).indent == old(o).indent
                &&& final(o).heredoc_queue@.len() == 0
            },
        decreases heredoc_measure(c), 2int, self, 0int,
    {
        let ghost o0 = *o;
        let ghost ok = self.then_below_ok(o0);
        self.predicate_trailing.format(o);
        let ghost oa = *o;
        proof {
            if ok {
                if let Some(comment) = self.predicate_trailing.spec_comment() {
                    let mid = choose|mid: Output| {
                        &&& #[trigger] o0.pushed(mid, seq![32u8])
                        &&& mid.same_but_raw(oa, comment@)
                    };
                    lemma_pushes_one(o0.text_state(), o0.config.line_width as int, o0.indent as nat, seq![32u8]);
                }
                assert(oa.buffer@ =~= o0.buffer@ + self.predicate_comment());
            }
        }
        o.indent();
        o.break_line(ctx, Ghost(c));
        self.then_branch.leading_trivia.format(o, ctx, EmptyLineHandling::trim(), Ghost(c));
        let ghost ob = *o;
        proof {
            if ok {
                assert(ob.at_line_start());
                lemma_node_flat_nonempty(*self.then_branch);
            }
        }
        self.then_branch.format(o, ctx, Ghost(c));
        let ghost oc = *o;
        proof {
            if ok {
                lemma_wrote_fitting(ob, oc, node_flat(*self.then_branch));
            }
        }
        self.then_branch.trailing_trivia.format(o);
        proof {
            if ok {
                if let Some(comment) = self.then_branch.trailing_trivia.spec_comment() {
                    let mid = choose|mid: Output| {
                        &&& #[trigger] oc.pushed(mid, seq![32u8])
                        &&& mid.same_but_raw(*o, comment@)
                    };
                    lemma_pushes_one(oc.text_state(), oc.config.line_width as int, oc.indent as nat, seq![32u8]);
                }
                assert(o.buffer@ =~= oc.buffer@ + trailing_text(*self.then_branch));
            }
        }
        o.dedent();
    }

    /// The otherwise branch after `: ` at the start of the next line fits there as its
    /// flat text, with no heredoc waiting.
    pub open spec fn otherwise_below_ok(&self, o: Output) -> bool {
        &&& o.heredoc_queue@.len() == 0
        &&& node_flat_ok(*self.otherwise)
        &&& o.indent + 2 + total_len(node_flat(*self.otherwise)) <= o.config.line_width
        &&& self.otherwise.shape.spec_fits_in_one_line(o.config.line_width - o.indent - 1)
    }

    /// `:` at the start of the next line, then the otherwise branch after a space where
    /// it fits or can continue the line, else one level deeper on the line after.
    fn otherwise_on_next_line(&self, o: &mut Output, ctx: &FormatContext, Ghost(c): Ghost<int>)
        requires
            ready(*old(o), *ctx, c),
            self.ok_in(c, ctx.heredoc_map@),
        ensures
            advanced(*old(o), *final(o), *ctx, c),
            self.otherwise_below_ok(*old(o)) ==> final(o).buffer@ == old(o).buffer@ + seq![10u8] + spaces(
                old(o).indent as nat,
            ) + seq![58u8, 32u8] + joined(node_flat(*self.otherwise)) + trailing_text(*self.otherwise),
        decreases heredoc_measure(c), 2int, self, 0int,
    {
        let ghost o0 = *o;
        let ghost ok = self.otherwise_below_ok(o0);
        o.break_line(ctx, Ghost(c));
        let ghost oa = *o;
        o.push(58u8);
        let ghost ob = *o;
        proof {
            if ok {
                lemma_pushes_one(oa.text_state(), oa.config.line_width as int, oa.indent as nat, seq![58u8]);
                assert(ob.buffer@ =~= o0.buffer@ + seq![10u8] + spaces(o0.indent as nat) + seq![58u8]);
            }
        }
        if self.otherwise.shape.fits_in_one_line(o.remaining_width) || self.otherwise.can_continue_line() {
            o.push(32u8);
            let ghost od = *o;
            proof {
                if ok {
                    lemma_pushes_one(ob.text_state(), ob.config.line_width as int, ob.indent as nat, seq![32u8]);
                    assert(od.indent_prefix() =~= Seq::<u8>::empty());
                    lemma_node_flat_nonempty(*self.otherwise);
                }
            }
            self.otherwise.format(o, ctx, Ghost(c));
            let ghost oe = *o;
            proof {
                if ok {
                    lemma_wrote_fitting(od, oe, node_flat(*self.otherwise));
                }
            }
            self.otherwise.trailing_trivia.format(o);
            proof {
                if ok {
                    if let Some(comment) = self.otherwise.trailing_trivia.spec_comment() {
                        let mid = choose|mid: Output| {
                            &&& #[trigger] oe.pushed(mid, seq![32u8])
                            &&& mid.same_but_raw(*o, comment@)
                        };
                        lemma_pushes_one(oe.text_state(), oe.config.line_width as int, oe.indent as nat, seq![32u8]);
                    }
                    assert(o.buffer@ =~= oe.buffer@ + trailing_text(*self.otherwise));
                    assert(o.buffer@ =~= o0.buffer@ + seq![10u8] + spaces(o0.indent as nat) + seq![58u8, 32u8]
                        + joined(node_flat(*self.otherwise)) + trailing_text(*self.otherwise));
                }
            }
        } else {
            proof {
                if ok {
                    assert(ob.remaining_width == o0.config.line_width - o0.indent - 1);
                }
            }
            o.indent();
            o.break_line(ctx, Ghost(c));
            self.otherwise.leading_trivia.format(o, ctx, EmptyLineHandling::trim(), Ghost(c));
            self.otherwise.format(o, ctx, Ghost(c));
            self.otherwise.trailing_trivia.format(o);
            o.dedent();
        }
    }
}

} // verus!
