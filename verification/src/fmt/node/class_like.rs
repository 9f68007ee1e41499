use vstd::prelude::*;

use crate::fmt::flat::{
    budget, joined, lemma_flat_continues_line, lemma_node_flat_nonempty, lemma_total_len_concat, lemma_total_len_one,
    lemma_wrote_fitting, node_flat, node_flat_ok, total_len,
};
use crate::fmt::output::{
    advanced, heredoc_measure, lemma_wrote_pieces_concat, ready, wrote_pieces, FormatContext, Output,
};
use crate::fmt::shape::Shape;
use crate::fmt::text::{END, SPACE_LT};
use crate::fmt::trivia::{EmptyLineHandling, TrailingTrivia};

use super::block::lemma_plain_ok_settings;
use super::ifs::{closing_end, lemma_end_written_after_indent};
use super::{BlockBody, Heredoc, Node};

verus! {

broadcast use crate::fmt::growth::group_output_growth;

/// `class Name < Superclass ... end` or `module Name ... end`
#[derive(Debug)]
pub struct ClassLike {
    pub keyword: Vec<u8>,
    pub name: Box<Node>,
    pub superclass: Option<Box<Node>>,
    pub head_trailing: TrailingTrivia,
    pub body: BlockBody,
}

impl ClassLike {
    pub open spec fn ok_in(&self, c: int, m: Map<usize, Heredoc>) -> bool
        decreases self,
    {
        &&& self.name.ok_in(c, m)
        &&& match self.superclass {
            Some(s) => s.ok_in(c, m),
            None => true,
        }
        &&& self.body.ok_in(c, m)
    }

    pub fn shape() -> (s: Shape)
        ensures
            s == Shape::Multilines,
    {
        Shape::Multilines
    }

    /// The superclass after ` <`, where there is one.
    pub open spec fn superclass_pieces(&self) -> Seq<Seq<u8>> {
        match self.superclass {
            Some(x) => seq![SPACE_LT@, seq![32u8]] + node_flat(*x),
            None => Seq::empty(),
        }
    }

    /// The first line: the keyword, the name and the superclass.
    pub open spec fn head_pieces(&self) -> Seq<Seq<u8>> {
        seq![self.keyword@, seq![32u8]] + node_flat(*self.name) + self.superclass_pieces()
    }

    /// A class or module laid out plainly at `o`: its name and superclass can be written
    /// flat on the first line, with no comment after it; the line has room for the
    /// indentation; and the body is laid out plainly (see `BlockBody::plain_ok`).
    pub open spec fn plain_layout_ok(&self, o: Output) -> bool {
        &&& node_flat_ok(*self.name)
        &&& match self.superclass {
            Some(x) => node_flat_ok(*x) && x.trailing_trivia.spec_comment() is None,
            None => self.head_trailing.spec_comment() is None,
        }
        &&& total_len(self.head_pieces()) <= budget(o)
        &&& o.indent < o.config.line_width
        &&& self.body.plain_ok(o)
    }

    /// Writes the keyword, the name, the superclass, the body one level deeper and `end`.
    /// A class laid out plainly comes out as its first line, its statements one per line,
    /// and `end`.
    pub fn format(&self, o: &mut Output, ctx: &FormatContext, Ghost(c): Ghost<int>)
        requires
            ready(*old(o), *ctx, c),
            self.ok_in(c, ctx.heredoc_map@),
        ensures
            advanced(*old(o), *final(o), *ctx, c),
            self.plain_layout_ok(*old(o)) ==> final(o).buffer@ == old(o).buffer@ + old(o).indent_prefix()
                + (joined(self.head_pieces()) + self.body.plain_text(
                old(o).indent as nat,
                old(o).config.indent_size as nat,
            ) + closing_end(old(o).indent as nat)),
        decreases heredoc_measure(c), 2int, self, 2int,
    {
        let ghost o0 = *o;
        let ghost plain = self.plain_layout_ok(o0);
        self.format_head(o, ctx, Ghost(c));
        let ghost oh = *o;
        proof {
            if plain {
                lemma_head_pieces_len(*self);
                lemma_wrote_fitting(o0, oh, self.head_pieces());
            }
        }
        let ghost ob = *o;
        proof {
            if plain {
                lemma_plain_ok_settings(self.body, o0, ob);
            }
        }
        self.body.format(o, ctx, true, Ghost(c));
        let ghost om = *o;
        o.break_line(ctx, Ghost(c));
        let ghost on = *o;
        o.put_indent_if_needed();
        let ghost o1 = *o;
        o.push_str(&END);
        proof {
            if plain {
                lemma_end_written_after_indent(om, on, o1, *o);
            }
        }
    }

    /// Writes the keyword, the name and the superclass, which goes on the next line
    /// where it neither fits nor can continue the line.
    pub fn format_head(&self, o: &mut Output, ctx: &FormatContext, Ghost(c): Ghost<int>)
        requires
            ready(*old(o), *ctx, c),
            self.ok_in(c, ctx.heredoc_map@),
        ensures
            advanced(*old(o), *final(o), *ctx, c),
            self.plain_layout_ok(*old(o)) ==> wrote_pieces(*old(o), *final(o), self.head_pieces()),
        decreases heredoc_measure(c), 2int, self, 1int,
    {
        let ghost o0 = *o;
        let ghost plain = self.plain_layout_ok(o0);
        let ghost np = node_flat(*self.name);
        let ghost sp = self.superclass_pieces();
        let ghost kp = seq![self.keyword@, seq![32u8]];
        proof {
            if plain {
                assert(self.head_pieces() == kp + np + sp);
                assert(kp =~= seq![self.keyword@] + seq![seq![32u8]]);
                lemma_total_len_concat(seq![self.keyword@], seq![seq![32u8]]);
                lemma_total_len_concat(kp, np);
                lemma_total_len_concat(kp + np, sp);
                lemma_total_len_one(self.keyword@);
                lemma_total_len_one(seq![32u8]);
                lemma_node_flat_nonempty(*self.name);
            }
        }
        o.push_str(self.keyword.as_slice());
        let ghost o1 = *o;
        o.push(32u8);
        let ghost o2 = *o;
        proof {
            if plain {
                lemma_wrote_fitting(o0, o1, seq![self.keyword@]);
                lemma_wrote_fitting(o1, o2, seq![seq![32u8]]);
                lemma_wrote_pieces_concat(o0, o1, o2, seq![self.keyword@], seq![seq![32u8]]);
            }
        }
        self.name.format(o, ctx, Ghost(c));
        let ghost o3 = *o;
        proof {
            if plain {
                lemma_wrote_fitting(o2, o3, np);
                lemma_wrote_pieces_concat(o0, o2, o3, kp, np);
            }
        }
        if let Some(superclass) = &self.superclass {
            o.push_str(&SPACE_LT);
            let ghost o4 = *o;
            proof {
                if plain {
                    lemma_total_len_one(SPACE_LT@);
                    lemma_total_len_concat(seq![SPACE_LT@], seq![seq![32u8]]);
                    assert(seq![SPACE_LT@, seq![32u8]] =~= seq![SPACE_LT@] + seq![seq![32u8]]);
                    lemma_total_len_concat(seq![SPACE_LT@, seq![32u8]], node_flat(**superclass));
                    lemma_wrote_fitting(o3, o4, seq![SPACE_LT@]);
                    lemma_flat_continues_line(**superclass);
                    lemma_node_flat_nonempty(**superclass);
                }
            }
            if superclass.shape.fits_in_one_line(o.remaining_width) || superclass.can_continue_line() {
                o.push(32u8);
                let ghost o5 = *o;
                proof {
                    if plain {
                        lemma_wrote_fitting(o4, o5, seq![seq![32u8]]);
                    }
                }
                superclass.format(o, ctx, Ghost(c));
                superclass.trailing_trivia.format(o);
                proof {
                    if plain {
                        lemma_wrote_pieces_concat(o3, o4, o5, seq![SPACE_LT@], seq![seq![32u8]]);
                        lemma_wrote_pieces_concat(o3, o5, *o, seq![SPACE_LT@] + seq![seq![32u8]], node_flat(**superclass));
                        lemma_wrote_pieces_concat(o0, o3, *o, kp + np, sp);
                    }
                }
            } else {
                o.indent();
                o.break_line(ctx, Ghost(c));
                superclass.leading_trivia.format(o, ctx, EmptyLineHandling::trim(), Ghost(c));
                o.put_indent_if_needed();
                superclass.format(o, ctx, Ghost(c));
                superclass.trailing_trivia.format(o);
                o.dedent();
            }
        } else {
            self.head_trailing.format(o);
            proof {
                if plain {
                    assert(kp + np + sp =~= kp + np);
                }
            }
        }
    }
}

/// The first line of a class has some text.
pub proof fn lemma_head_pieces_len(k: ClassLike)
    ensures
        k.head_pieces().len() > 0,
{
    assert(k.head_pieces()[0] == k.keyword@);
}

} // verus!
