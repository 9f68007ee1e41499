use vstd::prelude::*;

use crate::fmt::flat::{
    budget, joined, kind_flat, kind_flat_ok, lemma_flat_continues_line, lemma_node_flat_nonempty,
    lemma_total_len_concat, lemma_total_len_one, lemma_wrote_fitting, node_flat, node_flat_ok, total_len,
};
use crate::fmt::output::{
    advanced, heredoc_measure, lemma_pushes_one, lemma_wrote_nothing, lemma_wrote_pieces_concat, ready, spaces,
    wrote_pieces, FormatContext, Output,
};
use crate::fmt::shape::Shape;
use crate::fmt::text::{CASE, ELSE, END, IN, THEN};
use crate::fmt::trivia::{EmptyLineHandling, LeadingTrivia, TrailingTrivia};

use super::ifs::{closing_end, lemma_end_written};
use super::statements::{block_lines, block_ok};
use super::{Else, Heredoc, Kind, Node, Statements};

verus! {

broadcast use crate::fmt::growth::group_output_growth;

/// `case ... in ... end`
#[derive(Debug)]
pub struct CaseMatch {
    pub predicate: Option<Box<Node>>,
    pub case_trailing: TrailingTrivia,
    pub first_branch_leading: LeadingTrivia,
    pub branches: Vec<CaseIn>,
    pub otherwise: Option<Else>,
}

/// `in pattern then body`
#[derive(Debug)]
pub struct CaseIn {
    pub shape: Shape,
    pub pattern: Box<Node>,
    pub body: Statements,
}

impl CaseMatch {
    pub open spec fn ok_in(&self, c: int, m: Map<usize, Heredoc>) -> bool
        decreases self,
    {
        &&& match self.predicate {
            Some(p) => p.ok_in(c, m),
            None => true,
        }
        &&& forall|i: int| 0 <= i < self.branches@.len() ==> (#[trigger] self.branches@[i]).ok_in(c, m)
        &&& match self.otherwise {
            Some(e) => e.ok_in(c, m),
            None => true,
        }
    }

    pub fn shape() -> (s: Shape)
        ensures
            s == Shape::Multilines,
    {
        Shape::Multilines
    }

    /// The predicate after `case`, with the space before it, where there is one.
    pub open spec fn predicate_text(&self) -> Seq<u8> {
        match self.predicate {
            Some(p) => seq![32u8] + joined(node_flat(*p)),
            None => Seq::empty(),
        }
    }

    /// The `else` branch at indentation `indent`, where there is one.
    pub open spec fn else_text(&self, indent: nat, indent_size: nat) -> Seq<u8> {
        match self.otherwise {
            Some(e) => seq![10u8] + spaces(indent) + ELSE@ + block_lines(e.body, indent + indent_size),
            None => Seq::empty(),
        }
    }

    /// A `case`/`in` laid out plainly at `o`: the predicate, if any, can be written flat
    /// after `case`, with no comment after it; no comment stands before the first branch;
    /// each branch can stand on a line of its own (see `CaseIn::one_line_ok`); and the
    /// statements of an `else` branch can each be written flat one level deeper.
    pub open spec fn plain_layout_ok(&self, o: Output) -> bool {
        &&& o.heredoc_queue@.len() == 0
        &&& o.indent + o.config.indent_size <= usize::MAX
        &&& match self.predicate {
            Some(p) => node_flat_ok(*p) && p.trailing_trivia.spec_comment() is None && CASE@.len() + 1
                + total_len(node_flat(*p)) <= budget(o),
            None => self.case_trailing.spec_comment() is None && CASE@.len() <= budget(o),
        }
        &&& self.first_branch_leading.spec_lines().len() == 0
        &&& self.branches@.len() > 0
        &&& forall|i: int|
            0 <= i < self.branches@.len() ==> (#[trigger] self.branches@[i]).one_line_ok(
                o.config.line_width - o.indent,
            )
        &&& match self.otherwise {
            Some(e) => e.keyword_trailing.spec_comment() is None && block_ok(e.body, o),
            None => true,
        }
    }

    /// The text of such a `case` at indentation `indent`: `case` and the predicate, each
    /// branch on a line of its own, the `else` branch, and `end`.
    pub open spec fn plain_text(&self, indent: nat, indent_size: nat) -> Seq<u8> {
        CASE@ + self.predicate_text() + seq![10u8] + in_rows(self.branches@, self.branches@.len() as int, indent)
            + self.else_text(indent, indent_size) + closing_end(indent)
    }

    /// Writes `case` and the predicate, the branches, and `end`. A `case` laid out plainly
    /// comes out as `plain_text`.
    #[verifier::spinoff_prover]
    pub fn format(&self, o: &mut Output, ctx: &FormatContext, Ghost(c): Ghost<int>)
        requires
            ready(*old(o), *ctx, c),
            self.ok_in(c, ctx.heredoc_map@),
        ensures
            advanced(*old(o), *final(o), *ctx, c),
            self.plain_layout_ok(*old(o)) ==> final(o).buffer@ == old(o).buffer@ + old(o).indent_prefix()
                + self.plain_text(old(o).indent as nat, old(o).config.indent_size as nat),
        decreases heredoc_measure(c), 2int, self, 1int,
    {
        let ghost o0 = *o;
        let ghost plain = self.plain_layout_ok(o0);
        let ghost ind = o0.indent as nat;
        let ghost lw = o0.config.line_width as int;
        self.format_head(o, ctx, Ghost(c));
        let ghost oh = *o;
        if self.first_branch_leading.is_empty() {
            o.break_line(ctx, Ghost(c));
        } else {
            o.indent();
            o.break_line(ctx, Ghost(c));
            self.first_branch_leading.format(o, ctx, EmptyLineHandling::trim(), Ghost(c));
            o.dedent();
        }
        let ghost ob0 = *o;
        self.format_branches(o, ctx, Ghost(c));
        proof {
            if plain {
                lemma_in_line_pieces_len(self.branches@[0]);
                assert(self.branches@[0].one_line_ok(lw - ind));
                assert(ob0.buffer@ == oh.buffer@.push(10u8));
                assert(self.branches_ok(ob0));
            }
        }
        self.format_tail(o, ctx, Ghost(c));
        proof {
            if plain {
                assert(o.buffer@ =~= o0.buffer@ + o0.indent_prefix() + self.plain_text(ind, o0.config.indent_size as nat));
            }
        }
    }

    /// Nothing waits to be written, the line has room for the indentation, and the
    /// `else` branch, if any, has no comment after its keyword and statements that can
    /// each be written flat one level deeper.
    pub open spec fn tail_ok(&self, o: Output) -> bool {
        &&& o.heredoc_queue@.len() == 0
        &&& o.indent < o.config.line_width
        &&& match self.otherwise {
            Some(e) => e.keyword_trailing.spec_comment() is None && block_ok(e.body, o),
            None => true,
        }
    }

    /// Writes the `else` branch, if any, and `end`, each from a new line.
    pub fn format_tail(&self, o: &mut Output, ctx: &FormatContext, Ghost(c): Ghost<int>)
        requires
            ready(*old(o), *ctx, c),
            self.ok_in(c, ctx.heredoc_map@),
        ensures
            advanced(*old(o), *final(o), *ctx, c),
            self.tail_ok(*old(o)) ==> final(o).buffer@ == old(o).buffer@ + self.else_text(
                old(o).indent as nat,
                old(o).config.indent_size as nat,
            ) + closing_end(old(o).indent as nat),
        decreases heredoc_measure(c), 2int, self, 0int,
    {
        let ghost o0 = *o;
        let ghost plain = self.tail_ok(o0);
        let ghost ind = o0.indent as nat;
        if let Some(otherwise) = &self.otherwise {
            o.break_line(ctx, Ghost(c));
            let ghost ob = *o;
            o.push_str(&ELSE);
            otherwise.keyword_trailing.format(o);
            proof {
                if plain {
                    lemma_pushes_one(ob.text_state(), ob.config.line_width as int, ind, ELSE@);
                    assert(o.buffer@ =~= o0.buffer@ + seq![10u8] + spaces(ind) + ELSE@);
                }
            }
            otherwise.body.format_block(o, ctx, Ghost(c));
        }
        let ghost om = *o;
        proof {
            if plain {
                assert(om.buffer@ =~= o0.buffer@ + self.else_text(ind, o0.config.indent_size as nat));
            }
        }
        o.break_line(ctx, Ghost(c));
        let ghost on = *o;
        o.push_str(&END);
        proof {
            if plain {
                lemma_end_written(om, on, *o);
            }
        }
    }

    /// At the start of a line with nothing waiting to be written, each branch can stand
    /// on a line of its own (see `CaseIn::one_line_ok`).
    pub open spec fn branches_ok(&self, o: Output) -> bool {
        &&& o.at_line_start()
        &&& o.heredoc_queue@.len() == 0
        &&& self.branches@.len() > 0
        &&& forall|i: int|
            0 <= i < self.branches@.len() ==> (#[trigger] self.branches@[i]).one_line_ok(
                o.config.line_width - o.indent,
            )
    }

    /// Writes the branches one per line, from the start of the current line. Branches
    /// that `branches_ok` describes come out as `in_rows`.
    pub fn format_branches(&self, o: &mut Output, ctx: &FormatContext, Ghost(c): Ghost<int>)
        requires
            ready(*old(o), *ctx, c),
            self.ok_in(c, ctx.heredoc_map@),
        ensures
            advanced(*old(o), *final(o), *ctx, c),
            self.branches_ok(*old(o)) ==> {
                &&& final(o).buffer@ == old(o).buffer@ + in_rows(
                    self.branches@,
                    self.branches@.len() as int,
                    old(o).indent as nat,
                )
                &&& final(o).indent == old(o).indent
                &&& final(o).config == old(o).config
                &&& final(o).heredoc_queue@.len() == 0
                &&& !final(o).at_line_start()
            },
        decreases heredoc_measure(c), 2int, self, 0int,
    {
        let ghost o0 = *o;
        let ghost plain = self.branches_ok(o0);
        let ghost ind = o0.indent as nat;
        let ghost lw = o0.config.line_width as int;
        let ghost bs = self.branches@;
        proof {
            if plain {
                assert(bs[0].one_line_ok(lw - ind));
                lemma_in_line_pieces_len(bs[0]);
            }
        }
        let n = self.branches.len();
        let mut i: usize = 0;
        while i < n
            invariant
                n == self.branches@.len(),
                bs == self.branches@,
                ready(*o, *ctx, c),
                advanced(*old(o), *o, *ctx, c),
                self.ok_in(c, ctx.heredoc_map@),
                0 <= i <= n,
                plain ==> {
                    &&& self.branches_ok(o0)
                    &&& lw == o0.config.line_width
                    &&& ind == o0.indent
                    &&& ind < lw
                    &&& i == 0 ==> *o == o0
                    &&& i > 0 ==> {
                        &&& o.buffer@ == o0.buffer@ + in_rows(bs, i as int, ind)
                        &&& o.indent == ind
                        &&& o.config == o0.config
                        &&& o.heredoc_queue@.len() == 0
                        &&& !o.at_line_start()
                    }
                },
            decreases n - i,
        {
            if i > 0 {
                o.break_line(ctx, Ghost(c));
            }
            let ghost ob = *o;
            proof {
                if plain {
                    assert(bs[i as int].one_line_ok(lw - ind));
                    lemma_in_line_pieces_len(bs[i as int]);
                    assert(ob.indent_prefix() == spaces(ind));
                }
            }
            self.branches[i].format(o, ctx, Ghost(c));
            proof {
                if plain {
                    let lp = bs[i as int].line_pieces();
                    lemma_wrote_fitting(ob, *o, lp);
                    if i > 0 {
                        assert(o.buffer@ =~= o0.buffer@ + in_rows(bs, i + 1, ind));
                    } else {
                        assert(o.buffer@ =~= o0.buffer@ + in_rows(bs, 1, ind));
                    }
                }
            }
            i = i + 1;
        }
    }

    /// Writes `case` and the predicate, which goes on the next line where it neither fits
    /// nor can continue the line.
    pub fn format_head(&self, o: &mut Output, ctx: &FormatContext, Ghost(c): Ghost<int>)
        requires
            ready(*old(o), *ctx, c),
            self.ok_in(c, ctx.heredoc_map@),
        ensures
            advanced(*old(o), *final(o), *ctx, c),
            self.plain_layout_ok(*old(o)) ==> {
                &&& final(o).buffer@ == old(o).buffer@ + old(o).indent_prefix() + CASE@ + self.predicate_text()
                &&& final(o).indent == old(o).indent
                &&& final(o).heredoc_queue@.len() == 0
                &&& final(o).config == old(o).config
            },
        decreases heredoc_measure(c), 2int, self, 0int,
    {
        let ghost o0 = *o;
        let ghost plain = self.plain_layout_ok(o0);
        o.push_str(&CASE);
        let ghost o1 = *o;
        proof {
            if plain {
                lemma_total_len_one(CASE@);
                lemma_wrote_fitting(o0, o1, seq![CASE@]);
            }
        }
        match &self.predicate {
            Some(pred) => {
                if pred.shape.fits_in_one_line(o.remaining_width) || pred.can_continue_line() {
                    o.push(32u8);
                    let ghost o2 = *o;
                    proof {
                        if plain {
                            lemma_flat_continues_line(**pred);
                            lemma_node_flat_nonempty(**pred);
                            lemma_total_len_one(seq![32u8]);
                            lemma_wrote_fitting(o1, o2, seq![seq![32u8]]);
                        }
                    }
                    pred.format(o, ctx, Ghost(c));
                    proof {
                        if plain {
                            lemma_wrote_fitting(o2, *o, node_flat(**pred));
                        }
                    }
                    pred.trailing_trivia.format(o);
                    proof {
                        if plain {
                            assert(o.buffer@ =~= o0.buffer@ + o0.indent_prefix() + CASE@ + self.predicate_text());
                        }
                    }
                } else {
                    proof {
                        if plain {
                            lemma_flat_continues_line(**pred);
                        }
                    }
                    o.indent();
                    o.break_line(ctx, Ghost(c));
                    pred.leading_trivia.format(o, ctx, EmptyLineHandling::trim(), Ghost(c));
                    pred.format(o, ctx, Ghost(c));
                    pred.trailing_trivia.format(o);
                    o.dedent();
                }
            },
            None => {
                self.case_trailing.format(o);
                proof {
                    if plain {
                        assert(o.buffer@ =~= o0.buffer@ + o0.indent_prefix() + CASE@ + self.predicate_text());
                    }
                }
            },
        }
    }
}

/// The first `i` branches, each on a line of its own at indentation `indent`, with a
/// line break between each two.
pub open spec fn in_rows(bs: Seq<CaseIn>, i: int, indent: nat) -> Seq<u8>
    decreases i,
{
    if i <= 0 {
        Seq::empty()
    } else if i == 1 {
        spaces(indent) + joined(bs[0].line_pieces())
    } else {
        in_rows(bs, i - 1, indent) + seq![10u8] + spaces(indent) + joined(bs[i - 1].line_pieces())
    }
}

/// A branch on one line has some text, more than the indentation can leave no room for.
pub proof fn lemma_in_line_pieces_len(w: CaseIn)
    ensures
        w.line_pieces().len() > 0,
        total_len(w.line_pieces()) >= IN@.len(),
{
    let rest = seq![seq![32u8]] + node_flat(*w.pattern) + w.then_pieces();
    assert(w.line_pieces() =~= seq![IN@] + rest);
    lemma_total_len_concat(seq![IN@], rest);
    lemma_total_len_one(IN@);
}

impl CaseIn {
    pub open spec fn ok_in(&self, c: int, m: Map<usize, Heredoc>) -> bool
        decreases self,
    {
        self.pattern.ok_in(c, m) && self.body.ok_in(c, m)
    }

    pub fn new(was_flat: bool, pattern: Node) -> (r: CaseIn)
        requires
            9 + pattern.shape.size() <= usize::MAX,
        ensures
            // `in  then ` around the pattern and the body
            r.shape == if was_flat {
                (Shape::Inline { len: 9 }).concat(pattern.shape)
            } else {
                Shape::Multilines
            },
            *r.pattern == pattern,
            r.body.nodes@.len() == 0,
            r.body.virtual_end is None,
    {
        let shape = if was_flat {
            Shape::inline(9).add(&pattern.shape)
        } else {
            Shape::Multilines
        };
        CaseIn { shape, pattern: Box::new(pattern), body: Statements::new() }
    }

    pub fn set_body(&mut self, body: Statements)
        requires
            old(self).shape.concat_fits(body.shape),
        ensures
            final(self).shape == old(self).shape.concat(body.shape),
            final(self).body == body,
            final(self).pattern == old(self).pattern,
    {
        self.shape.append(&body.shape);
        self.body = body;
    }

    /// The statement after ` then `, where the branch shows one.
    pub open spec fn then_pieces(&self) -> Seq<Seq<u8>> {
        if self.body.shape.spec_is_empty() {
            Seq::empty()
        } else {
            seq![THEN@] + kind_flat(Kind::Statements(self.body))
        }
    }

    /// The branch on one line: `in`, the pattern, and ` then ` with the statement where
    /// it shows one.
    pub open spec fn line_pieces(&self) -> Seq<Seq<u8>> {
        seq![IN@, seq![32u8]] + node_flat(*self.pattern) + self.then_pieces()
    }

    /// A branch that its shape lets stand on one line with `room` bytes left on it,
    /// made of parts that `node_flat` describes, with no comment after the pattern, and
    /// whose text fits in that room.
    pub open spec fn one_line_ok(&self, room: int) -> bool {
        &&& self.shape.spec_fits_in_one_line(room - IN@.len())
        &&& node_flat_ok(*self.pattern)
        &&& self.pattern.trailing_trivia.spec_comment() is None
        &&& !self.body.shape.spec_is_empty() ==> kind_flat_ok(Kind::Statements(self.body))
        &&& total_len(self.line_pieces()) <= room
    }

    /// Writes the branch on one line where its shape fits there; otherwise the pattern,
    /// on the line if it can continue it, and the statements one level deeper. A branch
    /// that `one_line_ok` describes is written as `line_pieces`.
    pub fn format(&self, o: &mut Output, ctx: &FormatContext, Ghost(c): Ghost<int>)
        requires
            ready(*old(o), *ctx, c),
            self.ok_in(c, ctx.heredoc_map@),
        ensures
            advanced(*old(o), *final(o), *ctx, c),
            self.one_line_ok(budget(*old(o))) ==> wrote_pieces(*old(o), *final(o), self.line_pieces()),
        decreases heredoc_measure(c), 2int, self, 1int,
    {
        let ghost o0 = *o;
        let ghost flat = self.one_line_ok(budget(o0));
        let ghost pp = node_flat(*self.pattern);
        let ghost tp = self.then_pieces();
        proof {
            if flat {
                assert(self.line_pieces() =~= seq![IN@] + seq![seq![32u8]] + pp + tp);
                lemma_total_len_concat(seq![IN@], seq![seq![32u8]]);
                lemma_total_len_concat(seq![IN@] + seq![seq![32u8]], pp);
                lemma_total_len_concat(seq![IN@] + seq![seq![32u8]] + pp, tp);
                lemma_total_len_one(IN@);
                lemma_total_len_one(seq![32u8]);
                lemma_node_flat_nonempty(*self.pattern);
            }
        }
        o.push_str(&IN);
        let ghost o1 = *o;
        proof {
            if flat {
                lemma_wrote_fitting(o0, o1, seq![IN@]);
            }
        }
        if self.shape.fits_in_one_line(o.remaining_width) {
            o.push(32u8);
            let ghost o2 = *o;
            proof {
                if flat {
                    lemma_wrote_fitting(o1, o2, seq![seq![32u8]]);
                }
            }
            self.pattern.format(o, ctx, Ghost(c));
            self.pattern.trailing_trivia.format(o);
            let ghost o3 = *o;
            proof {
                if flat {
                    lemma_wrote_fitting(o2, o3, pp);
                }
            }
            if !self.body.shape.is_empty() {
                o.push_str(&THEN);
                let ghost o4 = *o;
                proof {
                    if flat {
                        lemma_total_len_concat(seq![THEN@], kind_flat(Kind::Statements(self.body)));
                        lemma_total_len_one(THEN@);
                        lemma_wrote_fitting(o3, o4, seq![THEN@]);
                    }
                }
                self.body.format(o, ctx, false, Ghost(c));
                proof {
                    if flat {
                        lemma_wrote_pieces_concat(o3, o4, *o, seq![THEN@], kind_flat(Kind::Statements(self.body)));
                    }
                }
            } else {
                proof {
                    lemma_wrote_nothing(o3);
                }
            }
            proof {
                if flat {
                    lemma_wrote_pieces_concat(o0, o1, o2, seq![IN@], seq![seq![32u8]]);
                    lemma_wrote_pieces_concat(o0, o2, o3, seq![IN@] + seq![seq![32u8]], pp);
                    lemma_wrote_pieces_concat(o0, o3, *o, seq![IN@] + seq![seq![32u8]] + pp, tp);
                }
            }
        } else {
            if self.pattern.can_continue_line() {
                o.push(32u8);
                o.indent();
                self.pattern.format(o, ctx, Ghost(c));
                self.pattern.trailing_trivia.format(o);
                o.dedent();
            } else {
                o.indent();
                o.indent();
                o.break_line(ctx, Ghost(c));
                self.pattern.leading_trivia.format(o, ctx, EmptyLineHandling::trim(), Ghost(c));
                self.pattern.format(o, ctx, Ghost(c));
                self.pattern.trailing_trivia.format(o);
                o.dedent();
                o.dedent();
            }
            if !self.body.shape.is_empty() {
                o.indent();
                o.break_line(ctx, Ghost(c));
                self.body.format(o, ctx, true, Ghost(c));
                o.dedent();
            }
        }
    }
}

} // verus!
