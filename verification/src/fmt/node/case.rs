use vstd::prelude::*;

use crate::fmt::flat::{
    arguments_flat, budget, joined, kind_flat, kind_flat_ok, lemma_arguments_flat_prefix, lemma_flat_continues_line,
    lemma_node_flat_nonempty, lemma_total_len_concat, lemma_total_len_one, lemma_wrote_fitting, node_flat,
    node_flat_ok, total_len,
};
use crate::fmt::output::{
    advanced, heredoc_measure, lemma_line_start_push, lemma_pushes_one, lemma_wrote_nothing,
    lemma_wrote_pieces_concat, ready, spaces, wrote_pieces, FormatContext, Output,
};
use crate::fmt::shape::Shape;
use crate::fmt::text::{CASE, COMMA_SPACE, ELSE, END, THEN, WHEN};
use crate::fmt::trivia::{EmptyLineHandling, LeadingTrivia, TrailingTrivia};

use super::ifs::closing_end;
use super::statements::{block_lines, block_ok};
use super::{Else, Heredoc, Kind, Node, Statements};

verus! {

broadcast use crate::fmt::growth::group_output_growth;

/// `case ... when ... end`
#[derive(Debug)]
pub struct Case {
    pub predicate: Option<Box<Node>>,
    pub case_trailing: TrailingTrivia,
    pub first_branch_leading: LeadingTrivia,
    pub branches: Vec<CaseWhen>,
    pub otherwise: Option<Else>,
}

/// `when conditions then body`
#[derive(Debug)]
pub struct CaseWhen {
    pub shape: Shape,
    pub conditions: Vec<Node>,
    pub conditions_shape: Shape,
    pub body: Statements,
}

impl Case {
    pub open spec fn ok_in(&self, c: int, m: Map<usize, Heredoc>) -> bool
        decreases self,
    {
        &&& match self.predicate {
            Some(p) => p.ok_in(c, m),
            None => true,
        }
        &&& forall|i: int| 0 <= i < self.branches@.len() ==> (#[trigger] self.branches@[i]).ok_in(c, m)
        &&& match self.otherwise {
            Some(e) => e.ok_in(c, m),
            None => true,
        }
    }

    pub fn shape() -> (s: Shape)
        ensures
            s == Shape::Multilines,
    {
        Shape::Multilines
    }

    /// The predicate after `case`, with the space before it, where there is one.
    pub open spec fn predicate_text(&self) -> Seq<u8> {
        match self.predicate {
            Some(p) => seq![32u8] + joined(node_flat(*p)),
            None => Seq::empty(),
        }
    }

    /// The `else` branch at indentation `indent`, where there is one.
    pub open spec fn else_text(&self, indent: nat, indent_size: nat) -> Seq<u8> {
        match self.otherwise {
            Some(e) => seq![10u8] + spaces(indent) + ELSE@ + block_lines(e.body, indent + indent_size),
            None => Seq::empty(),
        }
    }

    /// A `case` laid out plainly at `o`: the predicate, if any, can be written flat after
    /// `case`, with no comment after it; no comment stands before the first branch; each
    /// branch can stand on a line of its own (see `CaseWhen::one_line_ok`); and the
    /// statements of an `else` branch can each be written flat one level deeper.
    pub open spec fn plain_layout_ok(&self, o: Output) -> bool {
        &&& o.heredoc_queue@.len() == 0
        &&& o.indent + o.config.indent_size <= usize::MAX
        &&& match self.predicate {
            Some(p) => node_flat_ok(*p) && p.trailing_trivia.spec_comment() is None && CASE@.len() + 1
                + total_len(node_flat(*p)) <= budget(o),
            None => self.case_trailing.spec_comment() is None && CASE@.len() <= budget(o),
        }
        &&& self.first_branch_leading.spec_lines().len() == 0
        &&& self.branches@.len() > 0
        &&& forall|i: int|
            0 <= i < self.branches@.len() ==> (#[trigger] self.branches@[i]).one_line_ok(
                o.config.line_width - o.indent,
            )
        &&& match self.otherwise {
            Some(e) => e.keyword_trailing.spec_comment() is None && block_ok(e.body, o),
            None => true,
        }
    }

    /// The text of such a `case` at indentation `indent`: `case` and the predicate, each
    /// branch on a line of its own, the `else` branch, and `end`.
    pub open spec fn plain_text(&self, indent: nat, indent_size: nat) -> Seq<u8> {
        CASE@ + self.predicate_text() + seq![10u8] + branch_rows(self.branches@, self.branches@.len() as int, indent)
            + self.else_text(indent, indent_size) + closing_end(indent)
    }

    /// Writes `case` and the predicate, the branches, and `end`. A `case` laid out plainly
    /// comes out as `plain_text`.
    #[verifier::spinoff_prover]
    pub fn format(&self, o: &mut Output, ctx: &FormatContext, Ghost(c): Ghost<int>)
        requires
            ready(*old(o), *ctx, c),
            self.ok_in(c, ctx.heredoc_map@),
        ensures
            advanced(*old(o), *final(o), *ctx, c),
            self.plain_layout_ok(*old(o)) ==> final(o).buffer@ == old(o).buffer@ + old(o).indent_prefix()
                + self.plain_text(old(o).indent as nat, old(o).config.indent_size as nat),
        decreases heredoc_measure(c), 2int, self, 1int,
    {
        let ghost o0 = *o;
        let ghost plain = self.plain_layout_ok(o0);
        let ghost ind = o0.indent as nat;
        let ghost lw = o0.config.line_width as int;
        self.format_head(o, ctx, Ghost(c));
        let ghost oh = *o;
        if self.first_branch_leading.is_empty() {
            o.break_line(ctx, Ghost(c));
        } else {
            o.indent();
            o.break_line(ctx, Ghost(c));
            self.first_branch_leading.format(o, ctx, EmptyLineHandling::trim(), Ghost(c));
            o.dedent();
        }
        let ghost ob0 = *o;
        self.format_branches(o, ctx, Ghost(c));
        let ghost oe = *o;
        proof {
            if plain {
                lemma_line_pieces_len(self.branches@[0]);
                assert(self.branches@[0].one_line_ok(lw - ind));
                assert(ob0.buffer@ == oh.buffer@.push(10u8));
                assert(self.branches_ok(ob0));
            }
        }
        self.format_tail(o, ctx, Ghost(c));
        proof {
            if plain {
                assert(o.buffer@ =~= o0.buffer@ + o0.indent_prefix() + self.plain_text(ind, o0.config.indent_size as nat));
            }
        }
    }

    /// Nothing waits to be written, the line has room for the indentation, and the
    /// `else` branch, if any, has no comment after its keyword and statements that can
    /// each be written flat one level deeper.
    pub open spec fn tail_ok(&self, o: Output) -> bool {
        &&& o.heredoc_queue@.len() == 0
        &&& o.indent < o.config.line_width
        &&& match self.otherwise {
            Some(e) => e.keyword_trailing.spec_comment() is None && block_ok(e.body, o),
            None => true,
        }
    }

    /// Writes the `else` branch, if any, and `end`, each from a new line.
    pub fn format_tail(&self, o: &mut Output, ctx: &FormatContext, Ghost(c): Ghost<int>)
        requires
            ready(*old(o), *ctx, c),
            self.ok_in(c, ctx.heredoc_map@),
        ensures
            advanced(*old(o), *final(o), *ctx, c),
            self.tail_ok(*old(o)) ==> final(o).buffer@ == old(o).buffer@ + self.else_text(
                old(o).indent as nat,
                old(o).config.indent_size as nat,
            ) + closing_end(old(o).indent as nat),
        decreases heredoc_measure(c), 2int, self, 0int,
    {
        let ghost o0 = *o;
        let ghost plain = self.tail_ok(o0);
        let ghost ind = o0.indent as nat;
        let ghost lw = o0.config.line_width as int;
        if let Some(otherwise) = &self.otherwise {
            o.break_line(ctx, Ghost(c));
            let ghost ob = *o;
            o.put_indent_if_needed();
            let ghost o1 = *o;
            o.push_str(&ELSE);
            otherwise.keyword_trailing.format(o);
            proof {
                if plain {
                    lemma_line_start_push(ob, o1);
                    lemma_pushes_one(o1.text_state(), lw, ind, ELSE@);
                    assert(o.buffer@ =~= o0.buffer@ + seq![10u8] + spaces(ind) + ELSE@);
                }
            }
            otherwise.body.format_block(o, ctx, Ghost(c));
        }
        let ghost om = *o;
        proof {
            if plain {
                assert(om.buffer@ =~= o0.buffer@ + self.else_text(ind, o0.config.indent_size as nat));
            }
        }
        o.break_line(ctx, Ghost(c));
        let ghost on = *o;
        o.put_indent_if_needed();
        let ghost o1 = *o;
        o.push_str(&END);
        proof {
            if plain {
                lemma_line_start_push(on, o1);
                lemma_pushes_one(o1.text_state(), lw, ind, END@);
                assert(o.buffer@ =~= om.buffer@ + closing_end(ind));
            }
        }
    }

    /// At the start of a line with nothing waiting to be written, each branch can stand
    /// on a line of its own (see `CaseWhen::one_line_ok`).
    pub open spec fn branches_ok(&self, o: Output) -> bool {
        &&& o.at_line_start()
        &&& o.heredoc_queue@.len() == 0
        &&& self.branches@.len() > 0
        &&& forall|i: int|
            0 <= i < self.branches@.len() ==> (#[trigger] self.branches@[i]).one_line_ok(
                o.config.line_width - o.indent,
            )
    }

    /// Writes the branches one per line, from the start of the current line. Branches
    /// that `branches_ok` describes come out as `branch_rows`.
    pub fn format_branches(&self, o: &mut Output, ctx: &FormatContext, Ghost(c): Ghost<int>)
        requires
            ready(*old(o), *ctx, c),
            self.ok_in(c, ctx.heredoc_map@),
        ensures
            advanced(*old(o), *final(o), *ctx, c),
            self.branches_ok(*old(o)) ==> {
                &&& final(o).buffer@ == old(o).buffer@ + branch_rows(
                    self.branches@,
                    self.branches@.len() as int,
                    old(o).indent as nat,
                )
                &&& final(o).indent == old(o).indent
                &&& final(o).config == old(o).config
                &&& final(o).heredoc_queue@.len() == 0
                &&& !final(o).at_line_start()
            },
        decreases heredoc_measure(c), 2int, self, 0int,
    {
        let ghost o0 = *o;
        let ghost plain = self.branches_ok(o0);
        let ghost ind = o0.indent as nat;
        let ghost lw = o0.config.line_width as int;
        let ghost bs = self.branches@;
        proof {
            if plain {
                let b0 = bs[0];
                assert(b0.one_line_ok(lw - ind));
                lemma_line_pieces_len(b0);
            }
        }
        let n = self.branches.len();
        let mut i: usize = 0;
        while i < n
            invariant
                n == self.branches@.len(),
                bs == self.branches@,
                ready(*o, *ctx, c),
                advanced(*old(o), *o, *ctx, c),
                self.ok_in(c, ctx.heredoc_map@),
                0 <= i <= n,
                plain ==> {
                    &&& self.branches_ok(o0)
                    &&& lw == o0.config.line_width
                    &&& ind == o0.indent
                    &&& ind < lw
                    &&& i == 0 ==> *o == o0
                    &&& i > 0 ==> {
                        &&& o.buffer@ == o0.buffer@ + branch_rows(bs, i as int, ind)
                        &&& o.indent == ind
                        &&& o.config == o0.config
                        &&& o.heredoc_queue@.len() == 0
                        &&& !o.at_line_start()
                    }
                },
            decreases n - i,
        {
            let ghost oa = *o;
            if i > 0 {
                o.break_line(ctx, Ghost(c));
            }
            let ghost ob = *o;
            o.put_indent_if_needed();
            let ghost o1 = *o;
            proof {
                if plain {
                    lemma_line_start_push(ob, o1);
                    assert(bs[i as int].one_line_ok(lw - ind));
                    lemma_line_pieces_len(bs[i as int]);
                }
            }
            self.branches[i].format(o, ctx, Ghost(c));
            proof {
                if plain {
                    let lp = bs[i as int].line_pieces();
                    lemma_wrote_fitting(o1, *o, lp);
                    if i > 0 {
                        assert(o.buffer@ =~= o0.buffer@ + branch_rows(bs, i + 1, ind));
                    } else {
                        assert(o.buffer@ =~= o0.buffer@ + branch_rows(bs, 1, ind));
                    }
                }
            }
            i = i + 1;
        }
    }

    /// Writes `case` and the predicate, which goes on the next line where it neither fits
    /// nor can continue the line.
    pub fn format_head(&self, o: &mut Output, ctx: &FormatContext, Ghost(c): Ghost<int>)
        requires
            ready(*old(o), *ctx, c),
            self.ok_in(c, ctx.heredoc_map@),
        ensures
            advanced(*old(o), *final(o), *ctx, c),
            self.plain_layout_ok(*old(o)) ==> {
                &&& final(o).buffer@ == old(o).buffer@ + old(o).indent_prefix() + CASE@ + self.predicate_text()
                &&& final(o).indent == old(o).indent
                &&& final(o).heredoc_queue@.len() == 0
                &&& final(o).config == old(o).config
            },
        decreases heredoc_measure(c), 2int, self, 0int,
    {
        let ghost o0 = *o;
        let ghost plain = self.plain_layout_ok(o0);
        o.push_str(&CASE);
        let ghost o1 = *o;
        proof {
            if plain {
                lemma_total_len_one(CASE@);
                lemma_wrote_fitting(o0, o1, seq![CASE@]);
            }
        }
        match &self.predicate {
            Some(pred) => {
                if pred.shape.fits_in_one_line(o.remaining_width) || pred.can_continue_line() {
                    o.push(32u8);
                    let ghost o2 = *o;
                    proof {
                        if plain {
                            lemma_flat_continues_line(**pred);
                            lemma_node_flat_nonempty(**pred);
                            lemma_total_len_one(seq![32u8]);
                            lemma_wrote_fitting(o1, o2, seq![seq![32u8]]);
                        }
                    }
                    pred.format(o, ctx, Ghost(c));
                    proof {
                        if plain {
                            lemma_wrote_fitting(o2, *o, node_flat(**pred));
                        }
                    }
                    pred.trailing_trivia.format(o);
                    proof {
                        if plain {
                            assert(o.buffer@ =~= o0.buffer@ + o0.indent_prefix() + CASE@ + self.predicate_text());
                        }
                    }
                } else {
                    proof {
                        if plain {
                            lemma_flat_continues_line(**pred);
                        }
                    }
                    o.indent();
                    o.break_line(ctx, Ghost(c));
                    pred.leading_trivia.format(o, ctx, EmptyLineHandling::trim(), Ghost(c));
                    o.put_indent_if_needed();
                    pred.format(o, ctx, Ghost(c));
                    pred.trailing_trivia.format(o);
                    o.dedent();
                }
            },
            None => {
                self.case_trailing.format(o);
                proof {
                    if plain {
                        assert(o.buffer@ =~= o0.buffer@ + o0.indent_prefix() + CASE@ + self.predicate_text());
                    }
                }
            },
        }
    }
}

/// The first `i` branches, each on a line of its own at indentation `indent`, with a
/// line break between each two.
pub open spec fn branch_rows(bs: Seq<CaseWhen>, i: int, indent: nat) -> Seq<u8>
    decreases i,
{
    if i <= 0 {
        Seq::empty()
    } else if i == 1 {
        spaces(indent) + joined(bs[0].line_pieces())
    } else {
        branch_rows(bs, i - 1, indent) + seq![10u8] + spaces(indent) + joined(bs[i - 1].line_pieces())
    }
}

/// A branch on one line has some text, more than the indentation can leave no room for.
pub proof fn lemma_line_pieces_len(w: CaseWhen)
    ensures
        w.line_pieces().len() > 0,
        total_len(w.line_pieces()) >= WHEN@.len(),
{
    let rest = seq![seq![32u8]] + arguments_flat(w.conditions@, w.conditions@.len() as int) + w.then_pieces();
    assert(w.line_pieces() =~= seq![WHEN@] + rest);
    lemma_total_len_concat(seq![WHEN@], rest);
    lemma_total_len_one(WHEN@);
}

impl CaseWhen {
    /// Besides the heredocs of its parts: a branch without conditions has the empty
    /// conditions shape that `new` gives it.
    pub open spec fn ok_in(&self, c: int, m: Map<usize, Heredoc>) -> bool
        decreases self,
    {
        &&& forall|i: int| 0 <= i < self.conditions@.len() ==> (#[trigger] self.conditions@[i]).ok_in(c, m)
        &&& self.body.ok_in(c, m)
        &&& self.conditions@.len() == 0 ==> self.conditions_shape == (Shape::Inline { len: 0 })
    }

    pub fn new(was_flat: bool) -> (w: CaseWhen)
        ensures
            w.shape == if was_flat {
                Shape::Inline { len: 5 }
            } else {
                Shape::Multilines
            },
            w.conditions@.len() == 0,
            w.conditions_shape == (Shape::Inline { len: 0 }),
            w.body.nodes@.len() == 0,
            w.body.virtual_end is None,
    {
        // `when `
        let shape = if was_flat {
            Shape::inline(5)
        } else {
            Shape::Multilines
        };
        CaseWhen { shape, conditions: Vec::new(), conditions_shape: Shape::inline(0), body: Statements::new() }
    }

    pub fn append_condition(&mut self, cond: Node)
        requires
            old(self).shape.concat_fits(cond.shape),
            old(self).conditions_shape.concat_fits(cond.shape),
        ensures
            final(self).shape == old(self).shape.concat(cond.shape),
            final(self).conditions_shape == old(self).conditions_shape.concat(cond.shape),
            final(self).conditions@ == old(self).conditions@.push(cond),
            final(self).body == old(self).body,
    {
        self.shape.append(&cond.shape);
        self.conditions_shape.append(&cond.shape);
        self.conditions.push(cond);
    }

    pub fn set_body(&mut self, body: Statements)
        requires
            old(self).shape.size() + 6 + body.shape.size() <= usize::MAX,
        ensures
            // ` then `
            final(self).shape == old(self).shape.concat(Shape::Inline { len: 6 }).concat(body.shape),
            final(self).body == body,
            final(self).conditions == old(self).conditions,
            final(self).conditions_shape == old(self).conditions_shape,
    {
        self.shape.append(&Shape::inline(6));
        self.shape.append(&body.shape);
        self.body = body;
    }

    /// The statement after ` then `, where the branch shows one.
    pub open spec fn then_pieces(&self) -> Seq<Seq<u8>> {
        if self.body.shape.spec_is_empty() {
            Seq::empty()
        } else {
            seq![THEN@] + kind_flat(Kind::Statements(self.body))
        }
    }

    /// The branch on one line: `when`, the conditions separated by `, `, and ` then `
    /// with the statement where it shows one.
    pub open spec fn line_pieces(&self) -> Seq<Seq<u8>> {
        seq![WHEN@, seq![32u8]] + arguments_flat(self.conditions@, self.conditions@.len() as int)
            + self.then_pieces()
    }

    /// A branch that its shape lets stand on one line with `room` bytes left on it,
    /// made of parts that `node_flat` describes, with no comment after a condition, and
    /// whose text fits in that room.
    pub open spec fn one_line_ok(&self, room: int) -> bool {
        &&& self.shape.spec_fits_in_one_line(room - WHEN@.len())
        &&& forall|i: int|
            0 <= i < self.conditions@.len() ==> node_flat_ok(#[trigger] self.conditions@[i])
                && self.conditions@[i].trailing_trivia.spec_comment() is None
        &&& !self.body.shape.spec_is_empty() ==> kind_flat_ok(Kind::Statements(self.body))
        &&& total_len(self.line_pieces()) <= room
    }

    /// A branch that spans lines whose conditions, made of parts that `node_flat`
    /// describes and with no comment after them, fit after `when` on the line, and
    /// whose statements can each be written flat one level deeper.
    pub open spec fn multi_line_ok(&self, o: Output) -> bool {
        &&& self.shape is Multilines
        &&& self.conditions@.len() > 0
        &&& forall|i: int|
            0 <= i < self.conditions@.len() ==> node_flat_ok(#[trigger] self.conditions@[i])
                && self.conditions@[i].trailing_trivia.spec_comment() is None
        &&& self.conditions_shape.spec_fits_in_one_line(budget(o) - WHEN@.len())
        &&& 1 + total_len(arguments_flat(self.conditions@, self.conditions@.len() as int)) <= budget(o)
            - WHEN@.len()
        &&& block_ok(self.body, o)
    }

    /// Such a branch: `when`, the conditions separated by `, `, and the statements one
    /// per line one level deeper.
    pub open spec fn multi_line_text(&self, indent: nat, indent_size: nat) -> Seq<u8> {
        WHEN@ + seq![32u8] + joined(arguments_flat(self.conditions@, self.conditions@.len() as int))
            + block_lines(self.body, indent + indent_size)
    }

    /// Writes the branch on one line where its shape fits there; otherwise the
    /// conditions on the line, or one per line, and the statements one level deeper. A
    /// branch that `one_line_ok` describes is written as `line_pieces`.
    #[verifier::spinoff_prover]
    pub fn format(&self, o: &mut Output, ctx: &FormatContext, Ghost(c): Ghost<int>)
        requires
            ready(*old(o), *ctx, c),
            self.ok_in(c, ctx.heredoc_map@),
        ensures
            advanced(*old(o), *final(o), *ctx, c),
            self.one_line_ok(budget(*old(o))) ==> wrote_pieces(*old(o), *final(o), self.line_pieces()),
            self.multi_line_ok(*old(o)) ==> final(o).buffer@ == old(o).buffer@ + old(o).indent_prefix()
                + self.multi_line_text(old(o).indent as nat, old(o).config.indent_size as nat),
        decreases heredoc_measure(c), 2int, self, 1int,
    {
        let ghost o0 = *o;
        let ghost ns = self.conditions@;
        let ghost flat = self.one_line_ok(budget(o0));
        let ghost ml = self.multi_line_ok(o0);
        let ghost cf = arguments_flat(ns, ns.len() as int);
        let ghost tp = self.then_pieces();
        proof {
            if flat {
                assert(self.line_pieces() == seq![WHEN@, seq![32u8]] + cf + tp);
                assert(seq![WHEN@, seq![32u8]] =~= seq![WHEN@] + seq![seq![32u8]]);
                lemma_total_len_concat(seq![WHEN@], seq![seq![32u8]]);
                lemma_total_len_concat(seq![WHEN@, seq![32u8]], cf);
                lemma_total_len_concat(seq![WHEN@, seq![32u8]] + cf, tp);
                lemma_total_len_one(WHEN@);
                lemma_total_len_one(seq![32u8]);
            }
        }
        o.push_str(&WHEN);
        let ghost o1 = *o;
        proof {
            if flat || ml {
                lemma_total_len_one(WHEN@);
                lemma_wrote_fitting(o0, o1, seq![WHEN@]);
            }
        }
        let n = self.conditions.len();
        if self.shape.fits_in_one_line(o.remaining_width) {
            o.push(32u8);
            let ghost o2 = *o;
            proof {
                if flat {
                    lemma_wrote_fitting(o1, o2, seq![seq![32u8]]);
                }
            }
            let mut i: usize = 0;
            while i < n
                invariant
                    n == self.conditions@.len(),
                    ns == self.conditions@,
                    ready(*o, *ctx, c),
                    advanced(*old(o), *o, *ctx, c),
                    self.ok_in(c, ctx.heredoc_map@),
                    0 <= i <= n,
                    flat ==> {
                        &&& self.one_line_ok(budget(o0))
                        &&& o2.wf()
                        &&& wrote_pieces(o2, *o, arguments_flat(ns, i as int))
                        &&& budget(*o) == budget(o2) - total_len(arguments_flat(ns, i as int))
                        &&& total_len(arguments_flat(ns, n as int)) + total_len(tp) <= budget(o2)
                        &&& o.indent_prefix().len() == 0
                    },
                decreases n - i,
            {
                let ghost oa = *o;
                let ghost glue = if i > 0 {
                    seq![seq![44u8, 32u8]]
                } else {
                    Seq::<Seq<u8>>::empty()
                };
                if i > 0 {
                    o.push_str(&COMMA_SPACE);
                    proof {
                        assert(COMMA_SPACE@ =~= seq![44u8, 32u8]);
                    }
                } else {
                    proof {
                        lemma_wrote_nothing(oa);
                    }
                }
                let ghost od = *o;
                proof {
                    if flat {
                        let ap = node_flat(ns[i as int]);
                        assert(node_flat_ok(ns[i as int]));
                        lemma_node_flat_nonempty(ns[i as int]);
                        lemma_arguments_flat_prefix(ns, i + 1, n as int);
                        lemma_total_len_concat(glue, ap);
                        if i > 0 {
                            lemma_total_len_concat(arguments_flat(ns, i as int), glue);
                            lemma_total_len_concat(arguments_flat(ns, i as int) + glue, ap);
                            lemma_total_len_one(seq![44u8, 32u8]);
                            lemma_wrote_fitting(oa, od, glue);
                        } else {
                            assert(arguments_flat(ns, 1) == ap);
                        }
                    }
                }
                self.conditions[i].format(o, ctx, Ghost(c));
                self.conditions[i].trailing_trivia.format(o);
                proof {
                    if flat {
                        let ap = node_flat(ns[i as int]);
                        lemma_wrote_fitting(od, *o, ap);
                        lemma_wrote_pieces_concat(oa, od, *o, glue, ap);
                        lemma_wrote_pieces_concat(o2, oa, *o, arguments_flat(ns, i as int), glue + ap);
                        if i > 0 {
                            assert(arguments_flat(ns, i as int) + (glue + ap) =~= arguments_flat(ns, i + 1));
                        } else {
                            assert(arguments_flat(ns, 0) + (glue + ap) =~= arguments_flat(ns, 1));
                        }
                        lemma_total_len_concat(arguments_flat(ns, i as int), glue + ap);
                    }
                }
                i = i + 1;
            }
            let ghost o3 = *o;
            if !self.body.shape.is_empty() {
                o.push_str(&THEN);
                let ghost o4 = *o;
                proof {
                    if flat {
                        lemma_total_len_concat(seq![THEN@], kind_flat(Kind::Statements(self.body)));
                        lemma_total_len_one(THEN@);
                        lemma_wrote_fitting(o3, o4, seq![THEN@]);
                    }
                }
                self.body.format(o, ctx, false, Ghost(c));
                proof {
                    if flat {
                        lemma_wrote_pieces_concat(o3, o4, *o, seq![THEN@], kind_flat(Kind::Statements(self.body)));
                    }
                }
            } else {
                proof {
                    lemma_wrote_nothing(o3);
                }
            }
            proof {
                if flat {
                    lemma_wrote_pieces_concat(o0, o1, o2, seq![WHEN@], seq![seq![32u8]]);
                    lemma_wrote_pieces_concat(o0, o2, o3, seq![WHEN@] + seq![seq![32u8]], cf);
                    lemma_wrote_pieces_concat(o0, o3, *o, seq![WHEN@] + seq![seq![32u8]] + cf, tp);
                }
            }
        } else {
            if self.conditions_shape.fits_in_one_line(o.remaining_width) {
                if n > 0 {
                    o.push(32u8);
                }
                let ghost o2 = *o;
                proof {
                    if ml {
                        lemma_total_len_one(seq![32u8]);
                        lemma_wrote_fitting(o1, o2, seq![seq![32u8]]);
                    }
                }
                let mut i: usize = 0;
                while i < n
                    invariant
                        n == self.conditions@.len(),
                        ns == self.conditions@,
                        ready(*o, *ctx, c),
                        advanced(*old(o), *o, *ctx, c),
                        self.ok_in(c, ctx.heredoc_map@),
                        0 <= i <= n,
                        ml ==> {
                            &&& self.multi_line_ok(o0)
                            &&& o2.wf()
                            &&& wrote_pieces(o2, *o, arguments_flat(ns, i as int))
                            &&& budget(*o) == budget(o2) - total_len(arguments_flat(ns, i as int))
                            &&& total_len(arguments_flat(ns, n as int)) <= budget(o2)
                            &&& o.indent_prefix().len() == 0
                        },
                    decreases n - i,
                {
                    let ghost oa = *o;
                    let ghost glue = if i > 0 {
                        seq![seq![44u8, 32u8]]
                    } else {
                        Seq::<Seq<u8>>::empty()
                    };
                    if i > 0 {
                        o.push_str(&COMMA_SPACE);
                        proof {
                            assert(COMMA_SPACE@ =~= seq![44u8, 32u8]);
                        }
                    } else {
                        proof {
                            lemma_wrote_nothing(oa);
                        }
                    }
                    let ghost od = *o;
                    proof {
                        if ml {
                            let ap = node_flat(ns[i as int]);
                            assert(node_flat_ok(ns[i as int]));
                            lemma_node_flat_nonempty(ns[i as int]);
                            lemma_arguments_flat_prefix(ns, i + 1, n as int);
                            lemma_total_len_concat(glue, ap);
                            if i > 0 {
                                lemma_total_len_concat(arguments_flat(ns, i as int), glue);
                                lemma_total_len_concat(arguments_flat(ns, i as int) + glue, ap);
                                lemma_total_len_one(seq![44u8, 32u8]);
                                lemma_wrote_fitting(oa, od, glue);
                            } else {
                                assert(arguments_flat(ns, 1) == ap);
                            }
                        }
                    }
                    self.conditions[i].format(o, ctx, Ghost(c));
                    self.conditions[i].trailing_trivia.format(o);
                    proof {
                        if ml {
                            let ap = node_flat(ns[i as int]);
                            lemma_wrote_fitting(od, *o, ap);
                            lemma_wrote_pieces_concat(oa, od, *o, glue, ap);
                            lemma_wrote_pieces_concat(o2, oa, *o, arguments_flat(ns, i as int), glue + ap);
                            if i > 0 {
                                assert(arguments_flat(ns, i as int) + (glue + ap) =~= arguments_flat(ns, i + 1));
                            } else {
                                assert(arguments_flat(ns, 0) + (glue + ap) =~= arguments_flat(ns, 1));
                            }
                            lemma_total_len_concat(arguments_flat(ns, i as int), glue + ap);
                        }
                    }
                    i = i + 1;
                }
                proof {
                    if ml {
                        let cf = arguments_flat(ns, n as int);
                        lemma_node_flat_nonempty(ns[n - 1]);
                        if n > 1 {
                            assert(cf == arguments_flat(ns, n - 1) + seq![seq![44u8, 32u8]] + node_flat(ns[n - 1]));
                        }
                        assert(cf.len() > 0);
                        lemma_wrote_fitting(o2, *o, cf);
                        assert(o.buffer@ =~= o0.buffer@ + o0.indent_prefix() + WHEN@ + seq![32u8] + joined(cf));
                    }
                }
            } else {
                let first = &self.conditions[0];
                if first.can_continue_line() {
                    o.push(32u8);
                    o.indent();
                    first.format(o, ctx, Ghost(c));
                    o.dedent();
                } else {
                    o.indent();
                    o.indent();
                    o.break_line(ctx, Ghost(c));
                    first.leading_trivia.format(o, ctx, EmptyLineHandling::trim(), Ghost(c));
                    o.put_indent_if_needed();
                    first.format(o, ctx, Ghost(c));
                    o.dedent();
                    o.dedent();
                }
                if n > 1 {
                    o.push(44u8);
                }
                first.trailing_trivia.format(o);
                if n > 1 {
                    o.indent();
                    o.indent();
                    let last_idx = n - 1;
                    let mut i: usize = 1;
                    while i < n
                        invariant
                            n == self.conditions@.len(),
                            last_idx + 1 == n,
                            ready(*o, *ctx, c),
                            advanced(*old(o), *o, *ctx, c),
                            self.ok_in(c, ctx.heredoc_map@),
                        decreases n - i,
                    {
                        let cond = &self.conditions[i];
                        o.break_line(ctx, Ghost(c));
                        cond.leading_trivia.format(o, ctx, EmptyLineHandling::none(), Ghost(c));
                        o.put_indent_if_needed();
                        cond.format(o, ctx, Ghost(c));
                        if i < last_idx {
                            o.push(44u8);
                        }
                        cond.trailing_trivia.format(o);
                        i = i + 1;
                    }
                    o.dedent();
                    o.dedent();
                }
            }
            let ghost o3 = *o;
            self.body.format_block(o, ctx, Ghost(c));
            proof {
                if ml {
                    assert(o3.indent == o0.indent && o3.config == o0.config);
                    assert(block_ok(self.body, o3));
                    assert(o.buffer@ =~= o0.buffer@ + o0.indent_prefix() + self.multi_line_text(
                        o0.indent as nat,
                        o0.config.indent_size as nat,
                    ));
                }
            }
        }
    }
}

} // verus!
