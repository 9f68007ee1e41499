use vstd::prelude::*;

use crate::fmt::flat::{
    budget, joined, lemma_flat_continues_line, lemma_node_flat_nonempty, lemma_total_len_concat,
    lemma_total_len_one, lemma_wrote_fitting, node_flat, node_flat_ok, total_len,
};
use crate::fmt::output::{
    advanced, heredoc_measure, lemma_line_start_push, lemma_pushes_indent_free, lemma_pushes_one,
    lemma_wrote_pieces_concat, ready,
    spaces, wrote_pieces, FormatContext, Output,
};
use crate::fmt::shape::Shape;
use crate::fmt::text::{ELSE, ELSIF, END, IF, UNLESS};
use crate::fmt::trivia::{EmptyLineHandling, TrailingTrivia};

use super::statements::{block_lines, block_ok};
use super::{Heredoc, Node, Statements};

verus! {

broadcast use crate::fmt::growth::group_output_growth;

/// `if`/`unless` with its `elsif` and `else` branches.
#[derive(Debug)]
pub struct If {
    pub is_if: bool,
    pub if_first: Conditional,
    pub elsifs: Vec<Conditional>,
    pub if_last: Option<Else>,
}

/// A predicate and the statements that it guards.
#[derive(Debug)]
pub struct Conditional {
    pub shape: Shape,
    pub predicate: Box<Node>,
    pub body: Statements,
}

/// An `else`-like keyword and its statements.
#[derive(Debug)]
pub struct Else {
    pub keyword_trailing: TrailingTrivia,
    pub body: Statements,
}

impl If {
    pub open spec fn ok_in(&self, c: int, m: Map<usize, Heredoc>) -> bool
        decreases self,
    {
        &&& self.if_first.ok_in(c, m)
        &&& forall|i: int| 0 <= i < self.elsifs@.len() ==> (#[trigger] self.elsifs@[i]).ok_in(c, m)
        &&& match self.if_last {
            Some(e) => e.ok_in(c, m),
            None => true,
        }
    }

    pub fn new(is_if: bool, if_first: Conditional) -> (r: If)
        ensures
            r.is_if == is_if,
            r.if_first == if_first,
            r.elsifs@.len() == 0,
            r.if_last is None,
    {
        If { is_if, if_first, elsifs: Vec::new(), if_last: None }
    }

    pub fn shape() -> (s: Shape)
        ensures
            s == Shape::Multilines,
    {
        Shape::Multilines
    }

    /// The keyword that opens the branch.
    pub open spec fn keyword(&self) -> Seq<u8> {
        if self.is_if {
            IF@
        } else {
            UNLESS@
        }
    }

    /// An `if` or `unless` without other branches whose branch is laid out plainly (see
    /// `Conditional::headed_ok`).
    pub open spec fn plain_layout_ok(&self, o: Output) -> bool {
        &&& self.elsifs@.len() == 0
        &&& self.if_last is None
        &&& self.if_first.headed_ok(self.keyword(), o)
    }

    /// The text of such an `if` at indentation `indent`: the branch, then `end` on a
    /// line of its own.
    pub open spec fn plain_text(&self, indent: nat, indent_size: nat) -> Seq<u8> {
        self.if_first.headed_text(self.keyword(), indent, indent_size) + closing_end(indent)
    }

    /// An `elsif` branch laid out plainly on a line of its own at `o`'s indentation:
    /// its predicate fits after `elsif` on that line as its flat text, and its
    /// statements can each be written flat one level deeper.
    pub open spec fn elsif_ok(e: Conditional, o: Output) -> bool {
        &&& block_ok(e.body, o)
        &&& node_flat_ok(*e.predicate)
        &&& e.predicate.trailing_trivia.spec_comment() is None
        &&& ELSIF@.len() + 1 + total_len(node_flat(*e.predicate)) <= o.config.line_width - o.indent
    }

    /// An `if` or `unless` whose branches are all laid out plainly: the first one after
    /// the keyword, each `elsif` on a line of its own, and the `else` branch, if any,
    /// with no comment after `else`.
    pub open spec fn branches_layout_ok(&self, o: Output) -> bool {
        &&& self.if_first.headed_ok(self.keyword(), o)
        &&& forall|i: int| 0 <= i < self.elsifs@.len() ==> Self::elsif_ok(#[trigger] self.elsifs@[i], o)
        &&& match self.if_last {
            Some(e) => e.keyword_trailing.spec_comment() is None && block_ok(e.body, o),
            None => true,
        }
    }

    /// The first `i` `elsif` branches, each after a line break and the indentation:
    /// `elsif`, a space, the predicate, and the statements one level deeper.
    pub open spec fn elsif_rows(elsifs: Seq<Conditional>, i: int, indent: nat, indent_size: nat) -> Seq<u8>
        decreases i,
    {
        if i <= 0 || i > elsifs.len() {
            Seq::empty()
        } else {
            Self::elsif_rows(elsifs, i - 1, indent, indent_size) + seq![10u8] + spaces(indent) + elsifs[i
                - 1].headed_text(ELSIF@, indent, indent_size)
        }
    }

    /// The `else` branch, if any: a line break, the indentation, `else`, and the
    /// statements one level deeper.
    pub open spec fn else_text(&self, indent: nat, indent_size: nat) -> Seq<u8> {
        match self.if_last {
            Some(e) => seq![10u8] + spaces(indent) + ELSE@ + block_lines(e.body, indent + indent_size),
            None => Seq::empty(),
        }
    }

    /// The text of an `if` whose branches are laid out plainly, at indentation
    /// `indent`: the first branch, every `elsif` branch in order, the `else` branch,
    /// and `end`.
    pub open spec fn branches_text(&self, indent: nat, indent_size: nat) -> Seq<u8> {
        self.if_first.headed_text(self.keyword(), indent, indent_size) + Self::elsif_rows(
            self.elsifs@,
            self.elsifs@.len() as int,
            indent,
            indent_size,
        ) + self.else_text(indent, indent_size) + closing_end(indent)
    }

    /// Writes the branches, each body one level deeper, and `end`. A plain `if` (see
    /// `plain_layout_ok`) comes out as `plain_text`; one whose branches are all laid
    /// out plainly comes out as `branches_text`.
    #[verifier::spinoff_prover]
    #[verifier::rlimit(40)]
    pub fn format(&self, o: &mut Output, ctx: &FormatContext, Ghost(c): Ghost<int>)
        requires
            ready(*old(o), *ctx, c),
            self.ok_in(c, ctx.heredoc_map@),
        ensures
            advanced(*old(o), *final(o), *ctx, c),
            self.plain_layout_ok(*old(o)) ==> final(o).buffer@ == old(o).buffer@ + old(o).indent_prefix()
                + self.plain_text(old(o).indent as nat, old(o).config.indent_size as nat),
            self.branches_layout_ok(*old(o)) ==> {
                &&& final(o).buffer@ == old(o).buffer@ + old(o).indent_prefix() + self.branches_text(
                    old(o).indent as nat,
                    old(o).config.indent_size as nat,
                )
                &&& final(o).indent == old(o).indent
                &&& final(o).heredoc_queue@.len() == 0
            },
        decreases heredoc_measure(c), 2int, self, 1int,
    {
        let ghost o0 = *o;
        let ghost plain = self.plain_layout_ok(o0);
        let ghost rows = self.branches_layout_ok(o0);
        let ghost ind = o0.indent as nat;
        let ghost isz = o0.config.indent_size as nat;
        if self.is_if {
            self.if_first.format_headed(&IF, o, ctx, Ghost(c));
        } else {
            self.if_first.format_headed(&UNLESS, o, ctx, Ghost(c));
        }
        let ghost ol = *o;
        let ghost head = self.if_first.headed_text(self.keyword(), ind, isz);
        let ghost all = Self::elsif_rows(self.elsifs@, self.elsifs@.len() as int, ind, isz);
        self.format_elsifs(o, ctx, Ghost(c));
        let ghost oe = *o;
        if let Some(if_last) = &self.if_last {
            proof {
                if rows {
                    assert(block_ok(if_last.body, oe));
                }
            }
            if_last.format_clause(&ELSE, o, ctx, Ghost(c));
        }
        let ghost om = *o;
        proof {
            if rows {
                match &self.if_last {
                    Some(e) => lemma_append_assoc5(
                        oe.buffer@,
                        seq![10u8],
                        spaces(ind),
                        ELSE@,
                        block_lines(e.body, ind + isz),
                    ),
                    None => lemma_append_empty(oe.buffer@),
                }
            }
        }
        o.break_line(ctx, Ghost(c));
        let ghost on = *o;
        o.push_str(&END);
        proof {
            if rows {
                lemma_end_written(om, on, *o);
                lemma_if_assembled(
                    o0.buffer@,
                    o0.indent_prefix(),
                    head,
                    all,
                    self.else_text(ind, isz),
                    closing_end(ind),
                );
            }
            if plain {
                assert(om == ol);
                lemma_end_written(om, on, *o);
                lemma_assembled(
                    o0.buffer@,
                    o0.indent_prefix(),
                    self.if_first.headed_text(self.keyword(), o0.indent as nat, o0.config.indent_size as nat),
                    closing_end(o0.indent as nat),
                );
            }
        }
    }
}

impl If {
    /// Writes each `elsif` branch after a line break. Branches that `elsif_ok`
    /// describes come out as `elsif_rows`, with the indentation as it was and nothing
    /// waiting to be written.
    #[verifier::spinoff_prover]
    pub fn format_elsifs(&self, o: &mut Output, ctx: &FormatContext, Ghost(c): Ghost<int>)
        requires
            ready(*old(o), *ctx, c),
            self.ok_in(c, ctx.heredoc_map@),
        ensures
            advanced(*old(o), *final(o), *ctx, c),
            self.elsifs@.len() == 0 ==> *final(o) == *old(o),
            old(o).heredoc_queue@.len() == 0 && (forall|i: int|
                0 <= i < self.elsifs@.len() ==> Self::elsif_ok(#[trigger] self.elsifs@[i], *old(o))) ==> {
                &&& final(o).buffer@ == old(o).buffer@ + Self::elsif_rows(
                    self.elsifs@,
                    self.elsifs@.len() as int,
                    old(o).indent as nat,
                    old(o).config.indent_size as nat,
                )
                &&& final(o).indent == old(o).indent
                &&& final(o).config == old(o).config
                &&& final(o).heredoc_queue@.len() == 0
            },
        decreases heredoc_measure(c), 2int, self, 0int,
    {
        let ghost o0 = *o;
        let ghost rows = o0.heredoc_queue@.len() == 0 && (forall|i: int|
            0 <= i < self.elsifs@.len() ==> Self::elsif_ok(#[trigger] self.elsifs@[i], o0));
        let ghost ind = o0.indent as nat;
        let ghost isz = o0.config.indent_size as nat;
        let n = self.elsifs.len();
        let mut i: usize = 0;
        while i < n
            invariant
                n == self.elsifs@.len(),
                0 <= i <= n,
                i == 0 ==> *o == o0,
                ready(*o, *ctx, c),
                advanced(o0, *o, *ctx, c),
                self.ok_in(c, ctx.heredoc_map@),
                rows == (o0.heredoc_queue@.len() == 0 && (forall|j: int|
                    0 <= j < self.elsifs@.len() ==> Self::elsif_ok(#[trigger] self.elsifs@[j], o0))),
                ind == o0.indent as nat,
                isz == o0.config.indent_size as nat,
                rows ==> {
                    &&& o.buffer@ == o0.buffer@ + Self::elsif_rows(self.elsifs@, i as int, ind, isz)
                    &&& o.indent == o0.indent
                    &&& o.config == o0.config
                    &&& o.heredoc_queue@.len() == 0
                },
            decreases n - i,
        {
            o.break_line(ctx, Ghost(c));
            let ghost ob = *o;
            proof {
                if rows {
                    assert(Self::elsif_ok(self.elsifs@[i as int], o0));
                    assert(ob.at_line_start());
                    assert(ob.indent_prefix() == spaces(ind));
                    assert(budget(ob) == o0.config.line_width - o0.indent);
                    assert(self.elsifs@[i as int].headed_ok(ELSIF@, ob));
                }
            }
            self.elsifs[i].format_headed(&ELSIF, o, ctx, Ghost(c));
            proof {
                if rows {
                    assert(o.buffer@ =~= o0.buffer@ + Self::elsif_rows(self.elsifs@, i + 1, ind, isz));
                }
            }
            i = i + 1;
        }
        proof {
            if rows {
                assert(o.buffer@ == o0.buffer@ + Self::elsif_rows(self.elsifs@, n as int, ind, isz));
            }
        }
    }
}

/// The rows of the first `i` `elsif` branches begin the rows of the first `n`.
proof fn lemma_elsif_rows_prefix(es: Seq<Conditional>, i: int, n: int, indent: nat, indent_size: nat)
    requires
        0 <= i <= n <= es.len(),
    ensures
        If::elsif_rows(es, i, indent, indent_size).is_prefix_of(If::elsif_rows(es, n, indent, indent_size)),
    decreases n - i,
{
    if i < n {
        lemma_elsif_rows_prefix(es, i, n - 1, indent, indent_size);
        let a = If::elsif_rows(es, i, indent, indent_size);
        let b = If::elsif_rows(es, n - 1, indent, indent_size);
        let c = If::elsif_rows(es, n, indent, indent_size);
        assert(c == b + (seq![10u8] + spaces(indent) + es[n - 1].headed_text(ELSIF@, indent, indent_size)));
        assert(c.subrange(0, b.len() as int) =~= b);
        assert(c.subrange(0, a.len() as int) =~= b.subrange(0, a.len() as int));
    }
}

/// In the text of an `if` whose branches are laid out plainly, every `elsif` branch
/// comes in order on a line of its own: after the first branch and the `elsif`
/// branches before it stand a line break, the indentation, the keyword `elsif`, a
/// space and the branch's predicate. The text begins with the opening keyword, a
/// space and the first predicate, and ends with a line break, the indentation and
/// `end`.
pub proof fn law_if_branch_lines(x: If, indent: nat, indent_size: nat, i: int)
    requires
        0 <= i < x.elsifs@.len(),
    ensures
        ({
            let t = x.branches_text(indent, indent_size);
            let at = (x.if_first.headed_text(x.keyword(), indent, indent_size).len() + If::elsif_rows(
                x.elsifs@,
                i,
                indent,
                indent_size,
            ).len()) as int;
            let line = seq![10u8] + spaces(indent) + ELSIF@ + seq![32u8] + joined(node_flat(*x.elsifs@[i].predicate));
            let first = x.keyword() + seq![32u8] + joined(node_flat(*x.if_first.predicate));
            &&& at + line.len() <= t.len()
            &&& t.subrange(at, at + line.len() as int) == line
            &&& first.len() <= t.len()
            &&& t.subrange(0, first.len() as int) == first
            &&& closing_end(indent).len() <= t.len()
            &&& t.subrange(t.len() - closing_end(indent).len(), t.len() as int) == closing_end(indent)
        }),
{
    let es = x.elsifs@;
    let n = es.len() as int;
    let t = x.branches_text(indent, indent_size);
    let h = x.if_first.headed_text(x.keyword(), indent, indent_size);
    let before = If::elsif_rows(es, i, indent, indent_size);
    let upto = If::elsif_rows(es, i + 1, indent, indent_size);
    let all = If::elsif_rows(es, n, indent, indent_size);
    let line = seq![10u8] + spaces(indent) + ELSIF@ + seq![32u8] + joined(node_flat(*es[i].predicate));
    let rest_i = block_lines(es[i].body, indent + indent_size);
    let tail = x.else_text(indent, indent_size) + closing_end(indent);
    lemma_elsif_row_parts(es, i, indent, indent_size);
    lemma_elsif_rows_prefix(es, i + 1, n, indent, indent_size);
    let more = all.subrange(upto.len() as int, all.len() as int);
    lemma_prefix_rest(upto, all);
    lemma_branches_parts(x, indent, indent_size);
    lemma_regroup(t, h, all, tail, upto, more, before, line, rest_i);
    lemma_middle(h + before, line, rest_i + more + tail);
    let first = x.keyword() + seq![32u8] + joined(node_flat(*x.if_first.predicate));
    let fb = block_lines(x.if_first.body, indent + indent_size);
    lemma_regroup_ends(t, h, first, fb, all, x.else_text(indent, indent_size), closing_end(indent));
}

/// The rows up to `elsif` branch `i` are those before it, then its line break,
/// indentation, keyword and predicate, then its statements.
proof fn lemma_elsif_row_parts(es: Seq<Conditional>, i: int, indent: nat, indent_size: nat)
    requires
        0 <= i < es.len(),
    ensures
        If::elsif_rows(es, i + 1, indent, indent_size) == If::elsif_rows(es, i, indent, indent_size) + (seq![10u8]
            + spaces(indent) + ELSIF@ + seq![32u8] + joined(node_flat(*es[i].predicate))) + block_lines(
            es[i].body,
            indent + indent_size,
        ),
{
    assert(If::elsif_rows(es, i + 1, indent, indent_size) =~= If::elsif_rows(es, i, indent, indent_size) + (
    seq![10u8] + spaces(indent) + ELSIF@ + seq![32u8] + joined(node_flat(*es[i].predicate))) + block_lines(
        es[i].body,
        indent + indent_size,
    ));
}

/// The text of an `if` laid out plainly is its first branch, its `elsif` rows, then
/// its `else` branch and `end`.
proof fn lemma_branches_parts(x: If, indent: nat, indent_size: nat)
    ensures
        x.branches_text(indent, indent_size) == x.if_first.headed_text(x.keyword(), indent, indent_size)
            + If::elsif_rows(x.elsifs@, x.elsifs@.len() as int, indent, indent_size) + (x.else_text(
            indent,
            indent_size,
        ) + closing_end(indent)),
        x.if_first.headed_text(x.keyword(), indent, indent_size) == x.keyword() + seq![32u8] + joined(
            node_flat(*x.if_first.predicate),
        ) + block_lines(x.if_first.body, indent + indent_size),
{
    assert(x.branches_text(indent, indent_size) =~= x.if_first.headed_text(x.keyword(), indent, indent_size)
        + If::elsif_rows(x.elsifs@, x.elsifs@.len() as int, indent, indent_size) + (x.else_text(
        indent,
        indent_size,
    ) + closing_end(indent)));
}

/// A text that begins another is that other text cut at its length.
proof fn lemma_prefix_rest(a: Seq<u8>, b: Seq<u8>)
    requires
        a.is_prefix_of(b),
    ensures
        b == a + b.subrange(a.len() as int, b.len() as int),
{
    assert(b =~= a + b.subrange(a.len() as int, b.len() as int));
}

proof fn lemma_regroup(
    t: Seq<u8>,
    h: Seq<u8>,
    all: Seq<u8>,
    tail: Seq<u8>,
    upto: Seq<u8>,
    more: Seq<u8>,
    before: Seq<u8>,
    line: Seq<u8>,
    rest: Seq<u8>,
)
    requires
        t == h + all + tail,
        all == upto + more,
        upto == before + line + rest,
    ensures
        t == (h + before) + line + (rest + more + tail),
{
    assert(t =~= (h + before) + line + (rest + more + tail));
}

proof fn lemma_regroup_ends(
    t: Seq<u8>,
    h: Seq<u8>,
    first: Seq<u8>,
    fb: Seq<u8>,
    all: Seq<u8>,
    e: Seq<u8>,
    close: Seq<u8>,
)
    requires
        t == h + all + (e + close),
        h == first + fb,
    ensures
        first.len() <= t.len(),
        t.subrange(0, first.len() as int) == first,
        close.len() <= t.len(),
        t.subrange(t.len() - close.len(), t.len() as int) == close,
{
    assert(t.subrange(0, first.len() as int) =~= first);
    assert(t.subrange(t.len() - close.len(), t.len() as int) =~= close);
}

/// The middle part of three joined texts is the text between the ends of the first
/// and of the second.
pub proof fn lemma_middle(a: Seq<u8>, b: Seq<u8>, c: Seq<u8>)
    ensures
        (a + b + c).len() == a.len() + b.len() + c.len(),
        (a + b + c).subrange(a.len() as int, (a.len() + b.len()) as int) == b,
{
    assert((a + b + c).subrange(a.len() as int, (a.len() + b.len()) as int) =~= b);
}

/// A line break, the indentation and `end`.
pub open spec fn closing_end(indent: nat) -> Seq<u8> {
    seq![10u8] + spaces(indent) + END@
}

/// Ending the line and pushing `end` on the next one, with nothing waiting to be
/// written, adds a line break, the indentation and `end`.
pub proof fn lemma_end_written(om: Output, on: Output, o: Output)
    requires
        on.buffer@ == om.buffer@.push(10u8),
        on.at_line_start(),
        on.pushed(o, END@),
    ensures
        o.buffer@ == om.buffer@ + closing_end(on.indent as nat),
{
    lemma_pushes_one(on.text_state(), on.config.line_width as int, on.indent as nat, END@);
    assert(o.buffer@ =~= om.buffer@ + closing_end(on.indent as nat));
}

/// Ending the line, writing the indentation, then pushing `end`, with nothing waiting
/// to be written and room for the indentation, adds a line break, the indentation and
/// `end`.
pub proof fn lemma_end_written_after_indent(om: Output, on: Output, o1: Output, o: Output)
    requires
        on.buffer@ == om.buffer@.push(10u8),
        on.at_line_start(),
        on.indent <= on.config.line_width,
        on.pushed(o1, Seq::<u8>::empty()),
        o1.pushed(o, END@),
    ensures
        o.buffer@ == om.buffer@ + closing_end(on.indent as nat),
{
    lemma_line_start_push(on, o1);
    lemma_pushes_one(o1.text_state(), o1.config.line_width as int, o1.indent as nat, END@);
    assert(o.buffer@ =~= om.buffer@ + closing_end(on.indent as nat));
}

/// Appending four texts one after the other, or the last three joined, gives the
/// same text.
pub proof fn lemma_append_assoc5(a: Seq<u8>, b: Seq<u8>, c: Seq<u8>, d: Seq<u8>, e: Seq<u8>)
    ensures
        a + b + c + d + e == a + (b + c + d + e),
{
    assert(a + b + c + d + e =~= a + (b + c + d + e));
}

/// Appending nothing leaves a text as it was.
pub proof fn lemma_append_empty(a: Seq<u8>)
    ensures
        a + Seq::<u8>::empty() == a,
{
    assert(a + Seq::<u8>::empty() =~= a);
}

/// Appending the parts of an `if` one after the other, or joined, gives the same text.
pub proof fn lemma_if_assembled(x: Seq<u8>, p: Seq<u8>, h: Seq<u8>, r: Seq<u8>, e: Seq<u8>, c: Seq<u8>)
    ensures
        x + p + h + r + e + c == x + p + (h + r + e + c),
{
    assert(x + p + h + r + e + c =~= x + p + (h + r + e + c));
}

/// Appending in two steps or in one gives the same text.
pub proof fn lemma_assembled(x: Seq<u8>, p: Seq<u8>, k: Seq<u8>, t: Seq<u8>)
    ensures
        x + p + k + t == x + p + (k + t),
{
    assert(x + p + k + t =~= x + p + (k + t));
}

impl Conditional {
    pub open spec fn ok_in(&self, c: int, m: Map<usize, Heredoc>) -> bool
        decreases self,
    {
        self.predicate.ok_in(c, m) && self.body.ok_in(c, m)
    }

    pub fn new(predicate: Node, body: Statements) -> (r: Conditional)
        requires
            predicate.shape.concat_fits(body.shape),
        ensures
            r.shape == predicate.shape.concat(body.shape),
            *r.predicate == predicate,
            r.body == body,
    {
        let shape = predicate.shape.add(&body.shape);
        Conditional { shape, predicate: Box::new(predicate), body }
    }

    /// A branch laid out plainly at `o`: its predicate can be written flat after the
    /// keyword, and its statements, if it shows any, can each be written flat on a line
    /// of their own one level deeper.
    pub open spec fn headed_ok(&self, keyword: Seq<u8>, o: Output) -> bool {
        &&& block_ok(self.body, o)
        &&& node_flat_ok(*self.predicate)
        &&& self.predicate.trailing_trivia.spec_comment() is None
        &&& keyword.len() + 1 + total_len(node_flat(*self.predicate)) <= budget(o)
    }

    /// The text of a plain branch: the keyword, a space, the predicate, and the
    /// statements one level deeper.
    pub open spec fn headed_text(&self, keyword: Seq<u8>, indent: nat, indent_size: nat) -> Seq<u8> {
        keyword + seq![32u8] + joined(node_flat(*self.predicate)) + block_lines(self.body, indent + indent_size)
    }

    /// Writes the keyword, the predicate and the statements one level deeper. A branch
    /// laid out plainly comes out as `headed_text`, and leaves the indentation as it
    /// was and nothing waiting to be written.
    pub fn format_headed(&self, keyword: &[u8], o: &mut Output, ctx: &FormatContext, Ghost(c): Ghost<int>)
        requires
            ready(*old(o), *ctx, c),
            self.ok_in(c, ctx.heredoc_map@),
        ensures
            advanced(*old(o), *final(o), *ctx, c),
            self.headed_ok(keyword@, *old(o)) ==> {
                &&& final(o).buffer@ == old(o).buffer@ + old(o).indent_prefix() + self.headed_text(
                    keyword@,
                    old(o).indent as nat,
                    old(o).config.indent_size as nat,
                )
                &&& final(o).indent == old(o).indent
                &&& final(o).heredoc_queue@.len() == 0
            },
        decreases heredoc_measure(c), 2int, self, 2int,
    {
        let ghost o0 = *o;
        let ghost plain = self.headed_ok(keyword@, o0);
        let ghost np = node_flat(*self.predicate);
        o.push_str(keyword);
        let ghost o1 = *o;
        proof {
            if plain {
                lemma_total_len_one(keyword@);
                lemma_wrote_fitting(o0, o1, seq![keyword@]);
            }
        }
        self.format(o, ctx, Ghost(c));
        let ghost o2 = *o;
        let ghost head = o0.buffer@ + o0.indent_prefix() + (keyword@ + seq![32u8] + joined(np));
        proof {
            if plain {
                lemma_total_len_one(seq![32u8]);
                lemma_total_len_concat(seq![seq![32u8]], np);
                lemma_wrote_fitting(o1, o2, seq![seq![32u8]] + np);
                assert(o2.buffer@ =~= head);
            }
        }
        self.body.format_block(o, ctx, Ghost(c));
        proof {
            if plain {
                assert(o.buffer@ =~= o0.buffer@ + o0.indent_prefix() + self.headed_text(
                    keyword@,
                    o0.indent as nat,
                    o0.config.indent_size as nat,
                ));
            }
        }
    }

    /// Writes the predicate after the keyword, or on the next lines if it cannot
    /// continue the line. A predicate that `node_flat` describes, with no comment after
    /// it, is written flat after a space when it fits in the room left on the line.
    pub fn format(&self, o: &mut Output, ctx: &FormatContext, Ghost(c): Ghost<int>)
        requires
            ready(*old(o), *ctx, c),
            self.ok_in(c, ctx.heredoc_map@),
        ensures
            advanced(*old(o), *final(o), *ctx, c),
            self.flat_ok(*old(o)) ==> wrote_pieces(
                *old(o),
                *final(o),
                seq![seq![32u8]] + node_flat(*self.predicate),
            ),
        decreases heredoc_measure(c), 2int, self, 1int,
    {
        let ghost o0 = *o;
        let ghost np = node_flat(*self.predicate);
        let ghost flat = self.flat_ok(o0);
        if self.predicate.can_continue_line() {
            o.push(32u8);
            let ghost o1 = *o;
            proof {
                if flat {
                    lemma_total_len_one(seq![32u8]);
                    lemma_wrote_fitting(o0, o1, seq![seq![32u8]]);
                    lemma_node_flat_nonempty(*self.predicate);
                }
            }
            o.indent();
            let ghost o2 = *o;
            self.predicate.format(o, ctx, Ghost(c));
            self.predicate.trailing_trivia.format(o);
            o.dedent();
            proof {
                if flat {
                    lemma_pushes_indent_free(
                        o2.text_state(),
                        o0.config.line_width as int,
                        o2.indent as nat,
                        o1.indent as nat,
                        np,
                    );
                    lemma_wrote_pieces_concat(o0, o1, *o, seq![seq![32u8]], np);
                }
            }
        } else {
            proof {
                if flat {
                    lemma_flat_continues_line(*self.predicate);
                }
            }
            o.indent();
            o.indent();
            o.break_line(ctx, Ghost(c));
            self.predicate.leading_trivia.format(o, ctx, EmptyLineHandling::trim(), Ghost(c));
            self.predicate.format(o, ctx, Ghost(c));
            self.predicate.trailing_trivia.format(o);
            o.dedent();
            o.dedent();
        }
    }

    /// The predicate is made of parts that `node_flat` describes, has no comment after
    /// it, and fits after a space in the room left on the line.
    pub open spec fn flat_ok(&self, o: Output) -> bool {
        &&& node_flat_ok(*self.predicate)
        &&& self.predicate.trailing_trivia.spec_comment() is None
        &&& 1 + total_len(node_flat(*self.predicate)) <= budget(o)
        &&& o.indent + o.config.indent_size <= usize::MAX
    }
}

impl Else {
    pub open spec fn ok_in(&self, c: int, m: Map<usize, Heredoc>) -> bool
        decreases self,
    {
        self.body.ok_in(c, m)
    }

    /// Ends the line, then writes `keyword`, the comment after it, and the statements one
    /// level deeper. With nothing waiting to be written, no comment, and statements that
    /// can each be written flat one level deeper, this adds a line break, the
    /// indentation, the keyword, and the statements one per line.
    pub fn format_clause(&self, keyword: &[u8], o: &mut Output, ctx: &FormatContext, Ghost(c): Ghost<int>)
        requires
            ready(*old(o), *ctx, c),
            self.ok_in(c, ctx.heredoc_map@),
        ensures
            advanced(*old(o), *final(o), *ctx, c),
            self.keyword_trailing.spec_comment() is None && block_ok(self.body, *old(o)) ==> {
                &&& final(o).buffer@ == old(o).buffer@ + seq![10u8] + spaces(old(o).indent as nat) + keyword@
                    + block_lines(self.body, old(o).indent as nat + old(o).config.indent_size as nat)
                &&& final(o).indent == old(o).indent
                &&& final(o).config == old(o).config
                &&& final(o).heredoc_queue@.len() == 0
            },
        decreases heredoc_measure(c), 2int, self, 1int,
    {
        let ghost o0 = *o;
        let ghost plain = self.keyword_trailing.spec_comment() is None && block_ok(self.body, o0);
        o.break_line(ctx, Ghost(c));
        let ghost ol = *o;
        o.push_str(keyword);
        self.keyword_trailing.format(o);
        proof {
            if plain {
                lemma_pushes_one(ol.text_state(), ol.config.line_width as int, ol.indent as nat, keyword@);
                assert(o.buffer@ =~= o0.buffer@ + seq![10u8] + spaces(o0.indent as nat) + keyword@);
            }
        }
        self.body.format_block(o, ctx, Ghost(c));
    }
}

} // verus!
