use vstd::prelude::*;

use super::output::{ready, advanced, grew, heredoc_measure, lemma_pushes_one, spaces, FormatContext, Output};
use super::shape::Shape;

verus! {

broadcast use super::growth::group_output_growth;

/// A comment on a line of its own: `# ...`, or `=begin ... =end`.
#[derive(Debug)]
pub enum Comment {
    Oneline(Vec<u8>),
    Block(Vec<u8>),
}

/// A line in front of a node: empty, or a comment.
#[derive(Debug)]
pub enum LineTrivia {
    EmptyLine,
    Comment(Comment),
}

/// How empty lines in leading trivia are written.
#[derive(Debug, Clone, Copy, PartialEq, Eq, Structural)]
pub enum EmptyLineHandling {
    Trim { start: bool, end: bool },
    Skip,
}

impl EmptyLineHandling {
    /// Skips the empty lines at both ends.
    pub fn trim() -> (h: EmptyLineHandling)
        ensures
            h == (EmptyLineHandling::Trim { start: true, end: true }),
    {
        EmptyLineHandling::Trim { start: true, end: true }
    }

    /// Keeps every empty line.
    pub fn none() -> (h: EmptyLineHandling)
        ensures
            h == (EmptyLineHandling::Trim { start: false, end: false }),
    {
        EmptyLineHandling::Trim { start: false, end: false }
    }
}

/// Whether empty line `i` of lines numbered up to `last` is left out.
pub open spec fn skips_empty_line(h: EmptyLineHandling, i: int, last: int) -> bool {
    match h {
        EmptyLineHandling::Skip => true,
        EmptyLineHandling::Trim { start, end } => (start && i == 0) || (end && i == last),
    }
}

/// The first `i` of `lines` as written at indentation `indent`, starting at the start
/// of a line or not (`at_start`): each comment on a line of its own (a one-line comment
/// indented where it starts a line), each empty line that is kept as a line break;
/// with whether the text then ends at the start of a line.
pub open spec fn leading_written(
    lines: Seq<LineTrivia>,
    i: int,
    h: EmptyLineHandling,
    at_start: bool,
    indent: nat,
) -> (Seq<u8>, bool)
    decreases i,
{
    if i <= 0 {
        (Seq::empty(), at_start)
    } else {
        let prev = leading_written(lines, i - 1, h, at_start, indent);
        match lines[i - 1] {
            LineTrivia::EmptyLine => if skips_empty_line(h, i - 1, lines.len() - 1) {
                prev
            } else {
                (prev.0 + seq![10u8], true)
            },
            LineTrivia::Comment(Comment::Oneline(t)) => (prev.0 + (if prev.1 {
                spaces(indent)
            } else {
                Seq::empty()
            }) + t@ + seq![10u8], true),
            LineTrivia::Comment(Comment::Block(t)) => (prev.0 + t@ + seq![10u8], true),
        }
    }
}

/// Written from the start of a line, leading lines end at the start of a line: each
/// comment and each kept empty line ends with a line break.
pub proof fn lemma_leading_ends_at_line_start(lines: Seq<LineTrivia>, i: int, h: EmptyLineHandling, indent: nat)
    ensures
        leading_written(lines, i, h, true, indent).1,
    decreases i,
{
    if i > 0 {
        lemma_leading_ends_at_line_start(lines, i - 1, h, indent);
    }
}

/// Some line of `lines` is a comment.
pub open spec fn has_comment(lines: Seq<LineTrivia>) -> bool {
    exists|i: int| 0 <= i < lines.len() && #[trigger] lines[i] is Comment
}

/// The shape of a run of leading lines: a comment forces a line break.
pub open spec fn shape_of_lines(lines: Seq<LineTrivia>) -> Shape {
    if has_comment(lines) {
        Shape::Multilines
    } else {
        Shape::Inline { len: 0 }
    }
}

/// The empty lines and comments in front of a node.
#[derive(Debug)]
pub struct LeadingTrivia {
    pub(crate) lines: Vec<LineTrivia>,
    pub(crate) shape: Shape,
}

impl LeadingTrivia {
    #[verifier::type_invariant]
    spec fn shape_matches_lines(self) -> bool {
        self.shape == shape_of_lines(self.lines@)
    }

    pub closed spec fn spec_lines(&self) -> Seq<LineTrivia> {
        self.lines@
    }

    pub open spec fn spec_shape(&self) -> Shape {
        shape_of_lines(self.spec_lines())
    }

    pub fn new() -> (t: LeadingTrivia)
        ensures
            t.spec_lines() == Seq::<LineTrivia>::empty(),
            t.spec_shape() == (Shape::Inline { len: 0 }),
    {
        let t = LeadingTrivia { lines: Vec::new(), shape: Shape::inline(0) };
        assert(!has_comment(t.lines@));
        t
    }

    pub fn shape(&self) -> (s: &Shape)
        ensures
            *s == self.spec_shape(),
    {
        proof {
            use_type_invariant(self);
        }
        &self.shape
    }

    pub fn lines(&self) -> (l: &Vec<LineTrivia>)
        ensures
            l@ == self.spec_lines(),
    {
        &self.lines
    }

    pub fn is_empty(&self) -> (b: bool)
        ensures
            b == (self.spec_lines().len() == 0),
    {
        self.lines.is_empty()
    }

    pub fn append_line(&mut self, trivia: LineTrivia)
        ensures
            final(self).spec_lines() == old(self).spec_lines().push(trivia),
    {
        proof {
            use_type_invariant(&*self);
        }
        let ghost old_lines = self.lines@;
        let is_comment = match &trivia {
            LineTrivia::Comment(_) => true,
            LineTrivia::EmptyLine => false,
        };
        let mut current = LeadingTrivia::new();
        std::mem::swap(&mut current, self);
        let LeadingTrivia { lines, shape } = current;
        let mut lines = lines;
        lines.push(trivia);
        let shape = if is_comment {
            Shape::Multilines
        } else {
            shape
        };
        proof {
            let new_lines = lines@;
            assert(new_lines[new_lines.len() - 1] == trivia);
            if is_comment {
                assert(has_comment(new_lines));
            } else {
                if has_comment(new_lines) {
                    let i = choose|i: int| 0 <= i < new_lines.len() && #[trigger] new_lines[i] is Comment;
                    assert(old_lines[i] is Comment);
                }
                if has_comment(old_lines) {
                    let i = choose|i: int| 0 <= i < old_lines.len() && #[trigger] old_lines[i] is Comment;
                    assert(new_lines[i] is Comment);
                }
            }
        }
        *self = LeadingTrivia { lines, shape };
    }

    pub fn merge(&mut self, other: LeadingTrivia)
        ensures
            final(self).spec_lines() == old(self).spec_lines() + other.spec_lines(),
    {
        let LeadingTrivia { lines, shape: _ } = other;
        let ghost all = lines@;
        let mut lines = lines;
        let mut reversed: Vec<LineTrivia> = Vec::new();
        while lines.len() > 0
            invariant
                lines@ + reversed@.reverse() == all,
            decreases lines@.len(),
        {
            let ghost before = lines@;
            let line = lines.pop();
            match line {
                Some(line) => {
                    assert(before == lines@.push(line));
                    reversed.push(line);
                    assert(lines@ + reversed@.reverse() =~= before + (reversed@.drop_last()).reverse()) by {
                        assert(reversed@.reverse() =~= seq![line] + reversed@.drop_last().reverse());
                    }
                },
                None => {},
            }
        }
        assert(reversed@.reverse() =~= all);
        self.merge_lines(reversed);
    }

    /// Appends the lines of `rest` taken from its end, so `rest` holds them reversed.
    fn merge_lines(&mut self, rest: Vec<LineTrivia>)
        ensures
            final(self).spec_lines() == old(self).spec_lines() + rest@.reverse(),
    {
        let mut rest = rest;
        let ghost all = rest@.reverse();
        while rest.len() > 0
            invariant
                self.spec_lines() + rest@.reverse() == old(self).spec_lines() + all,
            decreases rest@.len(),
        {
            let ghost before = rest@;
            let line = rest.pop();
            match line {
                Some(line) => {
                    assert(before.reverse() == seq![line] + rest@.reverse()) by {
                        assert(before == rest@.push(line));
                        assert(before.reverse() =~= seq![line] + rest@.reverse());
                    }
                    self.append_line(line);
                    assert(self.spec_lines() + rest@.reverse() =~= old(self).spec_lines() + all) by {
                        assert(self.spec_lines() + rest@.reverse() =~= (self.spec_lines().drop_last()) + before.reverse());
                    }
                },
                None => {},
            }
        }
        assert(rest@.reverse() =~= Seq::<LineTrivia>::empty());
        assert(self.spec_lines() =~= old(self).spec_lines() + all);
    }

    pub fn format(
        &self,
        o: &mut Output,
        ctx: &FormatContext,
        emp_line_handling: EmptyLineHandling,
        Ghost(c): Ghost<int>,
    )
        requires
            ready(*old(o), *ctx, c),
        ensures
            advanced(*old(o), *final(o), *ctx, c),
            self.spec_lines().len() == 0 ==> *final(o) == *old(o),
            old(o).heredoc_queue@.len() == 0 ==> {
                &&& final(o).buffer@ == old(o).buffer@ + leading_written(
                    self.spec_lines(),
                    self.spec_lines().len() as int,
                    emp_line_handling,
                    old(o).at_line_start(),
                    old(o).indent as nat,
                ).0
                &&& final(o).at_line_start() == leading_written(
                    self.spec_lines(),
                    self.spec_lines().len() as int,
                    emp_line_handling,
                    old(o).at_line_start(),
                    old(o).indent as nat,
                ).1
                &&& final(o).indent == old(o).indent
                &&& final(o).config == old(o).config
                &&& final(o).heredoc_queue@.len() == 0
            },
        decreases heredoc_measure(c), 1int, ctx, 0int,
    {
        let ghost o0 = *o;
        let ghost plain = o0.heredoc_queue@.len() == 0;
        let ghost ls = self.spec_lines();
        if self.is_empty() {
            return;
        }
        let n = self.lines.len();
        let last_idx = n - 1;
        let mut i: usize = 0;
        while i < n
            invariant
                n == self.lines@.len(),
                ls == self.lines@,
                last_idx + 1 == n,
                0 <= i <= n,
                ready(*o, *ctx, c),
                advanced(*old(o), *o, *ctx, c),
                plain ==> {
                    &&& o.buffer@ == o0.buffer@ + leading_written(
                        ls,
                        i as int,
                        emp_line_handling,
                        o0.at_line_start(),
                        o0.indent as nat,
                    ).0
                    &&& o.at_line_start() == leading_written(
                        ls,
                        i as int,
                        emp_line_handling,
                        o0.at_line_start(),
                        o0.indent as nat,
                    ).1
                    &&& o.indent == o0.indent
                    &&& o.config == o0.config
                    &&& o.heredoc_queue@.len() == 0
                },
            decreases n - i,
        {
            let ghost oa = *o;
            let ghost prev = leading_written(ls, i as int, emp_line_handling, o0.at_line_start(), o0.indent as nat);
            match &self.lines[i] {
                LineTrivia::EmptyLine => {
                    let should_skip = match emp_line_handling {
                        EmptyLineHandling::Skip => true,
                        EmptyLineHandling::Trim { start, end } => (start && i == 0) || (end && i
                            == last_idx),
                    };
                    if !should_skip {
                        o.break_line(ctx, Ghost(c));
                    }
                },
                LineTrivia::Comment(comment) => {
                    match comment {
                        Comment::Oneline(text) => {
                            o.push_str(text.as_slice());
                            proof {
                                lemma_pushes_one(oa.text_state(), oa.config.line_width as int, oa.indent as nat, text@);
                            }
                        },
                        Comment::Block(text) => o.push_str_without_indent(text.as_slice()),
                    }
                    o.break_line(ctx, Ghost(c));
                },
            }
            proof {
                if plain {
                    let next = leading_written(ls, i + 1, emp_line_handling, o0.at_line_start(), o0.indent as nat);
                    assert(o.buffer@ =~= o0.buffer@ + next.0);
                }
            }
            i = i + 1;
        }
    }
}

/// The comment at the end of a node's line, if any.
#[derive(Debug)]
pub struct TrailingTrivia {
    pub(crate) comment: Option<Vec<u8>>,
    pub(crate) shape: Shape,
}

/// A trailing comment ends the line; its own length is not counted.
pub open spec fn shape_of_trailing(comment: Option<Vec<u8>>) -> Shape {
    if comment is Some {
        Shape::LineEnd { len: 0 }
    } else {
        Shape::Inline { len: 0 }
    }
}

impl TrailingTrivia {
    #[verifier::type_invariant]
    spec fn shape_matches_comment(self) -> bool {
        self.shape == shape_of_trailing(self.comment)
    }

    pub closed spec fn spec_comment(&self) -> Option<Vec<u8>> {
        self.comment
    }

    pub open spec fn spec_shape(&self) -> Shape {
        shape_of_trailing(self.spec_comment())
    }

    pub fn new(comment: Option<Vec<u8>>) -> (t: TrailingTrivia)
        ensures
            t.spec_comment() == comment,
    {
        let shape = if comment.is_some() {
            Shape::LineEnd { len: 0 }
        } else {
            Shape::inline(0)
        };
        TrailingTrivia { comment, shape }
    }

    pub fn none() -> (t: TrailingTrivia)
        ensures
            t.spec_comment() is None,
            t.spec_shape() == (Shape::Inline { len: 0 }),
    {
        Self::new(None)
    }

    pub fn comment(&self) -> (c: &Option<Vec<u8>>)
        ensures
            *c == self.spec_comment(),
    {
        &self.comment
    }

    pub fn shape(&self) -> (s: &Shape)
        ensures
            *s == self.spec_shape(),
    {
        proof {
            use_type_invariant(self);
        }
        &self.shape
    }

    pub fn is_none(&self) -> (b: bool)
        ensures
            b == (self.spec_comment() is None),
    {
        self.comment.is_none()
    }

    /// Writes ` ` and the comment, if there is one.
    pub fn format(&self, o: &mut Output)
        ensures
            grew(*old(o), *final(o)),
            old(o).wf() ==> final(o).wf(),
            final(o).heredoc_queue@ == old(o).heredoc_queue@,
            final(o).indent == old(o).indent,
            match self.spec_comment() {
                None => *final(o) == *old(o),
                Some(comment) => exists|mid: Output| {
                    &&& #[trigger] old(o).pushed(mid, seq![32u8])
                    &&& mid.same_but_raw(*final(o), comment@)
                },
            },
            self.spec_comment() matches Some(comment) ==> final(o).buffer@ == old(o).buffer@ + old(
                o,
            ).indent_prefix() + seq![32u8] + comment@,
    {
        if let Some(comment) = &self.comment {
            o.push(32u8);
            let ghost mid = *o;
            o.write_raw(comment.as_slice());
            assert(old(o).pushed(mid, seq![32u8]));
        }
    }
}

} // verus!
