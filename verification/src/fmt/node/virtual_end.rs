use vstd::prelude::*;

use crate::fmt::output::{
    advanced, heredoc_measure, lemma_line_start_push, lemma_pushes_one, ready, spaces, FormatContext, Output,
};
use crate::fmt::shape::Shape;
use crate::fmt::trivia::{Comment, LeadingTrivia, LineTrivia};

verus! {

broadcast use crate::fmt::growth::group_output_growth;

/// The comments and empty lines before the closing of a block or a list.
#[derive(Debug)]
pub struct VirtualEnd {
    pub shape: Shape,
    pub leading_trivia: LeadingTrivia,
}

impl VirtualEnd {
    pub fn new(leading_trivia: LeadingTrivia) -> (e: VirtualEnd)
        ensures
            e.shape == leading_trivia.spec_shape(),
            e.leading_trivia == leading_trivia,
    {
        VirtualEnd { shape: *leading_trivia.shape(), leading_trivia }
    }

    /// The text written for the comments at indentation `indent`, from the start of a
    /// line or not (`at_start`): nothing where there is no comment; else a line break
    /// first if asked for, then the lines up to the last comment, each comment on a
    /// line of its own and indented where it starts one.
    pub open spec fn written_text(&self, break_first: bool, trim_start: bool, at_start: bool, indent: nat) -> Seq<u8> {
        let lines = self.leading_trivia.spec_lines();
        let k = comment_span(lines);
        if k == 0 {
            Seq::empty()
        } else {
            (if break_first {
                seq![10u8]
            } else {
                Seq::empty()
            }) + end_written(lines, k, k, trim_start, break_first || at_start, indent).0
        }
    }

    /// Writes the comments, without the empty lines after the last one. With nothing
    /// waiting to be written and room for the indentation, this writes `written_text`.
    pub fn format(
        &self,
        o: &mut Output,
        ctx: &FormatContext,
        break_first: bool,
        trim_start: bool,
        Ghost(c): Ghost<int>,
    )
        requires
            ready(*old(o), *ctx, c),
        ensures
            advanced(*old(o), *final(o), *ctx, c),
            old(o).heredoc_queue@.len() == 0 && old(o).indent <= old(o).config.line_width ==> final(o).buffer@
                == old(o).buffer@ + self.written_text(
                break_first,
                trim_start,
                old(o).at_line_start(),
                old(o).indent as nat,
            ),
        decreases heredoc_measure(c), 1int, ctx, 0int,
    {
        let ghost o0 = *o;
        let ghost plain = o0.heredoc_queue@.len() == 0 && o0.indent <= o0.config.line_width;
        let lines = self.leading_trivia.lines();
        let ghost ls = lines@;
        let n = lines.len();
        let mut trailing_empty_lines: usize = 0;
        proof {
            assert(lines@.subrange(0, n as int) =~= lines@);
        }
        while trailing_empty_lines < n
            invariant
                n == lines@.len(),
                0 <= trailing_empty_lines <= n,
                comment_span(lines@) == comment_span(lines@.subrange(0, n - trailing_empty_lines)),
            ensures
                0 <= trailing_empty_lines <= n,
                comment_span(lines@) == n - trailing_empty_lines,
            decreases n - trailing_empty_lines,
        {
            let ghost m = n - trailing_empty_lines;
            proof {
                assert(lines@.subrange(0, m).drop_last() =~= lines@.subrange(0, m - 1));
            }
            match &lines[n - 1 - trailing_empty_lines] {
                LineTrivia::EmptyLine => {
                    trailing_empty_lines = trailing_empty_lines + 1;
                },
                LineTrivia::Comment(_) => {
                    break;
                },
            }
        }
        if trailing_empty_lines == n {
            return;
        }
        if break_first {
            o.break_line(ctx, Ghost(c));
        }
        let ghost ob = *o;
        let target_len = n - trailing_empty_lines;
        let last_idx = target_len - 1;
        let mut i: usize = 0;
        while i < target_len
            invariant
                n == lines@.len(),
                ls == lines@,
                target_len <= n,
                target_len == comment_span(ls),
                last_idx + 1 == target_len,
                0 <= i <= target_len,
                ready(*o, *ctx, c),
                advanced(*old(o), *o, *ctx, c),
                plain ==> {
                    &&& o0.indent <= o0.config.line_width
                    &&& ob.buffer@ == o0.buffer@ + (if break_first {
                        seq![10u8]
                    } else {
                        Seq::<u8>::empty()
                    })
                    &&& ob.at_line_start() == (break_first || o0.at_line_start())
                    &&& ob.indent == o0.indent
                    &&& o.buffer@ == ob.buffer@ + end_written(
                        ls,
                        i as int,
                        target_len as int,
                        trim_start,
                        ob.at_line_start(),
                        o0.indent as nat,
                    ).0
                    &&& i < target_len ==> o.at_line_start() == end_written(
                        ls,
                        i as int,
                        target_len as int,
                        trim_start,
                        ob.at_line_start(),
                        o0.indent as nat,
                    ).1
                    &&& o.indent == o0.indent
                    &&& o.config == o0.config
                    &&& o.heredoc_queue@.len() == 0
                },
            decreases target_len - i,
        {
            let ghost oa = *o;
            write_end_line(&lines[i], i, last_idx, trim_start, o, ctx, Ghost(c));
            proof {
                if plain {
                    let prev = end_written(ls, i as int, target_len as int, trim_start, ob.at_line_start(), o0.indent as nat);
                    let step = end_step(ls[i as int], i as int, target_len as int, trim_start, prev.1, o0.indent as nat);
                    assert(end_written(ls, i + 1, target_len as int, trim_start, ob.at_line_start(), o0.indent as nat) == (prev.0 + step.0, step.1));
                    assert(o.buffer@ =~= ob.buffer@ + (prev.0 + step.0));
                }
            }
            i = i + 1;
        }
        proof {
            if plain {
                assert(o.buffer@ =~= o0.buffer@ + self.written_text(
                    break_first,
                    trim_start,
                    o0.at_line_start(),
                    o0.indent as nat,
                ));
            }
        }
    }
}

/// How many of `lines` come up to and including the last comment.
pub open spec fn comment_span(lines: Seq<LineTrivia>) -> int
    decreases lines.len(),
{
    if lines.len() == 0 {
        0
    } else if lines.last() is Comment {
        lines.len() as int
    } else {
        comment_span(lines.drop_last())
    }
}

/// The text of a comment.
pub open spec fn comment_text(c: Comment) -> Seq<u8> {
    match c {
        Comment::Oneline(t) => t@,
        Comment::Block(t) => t@,
    }
}

/// Line `i` of the `k` lines up to the last comment as written at indentation
/// `indent`, from the start of a line or not (`at_start`): an empty line as a line
/// break (but a first one when `trim_start` asks for it), a comment indented where it
/// starts a line and followed by a line break unless it is the last; with whether the
/// text then ends at the start of a line, before the last line.
pub open spec fn end_step(line: LineTrivia, i: int, k: int, trim_start: bool, at_start: bool, indent: nat) -> (
    Seq<u8>,
    bool,
) {
    match line {
        LineTrivia::EmptyLine => if !(trim_start && i == 0) || i == k - 1 {
            (seq![10u8], true)
        } else {
            (Seq::empty(), at_start)
        },
        LineTrivia::Comment(c) => ((if at_start {
            spaces(indent)
        } else {
            Seq::empty()
        }) + comment_text(c) + (if i < k - 1 {
            seq![10u8]
        } else {
            Seq::empty()
        }), true),
    }
}

/// The first `i` of the `k` lines up to the last comment as written (see `end_step`).
pub open spec fn end_written(
    lines: Seq<LineTrivia>,
    i: int,
    k: int,
    trim_start: bool,
    at_start: bool,
    indent: nat,
) -> (Seq<u8>, bool)
    decreases i,
{
    if i <= 0 {
        (Seq::empty(), at_start)
    } else {
        let prev = end_written(lines, i - 1, k, trim_start, at_start, indent);
        let step = end_step(lines[i - 1], i - 1, k, trim_start, prev.1, indent);
        (prev.0 + step.0, step.1)
    }
}

/// Writes line `i` of the lines up to the last comment, the last being `last_idx`.
fn write_end_line(
    line: &LineTrivia,
    i: usize,
    last_idx: usize,
    trim_start: bool,
    o: &mut Output,
    ctx: &FormatContext,
    Ghost(c): Ghost<int>,
)
    requires
        ready(*old(o), *ctx, c),
    ensures
        advanced(*old(o), *final(o), *ctx, c),
        old(o).heredoc_queue@.len() == 0 && old(o).indent <= old(o).config.line_width ==> {
            let step = end_step(*line, i as int, last_idx + 1, trim_start, old(o).at_line_start(), old(o).indent as nat);
            &&& final(o).buffer@ == old(o).buffer@ + step.0
            &&& i < last_idx ==> final(o).at_line_start() == step.1
            &&& final(o).indent == old(o).indent
            &&& final(o).config == old(o).config
            &&& final(o).heredoc_queue@.len() == 0
        },
    decreases heredoc_measure(c), 0int, ctx, 1int,
{
    let ghost oa = *o;
    let ghost plain = oa.heredoc_queue@.len() == 0 && oa.indent <= oa.config.line_width;
    match line {
        LineTrivia::EmptyLine => {
            if !(trim_start && i == 0) || i == last_idx {
                o.break_line(ctx, Ghost(c));
            }
        },
        LineTrivia::Comment(comment) => {
            match comment {
                Comment::Oneline(text) => {
                    o.put_indent_if_needed();
                    let ghost o1 = *o;
                    o.push_str(text.as_slice());
                    proof {
                        if plain {
                            if oa.at_line_start() {
                                lemma_line_start_push(oa, o1);
                            } else {
                                lemma_pushes_one(oa.text_state(), oa.config.line_width as int, oa.indent as nat, Seq::<u8>::empty());
                                assert(o1.buffer@ =~= oa.buffer@);
                            }
                            lemma_pushes_one(o1.text_state(), o1.config.line_width as int, o1.indent as nat, text@);
                        }
                    }
                },
                Comment::Block(text) => {
                    o.push_str(text.as_slice());
                    proof {
                        lemma_pushes_one(oa.text_state(), oa.config.line_width as int, oa.indent as nat, text@);
                    }
                },
            }
            let ghost ob = *o;
            if i < last_idx {
                o.break_line(ctx, Ghost(c));
            }
            proof {
                if plain {
                    assert(o.buffer@ =~= oa.buffer@ + end_step(*line, i as int, last_idx + 1, trim_start, oa.at_line_start(), oa.indent as nat).0);
                }
            }
        },
    }
}

} // verus!
