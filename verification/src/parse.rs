use vstd::prelude::*;
use vstd::string::StringExecFns;
use vstd::utf8::{encode_utf8, valid_utf8};

use crate::error::{parse_error_text, render_parse_error, AppError};
use crate::fmt::node::Pos;
use crate::fmt::output::HeredocMap;

verus! {

/// The syntax errors that stop a source from being formatted.
#[derive(Debug)]
pub struct ParseError {
    pub messages: Vec<String>,
}

/// A syntax error found by the parser: where it is, as byte offsets, and what it says.
#[derive(Debug)]
pub struct SyntaxError {
    pub start: u32,
    pub end: u32,
    pub message: Vec<u8>,
}

impl SyntaxError {
    pub open spec fn view_tuple(self) -> (u32, u32, Seq<u8>) {
        (self.start, self.end, self.message@)
    }
}

/// The syntax errors that the prism parser reports for `source`, in its order: the
/// start and end offset and the message of each.
pub uninterp spec fn prism_syntax_errors(source: Seq<u8>) -> Seq<(u32, u32, Seq<u8>)>;

/// `ruby_prism::parse`, then `ParseResult::errors`.
///
/// The contract claims that the errors depend on the source alone, and gives them the
/// name `prism_syntax_errors`; which sources have errors is not stated.
#[verifier::external_body]
fn prism_errors(source: &[u8]) -> (errors: Vec<SyntaxError>)
    ensures
        errors@.map_values(|e: SyntaxError| e.view_tuple()) == prism_syntax_errors(source@),
{
    let result = ruby_prism::parse(source);
    result.errors().map(|e| {
        let loc = e.location();
        SyntaxError { start: loc.start(), end: loc.end(), message: e.message().to_vec() }
    }).collect()
}

/// What `String::from_utf8_lossy` makes of `bytes`.
pub uninterp spec fn lossy_utf8(bytes: Seq<u8>) -> Seq<char>;

/// `String::from_utf8_lossy`: the text of `bytes`, with each invalid sequence replaced.
///
/// The contract names the result `lossy_utf8` and claims, as the documentation says,
/// that valid UTF-8 comes out as it went in; what replaces an invalid sequence is left
/// unsaid.
#[verifier::external_body]
fn lossy_text(bytes: &[u8]) -> (text: String)
    ensures
        text@ == lossy_utf8(bytes@),
        valid_utf8(bytes@) ==> encode_utf8(text@) == bytes@,
{
    String::from_utf8_lossy(bytes).into_owned()
}

/// The character of a decimal digit.
pub open spec fn digit_char(d: int) -> char {
    if d == 0 {
        '0'
    } else if d == 1 {
        '1'
    } else if d == 2 {
        '2'
    } else if d == 3 {
        '3'
    } else if d == 4 {
        '4'
    } else if d == 5 {
        '5'
    } else if d == 6 {
        '6'
    } else if d == 7 {
        '7'
    } else if d == 8 {
        '8'
    } else {
        '9'
    }
}

/// `n` written in decimal, without leading zeros.
pub open spec fn decimal(n: nat) -> Seq<char>
    decreases n,
{
    if n < 10 {
        seq![digit_char(n as int)]
    } else {
        decimal(n / 10) + seq![digit_char((n % 10) as int)]
    }
}

fn digit_text(d: usize) -> (s: &'static str)
    requires
        d < 10,
    ensures
        s@ == seq![digit_char(d as int)],
{
    proof {
        reveal_strlit("0");
        reveal_strlit("1");
        reveal_strlit("2");
        reveal_strlit("3");
        reveal_strlit("4");
        reveal_strlit("5");
        reveal_strlit("6");
        reveal_strlit("7");
        reveal_strlit("8");
        reveal_strlit("9");
    }
    if d == 0 {
        "0"
    } else if d == 1 {
        "1"
    } else if d == 2 {
        "2"
    } else if d == 3 {
        "3"
    } else if d == 4 {
        "4"
    } else if d == 5 {
        "5"
    } else if d == 6 {
        "6"
    } else if d == 7 {
        "7"
    } else if d == 8 {
        "8"
    } else {
        "9"
    }
}

/// Appends `n` in decimal.
pub fn push_decimal(text: &mut String, n: usize)
    ensures
        final(text)@ == old(text)@ + decimal(n as nat),
    decreases n,
{
    if n >= 10 {
        push_decimal(text, n / 10);
    }
    text.append(digit_text(n % 10));
    proof {
        if n >= 10 {
            assert(final(text)@ =~= old(text)@ + decimal(n as nat));
        }
    }
}

/// How a syntax error is reported: `[start,end] message`.
pub open spec fn error_line(start: u32, end: u32, message: Seq<char>) -> Seq<char> {
    seq!['['] + decimal(start as nat) + seq![','] + decimal(end as nat) + seq![']', ' '] + message
}

/// The line that reports `error`, with its message read as UTF-8 (invalid sequences
/// replaced).
pub fn error_message(error: &SyntaxError) -> (line: String)
    ensures
        line@ == error_line(error.start, error.end, lossy_utf8(error.message@)),
{
    proof {
        reveal_strlit("[");
        reveal_strlit(",");
        reveal_strlit("] ");
    }
    let mut line = String::from_str("[");
    push_decimal(&mut line, error.start as usize);
    line.append(",");
    push_decimal(&mut line, error.end as usize);
    line.append("] ");
    let message = lossy_text(error.message.as_slice());
    line.append(message.as_str());
    proof {
        assert(line@ =~= error_line(error.start, error.end, message@));
    }
    line
}

impl ParseError {
    /// The report of the errors: `"parse error:"`, then one line per message.
    pub open spec fn spec_message(&self) -> Seq<char> {
        parse_error_text(self.messages@)
    }

    pub fn to_message(&self) -> (text: String)
        ensures
            text@ == self.spec_message(),
    {
        render_parse_error(&self.messages)
    }

    /// One message per syntax error, in the order of the errors.
    pub fn from_syntax_errors(errors: &Vec<SyntaxError>) -> (e: ParseError)
        ensures
            e.messages@.len() == errors@.len(),
            forall|i: int|
                0 <= i < errors@.len() ==> (#[trigger] e.messages@[i])@ == error_line(
                    errors@[i].start,
                    errors@[i].end,
                    lossy_utf8(errors@[i].message@),
                ),
    {
        let mut messages: Vec<String> = Vec::new();
        let n = errors.len();
        let mut i: usize = 0;
        while i < n
            invariant
                n == errors@.len(),
                0 <= i <= n,
                messages@.len() == i,
                forall|j: int|
                    0 <= j < i ==> (#[trigger] messages@[j])@ == error_line(
                        errors@[j].start,
                        errors@[j].end,
                        lossy_utf8(errors@[j].message@),
                    ),
            decreases n - i,
        {
            let line = error_message(&errors[i]);
            messages.push(line);
            i = i + 1;
        }
        ParseError { messages }
    }
}

/// A parse error reads the same whether it is reported as a `ParseError` or as the
/// application's `AppError::ParseFailed` with the same messages.
pub proof fn lemma_parse_error_reports_agree(messages: Vec<String>)
    ensures
        (ParseError { messages }).spec_message() == AppError::ParseFailed(messages).spec_message(),
{
}

/// Parses `source` and reports its syntax errors, if it has any: one line
/// `[start,end] message` per error, in the parser's order.
pub fn check_syntax(source: &[u8]) -> (r: Result<(), ParseError>)
    ensures
        r is Ok <==> prism_syntax_errors(source@).len() == 0,
        r matches Err(e) ==> e.messages@.len() == prism_syntax_errors(source@).len(),
        r matches Err(e) ==> forall|i: int|
            0 <= i < e.messages@.len() ==> (#[trigger] e.messages@[i])@ == error_line(
                prism_syntax_errors(source@)[i].0,
                prism_syntax_errors(source@)[i].1,
                lossy_utf8(prism_syntax_errors(source@)[i].2),
            ),
{
    let errors = prism_errors(source);
    proof {
        assert(errors@.map_values(|e: SyntaxError| e.view_tuple()).len() == errors@.len());
        assert forall|i: int| 0 <= i < errors@.len() implies #[trigger] errors@[i].view_tuple()
            == prism_syntax_errors(source@)[i] by {
            assert(errors@.map_values(|e: SyntaxError| e.view_tuple())[i] == errors@[i].view_tuple());
        }
    }
    if errors.len() == 0 {
        Ok(())
    } else {
        let e = ParseError::from_syntax_errors(&errors);
        proof {
            assert forall|i: int| 0 <= i < e.messages@.len() implies (#[trigger] e.messages@[i])@ == error_line(
                prism_syntax_errors(source@)[i].0,
                prism_syntax_errors(source@)[i].1,
                lossy_utf8(prism_syntax_errors(source@)[i].2),
            ) by {
                assert(errors@[i].view_tuple() == prism_syntax_errors(source@)[i]);
            }
        }
        Err(e)
    }
}

/// What the conversion of a parse tree into formatting nodes keeps track of: the
/// source, the heredoc bodies found so far, the last position number handed out,
/// where the last converted node ended, the comments of the source (start and end
/// offsets, in order) and how many of them were taken so far.
pub struct ParseState {
    pub src: Vec<u8>,
    pub heredoc_map: HeredocMap,
    pub position_gen: usize,
    pub last_loc_end: usize,
    pub comments: Vec<(usize, usize)>,
    pub next_comment: usize,
}

/// Some byte of `src` from `start` up to `end` (or the end of `src`) is a line break.
pub open spec fn line_break_between(src: Seq<u8>, start: int, end: int) -> bool {
    exists|i: int| start <= i < end && i < src.len() && #[trigger] src[i] == 10u8
}

impl ParseState {
    pub fn new(src: Vec<u8>) -> (s: ParseState)
        ensures
            s.src == src,
            s.heredoc_map@ == Map::<usize, crate::fmt::node::Heredoc>::empty(),
            s.position_gen == 0,
            s.last_loc_end == 0,
            s.comments@.len() == 0,
            s.next_comment == 0,
    {
        ParseState {
            src,
            heredoc_map: HeredocMap::new(),
            position_gen: 0,
            last_loc_end: 0,
            comments: Vec::new(),
            next_comment: 0,
        }
    }

    /// The state at the start of the conversion of `src`, whose comments are `comments`.
    pub fn with_comments(src: Vec<u8>, comments: Vec<(usize, usize)>) -> (s: ParseState)
        ensures
            s.src == src,
            s.heredoc_map@ == Map::<usize, crate::fmt::node::Heredoc>::empty(),
            s.position_gen == 0,
            s.last_loc_end == 0,
            s.comments == comments,
            s.next_comment == 0,
    {
        ParseState { src, heredoc_map: HeredocMap::new(), position_gen: 0, last_loc_end: 0, comments, next_comment: 0 }
    }

    /// A position number never handed out before: one more than the last one.
    pub fn next_pos(&mut self) -> (p: Pos)
        requires
            old(self).position_gen < usize::MAX,
        ensures
            final(self).position_gen == old(self).position_gen + 1,
            p.0 == final(self).position_gen,
            final(self).src == old(self).src,
            final(self).heredoc_map == old(self).heredoc_map,
            final(self).last_loc_end == old(self).last_loc_end,
            final(self).comments == old(self).comments,
            final(self).next_comment == old(self).next_comment,
    {
        self.position_gen = self.position_gen + 1;
        Pos(self.position_gen)
    }

    /// Whether a line break stands in the source from `start` up to `end`.
    pub fn does_line_break_exist_in(&self, start: usize, end: usize) -> (b: bool)
        ensures
            b == line_break_between(self.src@, start as int, end as int),
    {
        let stop = if end < self.src.len() {
            end
        } else {
            self.src.len()
        };
        let mut i = start;
        while i < stop
            invariant
                stop <= self.src@.len(),
                stop <= end,
                start <= i,
                forall|j: int| start <= j < i && j < stop ==> self.src@[j] != 10u8,
            decreases stop - i,
        {
            if self.src[i] == 10u8 {
                assert(self.src@[i as int] == 10u8);
                return true;
            }
            i = i + 1;
        }
        false
    }
}

/// Where the trailing comment of each node may end: at the start of the next node,
/// and for the last node at `last_trailing_end`.
pub fn trailing_ends(starts: &Vec<usize>, last_trailing_end: Option<usize>) -> (ends: Vec<Option<usize>>)
    ensures
        ends@.len() == starts@.len(),
        forall|i: int| 0 <= i < starts@.len() - 1 ==> #[trigger] ends@[i] == Some(starts@[i + 1]),
        starts@.len() > 0 ==> ends@.last() == last_trailing_end,
{
    let mut ends: Vec<Option<usize>> = Vec::new();
    let n = starts.len();
    let mut i: usize = 0;
    while i < n
        invariant
            n == starts@.len(),
            0 <= i <= n,
            ends@.len() == i,
            forall|j: int| 0 <= j < i && j < n - 1 ==> #[trigger] ends@[j] == Some(starts@[j + 1]),
            forall|j: int| 0 <= j < i && j == n - 1 ==> #[trigger] ends@[j] == last_trailing_end,
        decreases n - i,
    {
        if i + 1 < n {
            ends.push(Some(starts[i + 1]));
        } else {
            ends.push(last_trailing_end);
        }
        i = i + 1;
    }
    ends
}

} // verus!
