use vstd::prelude::*;
use vstd::string::StringExecFns;

verus! {

/// What can go wrong when the command line tool runs.
#[derive(Debug)]
pub enum AppError {
    /// The source did not parse; one message per syntax error.
    ParseFailed(Vec<String>),
    /// Anything else, with its message.
    Misc(String),
}

/// The first line of a report of syntax errors.
pub open spec fn parse_error_header() -> Seq<char> {
    seq!['p', 'a', 'r', 's', 'e', ' ', 'e', 'r', 'r', 'o', 'r', ':', '\n']
}

/// Each message on a line of its own.
pub open spec fn lines_text(messages: Seq<String>) -> Seq<char>
    decreases messages.len(),
{
    if messages.len() == 0 {
        Seq::empty()
    } else {
        lines_text(messages.drop_last()) + messages.last()@ + seq!['\n']
    }
}

/// A report of syntax errors: the header line, then one line per message.
pub open spec fn parse_error_text(messages: Seq<String>) -> Seq<char> {
    parse_error_header() + lines_text(messages)
}

/// Writes `"parse error:"` and then each message, every one on a line of its own.
pub fn render_parse_error(messages: &Vec<String>) -> (text: String)
    ensures
        text@ == parse_error_text(messages@),
{
    let mut text = String::from_str("parse error:\n");
    proof {
        reveal_strlit("parse error:\n");
        reveal_strlit("\n");
        assert(text@ =~= parse_error_header() + lines_text(messages@.subrange(0, 0)));
    }
    let n = messages.len();
    let mut i: usize = 0;
    while i < n
        invariant
            n == messages@.len(),
            0 <= i <= n,
            text@ == parse_error_header() + lines_text(messages@.subrange(0, i as int)),
        decreases n - i,
    {
        let ghost before = text@;
        let message = messages[i].as_str();
        text.append(message);
        text.append("\n");
        proof {
            reveal_strlit("\n");
            let done = messages@.subrange(0, i + 1);
            assert(message@ == messages@[i as int]@);
            assert(text@ =~= before + messages@[i as int]@ + seq!['\n']);
            assert(done.drop_last() =~= messages@.subrange(0, i as int));
            assert(done.last() == messages@[i as int]);
            assert(text@ =~= parse_error_header() + lines_text(done));
        }
        i = i + 1;
    }
    proof {
        assert(messages@.subrange(0, n as int) =~= messages@);
    }
    text
}

impl AppError {
    /// The text that reports the error.
    pub open spec fn spec_message(&self) -> Seq<char> {
        match self {
            AppError::ParseFailed(messages) => parse_error_text(messages@),
            AppError::Misc(message) => message@,
        }
    }

    /// The report of the error: for syntax errors, `"parse error:"` and one line per
    /// message; otherwise the message as it is.
    pub fn to_message(&self) -> (text: String)
        ensures
            text@ == self.spec_message(),
    {
        match self {
            AppError::ParseFailed(messages) => render_parse_error(messages),
            AppError::Misc(message) => message.clone(),
        }
    }
}

} // verus!
