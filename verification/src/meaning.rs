use std::collections::HashSet;
use vstd::prelude::*;
use vstd::string::StringExecFns;
use vstd::utf8::{decode_utf8, encode_utf8, valid_utf8};

use crate::fmt::node::heredoc::{
    counts_for_indent, has_tab_indent, lemma_leading_spaces_bound, lemma_leading_spaces_stop, leading_spaces,
    min_indent_upto, spec_blank_line_spaces, starts_line, tab_after_spaces, text_parts_nonempty,
};
use crate::fmt::node::HeredocPart;
use crate::parse::{decimal, push_decimal};

verus! {

broadcast use vstd::std_specs::hash::group_hash_axioms;

/// A text rendering of a parse tree that ignores layout, used to check that
/// formatting kept the meaning of the code: one line per node or field, indented by
/// depth.
pub struct Meaning {
    pub buffer: String,
    pub indent: usize,
}

/// `n` space characters.
pub open spec fn space_chars(n: nat) -> Seq<char> {
    Seq::new(n, |_i: int| ' ')
}

/// Addition that stops at the largest `usize`.
pub open spec fn sat_add(a: int, b: int) -> int {
    if a + b <= usize::MAX {
        a + b
    } else {
        usize::MAX as int
    }
}

/// Subtraction that stops at zero.
pub open spec fn sat_sub(a: int, b: int) -> int {
    if a >= b {
        a - b
    } else {
        0
    }
}

/// The `Debug` text of the error that `String::from_utf8` gives for `bytes`.
pub uninterp spec fn utf8_error_text(bytes: Seq<u8>) -> Seq<char>;

/// `String::from_utf8`, with the error given as its `Debug` text.
///
/// The contract claims what the documentation says: the call succeeds exactly on valid
/// UTF-8 and then keeps the bytes; the text of the error is named `utf8_error_text`.
#[verifier::external_body]
fn string_from_utf8(bytes: Vec<u8>) -> (r: Result<String, String>)
    ensures
        r is Ok <==> valid_utf8(bytes@),
        r matches Ok(s) ==> encode_utf8(s@) == bytes@,
        r matches Err(t) ==> t@ == utf8_error_text(bytes@),
{
    match String::from_utf8(bytes) {
        Ok(s) => Ok(s),
        Err(e) => Err(format!("{:?}", e)),
    }
}

/// The characters that Unicode gives the `White_Space` property.
pub open spec fn is_white_space(c: char) -> bool {
    let u = c as u32;
    ||| 9 <= u <= 13
    ||| u == 32
    ||| u == 0x85
    ||| u == 0xa0
    ||| u == 0x1680
    ||| 0x2000 <= u <= 0x200a
    ||| u == 0x2028
    ||| u == 0x2029
    ||| u == 0x202f
    ||| u == 0x205f
    ||| u == 0x3000
}

/// `r` is `s` without the white space at both ends.
pub open spec fn is_trimmed(s: Seq<char>, r: Seq<char>) -> bool {
    exists|a: int, b: int|
        #![trigger s.subrange(a, b)]
        0 <= a <= b <= s.len() && r == s.subrange(a, b) && (forall|i: int|
            0 <= i < a ==> is_white_space(s[i])) && (forall|i: int|
            b <= i < s.len() ==> is_white_space(s[i])) && (a < b ==> !is_white_space(s[a])
            && !is_white_space(s[b - 1]))
}

/// `str::trim`.
///
/// The contract claims what the documentation says: leading and trailing characters
/// with the Unicode `White_Space` property are removed, and nothing else.
#[verifier::external_body]
fn trim_text(s: &str) -> (r: String)
    ensures
        is_trimmed(s@, r@),
{
    s.trim().to_string()
}

/// How bytes from the source are rendered: as text when they are UTF-8, else as a
/// note with the error.
pub open spec fn bytes_text(bytes: Seq<u8>) -> Seq<char> {
    if valid_utf8(bytes) {
        decode_utf8(bytes)
    } else {
        seq!['(', 'n', 'o', 'n', '-', 'u', 't', 'f', '8', ')', ' '] + utf8_error_text(bytes)
    }
}

/// `bytes` starts a squiggly heredoc: `<<~`.
pub open spec fn spec_is_squiggly(opening: Option<Seq<u8>>) -> bool {
    opening matches Some(o) && o.len() >= 3 && o[0] == 60u8 && o[1] == 60u8 && o[2] == 126u8
}

/// A squiggly heredoc's content, for comparison, without its leading spaces.
pub open spec fn content_for_meaning(opening: Option<Seq<u8>>, content: Seq<u8>) -> Seq<u8> {
    if spec_is_squiggly(opening) {
        content.subrange(leading_spaces(content) as int, content.len() as int)
    } else {
        content
    }
}

/// The receiver operator as compared: `::` counts as `.`.
pub open spec fn call_operator_for_meaning(op: Seq<u8>) -> Seq<u8> {
    if op == seq![58u8, 58u8] {
        seq![46u8]
    } else {
        op
    }
}

/// The message of a call as compared: an index access `[...]` counts as `[]`, and a
/// call without a message as `call`.
pub open spec fn message_for_meaning(message: Option<Seq<u8>>) -> Seq<u8> {
    match message {
        Some(m) => if m.len() > 2 && m[0] == 91u8 && m.last() == 93u8 {
            seq![91u8, 93u8]
        } else {
            m
        },
        None => seq![99u8, 97u8, 108u8, 108u8],
    }
}

/// `a::b` and `a.b` call `b` on `a` alike: their operators read the same.
pub proof fn lemma_scope_operator_reads_as_dot()
    ensures
        call_operator_for_meaning(seq![58u8, 58u8]) == call_operator_for_meaning(seq![46u8]),
{
}

/// Every index access reads as `[]`, whatever stands between its brackets.
pub proof fn lemma_index_messages_read_alike(m: Seq<u8>)
    requires
        m.len() > 2,
        m[0] == 91u8,
        m.last() == 93u8,
    ensures
        message_for_meaning(Some(m)) == message_for_meaning(Some(seq![91u8, 93u8])),
{
}

/// Opening a node or a field and closing it again leaves the indentation as it was,
/// as long as it does not reach the largest `usize`.
pub proof fn lemma_nesting_restores_indent(indent: usize)
    requires
        indent + 2 <= usize::MAX,
    ensures
        sat_sub(sat_add(indent as int, 2), 2) == indent,
{
}

/// The byte after the leading spaces of `s`, if any.
pub open spec fn head_after_spaces(s: Seq<u8>) -> Option<u8> {
    if leading_spaces(s) < s.len() {
        Some(s[leading_spaces(s) as int])
    } else {
        None
    }
}

/// The state of the scan of the parts of a squiggly heredoc, in `calc_squiggly_heredoc_indent`.
pub struct IndentScan {
    pub line_start: bool,
    pub starts: Set<usize>,
    pub min: nat,
    pub tab: bool,
}

/// The scan after the first `n` parts; text parts are `Some`, other parts `None`.
/// A text part at the start of a line counts as a line start and, unless it is an
/// empty line, for the smallest indentation; a tab in that indentation stops the scan.
pub open spec fn scan_parts(parts: Seq<Option<Seq<u8>>>, n: int) -> IndentScan
    decreases n,
{
    if n <= 0 {
        IndentScan { line_start: true, starts: Set::empty(), min: usize::MAX as nat, tab: false }
    } else {
        let prev = scan_parts(parts, n - 1);
        if prev.tab {
            prev
        } else {
            match parts[n - 1] {
                Some(content) => if prev.line_start {
                    if head_after_spaces(content) == Some(9u8) {
                        IndentScan { tab: true, ..prev }
                    } else {
                        IndentScan {
                            starts: prev.starts.insert((n - 1) as usize),
                            min: if head_after_spaces(content) != Some(10u8) && leading_spaces(
                                content,
                            ) < prev.min {
                                leading_spaces(content)
                            } else {
                                prev.min
                            },
                            ..prev
                        }
                    }
                } else {
                    IndentScan {
                        line_start: content.len() > 0 && content.last() == 10u8,
                        ..prev
                    }
                },
                None => IndentScan { line_start: false, ..prev },
            }
        }
    }
}

/// The parts of a heredoc as the scan sees them: the bytes of each text part.
pub open spec fn part_views(parts: Seq<Option<Vec<u8>>>) -> Seq<Option<Seq<u8>>> {
    parts.map_values(
        |p: Option<Vec<u8>>|
            match p {
                Some(c) => Some(c@),
                None => None,
            },
    )
}

/// Whether `opening` opens a squiggly heredoc (`<<~`).
pub fn is_squiggly_heredoc(opening: &Option<Vec<u8>>) -> (b: bool)
    ensures
        b == spec_is_squiggly(
            match opening {
                Some(o) => Some(o@),
                None => None,
            },
        ),
{
    match opening {
        Some(o) => o.len() >= 3 && o[0] == 60u8 && o[1] == 60u8 && o[2] == 126u8,
        None => false,
    }
}

/// The indentation to remove from the text parts of a squiggly heredoc, and which
/// parts start a line; `None` for no parts, or where a line indents with a tab.
pub fn calc_squiggly_heredoc_indent(parts: &Vec<Option<Vec<u8>>>) -> (r: Option<(usize, HashSet<usize>)>)
    ensures
        ({
            let v = part_views(parts@);
            let scan = scan_parts(v, v.len() as int);
            &&& r is None <==> (parts@.len() == 0 || scan.tab)
            &&& r matches Some(res) ==> {
                &&& res.1@ == scan.starts
                &&& res.0 == if scan.min == usize::MAX {
                    0
                } else {
                    scan.min
                }
            }
        }),
{
    let ghost v = part_views(parts@);
    if parts.len() == 0 {
        return None;
    }
    let mut is_line_start = true;
    let mut line_starts: HashSet<usize> = HashSet::new();
    let mut min_indent: usize = usize::MAX;
    let n = parts.len();
    let mut i: usize = 0;
    while i < n
        invariant
            n == parts@.len(),
            v.len() == n,
            forall|j: int|
                0 <= j < n ==> #[trigger] v[j] == match parts@[j] {
                    Some(c) => Some(c@),
                    None => None,
                },
            0 <= i <= n,
            !scan_parts(v, i as int).tab,
            is_line_start == scan_parts(v, i as int).line_start,
            line_starts@ == scan_parts(v, i as int).starts,
            min_indent == scan_parts(v, i as int).min,
        decreases n - i,
    {
        match &parts[i] {
            Some(content) => {
                assert(v[i as int] == Some(content@));
                if is_line_start {
                    let mut k: usize = 0;
                    while k < content.len() && content[k] == 32u8
                        invariant
                            0 <= k <= content@.len(),
                            forall|j: int| 0 <= j < k ==> content@[j] == 32u8,
                        decreases content@.len() - k,
                    {
                        k = k + 1;
                    }
                    proof {
                        crate::fmt::node::heredoc::lemma_leading_spaces_stop(content@, k as int);
                    }
                    if k < content.len() && content[k] == 9u8 {
                        proof {
                            assert(scan_parts(v, i + 1).tab);
                            lemma_scan_tab_stays(v, i + 1, n as int);
                            assert(v == part_views(parts@));
                            assert(scan_parts(part_views(parts@), part_views(parts@).len() as int).tab);
                        }
                        return None;
                    }
                    let is_empty_line = k < content.len() && content[k] == 10u8;
                    line_starts.insert(i);
                    if !is_empty_line && k < min_indent {
                        min_indent = k;
                    }
                } else {
                    is_line_start = content.len() > 0 && content[content.len() - 1] == 10u8;
                }
            },
            None => {
                is_line_start = false;
            },
        }
        i = i + 1;
    }
    let indent_to_remove = if min_indent == usize::MAX {
        0
    } else {
        min_indent
    };
    Some((indent_to_remove, line_starts))
}

/// Once the scan meets a tab it keeps its state.
proof fn lemma_scan_tab_stays(parts: Seq<Option<Seq<u8>>>, k: int, n: int)
    requires
        0 <= k <= n,
        scan_parts(parts, k).tab,
    ensures
        scan_parts(parts, n).tab,
    decreases n - k,
{
    if k < n {
        assert(scan_parts(parts, k + 1).tab);
        lemma_scan_tab_stays(parts, k + 1, n);
    }
}

impl Meaning {
    pub fn new() -> (m: Meaning)
        ensures
            m.buffer@ == Seq::<char>::empty(),
            m.indent == 0,
    {
        Meaning { buffer: String::new(), indent: 0 }
    }

    pub fn put_indent(&mut self)
        ensures
            final(self).buffer@ == old(self).buffer@ + space_chars(old(self).indent as nat),
            final(self).indent == old(self).indent,
    {
        let n = self.indent;
        let mut i: usize = 0;
        while i < n
            invariant
                0 <= i <= n,
                n == old(self).indent,
                self.indent == old(self).indent,
                self.buffer@ == old(self).buffer@ + space_chars(i as nat),
            decreases n - i,
        {
            self.buffer.append(" ");
            proof {
                reveal_strlit(" ");
                assert(space_chars((i + 1) as nat) =~= space_chars(i as nat) + seq![' ']);
            }
            i = i + 1;
        }
    }

    pub fn break_line(&mut self)
        ensures
            final(self).buffer@ == old(self).buffer@ + seq!['\n'],
            final(self).indent == old(self).indent,
    {
        self.buffer.append("\n");
        proof {
            reveal_strlit("\n");
        }
    }

    /// A new line at the current indentation.
    fn new_line(&mut self)
        ensures
            final(self).buffer@ == old(self).buffer@ + seq!['\n'] + space_chars(old(self).indent as nat),
            final(self).indent == old(self).indent,
    {
        self.break_line();
        self.put_indent();
    }

    /// `[name]` on a new line; what follows is nested one level deeper.
    pub fn start_node(&mut self, name: &str)
        ensures
            final(self).buffer@ == old(self).buffer@ + seq!['\n'] + space_chars(old(self).indent as nat)
                + seq!['['] + name@ + seq![']'],
            final(self).indent == sat_add(old(self).indent as int, 2),
    {
        self.new_line();
        self.buffer.append("[");
        self.buffer.append(name);
        self.buffer.append("]");
        proof {
            reveal_strlit("[");
            reveal_strlit("]");
        }
        self.indent = self.indent.saturating_add(2);
    }

    pub fn end_node(&mut self)
        ensures
            final(self).buffer@ == old(self).buffer@,
            final(self).indent == sat_sub(old(self).indent as int, 2),
    {
        self.indent = self.indent.saturating_sub(2);
    }

    /// `[name] source` on a new line, for a node that is its source text.
    pub fn atom_node(&mut self, name: &str, source: Vec<u8>)
        ensures
            final(self).buffer@ == old(self).buffer@ + seq!['\n'] + space_chars(old(self).indent as nat)
                + seq!['['] + name@ + seq![']', ' '] + bytes_text(source@),
            final(self).indent == old(self).indent,
    {
        self.new_line();
        self.buffer.append("[");
        self.buffer.append(name);
        self.buffer.append("] ");
        proof {
            reveal_strlit("[");
            reveal_strlit("] ");
        }
        self.u8_bytes(source);
    }

    /// `[name]` on a new line, without nesting.
    pub fn numbered_parameters_node(&mut self, name: &str)
        ensures
            final(self).buffer@ == old(self).buffer@ + seq!['\n'] + space_chars(old(self).indent as nat)
                + seq!['['] + name@ + seq![']'],
            final(self).indent == old(self).indent,
    {
        self.new_line();
        self.buffer.append("[");
        self.buffer.append(name);
        self.buffer.append("]");
        proof {
            reveal_strlit("[");
            reveal_strlit("]");
        }
    }

    /// `name:` on a new line; the value is nested one level deeper.
    pub fn start_field(&mut self, name: &str)
        ensures
            final(self).buffer@ == old(self).buffer@ + seq!['\n'] + space_chars(old(self).indent as nat)
                + name@ + seq![':'],
            final(self).indent == sat_add(old(self).indent as int, 2),
    {
        self.new_line();
        self.buffer.append(name);
        self.buffer.append(":");
        proof {
            reveal_strlit(":");
        }
        self.indent = self.indent.saturating_add(2);
    }

    /// `index:` on a new line, for an element of a list; the value is nested one
    /// level deeper.
    pub fn start_index_field(&mut self, index: usize)
        ensures
            final(self).buffer@ == old(self).buffer@ + seq!['\n'] + space_chars(old(self).indent as nat)
                + decimal(index as nat) + seq![':'],
            final(self).indent == sat_add(old(self).indent as int, 2),
    {
        self.new_line();
        push_decimal(&mut self.buffer, index);
        self.buffer.append(":");
        proof {
            reveal_strlit(":");
        }
        self.indent = self.indent.saturating_add(2);
    }

    pub fn end_field(&mut self)
        ensures
            final(self).buffer@ == old(self).buffer@,
            final(self).indent == sat_sub(old(self).indent as int, 2),
    {
        self.indent = self.indent.saturating_sub(2);
    }

    /// `(none)` on a new line, for a missing value.
    pub fn none_value(&mut self)
        ensures
            final(self).buffer@ == old(self).buffer@ + seq!['\n'] + space_chars(old(self).indent as nat)
                + seq!['(', 'n', 'o', 'n', 'e', ')'],
            final(self).indent == old(self).indent,
    {
        self.new_line();
        self.buffer.append("(none)");
        proof {
            reveal_strlit("(none)");
        }
    }

    /// Bytes of the source, as text when they are UTF-8.
    pub fn u8_bytes(&mut self, bytes: Vec<u8>)
        ensures
            final(self).buffer@ == old(self).buffer@ + bytes_text(bytes@),
            final(self).indent == old(self).indent,
    {
        let ghost b = bytes@;
        match string_from_utf8(bytes) {
            Ok(value) => {
                proof {
                    vstd::utf8::encode_utf8_decode_utf8(value@);
                }
                self.buffer.append(value.as_str());
            },
            Err(error) => {
                self.buffer.append("(non-utf8) ");
                proof {
                    reveal_strlit("(non-utf8) ");
                }
                self.buffer.append(error.as_str());
                proof {
                    assert(self.buffer@ =~= old(self).buffer@ + bytes_text(b));
                }
            },
        }
    }

    /// The content of a string between `---` lines.
    pub fn string_content(&mut self, value: Vec<u8>)
        ensures
            final(self).buffer@ == old(self).buffer@ + seq!['\n', '-', '-', '-', '\n'] + bytes_text(
                value@,
            ) + seq!['\n', '-', '-', '-'],
            final(self).indent == old(self).indent,
    {
        self.break_line();
        self.buffer.append("---\n");
        proof {
            reveal_strlit("---\n");
        }
        self.u8_bytes(value);
        self.buffer.append("\n---");
        proof {
            reveal_strlit("\n---");
        }
    }

    /// A field holding a piece of the source, or `(none)`.
    pub fn opt_loc_field(&mut self, name: &str, loc: Option<Vec<u8>>)
        ensures
            final(self).buffer@ == old(self).buffer@ + seq!['\n'] + space_chars(old(self).indent as nat)
                + name@ + seq![':'] + seq!['\n'] + space_chars(
                sat_add(old(self).indent as int, 2) as nat,
            ) + match loc {
                Some(l) => bytes_text(l@),
                None => seq!['(', 'n', 'o', 'n', 'e', ')'],
            },
            final(self).indent == sat_sub(sat_add(old(self).indent as int, 2), 2),
    {
        self.start_field(name);
        match loc {
            Some(loc) => {
                self.new_line();
                self.u8_bytes(loc);
            },
            None => self.none_value(),
        }
        self.end_field();
    }

    /// The operator of a call: `::` is written as `.`, so that both read the same.
    pub fn call_operator_loc_field(&mut self, loc: Option<Vec<u8>>)
        ensures
            final(self).buffer@ == old(self).buffer@ + seq!['\n'] + space_chars(old(self).indent as nat)
                + seq!['c', 'a', 'l', 'l', '_', 'o', 'p', 'e', 'r', 'a', 't', 'o', 'r', '_', 'l', 'o', 'c']
                + seq![':'] + seq!['\n'] + space_chars(sat_add(old(self).indent as int, 2) as nat)
                + match loc {
                Some(l) => bytes_text(call_operator_for_meaning(l@)),
                None => seq!['(', 'n', 'o', 'n', 'e', ')'],
            },
            final(self).indent == sat_sub(sat_add(old(self).indent as int, 2), 2),
    {
        self.start_field("call_operator_loc");
        proof {
            reveal_strlit("call_operator_loc");
        }
        match loc {
            Some(loc) => {
                let bytes = if loc.len() == 2 && loc[0] == 58u8 && loc[1] == 58u8 {
                    assert(loc@ =~= seq![58u8, 58u8]);
                    let dot: Vec<u8> = vec![46u8];
                    assert(dot@ =~= seq![46u8]);
                    dot
                } else {
                    loc
                };
                self.new_line();
                self.u8_bytes(bytes);
            },
            None => self.none_value(),
        }
        self.end_field();
    }

    /// The message of a call: an index access counts as `[]` whatever stands between
    /// the brackets, and a call without a message as `call`.
    pub fn message_loc_field(&mut self, loc: Option<Vec<u8>>)
        ensures
            final(self).buffer@ == old(self).buffer@ + seq!['\n'] + space_chars(old(self).indent as nat)
                + seq!['m', 'e', 's', 's', 'a', 'g', 'e', '_', 'l', 'o', 'c'] + seq![':'] + seq!['\n']
                + space_chars(sat_add(old(self).indent as int, 2) as nat) + bytes_text(
                message_for_meaning(
                    match loc {
                        Some(l) => Some(l@),
                        None => None,
                    },
                ),
            ),
            final(self).indent == sat_sub(sat_add(old(self).indent as int, 2), 2),
    {
        self.start_field("message_loc");
        proof {
            reveal_strlit("message_loc");
        }
        let bytes: Vec<u8> = match loc {
            Some(slice) => {
                let len = slice.len();
                if len > 2 && slice[0] == 91u8 && slice[len - 1] == 93u8 {
                    let index: Vec<u8> = vec![91u8, 93u8];
                    assert(index@ =~= seq![91u8, 93u8]);
                    index
                } else {
                    slice
                }
            },
            None => {
                let call: Vec<u8> = vec![99u8, 97u8, 108u8, 108u8];
                assert(call@ =~= seq![99u8, 97u8, 108u8, 108u8]);
                call
            },
        };
        self.new_line();
        self.u8_bytes(bytes);
        self.end_field();
    }

    /// A string's content; the lines of a squiggly heredoc without leading spaces.
    pub fn string_or_heredoc(&mut self, opening: Option<Vec<u8>>, content: Vec<u8>)
        ensures
            final(self).buffer@ == old(self).buffer@ + seq!['\n', '-', '-', '-', '\n'] + bytes_text(
                content_for_meaning(
                    match opening {
                        Some(o) => Some(o@),
                        None => None,
                    },
                    content@,
                ),
            ) + seq!['\n', '-', '-', '-'],
            final(self).indent == old(self).indent,
    {
        let value = if is_squiggly_heredoc(&opening) {
            let mut k: usize = 0;
            while k < content.len() && content[k] == 32u8
                invariant
                    0 <= k <= content@.len(),
                    forall|j: int| 0 <= j < k ==> content@[j] == 32u8,
                decreases content@.len() - k,
            {
                k = k + 1;
            }
            proof {
                crate::fmt::node::heredoc::lemma_leading_spaces_stop(content@, k as int);
            }
            let rest = vstd::slice::slice_to_vec(vstd::slice::slice_subrange(content.as_slice(), k, content.len()));
            rest
        } else {
            content
        };
        self.string_content(value);
    }

    /// The finished text, without the white space at its ends.
    pub fn into_text(self) -> (text: String)
        ensures
            is_trimmed(self.buffer@, text@),
    {
        trim_text(self.buffer.as_str())
    }
}

/// The parts of a heredoc body as `calc_squiggly_heredoc_indent` takes them: the bytes
/// of each text part, `None` for the others.
pub open spec fn text_views(parts: Seq<HeredocPart>) -> Seq<Option<Seq<u8>>> {
    parts.map_values(
        |p: HeredocPart|
            match p {
                HeredocPart::Str(s) => Some(s.value@),
                _ => None,
            },
    )
}

/// Each text part holds one line at most: a line break in it comes last, and a text
/// part followed by another ends its line.
pub open spec fn parts_split_at_lines(parts: Seq<HeredocPart>) -> bool {
    &&& forall|i: int, j: int|
        0 <= i < parts.len() && parts[i] is Str && 0 <= j < parts[i]->Str_0.value@.len() - 1
            ==> #[trigger] parts[i]->Str_0.value@[j] != 10u8
    &&& forall|i: int|
        0 <= i < parts.len() - 1 && #[trigger] parts[i] is Str && parts[i + 1] is Str
            ==> parts[i]->Str_0.value@.last() == 10u8
}

/// Some line among the first `n` parts mixes a tab into its indentation.
pub open spec fn tab_before(parts: Seq<HeredocPart>, n: int) -> bool {
    exists|i: int|
        0 <= i < n && #[trigger] counts_for_indent(parts, i) && tab_after_spaces(parts[i]->Str_0.value@)
}

/// On one line, the first byte after the spaces is the line break exactly when the
/// line is blank.
proof fn lemma_blank_is_break_after_spaces(c: Seq<u8>)
    requires
        c.len() > 0,
        forall|j: int| 0 <= j < c.len() - 1 ==> c[j] != 10u8,
    ensures
        (head_after_spaces(c) == Some(10u8)) <==> spec_blank_line_spaces(c) is Some,
{
    lemma_leading_spaces_bound(c);
    let k = leading_spaces(c);
    if head_after_spaces(c) == Some(10u8) {
        assert(k == c.len() - 1);
        assert(c.last() == 10u8);
        assert forall|i: int| 0 <= i < c.len() - 1 implies c[i] == 32u8 by {}
    }
    if spec_blank_line_spaces(c) is Some {
        lemma_leading_spaces_stop(c, c.len() - 1);
    }
}

/// The scan of `calc_squiggly_heredoc_indent` over the first `n` parts sees a tab where
/// a line of them mixes one in; until then it has found the indentation of
/// `min_indent_upto`, and a text part that comes next starts a line where the scan
/// says so.
proof fn lemma_scan_follows_parts(parts: Seq<HeredocPart>, n: int)
    requires
        0 <= n <= parts.len(),
        text_parts_nonempty(parts),
        parts_split_at_lines(parts),
    ensures
        scan_parts(text_views(parts), n).tab <==> tab_before(parts, n),
        !scan_parts(text_views(parts), n).tab ==> scan_parts(text_views(parts), n).min == min_indent_upto(
            parts,
            n,
        ),
        !scan_parts(text_views(parts), n).tab && n < parts.len() && parts[n] is Str ==> scan_parts(
            text_views(parts),
            n,
        ).line_start == starts_line(parts, n),
    decreases n,
{
    let v = text_views(parts);
    if n > 0 {
        lemma_scan_follows_parts(parts, n - 1);
        let prev = scan_parts(v, n - 1);
        let i = n - 1;
        assert(v[i] == match parts[i] {
            HeredocPart::Str(s) => Some(s.value@),
            _ => None,
        });
        if prev.tab {
            let w = choose|w: int|
                0 <= w < n - 1 && #[trigger] counts_for_indent(parts, w) && tab_after_spaces(parts[w]->Str_0.value@);
            assert(counts_for_indent(parts, w));
        } else {
            if parts[i] is Str {
                assert(starts_line(parts, i) == prev.line_start);
                if n < parts.len() && parts[n] is Str {
                    assert(parts[i]->Str_0.value@.last() == 10u8);
                }
                let c = parts[i]->Str_0.value@;
                assert(c.len() > 0);
                assert forall|j: int| 0 <= j < c.len() - 1 implies c[j] != 10u8 by {
                    assert(parts[i]->Str_0.value@[j] != 10u8);
                }
                lemma_blank_is_break_after_spaces(c);
                lemma_leading_spaces_bound(c);
                assert(counts_for_indent(parts, i) == (prev.line_start && head_after_spaces(c) != Some(10u8)));
                if prev.line_start && head_after_spaces(c) == Some(9u8) {
                    assert(counts_for_indent(parts, i) && tab_after_spaces(c));
                } else {
                    assert(!tab_after_spaces(c) || !counts_for_indent(parts, i));
                    if tab_before(parts, n) {
                        let w = choose|w: int|
                            0 <= w < n && #[trigger] counts_for_indent(parts, w) && tab_after_spaces(
                                parts[w]->Str_0.value@,
                            );
                        assert(w < n - 1);
                        assert(tab_before(parts, n - 1));
                    }
                }
            } else {
                assert(!counts_for_indent(parts, i));
                if tab_before(parts, n) {
                    let w = choose|w: int|
                        0 <= w < n && #[trigger] counts_for_indent(parts, w) && tab_after_spaces(parts[w]->Str_0.value@);
                    assert(w < n - 1);
                    assert(tab_before(parts, n - 1));
                }
            }
        }
    }
}

/// `calc_squiggly_heredoc_indent`, on the text parts of a body split at its lines,
/// finds what `inspect_body_indent` finds: no result for an empty body or one with a
/// tab in the indentation of a line, and otherwise the same indentation to remove.
pub proof fn lemma_squiggly_indent_agrees(parts: Seq<HeredocPart>)
    requires
        text_parts_nonempty(parts),
        parts_split_at_lines(parts),
    ensures
        ({
            let scan = scan_parts(text_views(parts), parts.len() as int);
            &&& (parts.len() == 0 || scan.tab) <==> (parts.len() == 0 || has_tab_indent(parts))
            &&& !(parts.len() == 0 || scan.tab) ==> (if scan.min == usize::MAX {
                0
            } else {
                scan.min
            }) == (if min_indent_upto(parts, parts.len() as int) == usize::MAX {
                0
            } else {
                min_indent_upto(parts, parts.len() as int)
            })
        }),
{
    lemma_scan_follows_parts(parts, parts.len() as int);
    assert(text_views(parts).len() == parts.len());
    if tab_before(parts, parts.len() as int) {
        let w = choose|w: int|
            0 <= w < parts.len() && #[trigger] counts_for_indent(parts, w) && tab_after_spaces(parts[w]->Str_0.value@);
        assert(has_tab_indent(parts));
    }
    if has_tab_indent(parts) {
        let w = choose|w: int|
            0 <= w < parts.len() && #[trigger] counts_for_indent(parts, w) && tab_after_spaces(parts[w]->Str_0.value@);
        assert(tab_before(parts, parts.len() as int));
    }
}

} // verus!
