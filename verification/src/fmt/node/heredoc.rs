use vstd::prelude::*;

use crate::fmt::output::{
    advanced, grew, heredoc_measure, lemma_pushes_one, lemma_wrote_pieces_concat, pushes, ready, sat_sub, spaces,
    wrote_pieces, FormatContext, Output,
};
use crate::fmt::shape::Shape;
use crate::fmt::text::{HEREDOC_DASH, HEREDOC_PLAIN, HEREDOC_SQUIGGLY};

use super::{EmbeddedStatements, EmbeddedVariable, StringLike};

verus! {

broadcast use crate::fmt::growth::group_output_growth;

/// The position number that ties a heredoc opening to its body.
#[derive(Debug, Clone, Copy, PartialEq, Eq, Structural)]
pub struct Pos(pub usize);

/// A heredoc waiting for the end of its line, with the indentation of that line.
#[derive(Debug, Clone, Copy, PartialEq, Eq, Structural)]
pub struct HeredocState {
    pub pos: Pos,
    pub opening_line_indent: usize,
}

/// How the body and the terminator of a heredoc may be indented: `<<ID`, `<<-ID`, `<<~ID`.
#[derive(Debug, Clone, Copy, PartialEq, Eq, Structural)]
pub enum HeredocIndentMode {
    NoIndent,
    EndIndented,
    AllIndented,
}

/// The `<<~ID` that opens a heredoc; its body is written after the end of the line.
#[derive(Debug)]
pub struct HeredocOpening {
    pub pos: Pos,
    pub shape: Shape,
    pub id: Vec<u8>,
    pub indent_mode: HeredocIndentMode,
}

/// A heredoc body and its terminator.
#[derive(Debug)]
pub struct Heredoc {
    pub id: Vec<u8>,
    pub indent_mode: HeredocIndentMode,
    pub parts: Vec<HeredocPart>,
}

#[derive(Debug)]
pub enum HeredocPart {
    Str(StringLike),
    Statements(EmbeddedStatements),
    Variable(EmbeddedVariable),
}

/// What `inspect_body_indent` finds out about a `<<~` body: the indentation to remove
/// and, for each part, whether it starts a line (and if so whether that line is blank).
#[derive(Debug)]
pub struct SquigglyHeredocBodyInfo {
    pub min_spaces: usize,
    pub line_starts: Vec<Option<SquigglyHeredocLineStartPartInfo>>,
}

#[derive(Debug, Clone, Copy, PartialEq, Eq, Structural)]
pub struct SquigglyHeredocLineStartPartInfo {
    pub empty_line: Option<SquigglyHeredocEmptyLineInfo>,
}

#[derive(Debug, Clone, Copy, PartialEq, Eq, Structural)]
pub struct SquigglyHeredocEmptyLineInfo {
    pub prefix_spaces: usize,
}

impl HeredocIndentMode {
    pub open spec fn spec_prefix_symbols(self) -> Seq<u8> {
        match self {
            HeredocIndentMode::NoIndent => seq![60u8, 60u8],
            HeredocIndentMode::EndIndented => seq![60u8, 60u8, 45u8],
            HeredocIndentMode::AllIndented => seq![60u8, 60u8, 126u8],
        }
    }

    /// The mode that the byte after `<<` selects, and where the identifier starts.
    pub open spec fn spec_mode_of(opening: Seq<u8>) -> (HeredocIndentMode, int) {
        if opening[2] == 126u8 {
            (HeredocIndentMode::AllIndented, 3)
        } else if opening[2] == 45u8 {
            (HeredocIndentMode::EndIndented, 3)
        } else {
            (HeredocIndentMode::NoIndent, 2)
        }
    }

    /// Reads the indent mode and the identifier of a heredoc opening such as `<<~EOS`.
    pub fn parse_mode_and_id(opening: &[u8]) -> (r: (HeredocIndentMode, &[u8]))
        requires
            opening@.len() >= 3,
        ensures
            r.0 == Self::spec_mode_of(opening@).0,
            r.1@ == opening@.subrange(Self::spec_mode_of(opening@).1, opening@.len() as int),
    {
        let (indent_mode, id_start): (HeredocIndentMode, usize) = if opening[2] == 126u8 {
            (HeredocIndentMode::AllIndented, 3)
        } else if opening[2] == 45u8 {
            (HeredocIndentMode::EndIndented, 3)
        } else {
            (HeredocIndentMode::NoIndent, 2)
        };
        (indent_mode, vstd::slice::slice_subrange(opening, id_start, opening.len()))
    }

    pub fn prefix_symbols(&self) -> (s: &'static [u8])
        ensures
            s@ == self.spec_prefix_symbols(),
    {
        match self {
            HeredocIndentMode::NoIndent => &HEREDOC_PLAIN,
            HeredocIndentMode::EndIndented => &HEREDOC_DASH,
            HeredocIndentMode::AllIndented => &HEREDOC_SQUIGGLY,
        }
    }
}

/// Reading back a written opening gives its mode and identifier again, unless a plain
/// opening's identifier starts with a byte that selects a mode.
pub proof fn lemma_parse_prefix_symbols_roundtrip(mode: HeredocIndentMode, id: Seq<u8>)
    requires
        id.len() >= 1,
        mode == HeredocIndentMode::NoIndent ==> id[0] != 126u8 && id[0] != 45u8,
    ensures
        HeredocIndentMode::spec_mode_of(mode.spec_prefix_symbols() + id).0 == mode,
        (mode.spec_prefix_symbols() + id).subrange(
            HeredocIndentMode::spec_mode_of(mode.spec_prefix_symbols() + id).1,
            (mode.spec_prefix_symbols() + id).len() as int,
        ) == id,
{
    let s = mode.spec_prefix_symbols() + id;
    let k = HeredocIndentMode::spec_mode_of(s).1;
    assert(s.subrange(k, s.len() as int) =~= id);
}

impl HeredocOpening {
    pub fn new(pos: Pos, id: Vec<u8>, indent_mode: HeredocIndentMode) -> (h: HeredocOpening)
        requires
            id@.len() + 3 <= usize::MAX,
        ensures
            h.pos == pos,
            h.id == id,
            h.indent_mode == indent_mode,
            h.shape == (Shape::Inline {
                len: (id@.len() + indent_mode.spec_prefix_symbols().len()) as usize,
            }),
    {
        let shape = Shape::inline(id.len() + indent_mode.prefix_symbols().len());
        HeredocOpening { pos, shape, id, indent_mode }
    }

    pub fn shape(&self) -> (s: &Shape)
        ensures
            *s == self.shape,
    {
        &self.shape
    }

    /// Writes the opening and queues the body for the end of the line.
    pub fn format(&self, o: &mut Output)
        ensures
            final(o).text_state() == pushes(
                old(o).text_state(),
                old(o).config.line_width as int,
                old(o).indent as nat,
                seq![self.indent_mode.spec_prefix_symbols(), self.id@],
            ),
            final(o).config == old(o).config,
            final(o).line_count == old(o).line_count,
            final(o).indent == old(o).indent,
            final(o).heredoc_queue@ == old(o).heredoc_queue@.push(
                HeredocState { pos: self.pos, opening_line_indent: old(o).indent },
            ),
            grew(*old(o), *final(o)),
            old(o).wf() ==> final(o).wf(),
    {
        let ghost o0 = *o;
        o.push_str(self.indent_mode.prefix_symbols());
        let ghost o1 = *o;
        o.push_str(self.id.as_slice());
        let ghost o2 = *o;
        proof {
            lemma_wrote_pieces_concat(
                o0,
                o1,
                o2,
                seq![self.indent_mode.spec_prefix_symbols()],
                seq![self.id@],
            );
            assert(seq![self.indent_mode.spec_prefix_symbols()] + seq![self.id@] =~= seq![
                self.indent_mode.spec_prefix_symbols(),
                self.id@,
            ]);
        }
        o.heredoc_queue.push_back(HeredocState { pos: self.pos, opening_line_indent: o.indent });
    }
}

/// The number of spaces that start `s`.
pub open spec fn leading_spaces(s: Seq<u8>) -> nat
    decreases s.len(),
{
    if s.len() > 0 && s[0] == 32u8 {
        1 + leading_spaces(s.drop_first())
    } else {
        0
    }
}

/// The first byte after the leading spaces is a tab.
pub open spec fn tab_after_spaces(s: Seq<u8>) -> bool {
    leading_spaces(s) < s.len() && s[leading_spaces(s) as int] == 9u8
}

/// The number of spaces of a line that holds nothing but spaces; `None` for text that
/// does not end in a line break or that holds something else.
pub open spec fn spec_blank_line_spaces(value: Seq<u8>) -> Option<nat> {
    if value.len() == 0 || value.last() != 10u8 {
        None
    } else if forall|i: int| 0 <= i < value.len() - 1 ==> value[i] == 32u8 {
        Some((value.len() - 1) as nat)
    } else {
        None
    }
}

/// Return the number of spaces at the start of a line only if the line holds nothing but them.
pub fn prefix_spaces_of_empty_line(value: &Vec<u8>) -> (r: Option<usize>)
    ensures
        r matches Some(n) ==> spec_blank_line_spaces(value@) == Some(n as nat),
        r is None ==> spec_blank_line_spaces(value@) is None,
{
    let n = value.len();
    if n == 0 || value[n - 1] != 10u8 {
        return None;
    }
    let mut spaces_len: usize = 0;
    while spaces_len < n - 1
        invariant
            n == value@.len(),
            0 <= spaces_len <= n - 1,
            forall|i: int| 0 <= i < spaces_len ==> value@[i] == 32u8,
        decreases n - 1 - spaces_len,
    {
        if value[spaces_len] != 32u8 {
            return None;
        }
        spaces_len = spaces_len + 1;
    }
    Some(spaces_len)
}

/// Part `i` starts a line: the first part if it is text, or a part after text that
/// ends with a line break.
pub open spec fn starts_line(parts: Seq<HeredocPart>, i: int) -> bool {
    if i == 0 {
        parts[0] is Str
    } else {
        match parts[i - 1] {
            HeredocPart::Str(s) => s.value@.last() == 10u8,
            _ => false,
        }
    }
}

/// Part `i` decides the indentation to remove: text that starts a non-blank line.
pub open spec fn counts_for_indent(parts: Seq<HeredocPart>, i: int) -> bool {
    &&& starts_line(parts, i)
    &&& parts[i] is Str
    &&& spec_blank_line_spaces(parts[i]->Str_0.value@) is None
}

/// The smallest indentation among the first `n` parts, `usize::MAX` where none counts.
pub open spec fn min_indent_upto(parts: Seq<HeredocPart>, n: int) -> nat
    decreases n,
{
    if n <= 0 {
        usize::MAX as nat
    } else {
        let prev = min_indent_upto(parts, n - 1);
        if counts_for_indent(parts, n - 1) && leading_spaces(parts[n - 1]->Str_0.value@) < prev {
            leading_spaces(parts[n - 1]->Str_0.value@)
        } else {
            prev
        }
    }
}

/// Some line of the body mixes a tab into its indentation.
pub open spec fn has_tab_indent(parts: Seq<HeredocPart>) -> bool {
    exists|i: int|
        0 <= i < parts.len() && #[trigger] counts_for_indent(parts, i) && tab_after_spaces(
            parts[i]->Str_0.value@,
        )
}

/// What `inspect_body_indent` records for part `i`.
pub open spec fn line_start_info(parts: Seq<HeredocPart>, i: int) -> Option<
    SquigglyHeredocLineStartPartInfo,
> {
    if !starts_line(parts, i) {
        None
    } else {
        match parts[i] {
            HeredocPart::Str(s) => match spec_blank_line_spaces(s.value@) {
                Some(k) => Some(
                    SquigglyHeredocLineStartPartInfo {
                        empty_line: Some(SquigglyHeredocEmptyLineInfo { prefix_spaces: k as usize }),
                    },
                ),
                None => Some(SquigglyHeredocLineStartPartInfo { empty_line: None }),
            },
            _ => Some(SquigglyHeredocLineStartPartInfo { empty_line: None }),
        }
    }
}

/// Every text part of the body holds at least one byte.
pub open spec fn text_parts_nonempty(parts: Seq<HeredocPart>) -> bool {
    forall|i: int| 0 <= i < parts.len() && #[trigger] parts[i] is Str ==> parts[i]->Str_0.value@.len() > 0
}

pub proof fn lemma_leading_spaces_bound(s: Seq<u8>)
    ensures
        leading_spaces(s) <= s.len(),
        forall|j: int| 0 <= j < leading_spaces(s) ==> s[j] == 32u8,
    decreases s.len(),
{
    if s.len() > 0 && s[0] == 32u8 {
        lemma_leading_spaces_bound(s.drop_first());
        assert forall|j: int| 0 <= j < leading_spaces(s) implies s[j] == 32u8 by {
            if j > 0 {
                assert(s[j] == s.drop_first()[j - 1]);
            }
        }
    }
}

pub proof fn lemma_leading_spaces_stop(s: Seq<u8>, k: int)
    requires
        0 <= k <= s.len(),
        forall|j: int| 0 <= j < k ==> s[j] == 32u8,
        k == s.len() || s[k] != 32u8,
    ensures
        leading_spaces(s) == k,
    decreases s.len(),
{
    if k > 0 {
        assert forall|j: int| 0 <= j < k - 1 implies s.drop_first()[j] == 32u8 by {
            assert(s.drop_first()[j] == s[j + 1]);
        }
        if k < s.len() {
            assert(s.drop_first()[k - 1] == s[k]);
        }
        lemma_leading_spaces_stop(s.drop_first(), k - 1);
    }
}

/// The indentation to remove from a `<<~` body is the smallest one among the lines
/// that are not blank, and none where no line counts.
pub proof fn lemma_min_indent_is_smallest(parts: Seq<HeredocPart>, n: int, i: int)
    requires
        0 <= i < n,
        counts_for_indent(parts, i),
    ensures
        min_indent_upto(parts, n) <= leading_spaces(parts[i]->Str_0.value@),
    decreases n,
{
    if i < n - 1 {
        lemma_min_indent_is_smallest(parts, n - 1, i);
    }
}

/// Looks at where the lines of a `<<~` body start and how far they are indented.
/// `None` for an empty body, or where a line starts its indentation with a tab.
pub fn inspect_body_indent(parts: &Vec<HeredocPart>) -> (r: Option<SquigglyHeredocBodyInfo>)
    requires
        text_parts_nonempty(parts@),
    ensures
        (parts@.len() == 0 || has_tab_indent(parts@)) <==> r is None,
        r matches Some(info) ==> {
            &&& info.line_starts@.len() == parts@.len()
            &&& forall|i: int| 0 <= i < parts@.len() ==> #[trigger] info.line_starts@[i]
                == line_start_info(parts@, i)
            &&& info.min_spaces == if min_indent_upto(parts@, parts@.len() as int) == usize::MAX {
                0
            } else {
                min_indent_upto(parts@, parts@.len() as int)
            }
        },
{
    if parts.len() == 0 {
        return None;
    }
    let mut is_line_start = match &parts[0] {
        HeredocPart::Str(_) => true,
        _ => false,
    };
    let mut min_spaces: usize = usize::MAX;
    let mut line_starts: Vec<Option<SquigglyHeredocLineStartPartInfo>> = Vec::new();
    let n = parts.len();
    let mut k: usize = 0;
    while k < n
        invariant
            n == parts@.len(),
            n > 0,
            0 <= k <= n,
            text_parts_nonempty(parts@),
            is_line_start == starts_line(parts@, k as int) || k == n,
            k < n ==> is_line_start == starts_line(parts@, k as int),
            line_starts@.len() == k,
            forall|i: int| 0 <= i < k ==> #[trigger] line_starts@[i] == line_start_info(parts@, i),
            min_spaces == min_indent_upto(parts@, k as int),
            forall|i: int|
                0 <= i < k && #[trigger] counts_for_indent(parts@, i) ==> !tab_after_spaces(
                    parts@[i]->Str_0.value@,
                ),
        decreases n - k,
    {
        match &parts[k] {
            HeredocPart::Str(text) => {
                let value = &text.value;
                assert(parts@[k as int] is Str);
                let line_start = if is_line_start {
                    match prefix_spaces_of_empty_line(value) {
                        Some(prefix_spaces) => Some(
                            SquigglyHeredocLineStartPartInfo {
                                empty_line: Some(SquigglyHeredocEmptyLineInfo { prefix_spaces }),
                            },
                        ),
                        None => {
                            let mut i: usize = 0;
                            while i < value.len() && value[i] == 32u8
                                invariant
                                    0 <= i <= value@.len(),
                                    forall|j: int| 0 <= j < i ==> value@[j] == 32u8,
                                decreases value@.len() - i,
                            {
                                i = i + 1;
                            }
                            proof {
                                lemma_leading_spaces_stop(value@, i as int);
                            }
                            if i < value.len() && value[i] == 9u8 {
                                proof {
                                    assert(counts_for_indent(parts@, k as int));
                                    assert(has_tab_indent(parts@));
                                }
                                return None;
                            }
                            if i < min_spaces {
                                min_spaces = i;
                            }
                            Some(SquigglyHeredocLineStartPartInfo { empty_line: None })
                        },
                    }
                } else {
                    None
                };
                line_starts.push(line_start);
                is_line_start = value[value.len() - 1] == 10u8;
            },
            _ => {
                let line_start = if is_line_start {
                    Some(SquigglyHeredocLineStartPartInfo { empty_line: None })
                } else {
                    None
                };
                line_starts.push(line_start);
                is_line_start = false;
            },
        }
        k = k + 1;
    }
    proof {
        if has_tab_indent(parts@) {
            let i = choose|i: int|
                0 <= i < parts@.len() && #[trigger] counts_for_indent(parts@, i) && tab_after_spaces(
                    parts@[i]->Str_0.value@,
                );
            assert(!tab_after_spaces(parts@[i]->Str_0.value@));
        }
    }
    if min_spaces == usize::MAX {
        min_spaces = 0;
    }
    Some(SquigglyHeredocBodyInfo { min_spaces, line_starts })
}

/// `n` spaces as bytes.
fn spaces_vec(n: usize) -> (v: Vec<u8>)
    ensures
        v@ == spaces(n as nat),
{
    let mut v: Vec<u8> = Vec::new();
    let mut i: usize = 0;
    while i < n
        invariant
            0 <= i <= n,
            v@ == spaces(i as nat),
        decreases n - i,
    {
        v.push(32u8);
        i = i + 1;
        assert(spaces(i as nat) == spaces((i - 1) as nat).push(32u8));
    }
    v
}

impl Heredoc {
    /// The body only opens heredocs that come later and have a body; a `<<~` body
    /// has no empty text part.
    pub open spec fn ok_in(&self, c: int, m: Map<usize, Heredoc>) -> bool {
        &&& forall|i: int|
            0 <= i < self.parts@.len() ==> match #[trigger] self.parts@[i] {
                HeredocPart::Statements(e) => e.ok_in(c, m),
                _ => true,
            }
        &&& self.indent_mode == HeredocIndentMode::AllIndented ==> text_parts_nonempty(self.parts@)
    }

    /// A body made of text alone.
    pub open spec fn text_only(&self) -> bool {
        forall|i: int| 0 <= i < self.parts@.len() ==> #[trigger] self.parts@[i] is Str
    }

    /// The lines of a `<<~` body are re-indented unless the body is empty or a line
    /// starts its indentation with a tab.
    pub open spec fn reindents(&self) -> bool {
        self.parts@.len() > 0 && !has_tab_indent(self.parts@)
    }

    /// The indentation taken from the lines of a `<<~` body.
    pub open spec fn removed_spaces(&self) -> nat {
        if min_indent_upto(self.parts@, self.parts@.len() as int) == usize::MAX {
            0
        } else {
            min_indent_upto(self.parts@, self.parts@.len() as int)
        }
    }

    /// Text part `i` as written: in a re-indented `<<~` body, a part that starts a line
    /// loses the indentation taken from all lines and gets `desired` in front (a blank
    /// line keeps what is left of its spaces instead, when it has no more than were
    /// taken); any other part is written as it is.
    pub open spec fn part_text(&self, i: int, desired: Seq<u8>) -> Seq<u8> {
        let v = self.parts@[i]->Str_0.value@;
        let m = self.removed_spaces();
        if self.indent_mode == HeredocIndentMode::AllIndented && self.reindents() {
            match line_start_info(self.parts@, i) {
                Some(ls) => match ls.empty_line {
                    Some(el) => if m < el.prefix_spaces {
                        desired + v.subrange(m as int, v.len() as int)
                    } else {
                        v.subrange(el.prefix_spaces as int, v.len() as int)
                    },
                    None => desired + v.subrange(m as int, v.len() as int),
                },
                None => v,
            }
        } else {
            v
        }
    }

    /// The first `i` text parts as written.
    pub open spec fn body_text(&self, i: int, desired: Seq<u8>) -> Seq<u8>
        decreases i,
    {
        if i <= 0 {
            Seq::empty()
        } else {
            self.body_text(i - 1, desired) + self.part_text(i - 1, desired)
        }
    }

    /// The text of a body made of text alone, opened on a line indented by `opening`:
    /// the parts, then the terminator, indented by `opening` for `<<-` and `<<~` (and
    /// for `<<` when nothing at all was written from the start of a line).
    pub open spec fn plain_text(&self, opening: nat, indent_size: nat, at_line_start: bool) -> Seq<u8> {
        let body = self.body_text(self.parts@.len() as int, spaces(opening + indent_size));
        body + (if self.indent_mode != HeredocIndentMode::NoIndent || (at_line_start && body.len() == 0) {
            spaces(opening)
        } else {
            Seq::empty()
        }) + self.id@
    }

    /// Writes the body and the terminator, indented as on the line of the opening. A
    /// body made of text alone comes out as `plain_text`.
    pub fn format(&self, o: &mut Output, ctx: &FormatContext, state: &HeredocState, Ghost(c): Ghost<int>)
        requires
            ready(*old(o), *ctx, c),
            c == state.pos.0,
            self.ok_in(c, ctx.heredoc_map@),
        ensures
            advanced(*old(o), *final(o), *ctx, c),
            final(o).indent == old(o).indent,
            self.text_only() && old(o).config.line_width > 0 && state.opening_line_indent
                + old(o).config.indent_size <= usize::MAX ==> final(o).buffer@ == old(o).buffer@
                + self.plain_text(
                state.opening_line_indent as nat,
                old(o).config.indent_size as nat,
                old(o).at_line_start(),
            ),
            self.text_only() ==> final(o).heredoc_queue@ == old(o).heredoc_queue@,
        decreases heredoc_measure(c), 3int, self, 0int,
    {
        let ghost o0 = *o;
        let ghost plain = self.text_only() && o0.config.line_width > 0 && state.opening_line_indent
            + o0.config.indent_size <= usize::MAX;
        let ghost texts = self.text_only();
        let ghost opening = state.opening_line_indent as nat;
        let ghost desired = spaces(opening + o0.config.indent_size as nat);
        let actual_indent = o.indent;
        o.indent = state.opening_line_indent;
        let n = self.parts.len();
        match self.indent_mode {
            HeredocIndentMode::AllIndented => {
                o.indent();
                let ghost os = *o;
                let body_info = match inspect_body_indent(&self.parts) {
                    Some(info) => info,
                    None => SquigglyHeredocBodyInfo { min_spaces: 0, line_starts: Vec::new() },
                };
                let desired_indent = spaces_vec(o.indent);
                let mut i: usize = 0;
                while i < n
                    invariant
                        n == self.parts@.len(),
                        self.reindents() ==> body_info.line_starts@.len() == n,
                        !self.reindents() ==> body_info.line_starts@.len() == 0,
                        plain ==> {
                            &&& self.text_only()
                            &&& o0.config.line_width > 0
                            &&& desired_indent@ == desired
                            &&& os.buffer@ == o0.buffer@
                            &&& os.remaining_width == o0.remaining_width
                            &&& os.indent == opening + o0.config.indent_size
                            &&& os.config == o0.config
                            &&& o.buffer@ == os.buffer@ + self.body_text(i as int, desired)
                            &&& o.remaining_width == sat_sub(
                                os.remaining_width as int,
                                self.body_text(i as int, desired).len() as int,
                            )
                            &&& o.indent == os.indent
                            &&& o.config == os.config
                            &&& i <= n
                        },
                        ready(*o, *ctx, c),
                        advanced(*old(o), *o, *ctx, c),
                        self.ok_in(c, ctx.heredoc_map@),
                        self.indent_mode == HeredocIndentMode::AllIndented,
                        texts ==> self.text_only() && o.heredoc_queue@ == o0.heredoc_queue@,
                        body_info.line_starts@.len() == 0 || body_info.line_starts@.len() == n,
                        body_info.line_starts@.len() == n ==> forall|j: int|
                            0 <= j < n ==> #[trigger] body_info.line_starts@[j] == line_start_info(
                                self.parts@,
                                j,
                            ),
                        body_info.line_starts@.len() == n ==> body_info.min_spaces == if min_indent_upto(
                            self.parts@,
                            n as int,
                        ) == usize::MAX {
                            0
                        } else {
                            min_indent_upto(self.parts@, n as int)
                        },
                        body_info.line_starts@.len() == 0 ==> body_info.min_spaces == 0,
                    decreases n - i,
                {
                    let ghost oa = *o;
                    let line_start = if i < body_info.line_starts.len() {
                        body_info.line_starts[i]
                    } else {
                        None
                    };
                    proof {
                        if plain && self.reindents() {
                            assert(line_start == line_start_info(self.parts@, i as int));
                            assert(body_info.min_spaces == self.removed_spaces());
                        }
                    }
                    proof {
                        if texts {
                            assert(self.parts@[i as int] is Str);
                        }
                    }
                    match &self.parts[i] {
                        HeredocPart::Str(text) => {
                            let value = &text.value;
                            proof {
                                assert(self.parts@[i as int] is Str);
                                assert(value@.len() > 0);
                            }
                            match line_start {
                                Some(line_start) => {
                                    proof {
                                        self.lemma_min_spaces_fit(body_info.min_spaces, i as int);
                                    }
                                    match line_start.empty_line {
                                        Some(empty_line) => {
                                            if body_info.min_spaces < empty_line.prefix_spaces {
                                                o.push_str_without_indent(desired_indent.as_slice());
                                                o.push_str_without_indent(
                                                    vstd::slice::slice_subrange(
                                                        value.as_slice(),
                                                        body_info.min_spaces,
                                                        value.len(),
                                                    ),
                                                );
                                            } else {
                                                o.push_str_without_indent(
                                                    vstd::slice::slice_subrange(
                                                        value.as_slice(),
                                                        empty_line.prefix_spaces,
                                                        value.len(),
                                                    ),
                                                );
                                            }
                                        },
                                        None => {
                                            o.push_str_without_indent(desired_indent.as_slice());
                                            o.push_str_without_indent(
                                                vstd::slice::slice_subrange(
                                                    value.as_slice(),
                                                    body_info.min_spaces,
                                                    value.len(),
                                                ),
                                            );
                                        },
                                    }
                                },
                                None => {
                                    o.push_str_without_indent(value.as_slice());
                                },
                            }
                        },
                        HeredocPart::Statements(embedded) => {
                            if line_start.is_some() {
                                o.push_str_without_indent(desired_indent.as_slice());
                            }
                            embedded.format(o, ctx, Ghost(c));
                        },
                        HeredocPart::Variable(var) => {
                            if line_start.is_some() {
                                o.push_str_without_indent(desired_indent.as_slice());
                            }
                            var.format(o);
                        },
                    }
                    proof {
                        if plain {
                            assert(self.parts@[i as int] is Str);
                            let t = self.part_text(i as int, desired);
                            assert(o.buffer@ =~= oa.buffer@ + t);
                            assert(self.body_text(i + 1, desired) == self.body_text(i as int, desired) + t);
                            assert(o.buffer@ =~= os.buffer@ + self.body_text(i + 1, desired));
                        }
                    }
                    i = i + 1;
                }
                let ghost ob = *o;
                o.dedent();
                o.put_indent();
                let ghost oc = *o;
                o.push_str(self.id.as_slice());
                proof {
                    if plain {
                        lemma_pushes_one(oc.text_state(), oc.config.line_width as int, oc.indent as nat, self.id@);
                        assert(oc.indent == opening);
                        assert(oc.indent_prefix() =~= Seq::<u8>::empty());
                        assert(o.buffer@ =~= o0.buffer@ + self.plain_text(
                            opening,
                            o0.config.indent_size as nat,
                            o0.at_line_start(),
                        ));
                    }
                }
            },
            _ => {
                let ghost os = *o;
                let mut i: usize = 0;
                while i < n
                    invariant
                        n == self.parts@.len(),
                        ready(*o, *ctx, c),
                        advanced(*old(o), *o, *ctx, c),
                        self.ok_in(c, ctx.heredoc_map@),
                        self.indent_mode != HeredocIndentMode::AllIndented,
                        texts ==> self.text_only() && o.heredoc_queue@ == o0.heredoc_queue@,
                        plain ==> {
                            &&& self.text_only()
                            &&& o0.config.line_width > 0
                            &&& os.buffer@ == o0.buffer@
                            &&& os.remaining_width == o0.remaining_width
                            &&& os.indent == opening
                            &&& os.config == o0.config
                            &&& o.buffer@ == os.buffer@ + self.body_text(i as int, desired)
                            &&& o.remaining_width == sat_sub(
                                os.remaining_width as int,
                                self.body_text(i as int, desired).len() as int,
                            )
                            &&& o.indent == os.indent
                            &&& o.config == os.config
                            &&& i <= n
                        },
                    decreases n - i,
                {
                    let ghost oa = *o;
                    proof {
                        if texts {
                            assert(self.parts@[i as int] is Str);
                        }
                    }
                    match &self.parts[i] {
                        HeredocPart::Str(text) => {
                            o.push_str_without_indent(text.value.as_slice());
                        },
                        HeredocPart::Statements(embedded) => {
                            embedded.format(o, ctx, Ghost(c));
                        },
                        HeredocPart::Variable(var) => {
                            var.format(o);
                        },
                    }
                    proof {
                        if plain {
                            assert(self.parts@[i as int] is Str);
                            let t = self.part_text(i as int, desired);
                            assert(o.buffer@ =~= oa.buffer@ + t);
                            assert(self.body_text(i + 1, desired) == self.body_text(i as int, desired) + t);
                            assert(o.buffer@ =~= os.buffer@ + self.body_text(i + 1, desired));
                        }
                    }
                    i = i + 1;
                }
                if self.indent_mode == HeredocIndentMode::EndIndented {
                    o.put_indent();
                }
                let ghost oc = *o;
                o.push_str(self.id.as_slice());
                proof {
                    if plain {
                        lemma_pushes_one(oc.text_state(), oc.config.line_width as int, oc.indent as nat, self.id@);
                        assert(oc.indent == opening);
                        let body = self.body_text(n as int, desired);
                        if self.indent_mode == HeredocIndentMode::EndIndented {
                            assert(oc.indent_prefix() =~= Seq::<u8>::empty());
                        } else {
                            assert(oc.at_line_start() == (o0.at_line_start() && body.len() == 0));
                        }
                        assert(o.buffer@ =~= o0.buffer@ + self.plain_text(
                            opening,
                            o0.config.indent_size as nat,
                            o0.at_line_start(),
                        ));
                    }
                }
            },
        }
        o.indent = actual_indent;
    }

    /// Where part `i` starts a line, the indentation removed from it is no more than
    /// its leading spaces, or it is a blank line.
    proof fn lemma_min_spaces_fit(&self, min_spaces: usize, i: int)
        requires
            0 <= i < self.parts@.len(),
            self.parts@[i] is Str,
            self.parts@[i]->Str_0.value@.len() > 0,
            starts_line(self.parts@, i),
            min_spaces == if min_indent_upto(self.parts@, self.parts@.len() as int) == usize::MAX {
                0
            } else {
                min_indent_upto(self.parts@, self.parts@.len() as int)
            },
        ensures
            spec_blank_line_spaces(self.parts@[i]->Str_0.value@) is None ==> min_spaces
                <= self.parts@[i]->Str_0.value@.len(),
            spec_blank_line_spaces(self.parts@[i]->Str_0.value@) matches Some(k) ==> k
                < self.parts@[i]->Str_0.value@.len(),
    {
        let v = self.parts@[i]->Str_0.value@;
        lemma_leading_spaces_bound(v);
        if spec_blank_line_spaces(v) is None {
            assert(counts_for_indent(self.parts@, i));
            lemma_min_indent_is_smallest(self.parts@, self.parts@.len() as int, i);
        }
    }
}

} // verus!
