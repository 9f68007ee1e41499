use vstd::prelude::*;
use std::collections::HashMap;
use std::collections::VecDeque;

use super::node::{Heredoc, HeredocState, VirtualEnd};

verus! {

broadcast use vstd::std_specs::hash::group_hash_axioms;

/// Layout settings of one formatting run.
#[derive(Debug, Clone, Copy, PartialEq, Eq, Structural)]
pub struct FormatConfig {
    pub line_width: usize,
    pub indent_size: usize,
}

/// Heredoc bodies, keyed by the position number of their opening.
pub type HeredocMap = HashMap<usize, Heredoc>;

/// What every part of a formatting run can look up.
pub struct FormatContext {
    pub heredoc_map: HeredocMap,
}

/// The state that a draft goes back to when it is rolled back.
pub struct OutputSnapshot {
    pub buffer_len: usize,
    pub remaining_width: usize,
    pub line_count: usize,
    pub indent: usize,
    pub heredoc_queue: VecDeque<HeredocState>,
}

/// Whether a draft is kept or thrown away.
#[derive(Debug, Clone, Copy, PartialEq, Eq, Structural)]
pub enum DraftResult {
    Commit,
    Rollback,
}

/// The text produced so far, with the layout state needed to go on.
pub struct Output {
    pub config: FormatConfig,
    pub remaining_width: usize,
    pub line_count: usize,
    pub buffer: Vec<u8>,
    pub indent: usize,
    pub heredoc_queue: VecDeque<HeredocState>,
}

/// `n` spaces.
pub open spec fn spaces(n: nat) -> Seq<u8> {
    Seq::new(n, |_i: int| 32u8)
}

/// Subtraction that stops at zero.
pub open spec fn sat_sub(a: int, b: int) -> int {
    if a >= b {
        a - b
    } else {
        0
    }
}

/// The measure that bounds how deep heredoc bodies can nest: a body is written only
/// from a context whose position number is smaller than its own.
pub open spec fn heredoc_measure(c: int) -> int {
    usize::MAX + 1 - c
}

/// Every queued heredoc has a body in the map and a position above `c`.
/// The one heredoc waiting in `o` has a body of text alone, and its indentation fits.
pub open spec fn one_plain_heredoc(o: Output, ctx: FormatContext) -> bool {
    let st = o.heredoc_queue@[0];
    &&& ctx.heredoc_map@.contains_key(st.pos.0)
    &&& ctx.heredoc_map@[st.pos.0].text_only()
    &&& o.config.line_width > 0
    &&& st.opening_line_indent + o.config.indent_size <= usize::MAX
}

pub open spec fn queue_ok(q: Seq<HeredocState>, c: int, m: Map<usize, Heredoc>) -> bool {
    forall|i: int| 0 <= i < q.len() ==> #[trigger] q[i].pos.0 > c && m.contains_key(q[i].pos.0)
}

/// `s` records the state of `o`.
pub open spec fn snapshot_of(s: OutputSnapshot, o: Output) -> bool {
    &&& s.buffer_len == o.buffer@.len()
    &&& s.remaining_width == o.remaining_width
    &&& s.line_count == o.line_count
    &&& s.indent == o.indent
    &&& s.heredoc_queue@ == o.heredoc_queue@
}

/// `end` is `during` rolled back to `s`.
pub open spec fn rolled_back(during: Output, end: Output, s: OutputSnapshot) -> bool {
    &&& end.buffer@ == during.buffer@.subrange(0, s.buffer_len as int)
    &&& end.remaining_width == s.remaining_width
    &&& end.line_count == s.line_count
    &&& end.indent == s.indent
    &&& end.heredoc_queue@ == s.heredoc_queue@
    &&& end.config == during.config
}

/// A draft that is rolled back leaves the output as it was when the draft started,
/// whatever was written in between.
pub proof fn lemma_draft_rollback_restores(start: Output, s: OutputSnapshot, during: Output, end: Output)
    requires
        snapshot_of(s, start),
        grew(start, during),
        rolled_back(during, end, s),
    ensures
        end.buffer@ == start.buffer@,
        end.remaining_width == start.remaining_width,
        end.line_count == start.line_count,
        end.indent == start.indent,
        end.heredoc_queue@ == start.heredoc_queue@,
        end.config == start.config,
{
    assert(end.buffer@ =~= start.buffer@);
}

impl FormatContext {
    /// Each heredoc body only opens heredocs with a later position that have a body
    /// too, and each of its text parts is non-empty.
    pub open spec fn wf(&self) -> bool {
        forall|p: usize| #[trigger]
            self.heredoc_map@.contains_key(p) ==> self.heredoc_map@[p].ok_in(p as int, self.heredoc_map@)
    }
}

impl Output {
    pub open spec fn wf(&self) -> bool {
        &&& self.remaining_width <= self.config.line_width
        &&& self.line_count <= self.buffer@.len()
    }

    pub open spec fn at_line_start(&self) -> bool {
        self.remaining_width == self.config.line_width
    }

    /// What a push writes before its text: the indentation, at the start of a line.
    pub open spec fn indent_prefix(&self) -> Seq<u8> {
        if self.at_line_start() {
            spaces(self.indent as nat)
        } else {
            Seq::empty()
        }
    }

    /// `self` after writing `s` without indentation.
    pub open spec fn same_but_text(&self, o: Output, s: Seq<u8>) -> bool {
        &&& o.buffer@ == self.buffer@ + s
        &&& o.remaining_width == sat_sub(self.remaining_width as int, s.len() as int)
        &&& o.config == self.config
        &&& o.line_count == self.line_count
        &&& o.indent == self.indent
        &&& o.heredoc_queue@ == self.heredoc_queue@
    }

    /// `self` after appending `s` to the text alone.
    pub open spec fn same_but_raw(&self, o: Output, s: Seq<u8>) -> bool {
        &&& o.buffer@ == self.buffer@ + s
        &&& o.remaining_width == self.remaining_width
        &&& o.config == self.config
        &&& o.line_count == self.line_count
        &&& o.indent == self.indent
        &&& o.heredoc_queue@ == self.heredoc_queue@
    }

    /// The text and the remaining width: what pushes change.
    pub open spec fn text_state(&self) -> (Seq<u8>, int) {
        (self.buffer@, self.remaining_width as int)
    }

    /// `o` is `self` after writing `s` the way `push_str` does.
    pub open spec fn pushed(&self, o: Output, s: Seq<u8>) -> bool {
        wrote_pieces(*self, o, seq![s])
    }
}

/// The text state after one push: the indentation first at the start of a line.
pub open spec fn push_one(state: (Seq<u8>, int), line_width: int, indent: nat, s: Seq<u8>) -> (
    Seq<u8>,
    int,
) {
    let prefix = if state.1 == line_width {
        spaces(indent)
    } else {
        Seq::<u8>::empty()
    };
    (state.0 + prefix + s, sat_sub(sat_sub(state.1, prefix.len() as int), s.len() as int))
}

/// The text state after pushing `pieces` in order.
pub open spec fn pushes(state: (Seq<u8>, int), line_width: int, indent: nat, pieces: Seq<Seq<u8>>) -> (
    Seq<u8>,
    int,
)
    decreases pieces.len(),
{
    if pieces.len() == 0 {
        state
    } else {
        pushes(push_one(state, line_width, indent, pieces[0]), line_width, indent, pieces.drop_first())
    }
}

/// `o1` is `o0` after pushing `pieces` one after the other, and nothing else.
pub open spec fn wrote_pieces(o0: Output, o1: Output, pieces: Seq<Seq<u8>>) -> bool {
    &&& o1.text_state() == pushes(
        o0.text_state(),
        o0.config.line_width as int,
        o0.indent as nat,
        pieces,
    )
    &&& o1.config == o0.config
    &&& o1.line_count == o0.line_count
    &&& o1.indent == o0.indent
    &&& o1.heredoc_queue@ == o0.heredoc_queue@
}

pub proof fn lemma_pushes_concat(
    state: (Seq<u8>, int),
    lw: int,
    indent: nat,
    p: Seq<Seq<u8>>,
    q: Seq<Seq<u8>>,
)
    ensures
        pushes(state, lw, indent, p + q) == pushes(pushes(state, lw, indent, p), lw, indent, q),
    decreases p.len(),
{
    if p.len() > 0 {
        assert((p + q).drop_first() =~= p.drop_first() + q);
        lemma_pushes_concat(push_one(state, lw, indent, p[0]), lw, indent, p.drop_first(), q);
    } else {
        assert(p + q =~= q);
    }
}

/// Pushing some pieces and then some more is pushing all of them.
pub proof fn lemma_wrote_pieces_concat(
    o0: Output,
    o1: Output,
    o2: Output,
    p: Seq<Seq<u8>>,
    q: Seq<Seq<u8>>,
)
    requires
        wrote_pieces(o0, o1, p),
        wrote_pieces(o1, o2, q),
    ensures
        wrote_pieces(o0, o2, p + q),
{
    lemma_pushes_concat(o0.text_state(), o0.config.line_width as int, o0.indent as nat, p, q);
}

/// Pushing a single piece is one step of `push_one`.
pub proof fn lemma_pushes_one(state: (Seq<u8>, int), lw: int, indent: nat, s: Seq<u8>)
    ensures
        pushes(state, lw, indent, seq![s]) == push_one(state, lw, indent, s),
{
    assert(seq![s].drop_first() =~= Seq::<Seq<u8>>::empty());
    assert(pushes(push_one(state, lw, indent, s), lw, indent, Seq::<Seq<u8>>::empty()) == push_one(state, lw, indent, s));
}

/// Away from the start of a line, what pushes write does not depend on the
/// indentation.
pub proof fn lemma_pushes_indent_free(state: (Seq<u8>, int), lw: int, i1: nat, i2: nat, pieces: Seq<Seq<u8>>)
    requires
        0 <= state.1 < lw,
    ensures
        pushes(state, lw, i1, pieces) == pushes(state, lw, i2, pieces),
    decreases pieces.len(),
{
    if pieces.len() > 0 {
        let s1 = push_one(state, lw, i1, pieces[0]);
        assert(s1 == push_one(state, lw, i2, pieces[0]));
        lemma_pushes_indent_free(s1, lw, i1, i2, pieces.drop_first());
    }
}

/// At the start of a line, a push of nothing writes the indentation, and leaves the
/// line's room less the indentation.
pub proof fn lemma_line_start_push(ob: Output, o1: Output)
    requires
        ob.at_line_start(),
        ob.pushed(o1, Seq::<u8>::empty()),
        ob.indent <= ob.config.line_width,
    ensures
        o1.buffer@ == ob.buffer@ + spaces(ob.indent as nat),
        o1.remaining_width == ob.config.line_width - ob.indent,
        o1.indent_prefix() == Seq::<u8>::empty(),
        o1.indent == ob.indent,
        o1.config == ob.config,
        o1.heredoc_queue@ == ob.heredoc_queue@,
        o1.line_count == ob.line_count,
{
    lemma_pushes_one(ob.text_state(), ob.config.line_width as int, ob.indent as nat, Seq::<u8>::empty());
    assert(o1.buffer@ =~= ob.buffer@ + spaces(ob.indent as nat));
    if o1.at_line_start() {
        assert(spaces(o1.indent as nat) =~= Seq::<u8>::empty());
    }
}

pub proof fn lemma_wrote_nothing(o: Output)
    ensures
        wrote_pieces(o, o, Seq::empty()),
{
}

/// `o` can go on being written in heredoc context `c`.
pub open spec fn ready(o: Output, ctx: FormatContext, c: int) -> bool {
    &&& o.wf()
    &&& ctx.wf()
    &&& 0 <= c <= usize::MAX
    &&& queue_ok(o.heredoc_queue@, c, ctx.heredoc_map@)
}

/// `o1` keeps the settings of `o0`, and its text and line count go on from those of `o0`.
pub open spec fn grew(o0: Output, o1: Output) -> bool {
    &&& o1.config == o0.config
    &&& o0.buffer@.is_prefix_of(o1.buffer@)
    &&& o0.line_count <= o1.line_count
}

/// `o1` is `o0` after more text was written in heredoc context `c`.
pub open spec fn advanced(o0: Output, o1: Output, ctx: FormatContext, c: int) -> bool {
    &&& o1.wf()
    &&& grew(o0, o1)
    &&& queue_ok(o1.heredoc_queue@, c, ctx.heredoc_map@)
}


pub proof fn lemma_queue_ok_weaken(q: Seq<HeredocState>, c1: int, c2: int, m: Map<usize, Heredoc>)
    requires
        queue_ok(q, c1, m),
        c2 <= c1,
    ensures
        queue_ok(q, c2, m),
{
}

/// `dedent` undoes `indent`, as long as the indentation does not reach the largest
/// `usize`.
pub proof fn lemma_dedent_undoes_indent(indent: usize, indent_size: usize)
    requires
        indent + indent_size <= usize::MAX,
    ensures
        sat_sub(
            if indent + indent_size <= usize::MAX {
                indent + indent_size
            } else {
                usize::MAX as int
            },
            indent_size as int,
        ) == indent,
{
}

impl Output {
    pub fn new(config: FormatConfig) -> (o: Output)
        ensures
            o.config == config,
            o.remaining_width == config.line_width,
            o.line_count == 0,
            o.buffer@ == Seq::<u8>::empty(),
            o.indent == 0,
            o.heredoc_queue@ == Seq::<HeredocState>::empty(),
            o.wf(),
    {
        Output {
            remaining_width: config.line_width,
            line_count: 0,
            config,
            buffer: Vec::new(),
            indent: 0,
            heredoc_queue: VecDeque::new(),
        }
    }

    /// Records the state to go back to if a draft is rolled back.
    pub fn snapshot(&self) -> (s: OutputSnapshot)
        ensures
            snapshot_of(s, *self),
    {
        OutputSnapshot {
            buffer_len: self.buffer.len(),
            remaining_width: self.remaining_width,
            line_count: self.line_count,
            indent: self.indent,
            heredoc_queue: self.heredoc_queue.clone(),
        }
    }

    /// Ends a draft: a commit keeps what was written since `snapshot`, a rollback
    /// returns to the snapshot.
    pub fn draft(&mut self, snapshot: OutputSnapshot, result: DraftResult) -> (r: DraftResult)
        requires
            snapshot.buffer_len <= old(self).buffer@.len(),
        ensures
            r == result,
            final(self).config == old(self).config,
            result == DraftResult::Commit ==> *final(self) == *old(self),
            result == DraftResult::Rollback ==> rolled_back(*old(self), *final(self), snapshot),
    {
        match result {
            DraftResult::Commit => {},
            DraftResult::Rollback => {
                self.buffer.truncate(snapshot.buffer_len);
                self.remaining_width = snapshot.remaining_width;
                self.line_count = snapshot.line_count;
                self.indent = snapshot.indent;
                self.heredoc_queue = snapshot.heredoc_queue;
            },
        }
        result
    }

    pub fn write_trivia_at_virtual_end(
        &mut self,
        ctx: &FormatContext,
        end: &Option<VirtualEnd>,
        break_first: bool,
        trim_start: bool,
        Ghost(c): Ghost<int>,
    )
        requires
            ready(*old(self), *ctx, c),
        ensures
            advanced(*old(self), *final(self), *ctx, c),
            end is None ==> *final(self) == *old(self),
            end matches Some(e) ==> (old(self).heredoc_queue@.len() == 0 && old(self).indent
                <= old(self).config.line_width ==> final(self).buffer@ == old(self).buffer@ + e.written_text(
                break_first,
                trim_start,
                old(self).at_line_start(),
                old(self).indent as nat,
            )),
        decreases heredoc_measure(c), 1int, ctx, 1int,
    {
        if let Some(end) = end {
            end.format(self, ctx, break_first, trim_start, Ghost(c));
        }
    }

    pub fn push(&mut self, c: u8)
        ensures
            old(self).pushed(*final(self), seq![c]),
            final(self).buffer@ == old(self).buffer@ + old(self).indent_prefix() + seq![c],
            old(self).wf() && old(self).indent_prefix().len() == 0 ==> final(self).indent_prefix().len() == 0,
    {
        if self.remaining_width == self.config.line_width {
            self.put_indent();
        }
        let ghost mid = *self;
        self.buffer.push(c);
        self.remaining_width = self.remaining_width.saturating_sub(1);
        proof {
            lemma_pushes_one(old(self).text_state(), old(self).config.line_width as int, old(self).indent as nat, seq![c]);
            assert(mid.buffer@ =~= old(self).buffer@ + old(self).indent_prefix());
            assert(self.buffer@ =~= old(self).buffer@ + old(self).indent_prefix() + seq![c]);
        }
    }

    pub fn push_str(&mut self, s: &[u8])
        ensures
            old(self).pushed(*final(self), s@),
            final(self).buffer@ == old(self).buffer@ + old(self).indent_prefix() + s@,
    {
        if self.remaining_width == self.config.line_width {
            self.put_indent();
        }
        let ghost mid = *self;
        self.push_str_without_indent(s);
        proof {
            lemma_pushes_one(old(self).text_state(), old(self).config.line_width as int, old(self).indent as nat, s@);
            assert(mid.buffer@ =~= old(self).buffer@ + old(self).indent_prefix());
            assert(self.buffer@ =~= old(self).buffer@ + old(self).indent_prefix() + s@);
        }
    }

    pub fn push_str_without_indent(&mut self, s: &[u8])
        ensures
            old(self).same_but_text(*final(self), s@),
    {
        let mut i: usize = 0;
        while i < s.len()
            invariant
                0 <= i <= s@.len(),
                self.buffer@ == old(self).buffer@ + s@.subrange(0, i as int),
                self.config == old(self).config,
                self.remaining_width == old(self).remaining_width,
                self.line_count == old(self).line_count,
                self.indent == old(self).indent,
                self.heredoc_queue@ == old(self).heredoc_queue@,
            decreases s@.len() - i,
        {
            self.buffer.push(s[i]);
            i = i + 1;
            assert(s@.subrange(0, i as int) == s@.subrange(0, i - 1).push(s@[i - 1]));
        }
        assert(s@.subrange(0, s@.len() as int) == s@);
        self.remaining_width = self.remaining_width.saturating_sub(s.len());
    }

    /// Appends `s` to the text and changes nothing else, not even the remaining width.
    pub fn write_raw(&mut self, s: &[u8])
        ensures
            old(self).same_but_raw(*final(self), s@),
    {
        let mut i: usize = 0;
        while i < s.len()
            invariant
                0 <= i <= s@.len(),
                self.buffer@ == old(self).buffer@ + s@.subrange(0, i as int),
                self.config == old(self).config,
                self.remaining_width == old(self).remaining_width,
                self.line_count == old(self).line_count,
                self.indent == old(self).indent,
                self.heredoc_queue@ == old(self).heredoc_queue@,
            decreases s@.len() - i,
        {
            self.buffer.push(s[i]);
            i = i + 1;
            assert(s@.subrange(0, i as int) == s@.subrange(0, i - 1).push(s@[i - 1]));
        }
        assert(s@.subrange(0, s@.len() as int) == s@);
    }

    pub fn put_indent(&mut self)
        ensures
            old(self).same_but_text(*final(self), spaces(old(self).indent as nat)),
    {
        let n = self.indent;
        let mut i: usize = 0;
        while i < n
            invariant
                0 <= i <= n,
                n == old(self).indent,
                self.buffer@ == old(self).buffer@ + spaces(i as nat),
                self.config == old(self).config,
                self.remaining_width == old(self).remaining_width,
                self.line_count == old(self).line_count,
                self.indent == old(self).indent,
                self.heredoc_queue@ == old(self).heredoc_queue@,
            decreases n - i,
        {
            self.buffer.push(32u8);
            i = i + 1;
            assert(spaces(i as nat) == spaces((i - 1) as nat).push(32u8));
        }
        self.remaining_width = self.remaining_width.saturating_sub(n);
    }

    pub fn put_indent_if_needed(&mut self)
        ensures
            old(self).pushed(*final(self), Seq::empty()),
    {
        if self.remaining_width == self.config.line_width {
            self.put_indent();
        }
        proof {
            lemma_pushes_one(old(self).text_state(), old(self).config.line_width as int, old(self).indent as nat, Seq::<u8>::empty());
            assert(self.buffer@ =~= old(self).buffer@ + old(self).indent_prefix() + Seq::<u8>::empty());
        }
    }

    pub fn indent(&mut self)
        ensures
            final(self).indent == if old(self).indent + old(self).config.indent_size <= usize::MAX {
                old(self).indent + old(self).config.indent_size
            } else {
                usize::MAX as int
            },
            final(self).config == old(self).config,
            final(self).buffer@ == old(self).buffer@,
            final(self).remaining_width == old(self).remaining_width,
            final(self).line_count == old(self).line_count,
            final(self).heredoc_queue@ == old(self).heredoc_queue@,
    {
        self.indent = self.indent.saturating_add(self.config.indent_size);
    }

    pub fn dedent(&mut self)
        ensures
            final(self).indent == sat_sub(old(self).indent as int, old(self).config.indent_size as int),
            final(self).config == old(self).config,
            final(self).buffer@ == old(self).buffer@,
            final(self).remaining_width == old(self).remaining_width,
            final(self).line_count == old(self).line_count,
            final(self).heredoc_queue@ == old(self).heredoc_queue@,
    {
        self.indent = self.indent.saturating_sub(self.config.indent_size);
    }

    /// Ends the line, then writes the bodies of the heredocs opened on it.
    pub fn break_line(&mut self, ctx: &FormatContext, Ghost(c): Ghost<int>)
        requires
            ready(*old(self), *ctx, c),
        ensures
            advanced(*old(self), *final(self), *ctx, c),
            final(self).buffer@.len() > old(self).buffer@.len(),
            final(self).buffer@[old(self).buffer@.len() as int] == 10u8,
            final(self).buffer@.last() == 10u8,
            final(self).line_count > old(self).line_count,
            old(self).heredoc_queue@.len() == 0 ==> {
                &&& final(self).buffer@ == old(self).buffer@.push(10u8)
                &&& final(self).remaining_width == old(self).config.line_width
                &&& final(self).line_count == old(self).line_count + 1
                &&& final(self).indent == old(self).indent
                &&& final(self).heredoc_queue@ == Seq::<HeredocState>::empty()
            },
            old(self).heredoc_queue@.len() == 1 && one_plain_heredoc(*old(self), *ctx) ==> {
                &&& final(self).buffer@ == old(self).buffer@.push(10u8) + ctx.heredoc_map@[old(
                    self,
                ).heredoc_queue@[0].pos.0].plain_text(
                    old(self).heredoc_queue@[0].opening_line_indent as nat,
                    old(self).config.indent_size as nat,
                    true,
                ).push(10u8)
                &&& final(self).heredoc_queue@ == Seq::<HeredocState>::empty()
            },
        decreases heredoc_measure(c), 0int, ctx, 0int,
    {
        self.buffer.push(10u8);
        assert(self.buffer@ =~= old(self).buffer@ + seq![10u8]);
        let buffer_len = self.buffer.len();
        assert(self.line_count < buffer_len);
        self.remaining_width = self.config.line_width;
        self.line_count = self.line_count + 1;
        let mut queue: VecDeque<HeredocState> = VecDeque::new();
        std::mem::swap(&mut queue, &mut self.heredoc_queue);
        let ghost first = *self;
        let ghost single = old(self).heredoc_queue@.len() == 1 && one_plain_heredoc(*old(self), *ctx);
        let ghost st = old(self).heredoc_queue@[0];
        proof {
            assert(queue@ == old(self).heredoc_queue@);
            super::growth::lemma_grew_refl(first);
            super::growth::lemma_appended_grew(*old(self), first, seq![10u8]);
        }
        loop
            invariant
                ready(*self, *ctx, c),
                queue_ok(queue@, c, ctx.heredoc_map@),
                advanced(first, *self, *ctx, c),
                first.buffer@ == old(self).buffer@.push(10u8),
                first.line_count == old(self).line_count + 1,
                old(self).heredoc_queue@.len() == 0 ==> {
                    &&& queue@.len() == 0
                    &&& *self == first
                },
                first.remaining_width == old(self).config.line_width,
                first.config == old(self).config,
                first.indent == old(self).indent,
                first.heredoc_queue@ == Seq::<HeredocState>::empty(),
                self.buffer@.len() > 0 && self.buffer@.last() == 10u8,
                self.buffer@.len() > old(self).buffer@.len(),
                self.buffer@[old(self).buffer@.len() as int] == 10u8,
                single ==> {
                    &&& one_plain_heredoc(*old(self), *ctx)
                    &&& st == old(self).heredoc_queue@[0]
                    &&& queue@.len() <= 1
                    &&& queue@.len() == 1 ==> queue@[0] == st && *self == first
                    &&& queue@.len() == 0 ==> {
                        &&& self.buffer@ == first.buffer@ + ctx.heredoc_map@[st.pos.0].plain_text(
                            st.opening_line_indent as nat,
                            old(self).config.indent_size as nat,
                            true,
                        ).push(10u8)
                        &&& self.heredoc_queue@ == Seq::<HeredocState>::empty()
                    }
                },
            ensures
                queue@.len() == 0,
            decreases queue@.len(),
        {
            let next = queue.pop_front();
            match next {
                Some(state) => {
                    assert(queue_ok(queue@, c, ctx.heredoc_map@));
                    let ghost before = *self;
                    proof {
                        if single {
                            assert(state == st);
                            assert(before.at_line_start());
                            assert(before.config == old(self).config);
                        }
                    }
                    self.write_heredoc_body(&state, ctx, Ghost(c));
                    proof {
                        super::growth::lemma_grew_trans(first, before, *self);
                        let k = old(self).buffer@.len() as int;
                        assert(self.buffer@.subrange(0, before.buffer@.len() as int)[k] == self.buffer@[k]);
                    }
                },
                None => {
                    break;
                },
            }
        }
    }

    pub fn write_heredoc_body(&mut self, state: &HeredocState, ctx: &FormatContext, Ghost(c): Ghost<int>)
        requires
            ready(*old(self), *ctx, c),
            state.pos.0 > c,
            ctx.heredoc_map@.contains_key(state.pos.0),
        ensures
            advanced(*old(self), *final(self), *ctx, c),
            final(self).buffer@.len() > 0 && final(self).buffer@.last() == 10u8,
            ctx.heredoc_map@[state.pos.0].text_only() && old(self).config.line_width > 0
                && state.opening_line_indent + old(self).config.indent_size <= usize::MAX ==> {
                &&& final(self).buffer@ == old(self).buffer@ + ctx.heredoc_map@[state.pos.0].plain_text(
                    state.opening_line_indent as nat,
                    old(self).config.indent_size as nat,
                    old(self).at_line_start(),
                ).push(10u8)
                &&& final(self).heredoc_queue@ == old(self).heredoc_queue@
            },
        decreases heredoc_measure(state.pos.0 as int), 4int, ctx, 0int,
    {
        let heredoc = ctx.heredoc_map.get(&state.pos.0);
        match heredoc {
            Some(heredoc) => {
                let ghost start = *self;
                let ghost p = state.pos.0 as int;
                assert(ctx.heredoc_map@[state.pos.0].ok_in(p, ctx.heredoc_map@));
                // The heredocs still waiting are set aside while this body is written,
                // and stay ahead of the ones that it opens.
                let mut pending: VecDeque<HeredocState> = VecDeque::new();
                std::mem::swap(&mut pending, &mut self.heredoc_queue);
                heredoc.format(self, ctx, state, Ghost(p));
                let mut opened: VecDeque<HeredocState> = VecDeque::new();
                std::mem::swap(&mut opened, &mut self.heredoc_queue);
                proof {
                    lemma_queue_ok_weaken(opened@, p, c, ctx.heredoc_map@);
                }
                let ghost opened_items = opened@;
                let ghost pending_items = pending@;
                pending.append(&mut opened);
                self.heredoc_queue = pending;
                let ghost written = *self;
                self.buffer.push(10u8);
                proof {
                    if heredoc.text_only() {
                        assert(opened_items =~= Seq::<HeredocState>::empty());
                        assert(self.heredoc_queue@ =~= pending_items);
                    }
                    assert(self.buffer@ =~= written.buffer@ + seq![10u8]);
                    super::growth::lemma_raw_grew(written, *self, seq![10u8]);
                    super::growth::lemma_grew_trans(start, written, *self);
                }
            },
            None => {
                assert(false);
            },
        }
    }
}

} // verus!
