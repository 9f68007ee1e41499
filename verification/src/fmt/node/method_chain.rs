use vstd::prelude::*;

use crate::fmt::flat::{
    budget, call_flat_ok, call_pieces, calls_flat, kind_flat, kind_flat_ok,
    lemma_calls_flat_prefix, lemma_calls_flat_step, lemma_node_flat_nonempty, lemma_total_len_concat,
    head_flat, lemma_wrote_fitting, node_flat, node_flat_ok, opt_arguments_pieces, total_len, arguments_flat_ok,
    arguments_pieces, lemma_wrote_budget, joined,
};
use crate::fmt::output::{
    advanced, heredoc_measure, lemma_line_start_push, lemma_wrote_nothing, lemma_wrote_pieces_concat, ready,
    spaces, wrote_pieces, FormatContext, Output,
};
use crate::fmt::shape::Shape;
use crate::fmt::text::spec_opt_len;
use crate::fmt::trivia::{
    lemma_leading_ends_at_line_start, leading_written, EmptyLineHandling, LeadingTrivia, TrailingTrivia,
};

use super::arguments::trailing_text;
use super::string_like::opt_piece;
use super::{Arguments, Block, Heredoc, Kind, Node};

verus! {

broadcast use crate::fmt::growth::group_output_growth;

/// `receiver.call(args) { block }[index].call ...`
#[derive(Debug)]
pub struct MethodChain {
    pub shape: Shape,
    pub head: MethodChainHead,
    pub calls: Vec<CallUnit>,
    pub calls_shape: Shape,
}

/// What a chain starts with: a receiver, or a call without one.
#[derive(Debug)]
pub enum MethodChainHead {
    Receiver(Receiver),
    FirstCall(CallUnit),
}

/// The receiver of a chain, with the index calls right after it.
#[derive(Debug)]
pub struct Receiver {
    pub shape: Shape,
    pub node: Box<Node>,
    pub index_calls: Vec<IndexCall>,
}

/// One call in a chain: `.name(args) { block }[index]`.
#[derive(Debug)]
pub struct CallUnit {
    pub shape: Shape,
    pub leading_trivia: LeadingTrivia,
    pub trailing_trivia: TrailingTrivia,
    pub operator: Option<Vec<u8>>,
    pub name: Vec<u8>,
    pub arguments: Option<Arguments>,
    pub block: Option<Block>,
    pub index_calls: Vec<IndexCall>,
}

/// A call as read from the source, before it joins a chain.
#[derive(Debug)]
pub struct MessageCall {
    pub shape: Shape,
    pub leading_trivia: LeadingTrivia,
    pub operator: Option<Vec<u8>>,
    pub name: Vec<u8>,
    pub arguments: Option<Arguments>,
    pub block: Option<Block>,
}

/// `[args]`, possibly with a block.
#[derive(Debug)]
pub struct IndexCall {
    pub shape: Shape,
    pub arguments: Arguments,
    pub block: Option<Block>,
}

impl MethodChain {
    pub open spec fn ok_in(&self, c: int, m: Map<usize, Heredoc>) -> bool
        decreases self,
    {
        &&& self.head.ok_in(c, m)
        &&& forall|i: int| 0 <= i < self.calls@.len() ==> (#[trigger] self.calls@[i]).ok_in(c, m)
    }

    pub fn with_receiver(receiver: Node) -> (ch: MethodChain)
        ensures
            ch.shape == receiver.shape,
            ch.head matches MethodChainHead::Receiver(r) && *r.node == receiver && r.shape == receiver.shape
                && r.index_calls@.len() == 0,
            ch.calls@.len() == 0,
            ch.calls_shape == (Shape::Inline { len: 0 }),
    {
        MethodChain {
            shape: receiver.shape,
            head: MethodChainHead::Receiver(Receiver::new(receiver)),
            calls: Vec::new(),
            calls_shape: Shape::inline(0),
        }
    }

    pub fn without_receiver(call: MessageCall) -> (ch: MethodChain)
        ensures
            ch.shape == call.shape,
            ch.head matches MethodChainHead::FirstCall(u) && u.name == call.name && u.shape == call.shape,
            ch.calls@.len() == 0,
            ch.calls_shape == (Shape::Inline { len: 0 }),
    {
        MethodChain {
            shape: call.shape,
            head: MethodChainHead::FirstCall(CallUnit::from_message(call)),
            calls: Vec::new(),
            calls_shape: Shape::inline(0),
        }
    }

    /// Adds a call; a comment after the previous call goes to that call.
    pub fn append_message_call(&mut self, last_call_trailing: TrailingTrivia, msg_call: MessageCall)
        requires
            old(self).shape.size() + old(self).calls_shape.size() + msg_call.shape.size() <= usize::MAX,
            last_call_trailing.spec_comment() is Some ==> (old(self).calls@.len() > 0
                || old(self).head is FirstCall),
            old(self).calls@.len() > 0 ==> old(self).calls@.last().shape.concat_fits(
                last_call_trailing.spec_shape(),
            ),
            old(self).head matches MethodChainHead::FirstCall(u) ==> u.shape.concat_fits(
                last_call_trailing.spec_shape(),
            ),
        ensures
            final(self).shape == old(self).shape.concat(last_call_trailing.spec_shape()).concat(msg_call.shape),
            final(self).calls_shape == old(self).calls_shape.concat(last_call_trailing.spec_shape()).concat(
                msg_call.shape,
            ),
            final(self).calls@.len() == old(self).calls@.len() + 1,
            final(self).calls@.last().name == msg_call.name,
            final(self).calls@.last().shape == msg_call.shape,
            final(self).calls@.last().leading_trivia == msg_call.leading_trivia,
            final(self).calls@.last().trailing_trivia.spec_comment() is None,
            final(self).calls@.last().operator == msg_call.operator,
            final(self).calls@.last().arguments == msg_call.arguments,
            final(self).calls@.last().block == msg_call.block,
            final(self).calls@.last().index_calls@.len() == 0,
            last_call_trailing.spec_comment() is None ==> final(self).head == old(self).head
                && final(self).calls@.drop_last() == old(self).calls@,
    {
        let ghost calls0 = self.calls@;
        self.shape.append(last_call_trailing.shape());
        self.shape.append(&msg_call.shape);
        self.calls_shape.append(last_call_trailing.shape());
        self.calls_shape.append(&msg_call.shape);
        if !last_call_trailing.is_none() {
            let n = self.calls.len();
            if n > 0 {
                let mut last = self.calls.pop().unwrap();
                last.shape.append(last_call_trailing.shape());
                last.trailing_trivia = last_call_trailing;
                self.calls.push(last);
            } else {
                match &mut self.head {
                    MethodChainHead::FirstCall(call) => {
                        call.shape.append(last_call_trailing.shape());
                        call.trailing_trivia = last_call_trailing;
                    },
                    MethodChainHead::Receiver(_) => {},
                }
            }
        }
        let call = CallUnit::from_message(msg_call);
        self.calls.push(call);
        proof {
            if last_call_trailing.spec_comment() is None {
                assert(self.calls@.drop_last() =~= calls0);
            }
        }
    }

    pub fn append_index_call(&mut self, idx_call: IndexCall)
        requires
            old(self).shape.size() + old(self).calls_shape.size() + idx_call.shape.size() <= usize::MAX,
            old(self).calls@.len() > 0 ==> old(self).calls@.last().shape.concat_fits(idx_call.shape),
            old(self).head matches MethodChainHead::Receiver(r) ==> r.shape.concat_fits(idx_call.shape),
            old(self).head matches MethodChainHead::FirstCall(u) ==> u.shape.concat_fits(idx_call.shape),
        ensures
            final(self).shape == old(self).shape.concat(idx_call.shape),
            final(self).calls_shape == old(self).calls_shape.concat(idx_call.shape),
            final(self).calls@.len() == old(self).calls@.len(),
    {
        self.shape.append(&idx_call.shape);
        self.calls_shape.append(&idx_call.shape);
        let n = self.calls.len();
        if n > 0 {
            let mut last = self.calls.pop().unwrap();
            last.append_index_call(idx_call);
            self.calls.push(last);
        } else {
            self.head.append_index_call(idx_call);
        }
    }

    /// A call that goes on a line of its own indented by `indent` in lines of
    /// `line_width`: made of parts that `call_pieces` describes, and short enough for
    /// the line. Comments may stand on the lines before it.
    pub open spec fn call_line_ok(u: CallUnit, indent: int, line_width: int) -> bool {
        &&& call_flat_ok(u)
        &&& total_len(call_pieces(u)) <= line_width - indent
    }

    /// The comments and kept empty lines in front of a call on a line of its own at
    /// indentation `indent`, empty lines trimmed at both ends.
    pub open spec fn call_leading(u: CallUnit, indent: nat) -> Seq<u8> {
        leading_written(
            u.leading_trivia.spec_lines(),
            u.leading_trivia.spec_lines().len() as int,
            EmptyLineHandling::Trim { start: true, end: true },
            true,
            indent,
        ).0
    }

    /// A call on a line of its own at indentation `indent`: a line break, the lines in
    /// front of it, the indentation and the call.
    pub open spec fn call_row(u: CallUnit, indent: nat) -> Seq<u8> {
        seq![10u8] + Self::call_leading(u, indent) + spaces(indent) + joined(call_pieces(u))
    }

    /// The first `i` calls one per line at indentation `indent`.
    pub open spec fn call_rows(cs: Seq<CallUnit>, i: int, indent: nat) -> Seq<u8>
        decreases i,
    {
        if i <= 0 || i > cs.len() {
            Seq::empty()
        } else {
            Self::call_rows(cs, i - 1, indent) + Self::call_row(cs[i - 1], indent)
        }
    }

    /// A chain laid out one call per line at `o`: a receiver written flat, followed by a
    /// comment, or by calls that do not fit together on the rest of the line, more than
    /// one or one with comments in front of it; each call can go on a line of its own
    /// one level deeper, and nothing waits to be written.
    pub open spec fn vertical_ok(&self, o: Output) -> bool {
        &&& self.head matches MethodChainHead::Receiver(r) && {
            &&& r.index_calls@.len() == 0
            &&& node_flat_ok(*r.node)
            &&& total_len(node_flat(*r.node)) <= budget(o)
            &&& r.node.trailing_trivia.spec_comment() is None ==> {
                &&& !self.calls_shape.spec_fits_in_one_line(budget(o) - total_len(node_flat(*r.node)))
                &&& !(self.calls@.len() == 1 && self.calls@[0].leading_trivia.spec_lines().len() == 0)
            }
        }
        &&& o.heredoc_queue@.len() == 0
        &&& o.indent + o.config.indent_size <= usize::MAX
        &&& forall|i: int|
            0 <= i < self.calls@.len() ==> Self::call_line_ok(
                #[trigger] self.calls@[i],
                o.indent + o.config.indent_size,
                o.config.line_width as int,
            )
    }

    /// The comment after a receiver, after a space, if there is one.
    pub open spec fn head_comment(&self) -> Seq<u8> {
        match self.head {
            MethodChainHead::Receiver(r) => trailing_text(*r.node),
            MethodChainHead::FirstCall(_) => Seq::empty(),
        }
    }

    /// The head, then the calls on the same line where no comment ends the head's
    /// line and the calls fit, or there is a single call with no comment in front of
    /// it (its arguments can still be broken); else one call per indented line. A
    /// chain that `vertical_ok` describes comes out as its receiver and the comment
    /// after it, then every call in order on a line of its own one level deeper (see
    /// `call_rows`).
    #[verifier::spinoff_prover]
    #[verifier::rlimit(60)]
    pub fn format(&self, o: &mut Output, ctx: &FormatContext, Ghost(c): Ghost<int>)
        requires
            ready(*old(o), *ctx, c),
            self.ok_in(c, ctx.heredoc_map@),
        ensures
            advanced(*old(o), *final(o), *ctx, c),
            kind_flat_ok(Kind::MethodChain(*self)) && total_len(kind_flat(Kind::MethodChain(*self)))
                <= budget(*old(o)) ==> wrote_pieces(
                *old(o),
                *final(o),
                kind_flat(Kind::MethodChain(*self)),
            ),
            self.vertical_ok(*old(o)) ==> {
                &&& final(o).buffer@ == old(o).buffer@ + old(o).indent_prefix() + joined(head_flat(self.head))
                    + self.head_comment() + Self::call_rows(
                    self.calls@,
                    self.calls@.len() as int,
                    (old(o).indent + old(o).config.indent_size) as nat,
                )
                &&& final(o).indent == old(o).indent
                &&& final(o).heredoc_queue@.len() == 0
            },
        decreases heredoc_measure(c), 2int, self, 1int,
    {
        let ghost o0 = *o;
        let ghost cs = self.calls@;
        let ghost vert = self.vertical_ok(o0);
        let ghost ind2 = (o0.indent + o0.config.indent_size) as nat;
        let ghost flat = kind_flat_ok(Kind::MethodChain(*self)) && total_len(
            kind_flat(Kind::MethodChain(*self)),
        ) <= budget(o0);
        let ghost hp = head_flat(self.head);
        proof {
            if flat {
                lemma_total_len_concat(hp, calls_flat(cs, cs.len() as int));
                lemma_node_flat_nonempty(*self.head->Receiver_0.node);
            }
        }
        match &self.head {
            MethodChainHead::Receiver(receiver) => receiver.format(o, ctx, Ghost(c)),
            MethodChainHead::FirstCall(call) => call.format(o, ctx, Ghost(c)),
        }
        proof {
            if flat {
                lemma_wrote_fitting(o0, *o, hp);
            }
            if vert && self.head->Receiver_0.node.trailing_trivia.spec_comment() is None {
                lemma_node_flat_nonempty(*self.head->Receiver_0.node);
                lemma_wrote_fitting(o0, *o, hp);
            }
        }
        let ghost o1 = *o;
        let n = self.calls.len();
        let single_call = n == 1 && self.calls[0].leading_trivia.is_empty();
        let inline = (self.calls_shape.fits_in_one_line(o.remaining_width) || single_call)
            && !self.head.has_trailing_trivia();
        if inline {
            let mut i: usize = 0;
            while i < n
                invariant
                    n == self.calls@.len(),
                    cs == self.calls@,
                    ready(*o, *ctx, c),
                    advanced(*old(o), *o, *ctx, c),
                    self.ok_in(c, ctx.heredoc_map@),
                    0 <= i <= n,
                    flat ==> {
                        &&& kind_flat_ok(Kind::MethodChain(*self))
                        &&& o1.wf()
                        &&& wrote_pieces(o1, *o, calls_flat(cs, i as int))
                        &&& budget(*o) == budget(o1) - total_len(calls_flat(cs, i as int))
                        &&& total_len(calls_flat(cs, n as int)) <= budget(o1)
                    },
                decreases n - i,
            {
                let ghost oa = *o;
                proof {
                    if flat {
                        assert(call_flat_ok(cs[i as int]));
                        lemma_calls_flat_step(cs, i + 1);
                        lemma_calls_flat_prefix(cs, i + 1, n as int);
                        lemma_total_len_concat(calls_flat(cs, i as int), call_pieces(cs[i as int]));
                    }
                }
                self.calls[i].format(o, ctx, Ghost(c));
                proof {
                    if flat {
                        lemma_wrote_pieces_concat(o1, oa, *o, calls_flat(cs, i as int), call_pieces(cs[i as int]));
                        if call_pieces(cs[i as int]).len() > 0 {
                            lemma_wrote_fitting(oa, *o, call_pieces(cs[i as int]));
                        }
                    }
                }
                i = i + 1;
            }
            proof {
                if flat {
                    lemma_wrote_pieces_concat(o0, o1, *o, hp, calls_flat(cs, n as int));
                }
            }
        } else {
            proof {
                if flat {
                    assert(self.calls_shape.spec_fits_in_one_line(o1.remaining_width as int));
                }
            }
            o.indent();
            let mut i: usize = 0;
            while i < n
                invariant
                    n == self.calls@.len(),
                    cs == self.calls@,
                    ready(*o, *ctx, c),
                    advanced(*old(o), *o, *ctx, c),
                    self.ok_in(c, ctx.heredoc_map@),
                    0 <= i <= n,
                    vert ==> {
                        &&& ind2 == o1.indent + o1.config.indent_size
                        &&& o.buffer@ == o1.buffer@ + Self::call_rows(cs, i as int, ind2)
                        &&& o.indent == ind2
                        &&& o.config == o1.config
                        &&& o.heredoc_queue@.len() == 0
                        &&& forall|j: int|
                            0 <= j < cs.len() ==> Self::call_line_ok(
                                #[trigger] cs[j],
                                ind2 as int,
                                o1.config.line_width as int,
                            )
                    },
                decreases n - i,
            {
                let call = &self.calls[i];
                let ghost oa = *o;
                o.break_line(ctx, Ghost(c));
                call.leading_trivia.format(o, ctx, EmptyLineHandling::trim(), Ghost(c));
                let ghost ob = *o;
                o.put_indent_if_needed();
                let ghost oc = *o;
                proof {
                    if vert {
                        assert(Self::call_line_ok(cs[i as int], ind2 as int, o1.config.line_width as int));
                        lemma_leading_ends_at_line_start(
                            cs[i as int].leading_trivia.spec_lines(),
                            cs[i as int].leading_trivia.spec_lines().len() as int,
                            EmptyLineHandling::Trim { start: true, end: true },
                            ind2,
                        );
                        lemma_line_start_push(ob, oc);
                    }
                }
                call.format(o, ctx, Ghost(c));
                proof {
                    if vert {
                        lemma_wrote_fitting(oc, *o, call_pieces(cs[i as int]));
                        assert(o.buffer@ =~= o1.buffer@ + Self::call_rows(cs, i + 1, ind2));
                    }
                }
                i = i + 1;
            }
            o.dedent();
        }
    }
}

/// The rows of the first `i` calls begin the rows of the first `n`.
proof fn lemma_call_rows_prefix(cs: Seq<CallUnit>, i: int, n: int, indent: nat)
    requires
        0 <= i <= n <= cs.len(),
    ensures
        MethodChain::call_rows(cs, i, indent).is_prefix_of(MethodChain::call_rows(cs, n, indent)),
    decreases n - i,
{
    if i < n {
        lemma_call_rows_prefix(cs, i, n - 1, indent);
        let a = MethodChain::call_rows(cs, i, indent);
        let b = MethodChain::call_rows(cs, n - 1, indent);
        let c = MethodChain::call_rows(cs, n, indent);
        assert(c == b + MethodChain::call_row(cs[n - 1], indent));
        assert(c.subrange(0, b.len() as int) =~= b);
        assert(c.subrange(0, a.len() as int) =~= b.subrange(0, a.len() as int));
    }
}

/// A chain laid out one call per line writes, after its receiver, every call of the
/// chain in order, none skipped: call `i` stands right after the receiver, the comment
/// after it, if any, and the lines of the calls before it, as a line break, the comments in front of it, the
/// indentation one level deeper and the call's text. Each such line holds at least
/// its line break, so the calls stand at increasing places.
pub proof fn law_chain_calls_each_on_own_line(ch: MethodChain, indent: nat, indent_size: nat, i: int)
    requires
        0 <= i < ch.calls@.len(),
    ensures
        ({
            let ind = indent + indent_size;
            let h = joined(head_flat(ch.head)) + ch.head_comment();
            let t = h + MethodChain::call_rows(ch.calls@, ch.calls@.len() as int, ind);
            let at = (h.len() + MethodChain::call_rows(ch.calls@, i, ind).len()) as int;
            let line = MethodChain::call_row(ch.calls@[i], ind);
            &&& line == seq![10u8] + MethodChain::call_leading(ch.calls@[i], ind) + spaces(ind) + joined(
                call_pieces(ch.calls@[i]),
            )
            &&& at + line.len() <= t.len()
            &&& t.subrange(at, at + line.len() as int) == line
            &&& MethodChain::call_rows(ch.calls@, i + 1, ind).len() == MethodChain::call_rows(ch.calls@, i, ind).len()
                + line.len()
        }),
{
    let cs = ch.calls@;
    let n = cs.len() as int;
    let ind = indent + indent_size;
    let h = joined(head_flat(ch.head)) + ch.head_comment();
    let before = MethodChain::call_rows(cs, i, ind);
    let upto = MethodChain::call_rows(cs, i + 1, ind);
    let all = MethodChain::call_rows(cs, n, ind);
    let line = MethodChain::call_row(cs[i], ind);
    assert(upto == before + line);
    lemma_call_rows_prefix(cs, i + 1, n, ind);
    let more = all.subrange(upto.len() as int, all.len() as int);
    assert(all =~= upto + more);
    let t = h + all;
    assert(t =~= (h + before) + line + more);
    assert(t.subrange((h + before).len() as int, ((h + before).len() + line.len()) as int) =~= line);
}

impl MethodChainHead {
    pub open spec fn ok_in(&self, c: int, m: Map<usize, Heredoc>) -> bool
        decreases self,
    {
        match self {
            MethodChainHead::Receiver(r) => r.ok_in(c, m),
            MethodChainHead::FirstCall(u) => u.ok_in(c, m),
        }
    }

    pub fn has_trailing_trivia(&self) -> (b: bool)
        ensures
            b == match self {
                MethodChainHead::Receiver(r) => r.node.trailing_trivia.spec_comment() is Some,
                MethodChainHead::FirstCall(u) => u.trailing_trivia.spec_comment() is Some,
            },
    {
        match self {
            MethodChainHead::Receiver(receiver) => !receiver.node.trailing_trivia.is_none(),
            MethodChainHead::FirstCall(call) => !call.trailing_trivia.is_none(),
        }
    }

    /// Appends the index call to the receiver or to the first call, whichever heads
    /// the chain.
    pub fn append_index_call(&mut self, idx_call: IndexCall)
        requires
            match *old(self) {
                MethodChainHead::Receiver(r) => r.shape.concat_fits(idx_call.shape),
                MethodChainHead::FirstCall(u) => u.shape.concat_fits(idx_call.shape),
            },
        ensures
            match *old(self) {
                MethodChainHead::Receiver(r) => *final(self) matches MethodChainHead::Receiver(r2) && {
                    &&& r2.shape == r.shape.concat(idx_call.shape)
                    &&& r2.index_calls@ == r.index_calls@.push(idx_call)
                    &&& r2.node == r.node
                },
                MethodChainHead::FirstCall(u) => *final(self) matches MethodChainHead::FirstCall(u2) && {
                    &&& u2.shape == u.shape.concat(idx_call.shape)
                    &&& u2.index_calls@ == u.index_calls@.push(idx_call)
                    &&& u2.leading_trivia == u.leading_trivia
                    &&& u2.trailing_trivia == u.trailing_trivia
                    &&& u2.operator == u.operator
                    &&& u2.name == u.name
                    &&& u2.arguments == u.arguments
                    &&& u2.block == u.block
                },
            },
    {
        match self {
            MethodChainHead::Receiver(receiver) => receiver.append_index_call(idx_call),
            MethodChainHead::FirstCall(call) => call.append_index_call(idx_call),
        }
    }
}

impl Receiver {
    pub open spec fn ok_in(&self, c: int, m: Map<usize, Heredoc>) -> bool
        decreases self,
    {
        &&& self.node.ok_in(c, m)
        &&& forall|i: int| 0 <= i < self.index_calls@.len() ==> (#[trigger] self.index_calls@[i]).ok_in(c, m)
    }

    pub fn new(node: Node) -> (r: Receiver)
        ensures
            r.shape == node.shape,
            *r.node == node,
            r.index_calls@.len() == 0,
    {
        Receiver { shape: node.shape, node: Box::new(node), index_calls: Vec::new() }
    }

    pub fn append_index_call(&mut self, idx_call: IndexCall)
        requires
            old(self).shape.concat_fits(idx_call.shape),
        ensures
            final(self).shape == old(self).shape.concat(idx_call.shape),
            final(self).index_calls@ == old(self).index_calls@.push(idx_call),
            final(self).node == old(self).node,
    {
        self.shape.append(&idx_call.shape);
        self.index_calls.push(idx_call);
    }

    /// The receiver, its index calls, then the comment after it; a receiver without
    /// index calls or comment that `node_flat` describes and that fits is written flat.
    pub fn format(&self, o: &mut Output, ctx: &FormatContext, Ghost(c): Ghost<int>)
        requires
            ready(*old(o), *ctx, c),
            self.ok_in(c, ctx.heredoc_map@),
        ensures
            advanced(*old(o), *final(o), *ctx, c),
            self.index_calls@.len() == 0 && self.node.trailing_trivia.spec_comment() is None
                && node_flat_ok(*self.node) && total_len(node_flat(*self.node)) <= budget(*old(o))
                ==> wrote_pieces(*old(o), *final(o), node_flat(*self.node)),
            self.index_calls@.len() == 0 && node_flat_ok(*self.node) && total_len(node_flat(*self.node))
                <= budget(*old(o)) ==> {
                &&& final(o).buffer@ == old(o).buffer@ + old(o).indent_prefix() + joined(node_flat(*self.node))
                    + trailing_text(*self.node)
                &&& final(o).indent == old(o).indent
                &&& final(o).config == old(o).config
                &&& final(o).heredoc_queue@ == old(o).heredoc_queue@
            },
        decreases heredoc_measure(c), 2int, self, 1int,
    {
        let ghost o0 = *o;
        self.node.format(o, ctx, Ghost(c));
        let ghost after_node = *o;
        proof {
            if self.index_calls@.len() == 0 && node_flat_ok(*self.node) && total_len(node_flat(*self.node))
                <= budget(o0) {
                lemma_node_flat_nonempty(*self.node);
                lemma_wrote_fitting(o0, after_node, node_flat(*self.node));
            }
        }
        let n = self.index_calls.len();
        let mut i: usize = 0;
        while i < n
            invariant
                n == self.index_calls@.len(),
                ready(*o, *ctx, c),
                advanced(*old(o), *o, *ctx, c),
                self.ok_in(c, ctx.heredoc_map@),
                n == 0 ==> *o == after_node,
            decreases n - i,
        {
            self.index_calls[i].format(o, ctx, Ghost(c));
            i = i + 1;
        }
        self.node.trailing_trivia.format(o);
        proof {
            if self.index_calls@.len() == 0 && node_flat_ok(*self.node) && total_len(node_flat(*self.node))
                <= budget(o0) {
                if self.node.trailing_trivia.spec_comment() is Some {
                    assert(o.buffer@ =~= o0.buffer@ + o0.indent_prefix() + joined(node_flat(*self.node))
                        + trailing_text(*self.node));
                } else {
                    assert(o.buffer@ =~= o0.buffer@ + o0.indent_prefix() + joined(node_flat(*self.node))
                        + trailing_text(*self.node));
                }
            }
        }
    }
}

impl CallUnit {
    pub open spec fn ok_in(&self, c: int, m: Map<usize, Heredoc>) -> bool
        decreases self,
    {
        &&& match self.arguments {
            Some(a) => a.ok_in(c, m),
            None => true,
        }
        &&& match self.block {
            Some(b) => b.ok_in(c, m),
            None => true,
        }
        &&& forall|i: int| 0 <= i < self.index_calls@.len() ==> (#[trigger] self.index_calls@[i]).ok_in(c, m)
    }

    pub fn from_message(call: MessageCall) -> (u: CallUnit)
        ensures
            u.shape == call.shape,
            u.leading_trivia == call.leading_trivia,
            u.trailing_trivia.spec_comment() is None,
            u.operator == call.operator,
            u.name == call.name,
            u.arguments == call.arguments,
            u.block == call.block,
            u.index_calls@.len() == 0,
    {
        CallUnit {
            shape: call.shape,
            leading_trivia: call.leading_trivia,
            trailing_trivia: TrailingTrivia::none(),
            operator: call.operator,
            name: call.name,
            arguments: call.arguments,
            block: call.block,
            index_calls: Vec::new(),
        }
    }

    pub fn append_index_call(&mut self, idx_call: IndexCall)
        requires
            old(self).shape.concat_fits(idx_call.shape),
        ensures
            final(self).shape == old(self).shape.concat(idx_call.shape),
            final(self).index_calls@ == old(self).index_calls@.push(idx_call),
            final(self).name == old(self).name,
            final(self).leading_trivia == old(self).leading_trivia,
            final(self).trailing_trivia == old(self).trailing_trivia,
            final(self).operator == old(self).operator,
            final(self).arguments == old(self).arguments,
            final(self).block == old(self).block,
    {
        self.shape.append(&idx_call.shape);
        self.index_calls.push(idx_call);
    }

    /// The least that the call needs on its first line; `None` when comments stand
    /// before it.
    pub open spec fn spec_min_first_line_len(&self) -> Option<int> {
        if self.leading_trivia.spec_lines().len() == 0 {
            Some(
                spec_opt_len(self.operator) + self.name@.len() + match self.arguments {
                    Some(args) => spec_opt_len(args.opening) as int,
                    None => match self.block {
                        Some(block) => block.opening@.len() + if block.parameters is Some {
                            2int
                        } else {
                            0int
                        },
                        None => if self.index_calls@.len() > 0 {
                            spec_opt_len(self.index_calls@[0].arguments.opening) as int
                        } else {
                            0int
                        },
                    },
                },
            )
        } else {
            None
        }
    }

    pub fn min_first_line_len(&self) -> (r: Option<usize>)
        requires
            spec_opt_len(self.operator) + self.name@.len() + match self.arguments {
                Some(args) => spec_opt_len(args.opening),
                None => match self.block {
                    Some(block) => block.opening@.len() + 2,
                    None => if self.index_calls@.len() > 0 {
                        spec_opt_len(self.index_calls@[0].arguments.opening)
                    } else {
                        0
                    },
                },
            } <= usize::MAX,
        ensures
            match self.spec_min_first_line_len() {
                Some(n) => r == Some(n as usize),
                None => r is None,
            },
    {
        if self.leading_trivia.is_empty() {
            let mut len = crate::fmt::text::opt_len(&self.operator);
            len = len + self.name.len();
            if let Some(args) = &self.arguments {
                len = len + crate::fmt::text::opt_len(&args.opening);
            } else if let Some(block) = &self.block {
                len = len + block.min_first_line_len();
            } else if self.index_calls.len() > 0 {
                len = len + self.index_calls[0].min_first_line_len();
            }
            Some(len)
        } else {
            None
        }
    }

    /// `.name`, the arguments, the block, the index calls, then the comment after it;
    /// a call that `call_pieces` describes and that fits is written flat.
    pub fn format(&self, o: &mut Output, ctx: &FormatContext, Ghost(c): Ghost<int>)
        requires
            ready(*old(o), *ctx, c),
            self.ok_in(c, ctx.heredoc_map@),
        ensures
            advanced(*old(o), *final(o), *ctx, c),
            call_flat_ok(*self) && total_len(call_pieces(*self)) <= budget(*old(o)) ==> wrote_pieces(
                *old(o),
                *final(o),
                call_pieces(*self),
            ),
        decreases heredoc_measure(c), 2int, self, 1int,
    {
        let ghost o0 = *o;
        let ghost flat = call_flat_ok(*self) && total_len(call_pieces(*self)) <= budget(o0);
        let ghost head = opt_piece(self.operator) + seq![self.name@];
        let ghost tail = opt_arguments_pieces(self.arguments);
        proof {
            lemma_wrote_nothing(o0);
        }
        if let Some(op) = &self.operator {
            o.push_str(op.as_slice());
        }
        let ghost o1 = *o;
        o.push_str(self.name.as_slice());
        let ghost o2 = *o;
        proof {
            lemma_wrote_pieces_concat(o0, o1, o2, opt_piece(self.operator), seq![self.name@]);
            if flat {
                lemma_total_len_concat(head, tail);
                lemma_wrote_fitting(o0, o2, head);
            }
        }
        if let Some(args) = &self.arguments {
            args.format(o, ctx, Ghost(c));
        }
        proof {
            if flat {
                if self.arguments is None {
                    lemma_wrote_nothing(o2);
                }
                lemma_wrote_pieces_concat(o0, o2, *o, head, tail);
                assert(head + tail =~= call_pieces(*self));
            }
        }
        if let Some(block) = &self.block {
            block.format(o, ctx, Ghost(c));
        }
        let ghost after_block = *o;
        let n = self.index_calls.len();
        let mut i: usize = 0;
        while i < n
            invariant
                n == self.index_calls@.len(),
                ready(*o, *ctx, c),
                advanced(*old(o), *o, *ctx, c),
                self.ok_in(c, ctx.heredoc_map@),
                n == 0 ==> *o == after_block,
            decreases n - i,
        {
            self.index_calls[i].format(o, ctx, Ghost(c));
            i = i + 1;
        }
        self.trailing_trivia.format(o);
    }
}

impl MessageCall {
    pub fn new(
        leading_trivia: LeadingTrivia,
        operator: Option<Vec<u8>>,
        name: Vec<u8>,
        arguments: Option<Arguments>,
        block: Option<Block>,
    ) -> (m: MessageCall)
        requires
            name@.len() + spec_opt_len(operator) + match arguments {
                Some(a) => a.shape.size(),
                None => 0,
            } + match block {
                Some(b) => b.shape.size(),
                None => 0,
            } <= usize::MAX,
        ensures
            m.shape == ({
                let base = leading_trivia.spec_shape().concat(
                    Shape::Inline { len: (name@.len() + spec_opt_len(operator)) as usize },
                );
                let with_args = match arguments {
                    Some(a) => base.concat(a.shape),
                    None => base,
                };
                match block {
                    Some(b) => with_args.concat(b.shape),
                    None => with_args,
                }
            }),
            m.leading_trivia == leading_trivia,
            m.operator == operator,
            m.name == name,
            m.arguments == arguments,
            m.block == block,
    {
        let operator_len = crate::fmt::text::opt_len(&operator);
        let msg_shape = Shape::inline(name.len() + operator_len);
        let mut shape = leading_trivia.shape().add(&msg_shape);
        if let Some(args) = &arguments {
            shape.append(&args.shape);
        }
        if let Some(b) = &block {
            shape.append(&b.shape);
        }
        MessageCall { shape, leading_trivia, operator, name, arguments, block }
    }
}

impl IndexCall {
    pub open spec fn ok_in(&self, c: int, m: Map<usize, Heredoc>) -> bool
        decreases self,
    {
        &&& self.arguments.ok_in(c, m)
        &&& match self.block {
            Some(b) => b.ok_in(c, m),
            None => true,
        }
    }

    pub fn new(arguments: Arguments, block: Option<Block>) -> (i: IndexCall)
        requires
            arguments.shape.size() + match block {
                Some(b) => b.shape.size(),
                None => 0,
            } <= usize::MAX,
        ensures
            i.shape == match block {
                Some(b) => arguments.shape.concat(b.shape),
                None => arguments.shape,
            },
            i.arguments == arguments,
            i.block == block,
    {
        let mut shape = arguments.shape;
        if let Some(b) = &block {
            shape.append(&b.shape);
        }
        IndexCall { shape, arguments, block }
    }

    pub fn min_first_line_len(&self) -> (n: usize)
        ensures
            n == spec_opt_len(self.arguments.opening),
    {
        crate::fmt::text::opt_len(&self.arguments.opening)
    }

    /// The index call on one line: its arguments in their brackets, then its block.
    pub open spec fn line_pieces(&self) -> Seq<Seq<u8>> {
        arguments_pieces(self.arguments) + match self.block {
            Some(b) => b.line_pieces(),
            None => Seq::empty(),
        }
    }

    /// Arguments that `arguments_flat_ok` describes and a block, if any, that can stand
    /// on the line after them (see `Block::one_line_ok`), with `room` bytes left on it.
    pub open spec fn one_line_ok(&self, room: int) -> bool {
        &&& arguments_flat_ok(self.arguments)
        &&& total_len(arguments_pieces(self.arguments)) <= room
        &&& self.block matches Some(b) ==> b.one_line_ok(room - total_len(arguments_pieces(self.arguments)))
    }

    /// Writes the arguments, then the block; an index call that `one_line_ok`
    /// describes is written as `line_pieces`.
    pub fn format(&self, o: &mut Output, ctx: &FormatContext, Ghost(c): Ghost<int>)
        requires
            ready(*old(o), *ctx, c),
            self.ok_in(c, ctx.heredoc_map@),
        ensures
            advanced(*old(o), *final(o), *ctx, c),
            self.one_line_ok(budget(*old(o))) ==> wrote_pieces(*old(o), *final(o), self.line_pieces()),
        decreases heredoc_measure(c), 2int, self, 1int,
    {
        let ghost o0 = *o;
        let ghost flat = self.one_line_ok(budget(o0));
        let ghost ap = arguments_pieces(self.arguments);
        self.arguments.format(o, ctx, Ghost(c));
        let ghost o1 = *o;
        proof {
            if flat {
                lemma_wrote_budget(o0, o1, ap);
            }
        }
        if let Some(block) = &self.block {
            block.format(o, ctx, Ghost(c));
            proof {
                if flat {
                    lemma_wrote_pieces_concat(o0, o1, *o, ap, block.line_pieces());
                }
            }
        } else {
            proof {
                if flat {
                    assert(ap + Seq::<Seq<u8>>::empty() =~= ap);
                }
            }
        }
    }
}

} // verus!
