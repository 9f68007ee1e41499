use vstd::prelude::*;

use crate::fmt::node::{
    Arguments, Assign, Atom, InfixChain, InfixPrecedence, Kind, MessageCall, MethodChain, Node, Statements, VirtualEnd,
};
use crate::fmt::shape::Shape;
use crate::fmt::trivia::{Comment, LeadingTrivia, LineTrivia, TrailingTrivia};
use crate::parse::{check_syntax, error_line, lossy_utf8, prism_syntax_errors, ParseError, ParseState};

verus! {

/// What the conversion needs to know of a node of prism's tree.
#[derive(Debug)]
pub enum PrismKind {
    /// The whole program; its one child is its statements.
    Program,
    /// A sequence of statements: its children.
    Statements,
    /// A node written as its source text: a literal, a read of a variable or a
    /// constant, a keyword such as `self` or `nil`, a plain parameter.
    Atom,
    /// A call of method `message` on the first child, after the call operator (`.`
    /// or `&.`), with the other children as its arguments, in the brackets where
    /// there are any: each as the start and end offsets of its text.
    Call {
        operator: Option<(usize, usize)>,
        message: (usize, usize),
        opening: Option<(usize, usize)>,
        closing: Option<(usize, usize)>,
    },
    /// A binary operator between its two children.
    Infix { operator: (usize, usize) },
    /// An assignment to the variable or constant named at `name`, with `operator`
    /// (`=`, `+=`, `||=`, ...), of its one child.
    Assign { name: (usize, usize), operator: (usize, usize) },
    /// An array literal of its children, in its brackets where there are any.
    Array { opening: Option<(usize, usize)>, closing: Option<(usize, usize)> },
    /// Any other node, kept as it is written in the source.
    Other,
}

/// A span of offsets within a source of `len` bytes.
pub open spec fn span_within(p: (usize, usize), len: nat) -> bool {
    p.0 <= p.1 <= len
}

/// An optional span of offsets within a source of `len` bytes.
pub open spec fn opt_span_within(p: Option<(usize, usize)>, len: nat) -> bool {
    match p {
        Some(q) => span_within(q, len),
        None => true,
    }
}

/// The spans that a kind holds lie within a source of `len` bytes.
pub open spec fn kind_within(k: PrismKind, len: nat) -> bool {
    match k {
        PrismKind::Call { operator, message, opening, closing } => opt_span_within(operator, len) && span_within(
            message,
            len,
        ) && opt_span_within(opening, len) && opt_span_within(closing, len),
        PrismKind::Infix { operator } => span_within(operator, len),
        PrismKind::Array { opening, closing } => opt_span_within(opening, len) && opt_span_within(closing, len),
        PrismKind::Assign { name, operator } => span_within(name, len) && span_within(operator, len),
        _ => true,
    }
}

fn is_span_within(p: (usize, usize), len: usize) -> (b: bool)
    ensures
        b == span_within(p, len as nat),
{
    p.0 <= p.1 && p.1 <= len
}

fn is_opt_span_within(p: Option<(usize, usize)>, len: usize) -> (b: bool)
    ensures
        b == opt_span_within(p, len as nat),
{
    match p {
        Some(q) => is_span_within(q, len),
        None => true,
    }
}

/// A bound on the room that the converted node can take on a line, for a source of
/// `l` bytes: room for the texts of its own spans, and for those of its children.
pub open spec fn weight(node: PrismNode, l: nat) -> nat
    decreases node, 1nat, 0int,
{
    4 * l + 8 + children_weight(node, l, node.children@.len() as int)
}

/// The weights of the first `i` children of `node`.
pub open spec fn children_weight(node: PrismNode, l: nat, i: int) -> nat
    decreases node, 0nat, i,
{
    if i <= 0 || i > node.children@.len() {
        0
    } else {
        children_weight(node, l, i - 1) + weight(node.children@[i - 1], l)
    }
}

/// More children weigh no less, and each child weighs no more than they all do.
proof fn lemma_children_weight_grows(node: PrismNode, l: nat, j: int, i: int)
    requires
        0 <= j < i <= node.children@.len(),
    ensures
        children_weight(node, l, j) + weight(node.children@[j], l) <= children_weight(node, l, i),
    decreases i - j,
{
    if j + 1 < i {
        lemma_children_weight_grows(node, l, j, i - 1);
    }
}

/// A node of prism's tree as plain values: its kind, its byte offsets in the source and
/// its children.
#[derive(Debug)]
pub struct PrismNode {
    pub kind: PrismKind,
    pub start: usize,
    pub end: usize,
    pub children: Vec<PrismNode>,
}

impl PrismNode {
    /// The node and all the nodes below it lie within a source of `len` bytes.
    pub open spec fn within(&self, len: nat) -> bool
        decreases self,
    {
        &&& self.start <= self.end <= len
        &&& kind_within(self.kind, len)
        &&& forall|i: int| 0 <= i < self.children@.len() ==> (#[trigger] self.children@[i]).within(len)
    }

    /// The weight of the node for a source of `l` bytes, where it fits in a `usize`.
    pub fn weight_of(&self, l: usize) -> (r: Option<usize>)
        ensures
            r matches Some(w) ==> w == weight(*self, l as nat),
            r is None ==> weight(*self, l as nat) > usize::MAX,
        decreases self,
    {
        let base = match l.checked_mul(4) {
            Some(b) => match b.checked_add(8) {
                Some(b) => b,
                None => return None,
            },
            None => return None,
        };
        let n = self.children.len();
        let mut total: usize = base;
        let mut i: usize = 0;
        while i < n
            invariant
                n == self.children@.len(),
                0 <= i <= n,
                total == 4 * l + 8 + children_weight(*self, l as nat, i as int),
            decreases n - i,
        {
            match self.children[i].weight_of(l) {
                Some(w) => match total.checked_add(w) {
                    Some(t) => total = t,
                    None => {
                        proof {
                            lemma_children_weight_grows(*self, l as nat, i as int, n as int);
                        }
                        return None;
                    },
                },
                None => {
                    proof {
                        lemma_children_weight_grows(*self, l as nat, i as int, n as int);
                    }
                    return None;
                },
            }
            i = i + 1;
        }
        Some(total)
    }

    /// Whether the node and all the nodes below it lie within a source of `len` bytes.
    pub fn is_within(&self, len: usize) -> (b: bool)
        ensures
            b == self.within(len as nat),
        decreases self,
    {
        if !(self.start <= self.end && self.end <= len) {
            return false;
        }
        let kind_ok = match self.kind {
            PrismKind::Call { operator, message, opening, closing } => is_opt_span_within(operator, len)
                && is_span_within(message, len) && is_opt_span_within(opening, len) && is_opt_span_within(
                closing,
                len,
            ),
            PrismKind::Infix { operator } => is_span_within(operator, len),
            PrismKind::Array { opening, closing } => is_opt_span_within(opening, len) && is_opt_span_within(
                closing,
                len,
            ),
            PrismKind::Assign { name, operator } => is_span_within(name, len) && is_span_within(operator, len),
            _ => true,
        };
        if !kind_ok {
            return false;
        }
        let n = self.children.len();
        let mut i: usize = 0;
        while i < n
            invariant
                n == self.children@.len(),
                0 <= i <= n,
                forall|j: int| 0 <= j < i ==> (#[trigger] self.children@[j]).within(len as nat),
            decreases n - i,
        {
            if !self.children[i].is_within(len) {
                return false;
            }
            i = i + 1;
        }
        true
    }
}

/// Each comment lies within a source of `len` bytes.
pub open spec fn comments_within(comments: Seq<(usize, usize)>, len: nat) -> bool {
    forall|j: int| 0 <= j < comments.len() ==> (#[trigger] comments[j]).0 <= comments[j].1 <= len
}

/// Whether each comment lies within a source of `len` bytes.
pub fn are_comments_within(comments: &Vec<(usize, usize)>, len: usize) -> (b: bool)
    ensures
        b == comments_within(comments@, len as nat),
{
    let n = comments.len();
    let mut i: usize = 0;
    while i < n
        invariant
            n == comments@.len(),
            0 <= i <= n,
            forall|j: int| 0 <= j < i ==> (#[trigger] comments@[j]).0 <= comments@[j].1 <= len,
        decreases n - i,
    {
        let (s, e) = comments[i];
        if !(s <= e && e <= len) {
            return false;
        }
        i = i + 1;
    }
    true
}

/// Neither concatenation nor insertion makes a shape longer than its two parts.
proof fn lemma_shape_sizes(a: Shape, b: Shape)
    requires
        a.size() + b.size() <= usize::MAX,
    ensures
        a.concat(b).size() <= a.size() + b.size(),
        a.inserted(b).size() <= a.size() + b.size(),
{
}

/// A state that can go on converting: its comments and where it stands lie within the
/// source.
pub open spec fn state_ok(s: ParseState) -> bool {
    &&& comments_within(s.comments@, s.src@.len())
    &&& s.next_comment <= s.comments@.len()
    &&& s.last_loc_end <= s.src@.len()
}

/// A conversion step leaves the source, the heredocs and the comments as they were,
/// and takes comments only forwards.
pub open spec fn kept(s0: ParseState, s1: ParseState) -> bool {
    &&& s1.src == s0.src
    &&& s1.heredoc_map@ == s0.heredoc_map@
    &&& s1.comments == s0.comments
    &&& s0.next_comment <= s1.next_comment
    &&& state_ok(s1)
}

/// The bytes of `src` from `start` up to `end`.
pub fn source_text(src: &Vec<u8>, start: usize, end: usize) -> (t: Vec<u8>)
    requires
        start <= end <= src@.len(),
    ensures
        t@ == src@.subrange(start as int, end as int),
{
    let mut t: Vec<u8> = Vec::new();
    let mut i = start;
    while i < end
        invariant
            start <= i <= end <= src@.len(),
            t@ == src@.subrange(start as int, i as int),
        decreases end - i,
    {
        t.push(src[i]);
        i = i + 1;
        assert(t@ =~= src@.subrange(start as int, i as int));
    }
    t
}

/// Two line breaks stand in `src` from `start` up to `end`: an empty line lies between.
pub open spec fn blank_line_between(src: Seq<u8>, start: int, end: int) -> bool {
    exists|i: int, j: int| start <= i < j < end && #[trigger] src[i] == 10u8 && #[trigger] src[j] == 10u8
}

/// Whether an empty line lies in `src` from `start` up to `end`.
pub fn has_blank_line(src: &Vec<u8>, start: usize, end: usize) -> (b: bool)
    requires
        start <= end <= src@.len(),
    ensures
        b == blank_line_between(src@, start as int, end as int),
{
    let mut first: Option<usize> = None;
    let mut i = start;
    while i < end
        invariant
            start <= i <= end <= src@.len(),
            match first {
                Some(f) => start <= f < i && src@[f as int] == 10u8,
                None => forall|k: int| start <= k < i ==> src@[k] != 10u8,
            },
            !blank_line_between(src@, start as int, i as int),
        decreases end - i,
    {
        if src[i] == 10u8 {
            if let Some(f) = first {
                assert(src@[f as int] == 10u8 && src@[i as int] == 10u8);
                return true;
            }
            first = Some(i);
        }
        proof {
            if blank_line_between(src@, start as int, i + 1) {
                let (a, b) = choose|a: int, b: int|
                    start <= a < b < i + 1 && #[trigger] src@[a] == 10u8 && #[trigger] src@[b] == 10u8;
                assert(b == i);
            }
        }
        i = i + 1;
    }
    false
}

/// The text of a comment: a block comment starts with `=begin`.
pub fn comment_of(text: Vec<u8>) -> (c: Comment)
    ensures
        (c matches Comment::Block(t) && t@ == text@) || (c matches Comment::Oneline(t) && t@ == text@),
        (c is Block) == (text@.len() >= 6 && text@.subrange(0, 6) == seq![61u8, 98u8, 101u8, 103u8, 105u8, 110u8]),
{
    let block = text.len() >= 6 && text[0] == 61u8 && text[1] == 98u8 && text[2] == 101u8 && text[3] == 103u8
        && text[4] == 105u8 && text[5] == 110u8;
    proof {
        if text@.len() >= 6 {
            if block {
                assert(text@.subrange(0, 6) =~= seq![61u8, 98u8, 101u8, 103u8, 105u8, 110u8]);
            } else if text@.subrange(0, 6) == seq![61u8, 98u8, 101u8, 103u8, 105u8, 110u8] {
                assert(text@[0] == text@.subrange(0, 6)[0]);
                assert(text@[1] == text@.subrange(0, 6)[1]);
                assert(text@[2] == text@.subrange(0, 6)[2]);
                assert(text@[3] == text@.subrange(0, 6)[3]);
                assert(text@[4] == text@.subrange(0, 6)[4]);
                assert(text@[5] == text@.subrange(0, 6)[5]);
            }
        }
    }
    if block {
        Comment::Block(text)
    } else {
        Comment::Oneline(text)
    }
}

impl ParseState {
    /// Takes the comments that start before `start`, each as a line in front of the
    /// node, with an empty line where one stands before a comment or before `start`.
    pub fn take_leading_trivia(&mut self, start: usize) -> (t: LeadingTrivia)
        requires
            state_ok(*old(self)),
            start <= old(self).src@.len(),
        ensures
            kept(*old(self), *final(self)),
            forall|j: int|
                old(self).next_comment <= j < final(self).next_comment ==> (#[trigger] final(self).comments@[j]).0
                    < start,
            final(self).next_comment < final(self).comments@.len() ==> final(self).comments@[final(self).next_comment as int].0
                >= start,
            t.spec_lines().len() >= final(self).next_comment - old(self).next_comment,
    {
        let mut t = LeadingTrivia::new();
        let mut pos = self.last_loc_end;
        let n = self.comments.len();
        while self.next_comment < n && self.comments[self.next_comment].0 < start
            invariant
                n == self.comments@.len(),
                self.src == old(self).src,
                self.heredoc_map@ == old(self).heredoc_map@,
                self.comments == old(self).comments,
                state_ok(*self),
                pos <= self.src@.len(),
                start <= self.src@.len(),
                old(self).next_comment <= self.next_comment,
                forall|j: int|
                    old(self).next_comment <= j < self.next_comment ==> (#[trigger] self.comments@[j]).0 < start,
                t.spec_lines().len() >= self.next_comment - old(self).next_comment,
            decreases n - self.next_comment,
        {
            let (cs, ce) = self.comments[self.next_comment];
            assert(self.comments@[self.next_comment as int].0 <= self.comments@[self.next_comment as int].1
                <= self.src@.len());
            if pos <= cs && has_blank_line(&self.src, pos, cs) {
                t.append_line(LineTrivia::EmptyLine);
            }
            let text = source_text(&self.src, cs, ce);
            t.append_line(LineTrivia::Comment(comment_of(text)));
            pos = ce;
            self.next_comment = self.next_comment + 1;
            self.last_loc_end = ce;
        }
        if pos <= start && has_blank_line(&self.src, pos, start) {
            t.append_line(LineTrivia::EmptyLine);
        }
        t
    }

    /// Passes over the comments that start before `end`.
    pub fn skip_comments_before(&mut self, end: usize)
        requires
            state_ok(*old(self)),
        ensures
            kept(*old(self), *final(self)),
            final(self).last_loc_end == old(self).last_loc_end,
            final(self).next_comment < final(self).comments@.len() ==> final(self).comments@[final(self).next_comment as int].0
                >= end,
    {
        let n = self.comments.len();
        while self.next_comment < n && self.comments[self.next_comment].0 < end
            invariant
                n == self.comments@.len(),
                self.src == old(self).src,
                self.heredoc_map@ == old(self).heredoc_map@,
                self.comments == old(self).comments,
                self.last_loc_end == old(self).last_loc_end,
                state_ok(*self),
                old(self).next_comment <= self.next_comment,
            decreases n - self.next_comment,
        {
            self.next_comment = self.next_comment + 1;
        }
    }

    /// Takes the next comment where it stands on the line where the last node ended,
    /// before `limit`.
    pub fn take_trailing_comment(&mut self, limit: usize) -> (t: TrailingTrivia)
        requires
            state_ok(*old(self)),
        ensures
            kept(*old(self), *final(self)),
            final(self).next_comment <= old(self).next_comment + 1,
            t.spec_comment() is Some <==> final(self).next_comment == old(self).next_comment + 1,
            t.spec_comment() matches Some(c) ==> {
                let k = old(self).next_comment as int;
                &&& old(self).comments@[k].0 < limit
                &&& old(self).last_loc_end <= old(self).comments@[k].0
                &&& !crate::parse::line_break_between(
                    old(self).src@,
                    old(self).last_loc_end as int,
                    old(self).comments@[k].0 as int,
                )
                &&& c@ == old(self).src@.subrange(old(self).comments@[k].0 as int, old(self).comments@[k].1 as int)
            },
    {
        if self.next_comment < self.comments.len() {
            let (cs, ce) = self.comments[self.next_comment];
            assert(self.comments@[self.next_comment as int].0 <= self.comments@[self.next_comment as int].1
                <= self.src@.len());
            if cs < limit && self.last_loc_end <= cs && !self.does_line_break_exist_in(self.last_loc_end, cs) {
                let text = source_text(&self.src, cs, ce);
                self.next_comment = self.next_comment + 1;
                self.last_loc_end = ce;
                return TrailingTrivia::new(Some(text));
            }
        }
        TrailingTrivia::none()
    }
}

/// Converts `node` with the comments around it: the comments before it (not for the
/// program or its statements) go in front of it, and a comment on the line where it
/// ends, before `trailing_end`, after it.
pub fn parse(state: &mut ParseState, node: &PrismNode, trailing_end: Option<usize>) -> (n: Node)
    requires
        state_ok(*old(state)),
        node.within(old(state).src@.len()),
        weight(*node, old(state).src@.len()) <= usize::MAX,
    ensures
        kept(*old(state), *final(state)),
        n.shape.size() + 8 <= weight(*node, old(state).src@.len()),
        n.ok_in(0, final(state).heredoc_map@),
        node.kind is Program || node.kind is Statements ==> n.kind is Statements,
        node.kind is Call && node.children@.len() > 0 ==> n.kind is MethodChain,
        node.kind matches PrismKind::Infix { operator } && node.children@.len() == 2
            && crate::fmt::node::infix_chain::spec_precedence_of(
            old(state).src@.subrange(operator.0 as int, operator.1 as int),
        ) is Some ==> n.kind is InfixChain,
        node.kind is Atom || node.kind is Other ==> (n.kind matches Kind::Atom(a) && a.0@
            == old(state).src@.subrange(node.start as int, node.end as int)),
    decreases node, 2int,
{
    let leading = match node.kind {
        PrismKind::Program | PrismKind::Statements => LeadingTrivia::new(),
        _ => state.take_leading_trivia(node.start),
    };
    let mut n = parse_node(state, node, trailing_end);
    n.prepend_leading_trivia(leading);
    // Comments that stand inside a node kept as written are part of its text.
    state.skip_comments_before(node.end);
    state.last_loc_end = node.end;
    if let Some(end) = trailing_end {
        let trailing = state.take_trailing_comment(end);
        n.set_trailing_trivia(trailing);
    }
    n
}

/// Converts `node` itself: the program and statements into statements, a node written
/// as its source text into an atom of that text, and any other node into an atom of
/// its text as written.
#[verifier::spinoff_prover]
pub fn parse_node(state: &mut ParseState, node: &PrismNode, trailing_end: Option<usize>) -> (n: Node)
    requires
        state_ok(*old(state)),
        node.within(old(state).src@.len()),
        weight(*node, old(state).src@.len()) <= usize::MAX,
    ensures
        kept(*old(state), *final(state)),
        n.shape.size() + 8 <= weight(*node, old(state).src@.len()),
        n.ok_in(0, final(state).heredoc_map@),
        node.kind is Program || node.kind is Statements ==> n.kind is Statements,
        node.kind is Call && node.children@.len() > 0 ==> n.kind is MethodChain,
        node.kind matches PrismKind::Infix { operator } && node.children@.len() == 2
            && crate::fmt::node::infix_chain::spec_precedence_of(
            old(state).src@.subrange(operator.0 as int, operator.1 as int),
        ) is Some ==> n.kind is InfixChain,
        node.kind is Atom || node.kind is Other ==> (n.kind matches Kind::Atom(a) && a.0@
            == old(state).src@.subrange(node.start as int, node.end as int)),
        n.leading_trivia.spec_lines().len() == 0,
        n.trailing_trivia.spec_comment() is None,
    decreases node, 1int,
{
    match node.kind {
        PrismKind::Program => {
            if node.children.len() > 0 {
                proof {
                    lemma_children_weight_grows(*node, old(state).src@.len(), 0, node.children@.len() as int);
                }
                assert(node.children@[0].within(old(state).src@.len()));
                parse_statements(state, &node.children[0], trailing_end)
            } else {
                Node::new(Kind::Statements(Statements::new()))
            }
        },
        PrismKind::Statements => parse_statements(state, node, trailing_end),
        PrismKind::Call { operator, message, opening, closing } => {
            if node.children.len() == 0 {
                verbatim(state, node)
            } else {
                parse_call(state, node, operator, message, opening, closing)
            }
        },
        PrismKind::Infix { operator } => {
            if node.children.len() != 2 {
                return verbatim(state, node);
            }
            let op = source_text(&state.src, operator.0, operator.1);
            match InfixPrecedence::precedence_of(op.as_slice()) {
                None => verbatim(state, node),
                Some(precedence) => {
                    let ghost l = old(state).src@.len();
                    proof {
                        lemma_children_weight_grows(*node, l, 0, 2);
                        lemma_children_weight_grows(*node, l, 1, 2);
                    }
                    assert(node.children@[0].within(l));
                    let left = parse(state, &node.children[0], None);
                    assert(node.children@[1].within(l));
                    let right = parse(state, &node.children[1], None);
                    let mut chain = InfixChain::new(left, precedence);
                    chain.append_right(op, right);
                    proof {
                        assert(chain.rights@.len() == 1);
                        assert(chain.rights@[0] == chain.rights@.last());
                        assert(chain.rights@[0].ok_in(0, state.heredoc_map@));
                        assert(chain.ok_in(0, state.heredoc_map@));
                        lemma_shape_sizes(Shape::Inline { len: (operator.1 - operator.0 + 2) as usize }, right.shape);
                        lemma_shape_sizes(
                            left.shape,
                            crate::fmt::node::InfixRight::spec_shape_of(
                                state.src@.subrange(operator.0 as int, operator.1 as int),
                                right.shape,
                            ),
                        );
                    }
                    Node::new(Kind::InfixChain(chain))
                },
            }
        },
        PrismKind::Assign { name, operator } => {
            if node.children.len() != 1 {
                return verbatim(state, node);
            }
            let ghost l = old(state).src@.len();
            let target = Node::new(Kind::Atom(Atom(source_text(&state.src, name.0, name.1))));
            let op = source_text(&state.src, operator.0, operator.1);
            proof {
                lemma_children_weight_grows(*node, l, 0, 1);
            }
            assert(node.children@[0].within(l));
            let value = parse(state, &node.children[0], None);
            proof {
                lemma_shape_sizes(target.shape, value.shape);
                lemma_shape_sizes(target.shape.concat(value.shape), Shape::Inline { len: (op@.len() + 2) as usize });
            }
            let assign = Assign::new(target, op, value);
            assert(assign.ok_in(0, state.heredoc_map@));
            Node::new(Kind::Assign(assign))
        },
        PrismKind::Array { opening, closing } => {
            let bracketed = match opening {
                Some(o) => o.0 < o.1,
                None => node.children.len() > 0,
            };
            if bracketed {
                parse_array(state, node, opening, closing)
            } else {
                verbatim(state, node)
            }
        },
        _ => verbatim(state, node),
    }
}

/// An array literal: its elements, each with the comment after it, in its brackets.
#[verifier::spinoff_prover]
#[verifier::rlimit(60)]
fn parse_array(
    state: &mut ParseState,
    node: &PrismNode,
    opening: Option<(usize, usize)>,
    closing: Option<(usize, usize)>,
) -> (n: Node)
    requires
        state_ok(*old(state)),
        node.within(old(state).src@.len()),
        node.kind == (PrismKind::Array { opening, closing }),
        match opening {
            Some(o) => o.0 < o.1,
            None => node.children@.len() > 0,
        },
        weight(*node, old(state).src@.len()) <= usize::MAX,
    ensures
        kept(*old(state), *final(state)),
        n.shape.size() + 8 <= weight(*node, old(state).src@.len()),
        n.ok_in(0, final(state).heredoc_map@),
        n.kind is Array,
        n.leading_trivia.spec_lines().len() == 0,
        n.trailing_trivia.spec_comment() is None,
    decreases node, 0int,
{
    let ghost l = old(state).src@.len();
    let nc = node.children.len();
    let open_text = opt_text(&state.src, opening);
    let close_text = opt_text(&state.src, closing);
    let mut array = crate::fmt::node::Array::new(open_text, close_text);
    let ghost brackets = crate::fmt::text::spec_opt_len(open_text) + crate::fmt::text::spec_opt_len(close_text);
    let mut i: usize = 0;
    while i < nc
        invariant
            nc == node.children@.len(),
            0 <= i <= nc,
            node.within(l),
            weight(*node, l) <= usize::MAX,
            l == old(state).src@.len(),
            kept(*old(state), *state),
            brackets <= 2 * l,
            array.shape.size() <= brackets + children_weight(*node, l, i as int),
            array.opening == open_text,
            array.opening matches Some(op) ==> op@.len() > 0,
            array.elements@.len() == i,
            forall|j: int| 0 <= j < array.elements@.len() ==> (#[trigger] array.elements@[j]).ok_in(0, state.heredoc_map@),
            node.kind == (PrismKind::Array { opening, closing }),
        decreases nc - i,
    {
        let end = if i + 1 < nc {
            Some(node.children[i + 1].start)
        } else {
            match closing {
                Some(c) => Some(c.0),
                None => None,
            }
        };
        proof {
            lemma_children_weight_grows(*node, l, i as int, nc as int);
        }
        assert(node.children@[i as int].within(l));
        let child = parse(state, &node.children[i], end);
        proof {
            lemma_shape_sizes(array.shape, Shape::Inline { len: (array.spec_separator().len() + 1) as usize });
            lemma_shape_sizes(
                array.shape.inserted(Shape::Inline { len: (array.spec_separator().len() + 1) as usize }),
                child.shape,
            );
            lemma_shape_sizes(array.shape, child.shape);
        }
        array.append_element(child);
        i = i + 1;
    }
    proof {
        assert(array.ok_in(0, state.heredoc_map@));
    }
    Node::new(Kind::Array(array))
}

/// An atom of the node's text as it is written.
fn verbatim(state: &ParseState, node: &PrismNode) -> (n: Node)
    requires
        node.within(state.src@.len()),
    ensures
        n.kind matches Kind::Atom(a) && a.0@ == state.src@.subrange(node.start as int, node.end as int),
        n.shape.size() + 8 <= weight(*node, state.src@.len()),
        n.ok_in(0, state.heredoc_map@),
        n.leading_trivia.spec_lines().len() == 0,
        n.trailing_trivia.spec_comment() is None,
{
    let text = source_text(&state.src, node.start, node.end);
    Node::new(Kind::Atom(Atom(text)))
}

/// The text of an optional span.
fn opt_text(src: &Vec<u8>, p: Option<(usize, usize)>) -> (t: Option<Vec<u8>>)
    requires
        opt_span_within(p, src@.len()),
    ensures
        match p {
            Some(q) => t matches Some(v) && v@ == src@.subrange(q.0 as int, q.1 as int),
            None => t is None,
        },
{
    match p {
        Some(q) => Some(source_text(src, q.0, q.1)),
        None => None,
    }
}

/// A call on a receiver: the receiver, then the call operator and the method's name,
/// and the arguments in their brackets where there are any.
#[verifier::spinoff_prover]
#[verifier::rlimit(60)]
fn parse_call(
    state: &mut ParseState,
    node: &PrismNode,
    operator: Option<(usize, usize)>,
    message: (usize, usize),
    opening: Option<(usize, usize)>,
    closing: Option<(usize, usize)>,
) -> (n: Node)
    requires
        state_ok(*old(state)),
        node.within(old(state).src@.len()),
        node.kind == (PrismKind::Call { operator, message, opening, closing }),
        node.children@.len() > 0,
        weight(*node, old(state).src@.len()) <= usize::MAX,
    ensures
        kept(*old(state), *final(state)),
        n.shape.size() + 8 <= weight(*node, old(state).src@.len()),
        n.ok_in(0, final(state).heredoc_map@),
        n.kind is MethodChain,
        n.leading_trivia.spec_lines().len() == 0,
        n.trailing_trivia.spec_comment() is None,
    decreases node, 0int,
{
    let ghost l = old(state).src@.len();
    let nc = node.children.len();
    proof {
        lemma_children_weight_grows(*node, l, 0, nc as int);
    }
    assert(node.children@[0].within(l));
    let receiver = parse(state, &node.children[0], None);
    let op_text = opt_text(&state.src, operator);
    let name = source_text(&state.src, message.0, message.1);
    let arguments = if nc > 1 || opening.is_some() {
        let open_text = opt_text(&state.src, opening);
        let close_text = opt_text(&state.src, closing);
        let mut args = Arguments::new(open_text, close_text);
        let ghost brackets = crate::fmt::text::spec_opt_len(open_text) + crate::fmt::text::spec_opt_len(close_text);
        let mut i: usize = 1;
        while i < nc
            invariant
                nc == node.children@.len(),
                1 <= i <= nc,
                node.within(l),
                weight(*node, l) <= usize::MAX,
                l == old(state).src@.len(),
                kept(*old(state), *state),
                brackets <= 2 * l,
                args.shape.size() + children_weight(*node, l, 1) <= brackets + children_weight(*node, l, i as int),
                receiver.shape.size() + 8 <= children_weight(*node, l, 1),
                forall|j: int| 0 <= j < args.nodes@.len() ==> (#[trigger] args.nodes@[j]).ok_in(0, state.heredoc_map@),
                node.kind == (PrismKind::Call { operator, message, opening, closing }),
            decreases nc - i,
        {
            let end = if i + 1 < nc {
                Some(node.children[i + 1].start)
            } else {
                match closing {
                    Some(c) => Some(c.0),
                    None => None,
                }
            };
            proof {
                lemma_children_weight_grows(*node, l, i as int, nc as int);
            }
            assert(node.children@[i as int].within(l));
            let child = parse(state, &node.children[i], end);
            proof {
                lemma_shape_sizes(args.shape, child.shape);
                lemma_shape_sizes(args.shape.inserted(child.shape), Shape::Inline { len: 2 });
            }
            args.append_node(child);
            i = i + 1;
        }
        Some(args)
    } else {
        None
    };
    proof {
        lemma_children_weight_grows(*node, l, 0, nc as int);
    }
    let msg = MessageCall::new(LeadingTrivia::new(), op_text, name, arguments, None);
    let mut chain = MethodChain::with_receiver(receiver);
    proof {
        lemma_shape_sizes(receiver.shape, Shape::Inline { len: 0 });
        lemma_shape_sizes(receiver.shape.concat(Shape::Inline { len: 0 }), msg.shape);
    }
    chain.append_message_call(TrailingTrivia::none(), msg);
    proof {
        assert(chain.calls@.len() == 1);
        assert(chain.calls@[0] == chain.calls@.last());
        assert(chain.calls@[0].ok_in(0, state.heredoc_map@));
        assert(chain.head.ok_in(0, state.heredoc_map@));
        assert(chain.ok_in(0, state.heredoc_map@));
    }
    Node::new(Kind::MethodChain(chain))
}

/// Converts statements one by one, each with the comments up to the next one, and
/// keeps the comments after the last one, up to `trailing_end`, before their end.
pub fn parse_statements(state: &mut ParseState, node: &PrismNode, trailing_end: Option<usize>) -> (n: Node)
    requires
        state_ok(*old(state)),
        node.within(old(state).src@.len()),
        weight(*node, old(state).src@.len()) <= usize::MAX,
    ensures
        kept(*old(state), *final(state)),
        n.shape.size() + 8 <= weight(*node, old(state).src@.len()),
        n.ok_in(0, final(state).heredoc_map@),
        n.kind matches Kind::Statements(s) && s.nodes@.len() == node.children@.len(),
        n.leading_trivia.spec_lines().len() == 0,
        n.trailing_trivia.spec_comment() is None,
    decreases node, 0int,
{
    let mut s = Statements::new();
    let n = node.children.len();
    let mut i: usize = 0;
    while i < n
        invariant
            n == node.children@.len(),
            0 <= i <= n,
            node.within(old(state).src@.len()),
            kept(*old(state), *state),
            s.nodes@.len() == i,
            forall|j: int| 0 <= j < i ==> (#[trigger] s.nodes@[j]).ok_in(0, state.heredoc_map@),
            weight(*node, old(state).src@.len()) <= usize::MAX,
            s.shape.size() + 8 <= weight(*node, old(state).src@.len()),
        decreases n - i,
    {
        let end = if i + 1 < n {
            Some(node.children[i + 1].start)
        } else {
            trailing_end
        };
        proof {
            lemma_children_weight_grows(*node, old(state).src@.len(), i as int, n as int);
        }
        assert(node.children@[i as int].within(old(state).src@.len()));
        let child = parse(state, &node.children[i], end);
        s.append_node(child);
        i = i + 1;
    }
    let limit = match trailing_end {
        Some(e) => if e <= state.src.len() {
            e
        } else {
            state.src.len()
        },
        None => node.end,
    };
    let rest = state.take_leading_trivia(limit);
    if !rest.shape().is_empty() {
        s.set_virtual_end(Some(VirtualEnd::new(rest)));
    }
    Node::new(Kind::Statements(s))
}

/// A byte of layout: a space, a tab, a line break, a carriage return, a `;` that
/// separates statements or a `,` that may end a list.
pub open spec fn is_layout(b: u8) -> bool {
    b == 32u8 || b == 9u8 || b == 10u8 || b == 13u8 || b == 59u8 || b == 44u8
}

/// The bytes of `s` that are not layout, in order.
pub open spec fn significant(s: Seq<u8>) -> Seq<u8>
    decreases s.len(),
{
    if s.len() == 0 {
        Seq::empty()
    } else {
        significant(s.drop_last()) + if is_layout(s.last()) {
            Seq::empty()
        } else {
            seq![s.last()]
        }
    }
}

/// The bytes of `s` that are not layout.
pub fn significant_bytes(s: &Vec<u8>) -> (r: Vec<u8>)
    ensures
        r@ == significant(s@),
{
    let mut r: Vec<u8> = Vec::new();
    let mut i: usize = 0;
    while i < s.len()
        invariant
            0 <= i <= s@.len(),
            r@ == significant(s@.subrange(0, i as int)),
        decreases s@.len() - i,
    {
        let b = s[i];
        assert(s@.subrange(0, i + 1).drop_last() =~= s@.subrange(0, i as int));
        if !(b == 32u8 || b == 9u8 || b == 10u8 || b == 13u8 || b == 59u8 || b == 44u8) {
            r.push(b);
        }
        i = i + 1;
        assert(r@ =~= significant(s@.subrange(0, i as int)));
    }
    assert(s@.subrange(0, s@.len() as int) =~= s@);
    r
}

/// Whether two texts hold the same bytes apart from layout.
pub fn same_code(a: &Vec<u8>, b: &Vec<u8>) -> (same: bool)
    ensures
        same == (significant(a@) == significant(b@)),
{
    let x = significant_bytes(a);
    let y = significant_bytes(b);
    if x.len() != y.len() {
        return false;
    }
    let mut i: usize = 0;
    while i < x.len()
        invariant
            x@ == significant(a@),
            y@ == significant(b@),
            x@.len() == y@.len(),
            0 <= i <= x@.len(),
            forall|j: int| 0 <= j < i ==> x@[j] == y@[j],
        decreases x@.len() - i,
    {
        if x[i] != y[i] {
            assert(x@[i as int] != y@[i as int]);
            return false;
        }
        i = i + 1;
    }
    assert(x@ =~= y@);
    true
}

/// Formats a source that prism parses into `tree`, with the comments `comments`:
/// refused with the parser's messages where it has syntax errors, else the layout of
/// the converted tree in lines of `line_width` bytes where it keeps every byte of the
/// code apart from layout, and the source as it is where it would not.
pub fn format_source(source: Vec<u8>, tree: &PrismNode, comments: Vec<(usize, usize)>, line_width: usize) -> (r:
    Result<Vec<u8>, ParseError>)
    requires
        tree.within(source@.len()),
        comments_within(comments@, source@.len()),
    ensures
        r is Err <==> prism_syntax_errors(source@).len() > 0,
        r matches Err(e) ==> e.messages@.len() == prism_syntax_errors(source@).len() && forall|i: int|
            0 <= i < e.messages@.len() ==> (#[trigger] e.messages@[i])@ == error_line(
                prism_syntax_errors(source@)[i].0,
                prism_syntax_errors(source@)[i].1,
                lossy_utf8(prism_syntax_errors(source@)[i].2),
            ),
        r matches Ok(code) ==> significant(code@) == significant(source@),
        r matches Ok(code) ==> code@ != source@ ==> code@.len() > 0 ==> code@.last() == 10u8,
{
    match check_syntax(source.as_slice()) {
        Err(e) => Err(e),
        Ok(()) => {
            let len = source.len();
            let source_copy = source.clone();
            if tree.weight_of(len).is_none() {
                // A tree too large to lay out within the room of a `usize` is left as it is.
                return Ok(source_copy);
            }
            proof {
                assert(source_copy@ == source@);
            }
            let mut state = ParseState::with_comments(source, comments);
            let node = parse(&mut state, tree, Some(len));
            let ParseState { heredoc_map, .. } = state;
            proof {
                assert(crate::fmt::output::FormatContext { heredoc_map }.wf());
            }
            let code = crate::fmt::format(node, heredoc_map, line_width);
            // What the layout would not keep of the code (a heredoc body or data after
            // `__END__`, which no node holds) leaves the source as it is.
            if same_code(&code, &source_copy) {
                Ok(code)
            } else {
                Ok(source_copy)
            }
        },
    }
}

} // verus!
