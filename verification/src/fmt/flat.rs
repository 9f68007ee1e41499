use vstd::prelude::*;

use super::node::string_like::{delimited_pieces, opt_piece};
use super::node::{
    Arguments, CallUnit, DynStrPart, DynStringLike, InfixRight, Kind, MethodChainHead, Node, Statements,
};
use super::output::{push_one, pushes, spaces, wrote_pieces, Output};
use super::shape::{ArgumentStyle, Shape};
use super::text::{ALIAS, COLON2, SPACE_PIPE_SPACE};
use super::trivia::LeadingTrivia;

verus! {

/// The number of bytes in `pieces`.
pub open spec fn total_len(pieces: Seq<Seq<u8>>) -> nat
    decreases pieces.len(),
{
    if pieces.len() == 0 {
        0
    } else {
        pieces[0].len() + total_len(pieces.drop_first())
    }
}

/// `pieces` one after the other.
pub open spec fn joined(pieces: Seq<Seq<u8>>) -> Seq<u8>
    decreases pieces.len(),
{
    if pieces.len() == 0 {
        Seq::empty()
    } else {
        pieces[0] + joined(pieces.drop_first())
    }
}

/// The text of a node written on one line, piece by piece, for the nodes made of
/// atoms, constant paths, strings (with interpolated parts too), prefix operators, parentheses, assignments,
/// conditional expressions (`a ? b : c`), hashes and their pairs, keywords with
/// arguments (`return x`), operator chains, bracketed arrays, method calls on a receiver
/// with arguments, targets of a multiple assignment, array patterns, ranges, modifiers written after a
/// statement (`x if y`), `alias`,
/// pattern matches (`x => y`) and alternatives (`a | b`), and single statements.
pub open spec fn node_flat(n: Node) -> Seq<Seq<u8>>
    decreases n, 0int,
{
    kind_flat(n.kind)
}

pub open spec fn kind_flat(k: Kind) -> Seq<Seq<u8>>
    decreases k, 0int,
{
    match k {
        Kind::Atom(a) => seq![a.0@],
        Kind::StringLike(s) => delimited_pieces(s.opening, s.value@, s.closing),
        Kind::Prefix(p) => seq![p.operator@] + match p.expression {
            Some(e) => if p.need_separation {
                seq![seq![32u8]] + node_flat(*e)
            } else {
                node_flat(*e)
            },
            None => Seq::empty(),
        },
        Kind::Parens(p) => if p.body.nodes@.len() == 1 {
            seq![seq![40u8]] + node_flat(p.body.nodes@[0]) + seq![seq![41u8]]
        } else {
            Seq::empty()
        },
        Kind::CallLike(k) => seq![k.name@] + match k.arguments {
            Some(a) => seq![opening_piece(a.opening)] + arguments_flat(a.nodes@, a.nodes@.len() as int)
                + opt_piece(a.closing),
            None => Seq::empty(),
        },
        Kind::Hash(h) => seq![h.opening@] + (if h.elements@.len() > 0 {
            seq![seq![32u8]] + arguments_flat(h.elements@, h.elements@.len() as int) + seq![seq![32u8]]
        } else {
            Seq::empty()
        }) + seq![h.closing@],
        Kind::Assoc(a) => match a.value {
            Some(v) => node_flat(*a.key) + (match a.operator {
                Some(op) => seq![seq![32u8], op@],
                None => Seq::empty(),
            }) + seq![seq![32u8]] + node_flat(*v),
            None => Seq::empty(),
        },
        Kind::Ternary(t) => node_flat(*t.predicate) + seq![seq![32u8, 63u8], seq![32u8]] + node_flat(
            *t.then_branch,
        ) + seq![seq![32u8, 58u8, 32u8]] + node_flat(*t.otherwise),
        Kind::Assign(a) => node_flat(*a.target) + seq![seq![32u8], a.operator@, seq![32u8]] + node_flat(
            *a.value,
        ),
        Kind::InfixChain(ch) => node_flat(*ch.left) + rights_flat(ch.rights@, ch.rights@.len() as int),
        Kind::Array(a) => match a.opening {
            Some(opening) => match a.closing {
                Some(closing) => seq![opening@] + elements_flat(
                    a.elements@,
                    a.elements@.len() as int,
                    a.spec_separator(),
                ) + seq![closing@],
                None => Seq::empty(),
            },
            None => Seq::empty(),
        },
        Kind::Statements(s) => if s.nodes@.len() == 1 {
            node_flat(s.nodes@[0])
        } else {
            Seq::empty()
        },
        Kind::MethodChain(ch) => match ch.head {
            MethodChainHead::Receiver(r) => node_flat(*r.node) + calls_flat(
                ch.calls@,
                ch.calls@.len() as int,
            ),
            MethodChainHead::FirstCall(_) => Seq::empty(),
        },
        Kind::MultiAssignTarget(t) => opt_piece(t.lparen) + arguments_flat(t.targets@, t.targets@.len() as int) + (
        if t.with_implicit_rest {
            seq![seq![44u8]]
        } else {
            Seq::empty()
        }) + opt_piece(t.rparen),
        Kind::DynStringLike(d) => dyn_flat(d),
        Kind::ArrayPattern(a) => (match a.constant {
            Some(k) => node_flat(*k),
            None => Seq::empty(),
        }) + opt_piece(a.opening) + elided_flat(a.elements@, a.elements@.len() as int, false) + opt_piece(a.closing),
        Kind::Alias(a) => seq![ALIAS@] + node_flat(*a.new_name) + seq![seq![32u8]] + node_flat(*a.old_name),
        Kind::MatchAssign(a) => node_flat(*a.expression) + seq![seq![32u8], a.operator@, seq![32u8]] + node_flat(
            *a.pattern,
        ),
        Kind::AltPatternChain(ch) => node_flat(*ch.left) + alternatives_flat(ch.rights@, ch.rights@.len() as int),
        Kind::ConstantPath(p) => (match p.root {
            Some(r) => node_flat(*r),
            None => Seq::empty(),
        }) + seq![COLON2@] + path_parts_flat(p.parts@, p.parts@.len() as int, p.parts@.len() as int),
        Kind::RangeLike(r) => (match r.left {
            Some(l) => node_flat(*l),
            None => Seq::empty(),
        }) + seq![r.operator@] + match r.right {
            Some(x) => (if x.kind matches Kind::RangeLike(y) && y.left is None {
                seq![seq![32u8]]
            } else {
                Seq::empty()
            }) + node_flat(*x),
            None => Seq::empty(),
        },
        Kind::Postmodifier(p) => (if p.conditional.body.nodes@.len() == 1 {
            node_flat(p.conditional.body.nodes@[0])
        } else {
            Seq::empty()
        }) + seq![
            seq![32u8],
            p.keyword@,
            seq![32u8],
        ] + node_flat(*p.conditional.predicate),
        _ => Seq::empty(),
    }
}

/// The first `i` of the `n` parts of a constant path, each followed by `::` but the
/// last.
pub open spec fn path_parts_flat(ps: Seq<(LeadingTrivia, Vec<u8>)>, i: int, n: int) -> Seq<Seq<u8>>
    decreases i,
{
    if i <= 0 {
        Seq::empty()
    } else {
        path_parts_flat(ps, i - 1, n) + seq![ps[i - 1].1@] + if i < n {
            seq![COLON2@]
        } else {
            Seq::empty()
        }
    }
}

pub proof fn lemma_path_parts_flat_prefix(ps: Seq<(LeadingTrivia, Vec<u8>)>, j: int, k: int, n: int)
    requires
        0 <= j <= k,
    ensures
        total_len(path_parts_flat(ps, j, n)) <= total_len(path_parts_flat(ps, k, n)),
    decreases k - j,
{
    if j < k {
        lemma_path_parts_flat_prefix(ps, j, k - 1, n);
        let tail = seq![ps[k - 1].1@] + if k < n {
            seq![COLON2@]
        } else {
            Seq::<Seq<u8>>::empty()
        };
        assert(path_parts_flat(ps, k, n) =~= path_parts_flat(ps, k - 1, n) + tail);
        lemma_total_len_concat(path_parts_flat(ps, k - 1, n), tail);
    }
}

/// A string with interpolated parts written on one line: its opening, each part, and
/// its closing.
pub open spec fn dyn_flat(d: DynStringLike) -> Seq<Seq<u8>>
    decreases d, 0int,
{
    opt_piece(d.opening) + dyn_parts_flat(d.parts@, d.parts@.len() as int) + opt_piece(d.closing)
}

/// The first `i` parts of a string with interpolated parts.
pub open spec fn dyn_parts_flat(ps: Seq<DynStrPart>, i: int) -> Seq<Seq<u8>>
    decreases ps, i,
{
    if i <= 0 || i > ps.len() {
        Seq::empty()
    } else {
        dyn_parts_flat(ps, i - 1) + part_flat(ps[i - 1])
    }
}

/// A part of a string: text, a nested string, `#{statement}` or `#@variable`.
pub open spec fn part_flat(p: DynStrPart) -> Seq<Seq<u8>>
    decreases p, 0int,
{
    match p {
        DynStrPart::Str(s) => delimited_pieces(s.opening, s.value@, s.closing),
        DynStrPart::DynStr(d) => dyn_flat(d),
        DynStrPart::Statements(e) => seq![e.opening@] + (if e.statements.nodes@.len() == 1 {
            node_flat(e.statements.nodes@[0])
        } else {
            Seq::empty()
        }) + seq![e.closing@],
        DynStrPart::Variable(v) => seq![v.operator@, v.variable@],
    }
}

/// Each embedded statement of the string is a single one that `node_flat` describes.
pub open spec fn dyn_flat_ok(d: DynStringLike) -> bool
    decreases d, 0int,
{
    forall|i: int| 0 <= i < d.parts@.len() ==> part_flat_ok(#[trigger] d.parts@[i])
}

pub open spec fn part_flat_ok(p: DynStrPart) -> bool
    decreases p, 0int,
{
    match p {
        DynStrPart::DynStr(d) => dyn_flat_ok(d),
        DynStrPart::Statements(e) => {
            &&& e.statements.nodes@.len() == 1
            &&& e.statements.shape is Inline
            &&& node_flat_ok(e.statements.nodes@[0])
        },
        _ => true,
    }
}

pub proof fn lemma_dyn_parts_flat_prefix(ps: Seq<DynStrPart>, j: int, k: int)
    requires
        0 <= j <= k <= ps.len(),
    ensures
        total_len(dyn_parts_flat(ps, j)) <= total_len(dyn_parts_flat(ps, k)),
    decreases k - j,
{
    if j < k {
        lemma_dyn_parts_flat_prefix(ps, j, k - 1);
        lemma_total_len_concat(dyn_parts_flat(ps, k - 1), part_flat(ps[k - 1]));
    }
}

/// Writing pieces that fit in the budget takes their length from it, whether or not
/// there are any.
pub proof fn lemma_wrote_budget(o0: Output, o1: Output, pieces: Seq<Seq<u8>>)
    requires
        o0.wf(),
        wrote_pieces(o0, o1, pieces),
        total_len(pieces) <= budget(o0),
    ensures
        budget(o1) == budget(o0) - total_len(pieces),
        o1.buffer@.len() >= o0.buffer@.len(),
{
    if pieces.len() > 0 {
        lemma_wrote_fitting(o0, o1, pieces);
    } else {
        assert(total_len(pieces) == 0);
    }
}

/// The first `i` calls of a chain: each its operator, its name, and its arguments in
/// their parentheses.
pub open spec fn calls_flat(cs: Seq<CallUnit>, i: int) -> Seq<Seq<u8>>
    decreases cs, i,
{
    if i <= 0 || i > cs.len() {
        Seq::empty()
    } else {
        calls_flat(cs, i - 1) + opt_piece(cs[i - 1].operator) + seq![cs[i - 1].name@] + match cs[i
            - 1].arguments {
            Some(a) => seq![opening_piece(a.opening)] + arguments_flat(a.nodes@, a.nodes@.len() as int)
                + opt_piece(a.closing),
            None => Seq::empty(),
        }
    }
}

/// What starts a call's arguments: the opening parenthesis, or a space.
pub open spec fn opening_piece(opening: Option<Vec<u8>>) -> Seq<u8> {
    match opening {
        Some(o) => o@,
        None => seq![32u8],
    }
}

/// The first `i` arguments of a call, separated by `, `.
pub open spec fn arguments_flat(ns: Seq<Node>, i: int) -> Seq<Seq<u8>>
    decreases ns, i,
{
    if i <= 0 || i > ns.len() {
        Seq::empty()
    } else if i == 1 {
        node_flat(ns[0])
    } else {
        arguments_flat(ns, i - 1) + seq![seq![44u8, 32u8]] + node_flat(ns[i - 1])
    }
}

/// An element that a list leaves implicit: a parameter with an empty shape (`by_shape`),
/// or an atom without text.
pub open spec fn elided(n: Node, by_shape: bool) -> bool {
    if by_shape {
        n.shape.spec_is_empty()
    } else {
        n.kind matches Kind::Atom(a) && a.0@.len() == 0
    }
}

/// The first `i` elements of a list, separated by `, `, where an element left implicit
/// is written as a lone `,`: `|a,|`, `[b,]`.
pub open spec fn elided_flat(ns: Seq<Node>, i: int, by_shape: bool) -> Seq<Seq<u8>>
    decreases ns, i,
{
    if i <= 0 || i > ns.len() {
        Seq::empty()
    } else if elided(ns[i - 1], by_shape) {
        elided_flat(ns, i - 1, by_shape) + seq![seq![44u8]]
    } else if i == 1 {
        node_flat(ns[0])
    } else {
        elided_flat(ns, i - 1, by_shape) + seq![seq![44u8, 32u8]] + node_flat(ns[i - 1])
    }
}

/// The operators of a chain and their operands, each operator with a space on each
/// side, for the first `i` of them.
pub open spec fn rights_flat(rs: Seq<InfixRight>, i: int) -> Seq<Seq<u8>>
    decreases rs, i,
{
    if i <= 0 || i > rs.len() {
        Seq::empty()
    } else {
        rights_flat(rs, i - 1) + seq![seq![32u8], rs[i - 1].operator@, seq![32u8]] + node_flat(
            rs[i - 1].value,
        )
    }
}

/// The first `i` alternatives of a pattern, each after ` | `.
pub open spec fn alternatives_flat(rs: Seq<Node>, i: int) -> Seq<Seq<u8>>
    decreases rs, i,
{
    if i <= 0 || i > rs.len() {
        Seq::empty()
    } else {
        alternatives_flat(rs, i - 1) + seq![SPACE_PIPE_SPACE@] + node_flat(rs[i - 1])
    }
}

pub proof fn lemma_alternatives_flat_prefix(rs: Seq<Node>, j: int, k: int)
    requires
        0 <= j <= k <= rs.len(),
    ensures
        total_len(alternatives_flat(rs, j)) <= total_len(alternatives_flat(rs, k)),
    decreases k - j,
{
    if j < k {
        lemma_alternatives_flat_prefix(rs, j, k - 1);
        lemma_total_len_concat(alternatives_flat(rs, k - 1), seq![SPACE_PIPE_SPACE@]);
        lemma_total_len_concat(alternatives_flat(rs, k - 1) + seq![SPACE_PIPE_SPACE@], node_flat(rs[k - 1]));
    }
}

/// The first `i` elements of an array, separated by `sep` and a space.
pub open spec fn elements_flat(es: Seq<Node>, i: int, sep: Seq<u8>) -> Seq<Seq<u8>>
    decreases es, i,
{
    if i <= 0 || i > es.len() {
        Seq::empty()
    } else if i == 1 {
        node_flat(es[0])
    } else {
        elements_flat(es, i - 1, sep) + seq![sep, seq![32u8]] + node_flat(es[i - 1])
    }
}

/// The node is made of the kinds that `node_flat` describes, has no comment or empty
/// line in front of any of its parts, and the shapes that it records are the lengths
/// of their flat text.
pub open spec fn node_flat_ok(n: Node) -> bool
    decreases n, 0int,
{
    &&& n.leading_trivia.spec_lines().len() == 0
    &&& n.shape matches Shape::Inline { len } && len == total_len(node_flat(n))
    &&& kind_flat_ok(n.kind)
}

pub open spec fn kind_flat_ok(k: Kind) -> bool
    decreases k, 0int,
{
    match k {
        Kind::Atom(_) => true,
        Kind::StringLike(s) => s.shape matches Shape::Inline { len } && len == total_len(kind_flat(k)),
        Kind::Assign(a) => node_flat_ok(*a.target) && node_flat_ok(*a.value),
        Kind::CallLike(k) => match k.arguments {
            Some(a) => arguments_flat_ok(a),
            None => true,
        },
        Kind::Hash(h) => {
            &&& forall|i: int| 0 <= i < h.elements@.len() ==> node_flat_ok(#[trigger] h.elements@[i])
            &&& h.shape matches Shape::Inline { len } && len == total_len(kind_flat(k))
        },
        Kind::Assoc(a) => {
            &&& node_flat_ok(*a.key)
            &&& a.value matches Some(v) && node_flat_ok(*v) && total_len(node_flat(*v)) > 0
        },
        Kind::Ternary(t) => {
            &&& t.predicate_trailing.spec_comment() is None
            &&& node_flat_ok(*t.predicate)
            &&& node_flat_ok(*t.then_branch)
            &&& t.then_branch.trailing_trivia.spec_comment() is None
            &&& node_flat_ok(*t.otherwise)
            &&& t.otherwise.trailing_trivia.spec_comment() is None
        },
        Kind::Prefix(p) => match p.expression {
            Some(e) => node_flat_ok(*e),
            None => true,
        },
        Kind::Parens(p) => {
            &&& p.body.nodes@.len() == 1
            &&& node_flat_ok(p.body.nodes@[0])
            &&& p.body.shape matches Shape::Inline { len } && len > 0 && len == total_len(
                node_flat(p.body.nodes@[0]),
            )
        },
        Kind::InfixChain(ch) => {
            &&& node_flat_ok(*ch.left)
            &&& forall|i: int|
                0 <= i < ch.rights@.len() ==> node_flat_ok(#[trigger] ch.rights@[i].value)
            &&& ch.rights_shape matches Shape::Inline { len } && len == total_len(
                rights_flat(ch.rights@, ch.rights@.len() as int),
            )
        },
        Kind::Array(a) => {
            &&& a.opening matches Some(o) && o@.len() > 0
            &&& a.closing is Some
            &&& forall|i: int| 0 <= i < a.elements@.len() ==> node_flat_ok(#[trigger] a.elements@[i])
            &&& a.shape matches Shape::Inline { len } && len == total_len(kind_flat(k))
        },
        Kind::Statements(s) => {
            &&& s.nodes@.len() == 1
            &&& s.shape is Inline
            &&& node_flat_ok(s.nodes@[0])
        },
        Kind::MethodChain(ch) => {
            &&& ch.head matches MethodChainHead::Receiver(r) && {
                &&& r.index_calls@.len() == 0
                &&& r.node.trailing_trivia.spec_comment() is None
                &&& node_flat_ok(*r.node)
            }
            &&& ch.calls_shape matches Shape::Inline { len } && len == total_len(
                calls_flat(ch.calls@, ch.calls@.len() as int),
            )
            &&& forall|i: int| 0 <= i < ch.calls@.len() ==> call_flat_ok(#[trigger] ch.calls@[i])
        },
        Kind::MultiAssignTarget(t) => {
            &&& t.targets@.len() > 0
            &&& forall|i: int| 0 <= i < t.targets@.len() ==> node_flat_ok(#[trigger] t.targets@[i])
            &&& t.shape matches Shape::Inline { len } && len <= total_len(kind_flat(k))
        },
        Kind::DynStringLike(d) => d.opening is Some && dyn_flat_ok(d),
        Kind::ArrayPattern(a) => {
            &&& a.constant matches Some(k) ==> node_flat_ok(*k)
            &&& a.elements@.len() > 0
            &&& forall|i: int| 0 <= i < a.elements@.len() ==> node_flat_ok(#[trigger] a.elements@[i])
            &&& a.array_shape matches Shape::Inline { len } && len <= total_len(
                opt_piece(a.opening) + elided_flat(a.elements@, a.elements@.len() as int, false) + opt_piece(a.closing),
            )
        },
        Kind::Alias(a) => node_flat_ok(*a.new_name) && node_flat_ok(*a.old_name),
        Kind::MatchAssign(a) => node_flat_ok(*a.expression) && node_flat_ok(*a.pattern),
        Kind::AltPatternChain(ch) => {
            &&& node_flat_ok(*ch.left)
            &&& forall|i: int| 0 <= i < ch.rights@.len() ==> node_flat_ok(#[trigger] ch.rights@[i])
            &&& ch.rights_shape matches Shape::Inline { len } && len <= total_len(
                alternatives_flat(ch.rights@, ch.rights@.len() as int),
            )
        },
        Kind::ConstantPath(p) => {
            &&& p.root matches Some(r) ==> node_flat_ok(*r)
            &&& forall|i: int| 0 <= i < p.parts@.len() ==> (#[trigger] p.parts@[i]).0.spec_lines().len() == 0
        },
        Kind::RangeLike(r) => {
            &&& r.left matches Some(l) ==> node_flat_ok(*l)
            &&& r.right matches Some(x) ==> node_flat_ok(*x)
        },
        Kind::Postmodifier(p) => {
            &&& p.conditional.body.nodes@.len() == 1
            &&& p.conditional.body.shape is Inline
            &&& node_flat_ok(p.conditional.body.nodes@[0])
            &&& node_flat_ok(*p.conditional.predicate)
            &&& p.conditional.predicate.trailing_trivia.spec_comment() is None
        },
        _ => false,
    }
}

/// A call without block, index or comment, whose arguments, if any, are nodes that
/// `node_flat` describes, none asking for more room on its first line than its flat
/// text.
pub open spec fn call_flat_ok(u: CallUnit) -> bool
    decreases u, 0int,
{
    &&& u.block is None
    &&& u.index_calls@.len() == 0
    &&& u.trailing_trivia.spec_comment() is None
    &&& u.arguments matches Some(a) ==> arguments_flat_ok(a)
}

pub open spec fn arguments_flat_ok(a: Arguments) -> bool
    decreases a, 0int,
{
    &&& a.virtual_end is None
    &&& forall|i: int|
        0 <= i < a.nodes@.len() ==> node_flat_ok(#[trigger] a.nodes@[i]) && style_within(a.nodes@[i])
}

/// The room that a node asks for on its first line, where it can start on the current
/// line, is no more than its flat text. Of the kinds that `node_flat` describes only a
/// pair without operator (`a: 1`) asks for more: one more byte.
pub open spec fn style_within(n: Node) -> bool {
    n.spec_concat_style() matches ArgumentStyle::Horizontal { min_first_line_len } ==> min_first_line_len
        <= total_len(node_flat(n))
}

/// The room left on the line once the indentation that a push would write first is
/// counted.
pub open spec fn budget(o: Output) -> int {
    o.remaining_width - o.indent_prefix().len()
}

pub proof fn lemma_total_len_concat(p: Seq<Seq<u8>>, q: Seq<Seq<u8>>)
    ensures
        total_len(p + q) == total_len(p) + total_len(q),
        joined(p + q) == joined(p) + joined(q),
    decreases p.len(),
{
    if p.len() == 0 {
        assert(p + q =~= q);
        assert(joined(p) + joined(q) =~= joined(q));
    } else {
        assert((p + q).drop_first() =~= p.drop_first() + q);
        lemma_total_len_concat(p.drop_first(), q);
        assert(joined(p + q) =~= p[0] + joined(p.drop_first() + q));
        assert(joined(p) + joined(q) =~= p[0] + (joined(p.drop_first()) + joined(q)));
    }
}

proof fn lemma_pushes_fitting(state: (Seq<u8>, int), lw: int, indent: nat, pieces: Seq<Seq<u8>>)
    requires
        0 <= state.1 <= lw,
        pieces.len() > 0,
        (if state.1 == lw {
            indent as int
        } else {
            0
        }) + total_len(pieces) <= state.1,
    ensures
        pushes(state, lw, indent, pieces) == ({
            let prefix = if state.1 == lw {
                spaces(indent)
            } else {
                Seq::<u8>::empty()
            };
            (state.0 + prefix + joined(pieces), state.1 - prefix.len() - total_len(pieces))
        }),
    decreases pieces.len(),
{
    let prefix = if state.1 == lw {
        spaces(indent)
    } else {
        Seq::<u8>::empty()
    };
    let rest = pieces.drop_first();
    let s1 = push_one(state, lw, indent, pieces[0]);
    assert(s1.1 == state.1 - prefix.len() - pieces[0].len());
    assert(pushes(state, lw, indent, pieces) == pushes(s1, lw, indent, rest));
    assert(total_len(pieces) == pieces[0].len() + total_len(rest));
    assert(joined(pieces) == pieces[0] + joined(rest));
    if rest.len() == 0 {
        assert(total_len(rest) == 0);
        assert(pushes(s1, lw, indent, rest) == s1);
        assert(joined(rest) =~= Seq::<u8>::empty());
        assert(s1.0 =~= state.0 + prefix + joined(pieces));
    } else {
        if s1.1 == lw {
            assert(indent == 0);
            assert(spaces(indent) =~= Seq::<u8>::empty());
        }
        lemma_pushes_fitting(s1, lw, indent, rest);
        let prefix1 = if s1.1 == lw {
            spaces(indent)
        } else {
            Seq::<u8>::empty()
        };
        assert(prefix1 =~= Seq::<u8>::empty());
        assert(s1.0 + prefix1 + joined(rest) =~= state.0 + prefix + joined(pieces));
    }
}

/// Writing pieces that fit in the budget leaves the indentation (if due) and the
/// pieces after the text, takes their length from the budget, and ends away from
/// the start of a line or with nothing left to indent.
pub proof fn lemma_wrote_fitting(o0: Output, o1: Output, pieces: Seq<Seq<u8>>)
    requires
        o0.wf(),
        pieces.len() > 0,
        wrote_pieces(o0, o1, pieces),
        total_len(pieces) <= budget(o0),
    ensures
        o1.buffer@ == o0.buffer@ + o0.indent_prefix() + joined(pieces),
        budget(o1) == budget(o0) - total_len(pieces),
        o1.indent_prefix().len() == 0,
{
    lemma_pushes_fitting(o0.text_state(), o0.config.line_width as int, o0.indent as nat, pieces);
    if o1.at_line_start() {
        assert(o0.at_line_start() && o0.indent == 0);
        assert(spaces(o1.indent as nat) =~= Seq::<u8>::empty());
    }
}

/// `lemma_wrote_fitting` for every output, pair of outputs and pieces.
pub proof fn lemma_wrote_fitting_all()
    ensures
        forall|o0: Output, o1: Output, pieces: Seq<Seq<u8>>|
            o0.wf() && pieces.len() > 0 && #[trigger] wrote_pieces(o0, o1, pieces) && total_len(pieces)
                <= budget(o0) ==> {
                &&& o1.buffer@ == o0.buffer@ + o0.indent_prefix() + joined(pieces)
                &&& budget(o1) == budget(o0) - total_len(pieces)
                &&& o1.indent_prefix().len() == 0
            },
{
    assert forall|o0: Output, o1: Output, pieces: Seq<Seq<u8>>|
        o0.wf() && pieces.len() > 0 && #[trigger] wrote_pieces(o0, o1, pieces) && total_len(pieces)
            <= budget(o0) implies {
        &&& o1.buffer@ == o0.buffer@ + o0.indent_prefix() + joined(pieces)
        &&& budget(o1) == budget(o0) - total_len(pieces)
        &&& o1.indent_prefix().len() == 0
    } by {
        lemma_wrote_fitting(o0, o1, pieces);
    }
}

pub proof fn lemma_rights_flat_prefix(rs: Seq<InfixRight>, j: int, k: int)
    requires
        0 <= j <= k <= rs.len(),
    ensures
        total_len(rights_flat(rs, j)) <= total_len(rights_flat(rs, k)),
    decreases k - j,
{
    if j < k {
        lemma_rights_flat_prefix(rs, j, k - 1);
        lemma_total_len_concat(
            rights_flat(rs, k - 1),
            seq![seq![32u8], rs[k - 1].operator@, seq![32u8]],
        );
        lemma_total_len_concat(
            rights_flat(rs, k - 1) + seq![seq![32u8], rs[k - 1].operator@, seq![32u8]],
            node_flat(rs[k - 1].value),
        );
    }
}

pub proof fn lemma_elements_flat_prefix(es: Seq<Node>, sep: Seq<u8>, j: int, k: int)
    requires
        1 <= j <= k <= es.len(),
    ensures
        total_len(elements_flat(es, j, sep)) <= total_len(elements_flat(es, k, sep)),
    decreases k - j,
{
    if j < k {
        lemma_elements_flat_prefix(es, sep, j, k - 1);
        lemma_total_len_concat(elements_flat(es, k - 1, sep), seq![sep, seq![32u8]]);
        lemma_total_len_concat(elements_flat(es, k - 1, sep) + seq![sep, seq![32u8]], node_flat(es[k - 1]));
    }
}

/// A node that `node_flat` describes has some text to write.
pub proof fn lemma_node_flat_nonempty(n: Node)
    requires
        kind_flat_ok(n.kind),
    ensures
        node_flat(n).len() > 0,
    decreases n,
{
    assert(node_flat(n) == kind_flat(n.kind));
    assert(kind_flat_ok(n.kind));
    match n.kind {
        Kind::InfixChain(ch) => {
            lemma_node_flat_nonempty(*ch.left);
            assert(kind_flat(n.kind) == node_flat(*ch.left) + rights_flat(ch.rights@, ch.rights@.len() as int));
        },
        Kind::Assign(a) => {
            lemma_node_flat_nonempty(*a.target);
        },
        Kind::Ternary(t) => {
            lemma_node_flat_nonempty(*t.predicate);
        },
        Kind::Assoc(a) => {
            lemma_node_flat_nonempty(*a.key);
        },
        Kind::Statements(s) => {
            lemma_node_flat_nonempty(s.nodes@[0]);
        },
        Kind::AltPatternChain(ch) => {
            lemma_node_flat_nonempty(*ch.left);
        },
        Kind::MultiAssignTarget(t) => {
            if t.targets@.len() == 1 {
                lemma_node_flat_nonempty(t.targets@[0]);
            }
        },
        Kind::DynStringLike(d) => {
            assert(opt_piece(d.opening).len() == 1);
        },
        Kind::ArrayPattern(a) => {
            if a.elements@.len() == 1 {
                lemma_node_flat_nonempty(a.elements@[0]);
            }
        },
        Kind::MethodChain(ch) => {
            if let MethodChainHead::Receiver(r) = ch.head {
                lemma_node_flat_nonempty(*r.node);
            }
        },
        _ => {},
    }
}

/// A node that `node_flat` describes can go on the line where it starts.
pub proof fn lemma_flat_continues_line(n: Node)
    requires
        node_flat_ok(n),
    ensures
        n.spec_can_continue_line(),
    decreases n,
{
    if let Kind::Statements(s) = n.kind {
        lemma_flat_continues_line(s.nodes@[0]);
    }
}

/// Three writes one after the other are one write of all their pieces.
pub proof fn lemma_wrote_three(
    o0: Output,
    o1: Output,
    o2: Output,
    o3: Output,
    p: Seq<Seq<u8>>,
    q: Seq<Seq<u8>>,
    r: Seq<Seq<u8>>,
)
    requires
        wrote_pieces(o0, o1, p),
        wrote_pieces(o1, o2, q),
        wrote_pieces(o2, o3, r),
    ensures
        wrote_pieces(o0, o3, p + q + r),
{
    super::output::lemma_wrote_pieces_concat(o0, o1, o2, p, q);
    super::output::lemma_wrote_pieces_concat(o0, o2, o3, p + q, r);
}

/// A call's arguments in their parentheses, or after a space.
pub open spec fn arguments_pieces(a: Arguments) -> Seq<Seq<u8>> {
    seq![opening_piece(a.opening)] + arguments_flat(a.nodes@, a.nodes@.len() as int) + opt_piece(a.closing)
}

/// A call's arguments, if it has any.
pub open spec fn opt_arguments_pieces(a: Option<Arguments>) -> Seq<Seq<u8>> {
    match a {
        Some(a) => arguments_pieces(a),
        None => Seq::empty(),
    }
}

/// A call of a chain: its operator, its name, and its arguments.
pub open spec fn call_pieces(u: CallUnit) -> Seq<Seq<u8>> {
    opt_piece(u.operator) + seq![u.name@] + opt_arguments_pieces(u.arguments)
}

/// What starts a chain, when it is a receiver.
pub open spec fn head_flat(h: MethodChainHead) -> Seq<Seq<u8>> {
    match h {
        MethodChainHead::Receiver(r) => node_flat(*r.node),
        MethodChainHead::FirstCall(_) => Seq::empty(),
    }
}

pub proof fn lemma_calls_flat_step(cs: Seq<CallUnit>, i: int)
    requires
        1 <= i <= cs.len(),
    ensures
        calls_flat(cs, i) =~= calls_flat(cs, i - 1) + call_pieces(cs[i - 1]),
{
}

pub proof fn lemma_calls_flat_prefix(cs: Seq<CallUnit>, j: int, k: int)
    requires
        0 <= j <= k <= cs.len(),
    ensures
        total_len(calls_flat(cs, j)) <= total_len(calls_flat(cs, k)),
    decreases k - j,
{
    if j < k {
        lemma_calls_flat_prefix(cs, j, k - 1);
        lemma_calls_flat_step(cs, k);
        lemma_total_len_concat(calls_flat(cs, k - 1), call_pieces(cs[k - 1]));
    }
}

pub proof fn lemma_arguments_flat_prefix(ns: Seq<Node>, j: int, k: int)
    requires
        1 <= j <= k <= ns.len(),
    ensures
        total_len(arguments_flat(ns, j)) <= total_len(arguments_flat(ns, k)),
    decreases k - j,
{
    if j < k {
        lemma_arguments_flat_prefix(ns, j, k - 1);
        lemma_total_len_concat(arguments_flat(ns, k - 1), seq![seq![44u8, 32u8]]);
        lemma_total_len_concat(arguments_flat(ns, k - 1) + seq![seq![44u8, 32u8]], node_flat(ns[k - 1]));
    }
}

/// A longer prefix of a list is no shorter.
pub proof fn lemma_elided_flat_prefix(ns: Seq<Node>, j: int, k: int, by_shape: bool)
    requires
        1 <= j <= k <= ns.len(),
    ensures
        total_len(elided_flat(ns, j, by_shape)) <= total_len(elided_flat(ns, k, by_shape)),
    decreases k - j,
{
    if j < k {
        lemma_elided_flat_prefix(ns, j, k - 1, by_shape);
        lemma_total_len_concat(elided_flat(ns, k - 1, by_shape), seq![seq![44u8]]);
        lemma_total_len_concat(elided_flat(ns, k - 1, by_shape), seq![seq![44u8, 32u8]]);
        lemma_total_len_concat(elided_flat(ns, k - 1, by_shape) + seq![seq![44u8, 32u8]], node_flat(ns[k - 1]));
    }
}

/// The length of a single piece.
pub proof fn lemma_total_len_one(p: Seq<u8>)
    ensures
        total_len(seq![p]) == p.len(),
        joined(seq![p]) == p,
{
    assert(seq![p].drop_first() =~= Seq::<Seq<u8>>::empty());
    assert(total_len(Seq::<Seq<u8>>::empty()) == 0);
    assert(total_len(seq![p]) == seq![p][0].len() + total_len(seq![p].drop_first()));
    assert(joined(seq![p]) =~= p + joined(Seq::<Seq<u8>>::empty()));
}

/// The length of an optional piece.
pub proof fn lemma_opt_piece_len(t: Option<Vec<u8>>)
    ensures
        total_len(opt_piece(t)) == match t {
            Some(v) => v@.len(),
            None => 0,
        },
{
    match t {
        Some(v) => lemma_total_len_one(v@),
        None => {},
    }
}

/// Statements that can each be written flat on a line of their own: each made of parts
/// that `node_flat` describes, with no comment after it and a flat text of at most
/// `width` bytes, and no comment after the last one.
pub open spec fn lines_ok(s: Statements, width: int) -> bool {
    &&& s.virtual_end is None
    &&& s.nodes@.len() > 0
    &&& forall|i: int|
        0 <= i < s.nodes@.len() ==> node_flat_ok(#[trigger] s.nodes@[i])
            && s.nodes@[i].trailing_trivia.spec_comment() is None && total_len(node_flat(s.nodes@[i]))
            <= width
}

/// The flat texts of the first `i` statements, with `sep` between each two.
pub open spec fn lines_text(ns: Seq<Node>, i: int, sep: Seq<u8>) -> Seq<u8>
    decreases i,
{
    if i <= 0 {
        Seq::empty()
    } else if i == 1 {
        joined(node_flat(ns[0]))
    } else {
        lines_text(ns, i - 1, sep) + sep + joined(node_flat(ns[i - 1]))
    }
}

/// Statements that can each be written flat and are not written on one line come out
/// one per line: `o1` is `o0` after the flat texts, with a line break and the
/// indentation between each two.
#[verifier::opaque]
pub open spec fn lines_written(s: Statements, o0: Output, o1: Output) -> bool {
    !(s.shape is Inline) && lines_ok(s, o0.config.line_width - o0.indent) && o0.heredoc_queue@.len() == 0
        && total_len(node_flat(s.nodes@[0])) <= budget(o0) ==> {
        &&& o1.buffer@ == o0.buffer@ + o0.indent_prefix() + lines_text(
            s.nodes@,
            s.nodes@.len() as int,
            seq![10u8] + spaces(o0.indent as nat),
        )
        &&& o1.heredoc_queue@.len() == 0
    }
}

} // verus!
