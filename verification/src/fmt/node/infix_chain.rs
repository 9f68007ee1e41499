use vstd::prelude::*;

use crate::fmt::flat::{
    budget, kind_flat, kind_flat_ok, lemma_node_flat_nonempty, lemma_rights_flat_prefix, lemma_total_len_concat,
    lemma_wrote_fitting,
    lemma_wrote_three, node_flat, node_flat_ok, rights_flat, total_len,
};
use crate::fmt::output::{advanced, heredoc_measure, ready, wrote_pieces, FormatContext, Output};
use crate::fmt::shape::{ArgumentStyle, Shape};
use crate::fmt::trivia::EmptyLineHandling;

use super::{Heredoc, Kind, Node};

verus! {

broadcast use crate::fmt::growth::group_output_growth;

/// `left op right op right ...` with operators of one precedence.
#[derive(Debug)]
pub struct InfixChain {
    pub shape: Shape,
    pub left: Box<Node>,
    pub precedence: InfixPrecedence,
    pub rights_shape: Shape,
    pub rights: Vec<InfixRight>,
}

/// An operator and the operand after it.
#[derive(Debug)]
pub struct InfixRight {
    pub shape: Shape,
    pub operator: Vec<u8>,
    pub value: Node,
}

/// Operator precedence, from the loosest to the tightest binding.
#[derive(Debug, Clone, Copy, PartialEq, Eq, Structural)]
pub enum InfixPrecedence {
    WordAndOr,
    Range,
    Or,
    And,
    Eq,
    Comp,
    Union,
    Intersect,
    Shift,
    Add,
    Mult,
    Power,
}

/// The precedence of each binary operator; `None` for anything else.
pub open spec fn spec_precedence_of(op: Seq<u8>) -> Option<InfixPrecedence> {
    if op == seq![42u8, 42u8] {
        Some(InfixPrecedence::Power)
    } else if op == seq![42u8] || op == seq![47u8] || op == seq![37u8] {
        Some(InfixPrecedence::Mult)
    } else if op == seq![43u8] || op == seq![45u8] {
        Some(InfixPrecedence::Add)
    } else if op == seq![60u8, 60u8] || op == seq![62u8, 62u8] {
        Some(InfixPrecedence::Shift)
    } else if op == seq![38u8] {
        Some(InfixPrecedence::Intersect)
    } else if op == seq![124u8] || op == seq![94u8] {
        Some(InfixPrecedence::Union)
    } else if op == seq![62u8] || op == seq![62u8, 61u8] || op == seq![60u8] || op == seq![60u8, 61u8] {
        Some(InfixPrecedence::Comp)
    } else if op == seq![60u8, 61u8, 62u8] || op == seq![61u8, 61u8] || op == seq![61u8, 61u8, 61u8]
        || op == seq![33u8, 61u8] || op == seq![61u8, 126u8] || op == seq![33u8, 126u8] {
        Some(InfixPrecedence::Eq)
    } else if op == seq![38u8, 38u8] {
        Some(InfixPrecedence::And)
    } else if op == seq![124u8, 124u8] {
        Some(InfixPrecedence::Or)
    } else if op == seq![46u8, 46u8] || op == seq![46u8, 46u8, 46u8] {
        Some(InfixPrecedence::Range)
    } else if op == seq![97u8, 110u8, 100u8] || op == seq![111u8, 114u8] {
        Some(InfixPrecedence::WordAndOr)
    } else {
        None
    }
}

fn is_op1(op: &[u8], a: u8) -> (b: bool)
    ensures
        b == (op@ == seq![a]),
{
    if op.len() == 1 && op[0] == a {
        assert(op@ =~= seq![a]);
        true
    } else {
        false
    }
}

fn is_op2(op: &[u8], a: u8, b: u8) -> (r: bool)
    ensures
        r == (op@ == seq![a, b]),
{
    if op.len() == 2 && op[0] == a && op[1] == b {
        assert(op@ =~= seq![a, b]);
        true
    } else {
        false
    }
}

fn is_op3(op: &[u8], a: u8, b: u8, c: u8) -> (r: bool)
    ensures
        r == (op@ == seq![a, b, c]),
{
    if op.len() == 3 && op[0] == a && op[1] == b && op[2] == c {
        assert(op@ =~= seq![a, b, c]);
        true
    } else {
        false
    }
}

impl InfixPrecedence {
    /// The precedence of `op` where it is a binary operator.
    pub fn precedence_of(op: &[u8]) -> (p: Option<InfixPrecedence>)
        ensures
            p == spec_precedence_of(op@),
    {
        let known = is_op2(op, 42u8, 42u8) || is_op1(op, 42u8) || is_op1(op, 47u8) || is_op1(op, 37u8) || is_op1(
            op,
            43u8,
        ) || is_op1(op, 45u8) || is_op2(op, 60u8, 60u8) || is_op2(op, 62u8, 62u8) || is_op1(op, 38u8) || is_op1(
            op,
            124u8,
        ) || is_op1(op, 94u8) || is_op1(op, 62u8) || is_op2(op, 62u8, 61u8) || is_op1(op, 60u8) || is_op2(
            op,
            60u8,
            61u8,
        ) || is_op3(op, 60u8, 61u8, 62u8) || is_op2(op, 61u8, 61u8) || is_op3(op, 61u8, 61u8, 61u8) || is_op2(
            op,
            33u8,
            61u8,
        ) || is_op2(op, 61u8, 126u8) || is_op2(op, 33u8, 126u8) || is_op2(op, 38u8, 38u8) || is_op2(op, 124u8, 124u8)
            || is_op2(op, 46u8, 46u8) || is_op3(op, 46u8, 46u8, 46u8) || is_op3(op, 97u8, 110u8, 100u8) || is_op2(
            op,
            111u8,
            114u8,
        );
        if known {
            Some(Self::from_operator(op))
        } else {
            None
        }
    }

    /// The precedence of a binary operator, which must be one.
    pub fn from_operator(op: &[u8]) -> (p: InfixPrecedence)
        requires
            spec_precedence_of(op@) is Some,
        ensures
            Some(p) == spec_precedence_of(op@),
    {
        if is_op2(op, 42u8, 42u8) {
            InfixPrecedence::Power
        } else if is_op1(op, 42u8) || is_op1(op, 47u8) || is_op1(op, 37u8) {
            InfixPrecedence::Mult
        } else if is_op1(op, 43u8) || is_op1(op, 45u8) {
            InfixPrecedence::Add
        } else if is_op2(op, 60u8, 60u8) || is_op2(op, 62u8, 62u8) {
            InfixPrecedence::Shift
        } else if is_op1(op, 38u8) {
            InfixPrecedence::Intersect
        } else if is_op1(op, 124u8) || is_op1(op, 94u8) {
            InfixPrecedence::Union
        } else if is_op1(op, 62u8) || is_op2(op, 62u8, 61u8) || is_op1(op, 60u8) || is_op2(op, 60u8, 61u8) {
            InfixPrecedence::Comp
        } else if is_op3(op, 60u8, 61u8, 62u8) || is_op2(op, 61u8, 61u8) || is_op3(op, 61u8, 61u8, 61u8) || is_op2(op, 33u8, 61u8) || is_op2(op, 61u8, 126u8) || is_op2(op, 33u8, 126u8) {
            InfixPrecedence::Eq
        } else if is_op2(op, 38u8, 38u8) {
            InfixPrecedence::And
        } else if is_op2(op, 124u8, 124u8) {
            InfixPrecedence::Or
        } else if is_op2(op, 46u8, 46u8) || is_op3(op, 46u8, 46u8, 46u8) {
            InfixPrecedence::Range
        } else {
            InfixPrecedence::WordAndOr
        }
    }
}

impl InfixChain {
    pub open spec fn ok_in(&self, c: int, m: Map<usize, Heredoc>) -> bool
        decreases self,
    {
        &&& self.left.ok_in(c, m)
        &&& forall|i: int| 0 <= i < self.rights@.len() ==> (#[trigger] self.rights@[i]).ok_in(c, m)
    }

    pub fn new(left: Node, precedence: InfixPrecedence) -> (ch: InfixChain)
        ensures
            ch.shape == left.shape,
            *ch.left == left,
            ch.precedence == precedence,
            ch.rights_shape == (Shape::Inline { len: 0 }),
            ch.rights@.len() == 0,
    {
        InfixChain {
            shape: left.shape,
            left: Box::new(left),
            precedence,
            rights_shape: Shape::inline(0),
            rights: Vec::new(),
        }
    }

    pub fn precedence(&self) -> (p: &InfixPrecedence)
        ensures
            *p == self.precedence,
    {
        &self.precedence
    }

    pub fn append_right(&mut self, op: Vec<u8>, right: Node)
        requires
            op@.len() + 2 + right.shape.size() + old(self).shape.size() + old(self).rights_shape.size()
                <= usize::MAX,
        ensures
            final(self).shape == old(self).shape.concat(InfixRight::spec_shape_of(op@, right.shape)),
            final(self).rights_shape == old(self).rights_shape.concat(
                InfixRight::spec_shape_of(op@, right.shape),
            ),
            final(self).rights@.len() == old(self).rights@.len() + 1,
            final(self).rights@.last().operator == op,
            final(self).rights@.last().value == right,
            final(self).rights@.drop_last() == old(self).rights@,
            final(self).left == old(self).left,
            final(self).precedence == old(self).precedence,
    {
        let right = InfixRight::new(op, right);
        self.shape.append(&right.shape);
        self.rights_shape.append(&right.shape);
        self.rights.push(right);
        assert(self.rights@.drop_last() =~= old(self).rights@);
    }

    /// Writes the chain; where it is made of parts that `kind_flat` describes and fits
    /// in the room left on the line, it is written flat, as `kind_flat` gives it.
    pub fn format(&self, o: &mut Output, ctx: &FormatContext, Ghost(c): Ghost<int>)
        requires
            ready(*old(o), *ctx, c),
            self.ok_in(c, ctx.heredoc_map@),
        ensures
            advanced(*old(o), *final(o), *ctx, c),
            kind_flat_ok(Kind::InfixChain(*self)) && total_len(kind_flat(Kind::InfixChain(*self)))
                <= budget(*old(o)) ==> wrote_pieces(
                *old(o),
                *final(o),
                kind_flat(Kind::InfixChain(*self)),
            ),
        decreases heredoc_measure(c), 2int, self, 1int,
    {
        let ghost o0 = *o;
        let ghost rs = self.rights@;
        let ghost lp = node_flat(*self.left);
        let ghost flat = kind_flat_ok(Kind::InfixChain(*self)) && total_len(
            kind_flat(Kind::InfixChain(*self)),
        ) <= budget(o0);
        proof {
            if flat {
                lemma_total_len_concat(lp, rights_flat(rs, rs.len() as int));
                lemma_node_flat_nonempty(*self.left);
            }
        }
        self.left.format(o, ctx, Ghost(c));
        proof {
            if flat {
                lemma_wrote_fitting(o0, *o, lp);
            }
            assert forall|i: int| 0 <= i < self.rights@.len() implies (#[trigger] self.rights@[i]).value.concat_ok() by {
                assert(self.rights@[i].ok_in(c, ctx.heredoc_map@));
                super::lemma_ok_in_concat_ok(&self.rights@[i].value, c, ctx.heredoc_map@);
            }
        }
        let next_to_operator = self.should_put_rights_next_to_operator(o);
        let n = self.rights.len();
        let mut i: usize = 0;
        while i < n
            invariant
                n == self.rights@.len(),
                rs == self.rights@,
                ready(*o, *ctx, c),
                advanced(*old(o), *o, *ctx, c),
                self.ok_in(c, ctx.heredoc_map@),
                0 <= i <= n,
                flat ==> {
                    &&& next_to_operator
                    &&& kind_flat_ok(Kind::InfixChain(*self))
                    &&& o0.wf()
                    &&& wrote_pieces(o0, *o, lp + rights_flat(rs, i as int))
                    &&& budget(*o) == budget(o0) - total_len(lp) - total_len(rights_flat(rs, i as int))
                    &&& total_len(lp) + total_len(rights_flat(rs, n as int)) <= budget(o0)
                },
            decreases n - i,
        {
            let right = &self.rights[i];
            if next_to_operator {
                let ghost oa = *o;
                o.push(32u8);
                let ghost ob = *o;
                o.push_str(right.operator.as_slice());
                let ghost oc = *o;
                o.push(32u8);
                let ghost od = *o;
                let ghost glue = seq![seq![32u8], right.operator@, seq![32u8]];
                proof {
                    if flat {
                        lemma_wrote_three(oa, ob, oc, od, seq![seq![32u8]], seq![right.operator@], seq![seq![32u8]]);
                        assert(seq![seq![32u8]] + seq![right.operator@] + seq![seq![32u8]] =~= glue);
                        let vp = node_flat(right.value);
                        assert(node_flat_ok(rs[i as int].value));
                        lemma_node_flat_nonempty(right.value);
                        lemma_rights_flat_prefix(rs, i + 1, n as int);
                        lemma_total_len_concat(rights_flat(rs, i as int), glue);
                        lemma_total_len_concat(rights_flat(rs, i as int) + glue, vp);
                        lemma_total_len_concat(glue, vp);
                        assert(total_len(glue) == 2 + right.operator@.len()) by {
                            reveal_with_fuel(total_len, 4);
                        }
                        lemma_wrote_fitting(oa, od, glue);
                    }
                }
                right.value.leading_trivia.format(o, ctx, EmptyLineHandling::none(), Ghost(c));
                right.value.format(o, ctx, Ghost(c));
                proof {
                    if flat {
                        let vp = node_flat(right.value);
                        let before = lp + rights_flat(rs, i as int);
                        lemma_wrote_fitting(od, *o, vp);
                        super::super::output::lemma_wrote_pieces_concat(oa, od, *o, glue, vp);
                        super::super::output::lemma_wrote_pieces_concat(o0, oa, *o, before, glue + vp);
                        assert(before + (glue + vp) =~= lp + rights_flat(rs, i + 1));
                        lemma_total_len_concat(glue, vp);
                    }
                }
            } else {
                o.push(32u8);
                o.push_str(right.operator.as_slice());
                o.indent();
                o.break_line(ctx, Ghost(c));
                right.value.leading_trivia.format(o, ctx, EmptyLineHandling::none(), Ghost(c));
                o.put_indent_if_needed();
                right.value.format(o, ctx, Ghost(c));
                o.dedent();
            }
            i = i + 1;
        }
        proof {
            if flat {
                assert(lp + rights_flat(rs, n as int) =~= kind_flat(Kind::InfixChain(*self)));
            }
        }
    }

    /// The operands stay on the line: they fit there, or a single one can start there.
    pub open spec fn spec_rights_next_to_operator(&self, width: int) -> bool {
        ||| self.rights_shape.spec_fits_in_inline(width)
        ||| self.rights@.len() == 1 && match self.rights@[0].value.spec_concat_style() {
            ArgumentStyle::Horizontal { min_first_line_len } => min_first_line_len <= width,
            ArgumentStyle::Vertical => false,
        }
    }

    pub fn should_put_rights_next_to_operator(&self, o: &Output) -> (b: bool)
        requires
            forall|i: int| 0 <= i < self.rights@.len() ==> (#[trigger] self.rights@[i]).value.concat_ok(),
        ensures
            b == self.spec_rights_next_to_operator(o.remaining_width as int),
    {
        if self.rights_shape.fits_in_inline(o.remaining_width) {
            return true;
        }
        if self.rights.len() == 1 {
            if let ArgumentStyle::Horizontal { min_first_line_len } = self.rights[0].value.concat_style() {
                return min_first_line_len <= o.remaining_width;
            }
        }
        false
    }
}

impl InfixRight {
    pub open spec fn ok_in(&self, c: int, m: Map<usize, Heredoc>) -> bool
        decreases self,
    {
        self.value.ok_in(c, m)
    }

    /// The operator with a space on each side, then the operand.
    pub open spec fn spec_shape_of(operator: Seq<u8>, value: Shape) -> Shape {
        (Shape::Inline { len: (operator.len() + 2) as usize }).concat(value)
    }

    pub fn new(operator: Vec<u8>, value: Node) -> (r: InfixRight)
        requires
            operator@.len() + 2 + value.shape.size() <= usize::MAX,
        ensures
            r.shape == Self::spec_shape_of(operator@, value.shape),
            r.operator == operator,
            r.value == value,
    {
        let shape = Shape::inline(operator.len() + 2).add(&value.shape);
        InfixRight { shape, operator, value }
    }
}

} // verus!
