use vstd::prelude::*;

use crate::fmt::flat::{
    budget, kind_flat, kind_flat_ok, lemma_node_flat_nonempty, lemma_total_len_concat, lemma_total_len_one,
    lemma_wrote_fitting, node_flat, total_len,
};
use crate::fmt::output::{
    advanced, heredoc_measure, lemma_wrote_nothing, lemma_wrote_pieces_concat, ready, wrote_pieces,
    FormatContext, Output,
};
use crate::fmt::shape::Shape;
use crate::fmt::trivia::EmptyLineHandling;

use super::{Heredoc, Kind, Node};

verus! {

broadcast use crate::fmt::growth::group_output_growth;

/// `key: value` or `key => value` in a hash or arguments.
#[derive(Debug)]
pub struct Assoc {
    pub shape: Shape,
    pub key: Box<Node>,
    pub value: Option<Box<Node>>,
    pub operator: Option<Vec<u8>>,
}

impl Assoc {
    pub open spec fn ok_in(&self, c: int, m: Map<usize, Heredoc>) -> bool
        decreases self,
    {
        &&& self.key.ok_in(c, m)
        &&& match self.value {
            Some(v) => v.ok_in(c, m),
            None => true,
        }
    }

    /// The shape of the key, the value, a space, and the operator with a space.
    pub open spec fn spec_shape_of(key: Shape, value: Option<Shape>, operator: Option<Seq<u8>>) -> Shape {
        let with_value = match value {
            Some(v) => key.concat(v),
            None => key,
        };
        let spaced = with_value.concat(Shape::Inline { len: 1 });
        match operator {
            Some(op) => spaced.concat(Shape::Inline { len: op.len() as usize }).concat(Shape::Inline { len: 1 }),
            None => spaced,
        }
    }

    pub fn new(key: Node, operator: Option<Vec<u8>>, value: Option<Node>) -> (a: Assoc)
        requires
            key.shape.size() + match value {
                Some(v) => v.shape.size(),
                None => 0,
            } + match operator {
                Some(op) => op@.len(),
                None => 0,
            } + 2 <= usize::MAX,
        ensures
            a.shape == Self::spec_shape_of(
                key.shape,
                match value {
                    Some(v) => Some(v.shape),
                    None => None,
                },
                match operator {
                    Some(op) => Some(op@),
                    None => None,
                },
            ),
            *a.key == key,
            a.operator == operator,
            match value {
                Some(v) => a.value == Some(Box::new(v)),
                None => a.value is None,
            },
    {
        let mut shape = key.shape;
        if let Some(v) = &value {
            shape.append(&v.shape);
        }
        shape.append(&Shape::inline(1));
        if let Some(op) = &operator {
            shape.append(&Shape::inline(op.len()));
            shape.append(&Shape::inline(1));
        }
        let value = match value {
            Some(v) => Some(Box::new(v)),
            None => None,
        };
        Assoc { shape, key: Box::new(key), value, operator }
    }

    /// The key, then the operator and the value on the line where the value fits or
    /// can start there, else the value indented on the next line; where the pair is
    /// made of parts that `kind_flat` describes and fits in the room left on the line,
    /// it is written flat.
    pub fn format(&self, o: &mut Output, ctx: &FormatContext, Ghost(c): Ghost<int>)
        requires
            ready(*old(o), *ctx, c),
            self.ok_in(c, ctx.heredoc_map@),
        ensures
            advanced(*old(o), *final(o), *ctx, c),
            kind_flat_ok(Kind::Assoc(*self)) && total_len(kind_flat(Kind::Assoc(*self))) <= budget(
                *old(o),
            ) ==> wrote_pieces(*old(o), *final(o), kind_flat(Kind::Assoc(*self))),
        decreases heredoc_measure(c), 2int, self, 1int,
    {
        let ghost o0 = *o;
        let ghost flat = kind_flat_ok(Kind::Assoc(*self)) && total_len(kind_flat(Kind::Assoc(*self)))
            <= budget(o0);
        let ghost kp = node_flat(*self.key);
        let ghost opp = opt_operator_pieces(self.operator);
        proof {
            if flat {
                lemma_node_flat_nonempty(*self.key);
            }
        }
        self.key.format(o, ctx, Ghost(c));
        let ghost o1 = *o;
        if let Some(value) = &self.value {
            let ghost vp = node_flat(**value);
            proof {
                if flat {
                    assert(kind_flat(Kind::Assoc(*self)) =~= kp + opp + seq![seq![32u8]] + vp);
                    lemma_total_len_concat(kp, opp);
                    lemma_total_len_concat(kp + opp, seq![seq![32u8]]);
                    lemma_total_len_concat(kp + opp + seq![seq![32u8]], vp);
                    lemma_total_len_one(seq![32u8]);
                    lemma_wrote_fitting(o0, o1, kp);
                    lemma_node_flat_nonempty(**value);
                    assert(value.shape.spec_fits_in_inline(o1.remaining_width as int));
                    assert(!value.shape.spec_is_empty());
                }
            }
            if value.shape.fits_in_inline(o.remaining_width) || value.can_continue_line() {
                if let Some(op) = &self.operator {
                    o.push(32u8);
                    let ghost oa = *o;
                    o.push_str(op.as_slice());
                    proof {
                        lemma_wrote_pieces_concat(o1, oa, *o, seq![seq![32u8]], seq![op@]);
                        assert(seq![seq![32u8]] + seq![op@] =~= opp);
                        if flat {
                            lemma_total_len_concat(seq![seq![32u8]], seq![op@]);
                            lemma_total_len_one(op@);
                            lemma_wrote_fitting(o1, *o, opp);
                        }
                    }
                } else {
                    proof {
                        lemma_wrote_nothing(o1);
                    }
                }
                let ghost o2 = *o;
                if !value.shape.is_empty() {
                    o.push(32u8);
                    let ghost o3 = *o;
                    proof {
                        if flat {
                            lemma_wrote_fitting(o2, o3, seq![seq![32u8]]);
                        }
                    }
                    value.format(o, ctx, Ghost(c));
                    proof {
                        if flat {
                            lemma_wrote_pieces_concat(o2, o3, *o, seq![seq![32u8]], vp);
                            lemma_wrote_pieces_concat(o1, o2, *o, opp, seq![seq![32u8]] + vp);
                            lemma_wrote_pieces_concat(o0, o1, *o, kp, opp + (seq![seq![32u8]] + vp));
                            assert(kp + (opp + (seq![seq![32u8]] + vp)) =~= kind_flat(Kind::Assoc(*self)));
                        }
                    }
                }
            } else {
                if let Some(op) = &self.operator {
                    o.push(32u8);
                    o.push_str(op.as_slice());
                }
                o.break_line(ctx, Ghost(c));
                o.indent();
                value.leading_trivia.format(o, ctx, EmptyLineHandling::trim(), Ghost(c));
                value.format(o, ctx, Ghost(c));
                o.dedent();
            }
        }
    }
}

/// ` op` where a pair has an operator.
pub open spec fn opt_operator_pieces(op: Option<Vec<u8>>) -> Seq<Seq<u8>> {
    match op {
        Some(op) => seq![seq![32u8], op@],
        None => Seq::empty(),
    }
}

} // verus!
