use vstd::prelude::*;

use crate::fmt::flat::{
    budget, elided, elided_flat, lemma_elided_flat_prefix, kind_flat, kind_flat_ok, lemma_node_flat_nonempty,
    lemma_opt_piece_len, lemma_total_len_concat, lemma_total_len_one, lemma_wrote_fitting, node_flat, node_flat_ok,
    total_len,
};
use crate::fmt::output::{
    advanced, heredoc_measure, lemma_wrote_nothing, lemma_wrote_pieces_concat, ready, wrote_pieces, FormatContext,
    Output,
};
use crate::fmt::shape::Shape;
use crate::fmt::text::{opt_view, to_bytes, COMMA_SPACE, LBRACKET, RBRACKET};
use crate::fmt::trivia::EmptyLineHandling;

use super::string_like::opt_piece;
use super::{Heredoc, Kind, Node, VirtualEnd};

verus! {

broadcast use crate::fmt::growth::group_output_growth;

/// `Const[a, b, *rest]` in a pattern.
#[derive(Debug)]
pub struct ArrayPattern {
    pub constant: Option<Box<Node>>,
    pub array_shape: Shape,
    pub opening: Option<Vec<u8>>,
    pub closing: Option<Vec<u8>>,
    pub elements: Vec<Node>,
    pub virtual_end: Option<VirtualEnd>,
    pub last_comma_allowed: bool,
}

impl ArrayPattern {
    pub open spec fn ok_in(&self, c: int, m: Map<usize, Heredoc>) -> bool
        decreases self,
    {
        &&& match self.constant {
            Some(k) => k.ok_in(c, m),
            None => true,
        }
        &&& forall|i: int| 0 <= i < self.elements@.len() ==> (#[trigger] self.elements@[i]).ok_in(c, m)
    }

    pub open spec fn spec_shape(&self) -> Shape {
        let constant_shape = match self.constant {
            Some(k) => k.shape,
            None => Shape::Inline { len: 0 },
        };
        constant_shape.concat(self.array_shape)
    }

    /// A trailing implicit value or an anonymous splat needs brackets: `a in [b,]`.
    pub open spec fn spec_needs_brackets(&self) -> bool {
        self.elements@.len() > 0 && match self.elements@.last().kind {
            Kind::Atom(atom) => atom.0@.len() == 0,
            Kind::Prefix(prefix) => prefix.spec_is_anonymous_splat(),
            _ => false,
        }
    }

    pub fn new(constant: Option<Node>) -> (p: ArrayPattern)
        ensures
            match constant {
                Some(k) => p.constant == Some(Box::new(k)),
                None => p.constant is None,
            },
            p.array_shape == (Shape::Inline { len: 0 }),
            p.opening is None,
            p.closing is None,
            p.elements@.len() == 0,
            p.virtual_end is None,
            p.last_comma_allowed,
    {
        let constant = match constant {
            Some(k) => Some(Box::new(k)),
            None => None,
        };
        ArrayPattern {
            array_shape: Shape::inline(0),
            constant,
            opening: None,
            closing: None,
            elements: Vec::new(),
            virtual_end: None,
            last_comma_allowed: true,
        }
    }

    /// The constant and the brackets together still have a length that fits.
    pub open spec fn shape_fits(&self) -> bool {
        match self.constant {
            Some(k) => k.shape.concat_fits(self.array_shape),
            None => true,
        }
    }

    pub fn shape(&self) -> (s: Shape)
        requires
            self.shape_fits(),
        ensures
            s == self.spec_shape(),
    {
        let constant_shape = match &self.constant {
            Some(k) => k.shape,
            None => Shape::inline(0),
        };
        constant_shape.add(&self.array_shape)
    }

    pub fn append_element(&mut self, element: Node)
        requires
            old(self).array_shape.size() + 2 + element.shape.size() <= usize::MAX,
        ensures
            // `, ` between elements, or a lone `,` before one left implicit
            final(self).array_shape == if old(self).elements@.len() > 0 {
                old(self).array_shape.inserted(
                    Shape::Inline { len: if elided(element, false) { 1 } else { 2 } },
                ).inserted(element.shape)
            } else {
                old(self).array_shape.inserted(element.shape)
            },
            final(self).elements@ == old(self).elements@.push(element),
            final(self).constant == old(self).constant,
            final(self).opening == old(self).opening,
            final(self).closing == old(self).closing,
            final(self).virtual_end == old(self).virtual_end,
    {
        if self.elements.len() > 0 {
            if is_implicit_element(&element) {
                self.array_shape.insert(&Shape::inline(1));
            } else {
                self.array_shape.insert(&Shape::inline(2));
            }
        }
        self.array_shape.insert(&element.shape);
        self.elements.push(element);
    }

    pub fn set_virtual_end(&mut self, end: Option<VirtualEnd>)
        requires
            match end {
                Some(e) => old(self).array_shape.insert_fits(e.shape),
                None => true,
            },
        ensures
            final(self).array_shape == match end {
                Some(e) => old(self).array_shape.inserted(e.shape),
                None => old(self).array_shape,
            },
            final(self).virtual_end == end,
            final(self).elements == old(self).elements,
            final(self).constant == old(self).constant,
    {
        if let Some(e) = &end {
            self.array_shape.insert(&e.shape);
        }
        self.virtual_end = end;
    }

    /// Sets the brackets, adding `[` `]` where the pattern would not be valid without them.
    pub fn finish_with(&mut self, opening: Option<Vec<u8>>, closing: Option<Vec<u8>>)
        requires
            old(self).array_shape.size() + 2 + match (opening, closing) {
                (Some(op), Some(cl)) => op@.len() + cl@.len(),
                _ => 0,
            } <= usize::MAX,
        ensures
            ({
                let (op, cl) = if closing is None && old(self).spec_needs_brackets() {
                    (Some(LBRACKET@), Some(RBRACKET@))
                } else {
                    (opt_view(opening), opt_view(closing))
                };
                &&& opt_view(final(self).opening) == op
                &&& opt_view(final(self).closing) == cl
                &&& final(self).array_shape == match (op, cl) {
                    (Some(o), Some(k)) => (Shape::Inline { len: (o.len() + k.len()) as usize }).inserted(
                        old(self).array_shape,
                    ),
                    _ => old(self).array_shape,
                }
            }),
            final(self).elements == old(self).elements,
            final(self).constant == old(self).constant,
            final(self).virtual_end == old(self).virtual_end,
    {
        let mut opening = opening;
        let mut closing = closing;
        if closing.is_none() && self.should_close_pattern_to_ensure_valid_syntax() {
            opening = Some(to_bytes(&LBRACKET));
            closing = Some(to_bytes(&RBRACKET));
        }
        match (&opening, &closing) {
            (Some(op), Some(cl)) => {
                let mut array_shape = Shape::inline(op.len() + cl.len());
                array_shape.insert(&self.array_shape);
                self.array_shape = array_shape;
            },
            _ => {},
        }
        self.opening = opening;
        self.closing = closing;
    }

    pub fn should_close_pattern_to_ensure_valid_syntax(&self) -> (b: bool)
        ensures
            b == self.spec_needs_brackets(),
    {
        let n = self.elements.len();
        if n == 0 {
            return false;
        }
        match &self.elements[n - 1].kind {
            // `a in b,` -> `a in [b,]`
            Kind::Atom(atom) => atom.is_implicit_value(),
            // `a in b,*` -> `a in [b,*]`
            Kind::Prefix(prefix) => prefix.is_anonymous_splat(),
            _ => false,
        }
    }

    /// The flat text of the constant, if there is one.
    pub open spec fn constant_flat(&self) -> Seq<Seq<u8>> {
        match self.constant {
            Some(k) => node_flat(*k),
            None => Seq::empty(),
        }
    }

    /// Writes the constant, then the elements on the line where their shape fits there,
    /// else one per line in brackets; a pattern made of parts that `kind_flat` describes
    /// that fits in the room left on the line is written flat.
    #[verifier::spinoff_prover]
    pub fn format(&self, o: &mut Output, ctx: &FormatContext, Ghost(c): Ghost<int>)
        requires
            ready(*old(o), *ctx, c),
            self.ok_in(c, ctx.heredoc_map@),
        ensures
            advanced(*old(o), *final(o), *ctx, c),
            kind_flat_ok(Kind::ArrayPattern(*self)) && total_len(kind_flat(Kind::ArrayPattern(*self))) <= budget(
                *old(o),
            ) ==> wrote_pieces(*old(o), *final(o), kind_flat(Kind::ArrayPattern(*self))),
        decreases heredoc_measure(c), 2int, self, 1int,
    {
        let ghost o0 = *o;
        let ghost ns = self.elements@;
        let ghost flat = kind_flat_ok(Kind::ArrayPattern(*self)) && total_len(kind_flat(Kind::ArrayPattern(*self)))
            <= budget(o0);
        let ghost kp = self.constant_flat();
        let ghost lp = opt_piece(self.opening);
        let ghost cf = elided_flat(ns, ns.len() as int, false);
        let ghost rp = opt_piece(self.closing);
        proof {
            assert(kind_flat(Kind::ArrayPattern(*self)) == kp + lp + cf + rp);
            if flat {
                lemma_total_len_concat(kp, lp);
                lemma_total_len_concat(kp + lp, cf);
                lemma_total_len_concat(kp + lp + cf, rp);
                lemma_total_len_concat(lp, cf);
                lemma_total_len_concat(lp + cf, rp);
                lemma_opt_piece_len(self.opening);
                lemma_opt_piece_len(self.closing);
            }
        }
        if let Some(constant) = &self.constant {
            constant.format(o, ctx, Ghost(c));
            proof {
                if flat {
                    lemma_node_flat_nonempty(**constant);
                    lemma_wrote_fitting(o0, *o, kp);
                }
            }
        } else {
            proof {
                lemma_wrote_nothing(o0);
            }
        }
        let ghost ok = *o;
        let n = self.elements.len();
        if self.array_shape.fits_in_one_line(o.remaining_width) {
            if let Some(opening) = &self.opening {
                o.push_str(opening.as_slice());
                proof {
                    if flat {
                        lemma_wrote_fitting(ok, *o, lp);
                    }
                }
            } else {
                proof {
                    lemma_wrote_nothing(ok);
                }
            }
            let ghost o1 = *o;
            let mut i: usize = 0;
            while i < n
                invariant
                    n == self.elements@.len(),
                    ns == self.elements@,
                    ready(*o, *ctx, c),
                    advanced(*old(o), *o, *ctx, c),
                    self.ok_in(c, ctx.heredoc_map@),
                    0 <= i <= n,
                    flat ==> {
                        &&& kind_flat_ok(Kind::ArrayPattern(*self))
                        &&& o1.wf()
                        &&& wrote_pieces(o1, *o, elided_flat(ns, i as int, false))
                        &&& budget(*o) == budget(o1) - total_len(elided_flat(ns, i as int, false))
                        &&& total_len(elided_flat(ns, n as int, false)) <= budget(o1)
                        &&& (o.indent_prefix().len() == 0 || (i == 0 && *o == o1))
                    },
                decreases n - i,
            {
                let ghost oa = *o;
                if is_implicit_element(&self.elements[i]) {
                    // `a in b,` -> `a in [b,]`
                    o.push(44u8);
                    proof {
                        if flat {
                            let glue = seq![seq![44u8]];
                            lemma_elided_flat_prefix(ns, i + 1, n as int, false);
                            lemma_total_len_one(seq![44u8]);
                            lemma_total_len_concat(elided_flat(ns, i as int, false), glue);
                            lemma_wrote_fitting(oa, *o, glue);
                            lemma_wrote_pieces_concat(o1, oa, *o, elided_flat(ns, i as int, false), glue);
                            assert(elided_flat(ns, i as int, false) + glue =~= elided_flat(ns, i + 1, false));
                        }
                    }
                } else {
                    let ghost glue = if i > 0 {
                        seq![seq![44u8, 32u8]]
                    } else {
                        Seq::<Seq<u8>>::empty()
                    };
                    if i > 0 {
                        o.push_str(&COMMA_SPACE);
                        proof {
                            assert(COMMA_SPACE@ =~= seq![44u8, 32u8]);
                        }
                    } else {
                        proof {
                            lemma_wrote_nothing(oa);
                        }
                    }
                    let ghost od = *o;
                    proof {
                        if flat {
                            let ap = node_flat(ns[i as int]);
                            assert(node_flat_ok(ns[i as int]));
                            lemma_node_flat_nonempty(ns[i as int]);
                            lemma_elided_flat_prefix(ns, i + 1, n as int, false);
                            lemma_total_len_concat(glue, ap);
                            if i > 0 {
                                lemma_total_len_concat(elided_flat(ns, i as int, false), glue);
                                lemma_total_len_concat(elided_flat(ns, i as int, false) + glue, ap);
                                lemma_total_len_one(seq![44u8, 32u8]);
                                lemma_wrote_fitting(oa, od, glue);
                            } else {
                                assert(elided_flat(ns, 1, false) == ap);
                            }
                        }
                    }
                    self.elements[i].format(o, ctx, Ghost(c));
                    proof {
                        if flat {
                            let ap = node_flat(ns[i as int]);
                            lemma_wrote_fitting(od, *o, ap);
                            lemma_wrote_pieces_concat(oa, od, *o, glue, ap);
                            lemma_wrote_pieces_concat(o1, oa, *o, elided_flat(ns, i as int, false), glue + ap);
                            if i > 0 {
                                assert(elided_flat(ns, i as int, false) + (glue + ap) =~= elided_flat(ns, i + 1, false));
                            } else {
                                assert(elided_flat(ns, 0, false) + (glue + ap) =~= elided_flat(ns, 1, false));
                            }
                            lemma_total_len_concat(elided_flat(ns, i as int, false), glue + ap);
                        }
                    }
                }
                i = i + 1;
            }
            let ghost o2 = *o;
            if let Some(closing) = &self.closing {
                o.push_str(closing.as_slice());
            } else {
                proof {
                    lemma_wrote_nothing(o2);
                }
            }
            proof {
                if flat {
                    lemma_wrote_pieces_concat(o0, ok, o1, kp, lp);
                    lemma_wrote_pieces_concat(o0, o1, o2, kp + lp, cf);
                    lemma_wrote_pieces_concat(o0, o2, *o, kp + lp + cf, rp);
                }
            }
        } else {
            match &self.opening {
                Some(opening) => o.push_str(opening.as_slice()),
                None => o.push_str(&LBRACKET),
            }
            o.indent();
            let mut i: usize = 0;
            while i < n
                invariant
                    n == self.elements@.len(),
                    ready(*o, *ctx, c),
                    advanced(*old(o), *o, *ctx, c),
                    self.ok_in(c, ctx.heredoc_map@),
                decreases n - i,
            {
                let element = &self.elements[i];
                o.break_line(ctx, Ghost(c));
                element.leading_trivia.format(o, ctx, EmptyLineHandling::Trim { start: i == 0, end: false }, Ghost(c));
                o.put_indent_if_needed();
                element.format(o, ctx, Ghost(c));
                if i + 1 < n {
                    o.push(44u8);
                }
                element.trailing_trivia.format(o);
                i = i + 1;
            }
            o.write_trivia_at_virtual_end(ctx, &self.virtual_end, true, n == 0, Ghost(c));
            o.dedent();
            o.break_line(ctx, Ghost(c));
            o.put_indent_if_needed();
            match &self.closing {
                Some(closing) => o.push_str(closing.as_slice()),
                None => o.push_str(&RBRACKET),
            }
        }
    }
}

/// An element without text: the rest that `a in b,` leaves implicit.
fn is_implicit_element(n: &Node) -> (b: bool)
    ensures
        b == elided(*n, false),
{
    match &n.kind {
        Kind::Atom(atom) => atom.is_implicit_value(),
        _ => false,
    }
}

} // verus!
