use vstd::prelude::*;

use crate::fmt::flat::{
    budget, elements_flat, joined, kind_flat, kind_flat_ok, lemma_elements_flat_prefix, lemma_node_flat_nonempty,
    lemma_total_len_concat, lemma_wrote_fitting, node_flat, node_flat_ok, total_len,
};
use crate::fmt::output::{
    advanced, heredoc_measure, lemma_pushes_one, ready, spaces, wrote_pieces, FormatContext, Output,
};
use crate::fmt::shape::Shape;
use crate::fmt::text::{opt_len, opt_view, spec_opt_len, LBRACKET, RBRACKET};
use crate::fmt::trivia::EmptyLineHandling;

use super::arguments::{fits_own_line, trailing_text, write_node_line};
use super::{Heredoc, Kind, Node, VirtualEnd};

verus! {

broadcast use crate::fmt::growth::group_output_growth;

/// `[a, b]`, `%w[a b]`, or elements without brackets.
#[derive(Debug)]
pub struct Array {
    pub shape: Shape,
    pub opening: Option<Vec<u8>>,
    pub closing: Option<Vec<u8>>,
    pub elements: Vec<Node>,
    pub virtual_end: Option<VirtualEnd>,
}

impl Array {
    /// Besides the heredocs of its elements: an array without brackets holds an element.
    pub open spec fn ok_in(&self, c: int, m: Map<usize, Heredoc>) -> bool
        decreases self,
    {
        &&& forall|i: int| 0 <= i < self.elements@.len() ==> (#[trigger] self.elements@[i]).ok_in(c, m)
        &&& self.opening is None ==> self.elements@.len() > 0
        &&& self.opening matches Some(op) ==> op@.len() > 0
    }

    /// Percent literals separate their elements with spaces alone.
    pub open spec fn spec_separator(&self) -> Seq<u8> {
        match self.opening {
            Some(op) => if op@.len() > 0 && op@[0] == 37u8 {
                Seq::empty()
            } else {
                seq![44u8]
            },
            None => seq![44u8],
        }
    }

    pub fn new(opening: Option<Vec<u8>>, closing: Option<Vec<u8>>) -> (a: Array)
        requires
            spec_opt_len(opening) + spec_opt_len(closing) <= usize::MAX,
        ensures
            a.shape == (Shape::Inline { len: (spec_opt_len(opening) + spec_opt_len(closing)) as usize }),
            a.opening == opening,
            a.closing == closing,
            a.elements@.len() == 0,
            a.virtual_end is None,
    {
        let opening_len = opt_len(&opening);
        let closing_len = opt_len(&closing);
        let shape = Shape::inline(opening_len + closing_len);
        Array { shape, opening, closing, elements: Vec::new(), virtual_end: None }
    }

    /// `,`, or nothing for percent literals such as `%w[...]`.
    pub fn separator(&self) -> (s: &'static [u8])
        requires
            self.opening matches Some(op) ==> op@.len() > 0,
        ensures
            s@ == self.spec_separator(),
    {
        if let Some(opening) = &self.opening {
            if opening[0] == 37u8 {
                return &[];
            }
        }
        &[44u8]
    }

    pub fn append_element(&mut self, element: Node)
        requires
            old(self).opening matches Some(op) ==> op@.len() > 0,
            old(self).shape.size() + 2 + element.shape.size() <= usize::MAX,
        ensures
            // the separator and a space before every element but the first
            final(self).shape == if old(self).elements@.len() > 0 {
                old(self).shape.inserted(
                    Shape::Inline { len: (old(self).spec_separator().len() + 1) as usize },
                ).inserted(element.shape)
            } else {
                old(self).shape.inserted(element.shape)
            },
            final(self).elements@ == old(self).elements@.push(element),
            final(self).opening == old(self).opening,
            final(self).closing == old(self).closing,
            final(self).virtual_end == old(self).virtual_end,
    {
        if self.elements.len() > 0 {
            let sep_len = self.separator().len() + 1;
            self.shape.insert(&Shape::inline(sep_len));
        }
        self.shape.insert(&element.shape);
        self.elements.push(element);
    }

    pub fn set_virtual_end(&mut self, end: Option<VirtualEnd>)
        requires
            match end {
                Some(e) => old(self).shape.insert_fits(e.shape),
                None => true,
            },
        ensures
            final(self).shape == match end {
                Some(e) => old(self).shape.inserted(e.shape),
                None => old(self).shape,
            },
            final(self).virtual_end == end,
            final(self).elements == old(self).elements,
            final(self).opening == old(self).opening,
            final(self).closing == old(self).closing,
    {
        if let Some(e) = &end {
            self.shape.insert(&e.shape);
        }
        self.virtual_end = end;
    }

    /// The first `i` elements one per line: each after a line break and `indent`
    /// spaces, with its separator and its comment.
    pub open spec fn vertical_text(&self, indent: nat, i: int) -> Seq<u8>
        decreases i,
    {
        if i <= 0 || i > self.elements@.len() {
            Seq::empty()
        } else {
            self.vertical_text(indent, i - 1) + seq![10u8] + spaces(indent) + joined(
                node_flat(self.elements@[i - 1]),
            ) + self.spec_separator() + trailing_text(self.elements@[i - 1])
        }
    }

    /// An array that does not fit on the line at `o`, without comments before its end,
    /// whose elements can each go on a line of its own one level deeper, with no heredoc
    /// waiting.
    pub open spec fn vertical_ok(&self, o: Output) -> bool {
        &&& !self.shape.spec_fits_in_one_line(o.remaining_width as int)
        &&& self.virtual_end is None
        &&& o.heredoc_queue@.len() == 0
        &&& o.indent < o.config.line_width
        &&& o.indent + o.config.indent_size <= usize::MAX
        &&& forall|i: int|
            0 <= i < self.elements@.len() ==> fits_own_line(
                #[trigger] self.elements@[i],
                o.indent + o.config.indent_size,
                o.config.line_width as int,
            )
    }

    /// Writes the opening, then each element on a line of its own one level deeper with
    /// its separator and comment, then the closing on a line of its own.
    #[verifier::spinoff_prover]
    fn format_vertically(&self, o: &mut Output, ctx: &FormatContext, Ghost(c): Ghost<int>)
        requires
            ready(*old(o), *ctx, c),
            self.ok_in(c, ctx.heredoc_map@),
        ensures
            advanced(*old(o), *final(o), *ctx, c),
            self.vertical_ok(*old(o)) ==> final(o).buffer@ == old(o).buffer@ + old(o).indent_prefix() + opt_view(
                self.opening,
            ).unwrap_or(LBRACKET@) + self.vertical_text(
                (old(o).indent + old(o).config.indent_size) as nat,
                self.elements@.len() as int,
            ) + seq![10u8] + spaces(old(o).indent as nat) + opt_view(self.closing).unwrap_or(RBRACKET@),
        decreases heredoc_measure(c), 2int, self, 0int,
    {
        let ghost o0 = *o;
        let n = self.elements.len();
        let ghost vertical = self.vertical_ok(o0);
        let ghost ind = (o0.indent + o0.config.indent_size) as nat;
        let ghost open_text = opt_view(self.opening).unwrap_or(LBRACKET@);
        match &self.opening {
            Some(opening) => o.push_str(opening.as_slice()),
            None => o.push_str(&LBRACKET),
        }
        o.indent();
        let ghost o1 = *o;
        proof {
            if vertical {
                lemma_pushes_one(o0.text_state(), o0.config.line_width as int, o0.indent as nat, open_text);
                assert(o1.buffer@ =~= o0.buffer@ + o0.indent_prefix() + open_text + self.vertical_text(ind, 0));
            }
        }
        let mut i: usize = 0;
        while i < n
            invariant
                n == self.elements@.len(),
                ready(*o, *ctx, c),
                advanced(*old(o), *o, *ctx, c),
                self.ok_in(c, ctx.heredoc_map@),
                self.opening matches Some(op) ==> op@.len() > 0,
                vertical == self.vertical_ok(o0),
                ind == (o0.indent + o0.config.indent_size) as nat,
                vertical ==> {
                    &&& self.vertical_ok(o0)
                    &&& o.buffer@ == o1.buffer@ + self.vertical_text(ind, i as int)
                    &&& o.indent == ind
                    &&& o.config == o0.config
                    &&& o.heredoc_queue@.len() == 0
                    &&& 0 <= i <= n
                },
            decreases n - i,
        {
            proof {
                if vertical {
                    assert(fits_own_line(self.elements@[i as int], ind as int, o0.config.line_width as int));
                }
            }
            write_node_line(&self.elements[i], o, ctx, i == 0, true, self.separator(), Ghost(c));
            proof {
                if vertical {
                    assert(o.buffer@ =~= o1.buffer@ + self.vertical_text(ind, i + 1));
                }
            }
            i = i + 1;
        }
        o.write_trivia_at_virtual_end(ctx, &self.virtual_end, true, n == 0, Ghost(c));
        o.dedent();
        o.break_line(ctx, Ghost(c));
        let ghost o3 = *o;
        o.put_indent_if_needed();
        let ghost o4 = *o;
        match &self.closing {
            Some(closing) => o.push_str(closing.as_slice()),
            None => o.push_str(&RBRACKET),
        }
        proof {
            if vertical {
                let close_text = opt_view(self.closing).unwrap_or(RBRACKET@);
                lemma_pushes_one(o3.text_state(), o3.config.line_width as int, o3.indent as nat, Seq::<u8>::empty());
                lemma_pushes_one(o4.text_state(), o4.config.line_width as int, o4.indent as nat, close_text);
                assert(o4.indent_prefix() =~= Seq::<u8>::empty());
                assert(o.buffer@ =~= o3.buffer@ + spaces(o0.indent as nat) + close_text);
            }
        }
    }

    /// Writes the array on one line where it fits, else one element per line; where
    /// it is made of parts that `kind_flat` describes and fits in the room left on the
    /// line, it is written flat, as `kind_flat` gives it.
    pub fn format(&self, o: &mut Output, ctx: &FormatContext, Ghost(c): Ghost<int>)
        requires
            ready(*old(o), *ctx, c),
            self.ok_in(c, ctx.heredoc_map@),
        ensures
            advanced(*old(o), *final(o), *ctx, c),
            kind_flat_ok(Kind::Array(*self)) && total_len(kind_flat(Kind::Array(*self))) <= budget(
                *old(o),
            ) ==> wrote_pieces(*old(o), *final(o), kind_flat(Kind::Array(*self))),
            self.vertical_ok(*old(o)) ==> final(o).buffer@ == old(o).buffer@ + old(o).indent_prefix() + opt_view(
                self.opening,
            ).unwrap_or(LBRACKET@) + self.vertical_text(
                (old(o).indent + old(o).config.indent_size) as nat,
                self.elements@.len() as int,
            ) + seq![10u8] + spaces(old(o).indent as nat) + opt_view(self.closing).unwrap_or(RBRACKET@),
        decreases heredoc_measure(c), 2int, self, 1int,
    {
        let ghost o0 = *o;
        let ghost es = self.elements@;
        let ghost sep = self.spec_separator();
        let ghost flat = kind_flat_ok(Kind::Array(*self)) && total_len(kind_flat(Kind::Array(*self)))
            <= budget(o0);
        let n = self.elements.len();
        assert(flat ==> self.shape.spec_fits_in_one_line(o.remaining_width as int));
        if self.shape.fits_in_one_line(o.remaining_width) {
            let ghost op = opt_view(self.opening).unwrap_or(Seq::empty());
            let ghost cl = opt_view(self.closing).unwrap_or(Seq::empty());
            proof {
                if flat {
                    lemma_total_len_concat(seq![op], elements_flat(es, n as int, sep));
                    lemma_total_len_concat(seq![op] + elements_flat(es, n as int, sep), seq![cl]);
                    assert(total_len(seq![op]) == op.len()) by {
                        reveal_with_fuel(total_len, 2);
                    }
                    assert(total_len(seq![cl]) == cl.len()) by {
                        reveal_with_fuel(total_len, 2);
                    }
                }
            }
            if let Some(opening) = &self.opening {
                o.push_str(opening.as_slice());
            }
            proof {
                if flat {
                    lemma_wrote_fitting(o0, *o, seq![op]);
                }
            }
            let ghost o1 = *o;
            let mut i: usize = 0;
            while i < n
                invariant
                    n == self.elements@.len(),
                    es == self.elements@,
                    sep == self.spec_separator(),
                    ready(*o, *ctx, c),
                    advanced(*old(o), *o, *ctx, c),
                    self.ok_in(c, ctx.heredoc_map@),
                    self.opening matches Some(op) ==> op@.len() > 0,
                    0 <= i <= n,
                    flat ==> {
                        &&& kind_flat_ok(Kind::Array(*self))
                        &&& o1.wf()
                        &&& wrote_pieces(o1, *o, elements_flat(es, i as int, sep))
                        &&& budget(*o) == budget(o1) - total_len(elements_flat(es, i as int, sep))
                        &&& total_len(elements_flat(es, n as int, sep)) + cl.len() <= budget(o1)
                        &&& i > 0 ==> o.indent_prefix().len() == 0
                        &&& o1.indent_prefix().len() == 0
                    },
                decreases n - i,
            {
                let ghost oa = *o;
                let ghost glue = if i > 0 {
                    seq![sep, seq![32u8]]
                } else {
                    Seq::<Seq<u8>>::empty()
                };
                if i > 0 {
                    o.push_str(self.separator());
                    let ghost ob = *o;
                    o.push(32u8);
                    proof {
                        if flat {
                            super::super::output::lemma_wrote_pieces_concat(oa, ob, *o, seq![sep], seq![seq![32u8]]);
                            assert(seq![sep] + seq![seq![32u8]] =~= glue);
                        }
                    }
                } else {
                    proof {
                        super::super::output::lemma_wrote_nothing(oa);
                    }
                }
                let ghost od = *o;
                proof {
                    if flat {
                        let ep = node_flat(es[i as int]);
                        assert(node_flat_ok(es[i as int]));
                        lemma_node_flat_nonempty(es[i as int]);
                        lemma_elements_flat_prefix(es, sep, i + 1, n as int);
                        lemma_total_len_concat(glue, ep);
                        if i > 0 {
                            lemma_total_len_concat(elements_flat(es, i as int, sep), glue);
                            lemma_total_len_concat(elements_flat(es, i as int, sep) + glue, ep);
                            assert(total_len(glue) == sep.len() + 1) by {
                                reveal_with_fuel(total_len, 3);
                            }
                            lemma_wrote_fitting(oa, od, glue);
                        } else {
                            assert(elements_flat(es, 1, sep) == ep);
                        }
                    }
                }
                self.elements[i].format(o, ctx, Ghost(c));
                proof {
                    if flat {
                        let ep = node_flat(es[i as int]);
                        lemma_wrote_fitting(od, *o, ep);
                        super::super::output::lemma_wrote_pieces_concat(oa, od, *o, glue, ep);
                        super::super::output::lemma_wrote_pieces_concat(
                            o1,
                            oa,
                            *o,
                            elements_flat(es, i as int, sep),
                            glue + ep,
                        );
                        if i > 0 {
                            assert(elements_flat(es, i as int, sep) + (glue + ep) =~= elements_flat(
                                es,
                                i + 1,
                                sep,
                            ));
                        } else {
                            assert(elements_flat(es, 0, sep) + (glue + ep) =~= elements_flat(es, 1, sep));
                        }
                        lemma_total_len_concat(elements_flat(es, i as int, sep), glue + ep);
                    }
                }
                i = i + 1;
            }
            let ghost o2 = *o;
            if let Some(closing) = &self.closing {
                o.push_str(closing.as_slice());
            }
            proof {
                if flat {
                    super::super::output::lemma_wrote_pieces_concat(
                        o0,
                        o1,
                        o2,
                        seq![op],
                        elements_flat(es, n as int, sep),
                    );
                    super::super::output::lemma_wrote_pieces_concat(
                        o0,
                        o2,
                        *o,
                        seq![op] + elements_flat(es, n as int, sep),
                        seq![cl],
                    );
                }
            }
        } else {
            self.format_vertically(o, ctx, Ghost(c));
        }
    }
}

} // verus!
