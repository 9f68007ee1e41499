use vstd::prelude::*;

use crate::fmt::flat::{
    arguments_flat, budget, joined, lemma_wrote_fitting_all, kind_flat, kind_flat_ok, lemma_arguments_flat_prefix, lemma_node_flat_nonempty,
    lemma_total_len_concat, lemma_total_len_one, lemma_wrote_fitting, node_flat, node_flat_ok, total_len,
};
use crate::fmt::output::{
    advanced, heredoc_measure, lemma_wrote_nothing, lemma_wrote_pieces_concat, ready, spaces, wrote_pieces,
    FormatContext, Output,
};
use crate::fmt::shape::Shape;
use crate::fmt::text::COMMA_SPACE;
use crate::fmt::trivia::{lemma_leading_ends_at_line_start, leading_written, EmptyLineHandling};

use super::arguments::trailing_text;
use super::{Heredoc, Kind, Node, VirtualEnd};

verus! {

broadcast use crate::fmt::growth::group_output_growth;

/// `{ a: 1, b => 2 }`
#[derive(Debug)]
pub struct Hash {
    pub shape: Shape,
    pub opening: Vec<u8>,
    pub closing: Vec<u8>,
    pub elements: Vec<Node>,
    pub virtual_end: Option<VirtualEnd>,
}

impl Hash {
    pub open spec fn ok_in(&self, c: int, m: Map<usize, Heredoc>) -> bool
        decreases self,
    {
        forall|i: int| 0 <= i < self.elements@.len() ==> (#[trigger] self.elements@[i]).ok_in(c, m)
    }

    pub fn new(opening: Vec<u8>, closing: Vec<u8>, should_be_inline: bool) -> (h: Hash)
        requires
            opening@.len() + closing@.len() <= usize::MAX,
        ensures
            h.shape == if should_be_inline {
                Shape::Inline { len: (opening@.len() + closing@.len()) as usize }
            } else {
                Shape::Multilines
            },
            h.opening == opening,
            h.closing == closing,
            h.elements@.len() == 0,
            h.virtual_end is None,
    {
        let shape = if should_be_inline {
            Shape::inline(opening.len() + closing.len())
        } else {
            Shape::Multilines
        };
        Hash { shape, opening, closing, elements: Vec::new(), virtual_end: None }
    }

    pub fn append_element(&mut self, element: Node)
        requires
            old(self).shape.size() + 2 + element.shape.size() <= usize::MAX,
        ensures
            // the spaces inside the braces before the first element, `, ` before the others
            final(self).shape == old(self).shape.inserted(Shape::Inline { len: 2 }).inserted(element.shape),
            final(self).elements@ == old(self).elements@.push(element),
            final(self).opening == old(self).opening,
            final(self).closing == old(self).closing,
            final(self).virtual_end == old(self).virtual_end,
    {
        self.shape.insert(&Shape::inline(2));
        self.shape.insert(&element.shape);
        self.elements.push(element);
    }

    pub fn set_virtual_end(&mut self, end: Option<VirtualEnd>)
        requires
            match end {
                Some(e) => old(self).shape.insert_fits(e.shape),
                None => true,
            },
        ensures
            final(self).shape == match end {
                Some(e) => old(self).shape.inserted(e.shape),
                None => old(self).shape,
            },
            final(self).virtual_end == end,
            final(self).elements == old(self).elements,
            final(self).opening == old(self).opening,
            final(self).closing == old(self).closing,
    {
        if let Some(e) = &end {
            self.shape.insert(&e.shape);
        }
        self.virtual_end = end;
    }

    /// The comments and kept empty lines in front of element `i` on a line of its own at
    /// indentation `indent`; empty lines are trimmed at the start of the first.
    pub open spec fn element_leading(&self, i: int, indent: nat) -> Seq<u8> {
        let lines = self.elements@[i].leading_trivia.spec_lines();
        leading_written(lines, lines.len() as int, EmptyLineHandling::Trim { start: i == 0, end: false }, true, indent).0
    }

    /// Element `i` on a line of its own at indentation `indent`: a line break, the
    /// lines in front of it, the indentation, the element, a comma and its comment.
    pub open spec fn element_row(&self, i: int, indent: nat) -> Seq<u8> {
        seq![10u8] + self.element_leading(i, indent) + spaces(indent) + joined(node_flat(self.elements@[i]))
            + seq![44u8] + trailing_text(self.elements@[i])
    }

    /// The first `i` elements one per line at indentation `indent`.
    pub open spec fn vertical_text(&self, indent: nat, i: int) -> Seq<u8>
        decreases i,
    {
        if i <= 0 || i > self.elements@.len() {
            Seq::empty()
        } else {
            self.vertical_text(indent, i - 1) + self.element_row(i - 1, indent)
        }
    }

    /// An element that goes on a line of its own indented by `indent` in lines of
    /// `line_width`: made of parts that `kind_flat` describes and short enough for the
    /// line. Comments may stand before it and after it.
    pub open spec fn element_line_ok(e: Node, indent: int, line_width: int) -> bool {
        &&& kind_flat_ok(e.kind)
        &&& total_len(node_flat(e)) <= line_width - indent
    }

    /// A hash that does not fit on the line at `o`, without comments before its
    /// closing, whose elements can each go on a line of its own one level deeper, with
    /// nothing waiting to be written.
    pub open spec fn vertical_ok(&self, o: Output) -> bool {
        &&& !self.shape.spec_fits_in_one_line(o.remaining_width as int)
        &&& self.virtual_end is None
        &&& o.heredoc_queue@.len() == 0
        &&& o.indent + o.config.indent_size <= usize::MAX
        &&& forall|i: int|
            0 <= i < self.elements@.len() ==> Self::element_line_ok(
                #[trigger] self.elements@[i],
                o.indent + o.config.indent_size,
                o.config.line_width as int,
            )
    }

    /// Writes the hash on one line where it fits, else one pair per line; where it
    /// is made of parts that `kind_flat` describes and fits in the room left on the
    /// line, it is written flat. A hash that `vertical_ok` describes comes out as its
    /// opening, each element on a line of its own one level deeper followed by a comma
    /// and its comment, then its closing on a line of its own.
    #[verifier::spinoff_prover]
    #[verifier::rlimit(60)]
    pub fn format(&self, o: &mut Output, ctx: &FormatContext, Ghost(c): Ghost<int>)
        requires
            ready(*old(o), *ctx, c),
            self.ok_in(c, ctx.heredoc_map@),
        ensures
            advanced(*old(o), *final(o), *ctx, c),
            kind_flat_ok(Kind::Hash(*self)) && total_len(kind_flat(Kind::Hash(*self))) <= budget(
                *old(o),
            ) ==> wrote_pieces(*old(o), *final(o), kind_flat(Kind::Hash(*self))),
            self.vertical_ok(*old(o)) ==> {
                &&& final(o).buffer@ == old(o).buffer@ + old(o).indent_prefix() + self.opening@
                    + self.vertical_text(
                    (old(o).indent + old(o).config.indent_size) as nat,
                    self.elements@.len() as int,
                ) + seq![10u8] + spaces(old(o).indent as nat) + self.closing@
                &&& final(o).indent == old(o).indent
                &&& final(o).heredoc_queue@.len() == 0
            },
        decreases heredoc_measure(c), 2int, self, 1int,
    {
        let ghost o0 = *o;
        let ghost vert = self.vertical_ok(o0);
        let ghost ind2 = (o0.indent + o0.config.indent_size) as nat;
        let ghost es = self.elements@;
        let ghost flat = kind_flat_ok(Kind::Hash(*self)) && total_len(kind_flat(Kind::Hash(*self)))
            <= budget(o0);
        let n = self.elements.len();
        let ghost op = self.opening@;
        let ghost cl = self.closing@;
        let ghost inner = if n > 0 {
            seq![seq![32u8]] + arguments_flat(es, n as int) + seq![seq![32u8]]
        } else {
            Seq::<Seq<u8>>::empty()
        };
        proof {
            if flat {
                assert(kind_flat(Kind::Hash(*self)) =~= seq![op] + inner + seq![cl]);
                lemma_total_len_concat(seq![op], inner);
                lemma_total_len_concat(seq![op] + inner, seq![cl]);
                lemma_total_len_one(op);
                lemma_total_len_one(cl);
                lemma_total_len_one(seq![32u8]);
                if n > 0 {
                    lemma_total_len_concat(seq![seq![32u8]], arguments_flat(es, n as int));
                    lemma_total_len_concat(
                        seq![seq![32u8]] + arguments_flat(es, n as int),
                        seq![seq![32u8]],
                    );
                }
            }
        }
        assert(flat ==> self.shape.spec_fits_in_one_line(o.remaining_width as int));
        if self.shape.fits_in_one_line(o.remaining_width) {
            o.push_str(self.opening.as_slice());
            proof {
                if flat {
                    lemma_wrote_fitting(o0, *o, seq![op]);
                }
            }
            let ghost o1 = *o;
            if n > 0 {
                o.push(32u8);
                proof {
                    if flat {
                        lemma_wrote_fitting(o1, *o, seq![seq![32u8]]);
                    }
                }
                let ghost o2 = *o;
                let mut i: usize = 0;
                while i < n
                    invariant
                        n == self.elements@.len(),
                        es == self.elements@,
                        ready(*o, *ctx, c),
                        advanced(*old(o), *o, *ctx, c),
                        self.ok_in(c, ctx.heredoc_map@),
                        0 <= i <= n,
                        flat ==> {
                            &&& kind_flat_ok(Kind::Hash(*self))
                            &&& o2.wf()
                            &&& wrote_pieces(o2, *o, arguments_flat(es, i as int))
                            &&& budget(*o) == budget(o2) - total_len(arguments_flat(es, i as int))
                            &&& total_len(arguments_flat(es, n as int)) + 1 + cl.len() <= budget(o2)
                            &&& o.indent_prefix().len() == 0
                        },
                    decreases n - i,
                {
                    let ghost oa = *o;
                    let ghost glue = if i > 0 {
                        seq![seq![44u8, 32u8]]
                    } else {
                        Seq::<Seq<u8>>::empty()
                    };
                    if i > 0 {
                        o.push_str(&COMMA_SPACE);
                        proof {
                            assert(COMMA_SPACE@ =~= seq![44u8, 32u8]);
                        }
                    } else {
                        proof {
                            lemma_wrote_nothing(oa);
                        }
                    }
                    let ghost od = *o;
                    proof {
                        if flat {
                            let ep = node_flat(es[i as int]);
                            assert(node_flat_ok(es[i as int]));
                            lemma_node_flat_nonempty(es[i as int]);
                            lemma_arguments_flat_prefix(es, i + 1, n as int);
                            lemma_total_len_concat(glue, ep);
                            if i > 0 {
                                lemma_total_len_concat(arguments_flat(es, i as int), glue);
                                lemma_total_len_concat(arguments_flat(es, i as int) + glue, ep);
                                lemma_total_len_one(seq![44u8, 32u8]);
                                lemma_wrote_fitting(oa, od, glue);
                            } else {
                                assert(arguments_flat(es, 1) == ep);
                            }
                        }
                    }
                    self.elements[i].format(o, ctx, Ghost(c));
                    proof {
                        if flat {
                            let ep = node_flat(es[i as int]);
                            lemma_wrote_fitting(od, *o, ep);
                            lemma_wrote_pieces_concat(oa, od, *o, glue, ep);
                            lemma_wrote_pieces_concat(o2, oa, *o, arguments_flat(es, i as int), glue + ep);
                            if i > 0 {
                                assert(arguments_flat(es, i as int) + (glue + ep) =~= arguments_flat(
                                    es,
                                    i + 1,
                                ));
                            } else {
                                assert(arguments_flat(es, 0) + (glue + ep) =~= arguments_flat(es, 1));
                            }
                            lemma_total_len_concat(arguments_flat(es, i as int), glue + ep);
                        }
                    }
                    i = i + 1;
                }
                let ghost o3 = *o;
                o.push(32u8);
                proof {
                    if flat {
                        lemma_wrote_pieces_concat(o1, o2, o3, seq![seq![32u8]], arguments_flat(es, n as int));
                        lemma_wrote_pieces_concat(
                            o1,
                            o3,
                            *o,
                            seq![seq![32u8]] + arguments_flat(es, n as int),
                            seq![seq![32u8]],
                        );
                    }
                }
            } else {
                proof {
                    lemma_wrote_nothing(o1);
                }
            }
            let ghost o4 = *o;
            o.push_str(self.closing.as_slice());
            proof {
                if flat {
                    lemma_wrote_pieces_concat(o0, o1, o4, seq![op], inner);
                    lemma_wrote_pieces_concat(o0, o4, *o, seq![op] + inner, seq![cl]);
                }
            }
        } else {
            o.push_str(self.opening.as_slice());
            o.indent();
            let ghost o1 = *o;
            let mut i: usize = 0;
            while i < n
                invariant
                    n == self.elements@.len(),
                    es == self.elements@,
                    ready(*o, *ctx, c),
                    advanced(*old(o), *o, *ctx, c),
                    self.ok_in(c, ctx.heredoc_map@),
                    0 <= i <= n,
                    vert ==> {
                        &&& ind2 == o1.indent
                        &&& o.buffer@ == o1.buffer@ + self.vertical_text(ind2, i as int)
                        &&& o.indent == ind2
                        &&& o.config == o1.config
                        &&& o.heredoc_queue@.len() == 0
                        &&& forall|j: int|
                            0 <= j < es.len() ==> Self::element_line_ok(
                                #[trigger] es[j],
                                ind2 as int,
                                o1.config.line_width as int,
                            )
                    },
                decreases n - i,
            {
                let element = &self.elements[i];
                o.break_line(ctx, Ghost(c));
                element.leading_trivia.format(o, ctx, EmptyLineHandling::Trim { start: i == 0, end: false }, Ghost(c));
                let ghost od = *o;
                proof {
                    if vert {
                        assert(Self::element_line_ok(es[i as int], ind2 as int, o1.config.line_width as int));
                        lemma_leading_ends_at_line_start(
                            es[i as int].leading_trivia.spec_lines(),
                            es[i as int].leading_trivia.spec_lines().len() as int,
                            EmptyLineHandling::Trim { start: i == 0, end: false },
                            ind2,
                        );
                        assert(od.at_line_start());
                        lemma_node_flat_nonempty(es[i as int]);
                        lemma_wrote_fitting_all();
                    }
                }
                element.format(o, ctx, Ghost(c));
                o.push(44u8);
                element.trailing_trivia.format(o);
                proof {
                    if vert {
                        assert(o.buffer@ =~= o1.buffer@ + self.vertical_text(ind2, i + 1));
                    }
                }
                i = i + 1;
            }
            o.write_trivia_at_virtual_end(ctx, &self.virtual_end, true, n == 0, Ghost(c));
            o.dedent();
            o.break_line(ctx, Ghost(c));
            o.push_str(self.closing.as_slice());
            proof {
                if vert {
                    assert(o.buffer@ =~= o0.buffer@ + o0.indent_prefix() + self.opening@ + self.vertical_text(
                        ind2,
                        n as int,
                    ) + seq![10u8] + spaces(o0.indent as nat) + self.closing@);
                }
            }
        }
    }
}

/// The lines of the first `i` elements begin the lines of the first `n`.
proof fn lemma_vertical_text_prefix(h: Hash, i: int, n: int, indent: nat)
    requires
        0 <= i <= n <= h.elements@.len(),
    ensures
        h.vertical_text(indent, i).is_prefix_of(h.vertical_text(indent, n)),
    decreases n - i,
{
    if i < n {
        lemma_vertical_text_prefix(h, i, n - 1, indent);
        let a = h.vertical_text(indent, i);
        let b = h.vertical_text(indent, n - 1);
        let c = h.vertical_text(indent, n);
        assert(c == b + h.element_row(n - 1, indent));
        assert(c.subrange(0, b.len() as int) =~= b);
        assert(c.subrange(0, a.len() as int) =~= b.subrange(0, a.len() as int));
    }
}

/// A hash laid out one element per line writes a comma after each element, before
/// any comment that follows it: element `i` stands, after the lines of the elements
/// before it, as a line break, the comments in front of it, the indentation, the
/// element's text, `,` and then its comment, if any.
pub proof fn law_hash_comma_after_each_element(h: Hash, indent: nat, i: int)
    requires
        0 <= i < h.elements@.len(),
    ensures
        ({
            let t = h.vertical_text(indent, h.elements@.len() as int);
            let at = h.vertical_text(indent, i).len() as int;
            let e = h.elements@[i];
            let line = h.element_row(i, indent);
            let comma_at = at + 1 + h.element_leading(i, indent).len() + indent + joined(node_flat(e)).len();
            &&& line == seq![10u8] + h.element_leading(i, indent) + spaces(indent) + joined(node_flat(e))
                + seq![44u8] + trailing_text(e)
            &&& at + line.len() <= t.len()
            &&& t.subrange(at, at + line.len() as int) == line
            &&& t[comma_at] == 44u8
            &&& t.subrange(comma_at + 1, at + line.len() as int) == trailing_text(e)
        }),
{
    let n = h.elements@.len() as int;
    let e = h.elements@[i];
    let before = h.vertical_text(indent, i);
    let upto = h.vertical_text(indent, i + 1);
    let all = h.vertical_text(indent, n);
    let line = h.element_row(i, indent);
    assert(upto == before + line);
    lemma_vertical_text_prefix(h, i + 1, n, indent);
    let more = all.subrange(upto.len() as int, all.len() as int);
    assert(all =~= before + line + more);
    assert(all.subrange(before.len() as int, (before.len() + line.len()) as int) =~= line);
    let lead = seq![10u8] + h.element_leading(i, indent) + spaces(indent) + joined(node_flat(e));
    assert(line =~= lead + seq![44u8] + trailing_text(e));
    let k = lead.len() as int;
    assert(line[k] == 44u8);
    assert(all[before.len() + k] == line[k]);
    assert(line.subrange(k + 1, line.len() as int) =~= trailing_text(e));
    assert(all.subrange(before.len() + k + 1, (before.len() + line.len()) as int) =~= line.subrange(
        k + 1,
        line.len() as int,
    ));
}

} // verus!
