use vstd::prelude::*;

use crate::fmt::output::{advanced, heredoc_measure, ready, spaces, wrote_pieces, FormatContext, Output};
use crate::fmt::shape::Shape;
use crate::fmt::trivia::EmptyLineHandling;

use crate::fmt::flat::{
    budget, joined, kind_flat, kind_flat_ok, lemma_node_flat_nonempty, lemma_wrote_fitting, lines_ok,
    lines_text, node_flat, node_flat_ok, total_len,
};

use super::{Heredoc, Kind, Node, VirtualEnd};

verus! {

broadcast use crate::fmt::growth::group_output_growth;

/// A sequence of statements, one per line.
#[derive(Debug)]
pub struct Statements {
    pub shape: Shape,
    pub nodes: Vec<Node>,
    pub virtual_end: Option<VirtualEnd>,
}

/// The shape of statements after one more: a single statement keeps its own shape,
/// unless it opens a heredoc.
pub open spec fn shape_after_append(shape: Shape, count: nat, node: Node) -> Shape {
    if count == 0 && !(node.kind is HeredocOpening) {
        node.shape
    } else {
        Shape::Multilines
    }
}

/// Statements that show nothing, or that can each be written flat on a line of their
/// own one level deeper than `o`, with nothing waiting to be written.
pub open spec fn block_ok(s: Statements, o: Output) -> bool {
    &&& o.heredoc_queue@.len() == 0
    &&& o.indent + o.config.indent_size <= usize::MAX
    &&& !s.shape.spec_is_empty() ==> lines_ok(s, o.config.line_width - (o.indent + o.config.indent_size))
}

/// The statements one per line at indentation `indent`, each after a line break, or
/// nothing where they show nothing.
pub open spec fn block_lines(s: Statements, indent: nat) -> Seq<u8> {
    if s.shape.spec_is_empty() {
        Seq::empty()
    } else {
        seq![10u8] + spaces(indent) + lines_text(s.nodes@, s.nodes@.len() as int, seq![10u8] + spaces(indent))
    }
}

impl Statements {
    pub open spec fn ok_in(&self, c: int, m: Map<usize, Heredoc>) -> bool
        decreases self,
    {
        forall|i: int| 0 <= i < self.nodes@.len() ==> (#[trigger] self.nodes@[i]).ok_in(c, m)
    }

    pub fn new() -> (s: Statements)
        ensures
            s.shape == (Shape::Inline { len: 0 }),
            s.nodes@.len() == 0,
            s.virtual_end is None,
    {
        Statements { shape: Shape::inline(0), nodes: Vec::new(), virtual_end: None }
    }

    pub fn append_node(&mut self, node: Node)
        ensures
            final(self).shape == shape_after_append(old(self).shape, old(self).nodes@.len(), node),
            final(self).nodes@ == old(self).nodes@.push(node),
            final(self).virtual_end == old(self).virtual_end,
    {
        let is_heredoc = match &node.kind {
            Kind::HeredocOpening(_) => true,
            _ => false,
        };
        if self.nodes.len() == 0 && !is_heredoc {
            self.shape = node.shape;
        } else {
            self.shape = Shape::Multilines;
        }
        self.nodes.push(node);
    }

    pub fn set_virtual_end(&mut self, end: Option<VirtualEnd>)
        requires
            match end {
                Some(e) => old(self).shape.concat_fits(e.shape),
                None => true,
            },
        ensures
            final(self).shape == match end {
                Some(e) => old(self).shape.concat(e.shape),
                None => old(self).shape,
            },
            final(self).virtual_end == end,
            final(self).nodes == old(self).nodes,
    {
        if let Some(e) = &end {
            self.shape.append(&e.shape);
        }
        self.virtual_end = end;
    }

    pub fn shape(&self) -> (s: Shape)
        ensures
            s == self.shape,
    {
        self.shape
    }

    pub fn is_empty(&self) -> (b: bool)
        ensures
            b == (self.nodes@.len() == 0 && self.virtual_end is None),
    {
        self.nodes.len() == 0 && self.virtual_end.is_none()
    }

    /// Where the statements show something, writes them one level deeper, starting on
    /// the next line; statements that can each be written flat there come out as
    /// `block_lines`, with the indentation as it was and nothing waiting to be written.
    pub fn format_block(&self, o: &mut Output, ctx: &FormatContext, Ghost(c): Ghost<int>)
        requires
            ready(*old(o), *ctx, c),
            self.ok_in(c, ctx.heredoc_map@),
        ensures
            advanced(*old(o), *final(o), *ctx, c),
            block_ok(*self, *old(o)) ==> {
                &&& final(o).buffer@ == old(o).buffer@ + block_lines(
                    *self,
                    old(o).indent as nat + old(o).config.indent_size as nat,
                )
                &&& final(o).indent == old(o).indent
                &&& final(o).heredoc_queue@.len() == 0
            },
        decreases heredoc_measure(c), 2int, self, 2int,
    {
        let ghost o0 = *o;
        let ghost inner = spaces((o0.indent + o0.config.indent_size) as nat);
        if !self.shape.is_empty() {
            o.indent();
            o.break_line(ctx, Ghost(c));
            let ghost o1 = *o;
            self.format(o, ctx, true, Ghost(c));
            o.dedent();
            proof {
                if block_ok(*self, o0) {
                    assert(o1.indent_prefix() == inner);
                    assert(o.buffer@ =~= o0.buffer@ + block_lines(*self, o0.indent as nat + o0.config.indent_size as nat));
                }
            }
        } else {
            proof {
                assert(o0.buffer@ + block_lines(*self, o0.indent as nat + o0.config.indent_size as nat) =~= o0.buffer@);
            }
        }
    }

    /// Writes the statements on one line when they fit there and a block is not asked
    /// for; otherwise one per line, with their comments. Statements that can each be
    /// written flat are written one per line: the flat texts with a line break and the
    /// indentation between each two.
    pub fn format(&self, o: &mut Output, ctx: &FormatContext, block_always: bool, Ghost(c): Ghost<int>)
        requires
            ready(*old(o), *ctx, c),
            self.ok_in(c, ctx.heredoc_map@),
        ensures
            advanced(*old(o), *final(o), *ctx, c),
            !block_always && kind_flat_ok(Kind::Statements(*self)) && total_len(
                kind_flat(Kind::Statements(*self)),
            ) <= budget(*old(o)) ==> wrote_pieces(
                *old(o),
                *final(o),
                kind_flat(Kind::Statements(*self)),
            ),
            (!(self.shape is Inline) || block_always) && lines_ok(
                *self,
                old(o).config.line_width - old(o).indent,
            ) && old(o).heredoc_queue@.len() == 0 && total_len(node_flat(self.nodes@[0])) <= budget(
                *old(o),
            ) ==> {
                &&& final(o).buffer@ == old(o).buffer@ + old(o).indent_prefix() + lines_text(
                    self.nodes@,
                    self.nodes@.len() as int,
                    seq![10u8] + spaces(old(o).indent as nat),
                )
                &&& final(o).heredoc_queue@.len() == 0
                &&& final(o).indent == old(o).indent
            },
            self.nodes@.len() == 0 && self.virtual_end is None ==> *final(o) == *old(o),
        decreases heredoc_measure(c), 2int, self, 1int,
    {
        if self.shape.is_inline() && !block_always {
            if self.nodes.len() > 0 {
                self.nodes[0].format(o, ctx, Ghost(c));
            }
            return;
        }
        let ghost o0 = *o;
        let ghost ns = self.nodes@;
        let ghost sep = seq![10u8] + spaces(o0.indent as nat);
        let ghost lines = lines_ok(*self, o0.config.line_width - o0.indent) && o0.heredoc_queue@.len()
            == 0 && total_len(node_flat(self.nodes@[0])) <= budget(o0);
        let n = self.nodes.len();
        let mut i: usize = 0;
        while i < n
            invariant
                n == self.nodes@.len(),
                ns == self.nodes@,
                sep == seq![10u8] + spaces(o0.indent as nat),
                ready(*o, *ctx, c),
                advanced(*old(o), *o, *ctx, c),
                self.ok_in(c, ctx.heredoc_map@),
                0 <= i <= n,
                i == 0 ==> *o == *old(o),
                lines ==> {
                    &&& lines_ok(*self, o0.config.line_width - o0.indent)
                    &&& total_len(node_flat(ns[0])) <= budget(o0)
                    &&& o0.wf()
                    &&& i > 0 ==> o.buffer@ == o0.buffer@ + o0.indent_prefix() + lines_text(
                        ns,
                        i as int,
                        sep,
                    )
                    &&& o.heredoc_queue@.len() == 0
                    &&& o.indent == o0.indent
                    &&& o.config == o0.config
                    &&& i == 0 ==> *o == o0
                },
            decreases n - i,
        {
            let ghost oa = *o;
            if i > 0 {
                o.break_line(ctx, Ghost(c));
            }
            let ghost ob = *o;
            proof {
                if lines && i > 0 {
                    assert(ob.buffer@ == oa.buffer@.push(10u8));
                }
            }
            let node = &self.nodes[i];
            node.leading_trivia.format(o, ctx, EmptyLineHandling::Trim { start: i == 0, end: false }, Ghost(c));
            let ghost oc = *o;
            proof {
                if lines {
                    assert(node_flat_ok(ns[i as int]));
                    lemma_node_flat_nonempty(ns[i as int]);
                    if i > 0 {
                        assert(oc.at_line_start());
                        assert(budget(oc) == o0.config.line_width - o0.indent);
                    }
                }
            }
            node.format(o, ctx, Ghost(c));
            node.trailing_trivia.format(o);
            proof {
                if lines {
                    lemma_wrote_fitting(oc, *o, node_flat(ns[i as int]));
                    if i > 0 {
                        assert(oc.indent_prefix() == spaces(o0.indent as nat));
                        assert(oc == ob);
                        assert(o.buffer@ == oc.buffer@ + oc.indent_prefix() + joined(node_flat(ns[i as int])));
                        assert(lines_text(ns, i + 1, sep) == lines_text(ns, i as int, sep) + sep + joined(
                            node_flat(ns[i as int]),
                        ));
                        let prev = o0.buffer@ + o0.indent_prefix() + lines_text(ns, i as int, sep);
                        assert(oa.buffer@ == prev);
                        assert(ob.buffer@ =~= prev + seq![10u8]);
                        assert(o.buffer@ =~= prev + seq![10u8] + spaces(o0.indent as nat) + joined(
                            node_flat(ns[i as int]),
                        ));
                        assert(o.buffer@ =~= o0.buffer@ + o0.indent_prefix() + lines_text(ns, i + 1, sep));
                    } else {
                        assert(o.buffer@ =~= o0.buffer@ + o0.indent_prefix() + lines_text(ns, 1, sep));
                    }
                }
            }
            i = i + 1;
        }
        o.write_trivia_at_virtual_end(ctx, &self.virtual_end, n > 0, n == 0, Ghost(c));
    }
}

} // verus!
