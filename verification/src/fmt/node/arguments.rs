use vstd::prelude::*;

use crate::fmt::output::{
    advanced, heredoc_measure, lemma_draft_rollback_restores, lemma_pushes_one, ready, spaces, wrote_pieces,
    DraftResult, FormatContext, Output,
};
use crate::fmt::shape::{ArgumentStyle, Shape};
use crate::fmt::flat::{
    arguments_flat, arguments_flat_ok, arguments_pieces, budget, joined, lemma_arguments_flat_prefix, opening_piece,
    lemma_node_flat_nonempty, lemma_total_len_concat, lemma_total_len_one,
    kind_flat_ok, lemma_wrote_fitting, node_flat, node_flat_ok, total_len,
};
use crate::fmt::text::{opt_len, opt_view, spec_opt_len, COMMA, COMMA_SPACE};
use super::string_like::opt_piece;
use crate::fmt::trivia::EmptyLineHandling;

use super::{Heredoc, Node, VirtualEnd};

verus! {

broadcast use crate::fmt::growth::group_output_growth;

/// Some node of `ns` ends with a comment, so that nothing can follow it on its line.
pub open spec fn has_line_end(ns: Seq<Node>) -> bool {
    exists|j: int| 0 <= j < ns.len() && (#[trigger] ns[j]).shape is LineEnd
}

/// What follows a node on a line of its own: ` ` and its comment, if it has one.
pub open spec fn trailing_text(n: Node) -> Seq<u8> {
    match n.trailing_trivia.spec_comment() {
        Some(comment) => seq![32u8] + comment@,
        None => Seq::empty(),
    }
}

/// A node that goes on a line of its own indented by `indent` in lines of
/// `line_width`: no comment before it, made of parts that `kind_flat` describes (a
/// comment may follow it), and short enough for the line.
pub open spec fn fits_own_line(n: Node, indent: int, line_width: int) -> bool {
    &&& n.leading_trivia.spec_lines().len() == 0
    &&& kind_flat_ok(n.kind)
    &&& total_len(node_flat(n)) <= line_width - indent
}

impl Arguments {
    /// The comma after argument `i` on its own line: after each but the last, and after
    /// the last too where the syntax allows it.
    pub open spec fn comma_after(&self, i: int) -> Seq<u8> {
        if i + 1 < self.nodes@.len() || self.last_comma_allowed {
            seq![44u8]
        } else {
            Seq::empty()
        }
    }

    /// The first `i` arguments one per line: each after a line break and `indent`
    /// spaces, with its comma and its comment.
    pub open spec fn vertical_text(&self, indent: nat, i: int) -> Seq<u8>
        decreases i,
    {
        if i <= 0 || i > self.nodes@.len() {
            Seq::empty()
        } else {
            self.vertical_text(indent, i - 1) + seq![10u8] + spaces(indent) + joined(node_flat(self.nodes@[i - 1]))
                + self.comma_after(i - 1) + trailing_text(self.nodes@[i - 1])
        }
    }

    /// Arguments in brackets that a comment keeps off one line, each of which can go on
    /// a line of its own, written from `o` with no heredoc waiting.
    pub open spec fn vertical_ok(&self, o: Output) -> bool {
        &&& self.opening is Some
        &&& self.virtual_end is None
        &&& has_line_end(self.nodes@)
        &&& o.heredoc_queue@.len() == 0
        &&& o.indent + o.config.indent_size <= usize::MAX
        &&& forall|i: int|
            0 <= i < self.nodes@.len() ==> fits_own_line(
                #[trigger] self.nodes@[i],
                o.indent + o.config.indent_size,
                o.config.line_width as int,
            )
    }
}

/// Arguments of a call, with or without parentheses or brackets.
#[derive(Debug)]
pub struct Arguments {
    pub opening: Option<Vec<u8>>,
    pub closing: Option<Vec<u8>>,
    pub shape: Shape,
    pub nodes: Vec<Node>,
    pub last_comma_allowed: bool,
    pub virtual_end: Option<VirtualEnd>,
}

impl Arguments {
    pub open spec fn ok_in(&self, c: int, m: Map<usize, Heredoc>) -> bool
        decreases self,
    {
        forall|i: int| 0 <= i < self.nodes@.len() ==> (#[trigger] self.nodes@[i]).ok_in(c, m)
    }

    pub fn new(opening: Option<Vec<u8>>, closing: Option<Vec<u8>>) -> (a: Arguments)
        requires
            spec_opt_len(opening) + spec_opt_len(closing) <= usize::MAX,
        ensures
            a.shape == (Shape::Inline { len: (spec_opt_len(opening) + spec_opt_len(closing)) as usize }),
            a.opening == opening,
            a.closing == closing,
            a.nodes@.len() == 0,
            a.last_comma_allowed,
            a.virtual_end is None,
    {
        let opening_len = opt_len(&opening);
        let closing_len = opt_len(&closing);
        Arguments {
            opening,
            closing,
            shape: Shape::inline(opening_len + closing_len),
            nodes: Vec::new(),
            last_comma_allowed: true,
            virtual_end: None,
        }
    }

    pub fn append_node(&mut self, node: Node)
        requires
            old(self).shape.size() + node.shape.size() + 2 <= usize::MAX,
        ensures
            // `, ` between arguments
            final(self).shape == if old(self).nodes@.len() > 0 {
                old(self).shape.inserted(node.shape).inserted(Shape::Inline { len: 2 })
            } else {
                old(self).shape.inserted(node.shape)
            },
            final(self).nodes@ == old(self).nodes@.push(node),
            final(self).opening == old(self).opening,
            final(self).closing == old(self).closing,
            final(self).virtual_end == old(self).virtual_end,
    {
        self.shape.insert(&node.shape);
        if self.nodes.len() > 0 {
            self.shape.insert(&Shape::inline(2));
        }
        self.nodes.push(node);
    }

    pub fn set_virtual_end(&mut self, end: Option<VirtualEnd>)
        requires
            match end {
                Some(e) => old(self).shape.insert_fits(e.shape),
                None => true,
            },
        ensures
            final(self).shape == match end {
                Some(e) => old(self).shape.inserted(e.shape),
                None => old(self).shape,
            },
            final(self).virtual_end == end,
            final(self).nodes == old(self).nodes,
            final(self).opening == old(self).opening,
            final(self).closing == old(self).closing,
    {
        if let Some(e) = &end {
            self.shape.insert(&e.shape);
        }
        self.virtual_end = end;
    }

    pub fn is_empty(&self) -> (b: bool)
        ensures
            b == (self.nodes@.len() == 0 && self.virtual_end is None),
    {
        self.nodes.len() == 0 && self.virtual_end.is_none()
    }

    /// Tries the arguments on the current line; gives up (`Rollback`) when a comment
    /// stands among them, when one does not fit, or when any but the last spans lines.
    /// Arguments that `arguments_pieces` describes and that fit in the room left on the
    /// line are written flat.
    pub fn format_horizontally(&self, d: &mut Output, ctx: &FormatContext, Ghost(c): Ghost<int>) -> (r: DraftResult)
        requires
            ready(*old(d), *ctx, c),
            self.ok_in(c, ctx.heredoc_map@),
        ensures
            advanced(*old(d), *final(d), *ctx, c),
            self.virtual_end is Some ==> r == DraftResult::Rollback,
            has_line_end(self.nodes@) ==> r == DraftResult::Rollback,
            arguments_flat_ok(*self) && total_len(arguments_pieces(*self)) <= budget(*old(d)) ==> r
                == DraftResult::Commit && wrote_pieces(*old(d), *final(d), arguments_pieces(*self)),
        decreases heredoc_measure(c), 2int, self, 0int,
    {
        let ghost o0 = *d;
        let ghost ns = self.nodes@;
        let ghost flat = arguments_flat_ok(*self) && total_len(arguments_pieces(*self)) <= budget(o0);
        if self.virtual_end.is_some() {
            return DraftResult::Rollback;
        }
        let ghost op = opening_piece(self.opening);
        let ghost cl = opt_view(self.closing).unwrap_or(Seq::empty());
        let ghost cp = opt_piece(self.closing);
        let n = self.nodes.len();
        proof {
            if flat {
                assert(arguments_pieces(*self) == seq![op] + arguments_flat(ns, n as int) + cp);
                lemma_total_len_concat(seq![op], arguments_flat(ns, n as int));
                lemma_total_len_concat(seq![op] + arguments_flat(ns, n as int), cp);
                lemma_total_len_one(op);
                lemma_total_len_one(cl);
                assert(total_len(cp) == cl.len());
            }
        }
        match &self.opening {
            Some(opening) => d.push_str(opening.as_slice()),
            None => d.push(32u8),
        }
        proof {
            if flat {
                lemma_wrote_fitting(o0, *d, seq![op]);
            }
        }
        let ghost o1 = *d;
        let mut i: usize = 0;
        while i < n
            invariant
                n == self.nodes@.len(),
                ns == self.nodes@,
                o0 == *old(d),
                flat == (arguments_flat_ok(*self) && total_len(arguments_pieces(*self)) <= budget(o0)),
                ready(*d, *ctx, c),
                advanced(*old(d), *d, *ctx, c),
                self.ok_in(c, ctx.heredoc_map@),
                0 <= i <= n,
                forall|j: int| 0 <= j < i ==> !((#[trigger] ns[j]).shape is LineEnd),
                flat ==> {
                    &&& arguments_flat_ok(*self)
                    &&& o1.wf()
                    &&& wrote_pieces(o1, *d, arguments_flat(ns, i as int))
                    &&& budget(*d) == budget(o1) - total_len(arguments_flat(ns, i as int))
                    &&& total_len(arguments_flat(ns, n as int)) + cl.len() <= budget(o1)
                    &&& d.indent_prefix().len() == 0
                    &&& d.line_count == o1.line_count
                },
            decreases n - i,
        {
            let arg = &self.nodes[i];
            let ghost oa = *d;
            let ghost glue = if i > 0 {
                seq![seq![44u8, 32u8]]
            } else {
                Seq::<Seq<u8>>::empty()
            };
            if i > 0 {
                d.push_str(&COMMA_SPACE);
                proof {
                    assert(COMMA_SPACE@ =~= seq![44u8, 32u8]);
                }
            } else {
                proof {
                    super::super::output::lemma_wrote_nothing(oa);
                }
            }
            let ghost od = *d;
            proof {
                if flat {
                    let ap = node_flat(ns[i as int]);
                    assert(node_flat_ok(ns[i as int]));
                    lemma_node_flat_nonempty(ns[i as int]);
                    lemma_arguments_flat_prefix(ns, i + 1, n as int);
                    lemma_total_len_concat(glue, ap);
                    if i > 0 {
                        lemma_total_len_concat(arguments_flat(ns, i as int), glue);
                        lemma_total_len_concat(arguments_flat(ns, i as int) + glue, ap);
                        lemma_total_len_one(seq![44u8, 32u8]);
                        lemma_wrote_fitting(oa, od, glue);
                    } else {
                        assert(arguments_flat(ns, 1) == ap);
                    }
                }
            }
            if let Shape::LineEnd { .. } = arg.shape {
                return DraftResult::Rollback;
            }
            proof {
                super::lemma_ok_in_concat_ok(arg, c, ctx.heredoc_map@);
            }
            match arg.concat_style() {
                ArgumentStyle::Vertical => match arg.shape {
                    Shape::Inline { len } => {
                        if len <= d.remaining_width {
                            arg.format(d, ctx, Ghost(c));
                        } else {
                            return DraftResult::Rollback;
                        }
                    },
                    _ => {
                        return DraftResult::Rollback;
                    },
                },
                ArgumentStyle::Horizontal { min_first_line_len } => {
                    if d.remaining_width < min_first_line_len {
                        return DraftResult::Rollback;
                    }
                    let prev_line_count = d.line_count;
                    arg.format(d, ctx, Ghost(c));
                    if prev_line_count < d.line_count && i + 1 < n {
                        return DraftResult::Rollback;
                    }
                },
            }
            proof {
                if flat {
                    let ap = node_flat(ns[i as int]);
                    lemma_wrote_fitting(od, *d, ap);
                    super::super::output::lemma_wrote_pieces_concat(oa, od, *d, glue, ap);
                    super::super::output::lemma_wrote_pieces_concat(
                        o1,
                        oa,
                        *d,
                        arguments_flat(ns, i as int),
                        glue + ap,
                    );
                    if i > 0 {
                        assert(arguments_flat(ns, i as int) + (glue + ap) =~= arguments_flat(ns, i + 1));
                    } else {
                        assert(arguments_flat(ns, 0) + (glue + ap) =~= arguments_flat(ns, 1));
                    }
                    lemma_total_len_concat(arguments_flat(ns, i as int), glue + ap);
                }
            }
            i = i + 1;
        }
        let ghost o2 = *d;
        proof {
            if has_line_end(ns) {
                let j = choose|j: int| 0 <= j < ns.len() && (#[trigger] ns[j]).shape is LineEnd;
                assert(!(ns[j].shape is LineEnd));
            }
        }
        if let Some(closing) = &self.closing {
            if d.remaining_width < closing.len() {
                return DraftResult::Rollback;
            }
            d.push_str(closing.as_slice());
        } else {
            proof {
                super::super::output::lemma_wrote_nothing(o2);
            }
        }
        proof {
            if flat {
                super::super::output::lemma_wrote_pieces_concat(o0, o1, o2, seq![op], arguments_flat(ns, n as int));
                super::super::output::lemma_wrote_pieces_concat(
                    o0,
                    o2,
                    *d,
                    seq![op] + arguments_flat(ns, n as int),
                    cp,
                );
            }
        }
        DraftResult::Commit
    }

    /// Writes the arguments on the current line where they fit, else one per line;
    /// arguments that `arguments_pieces` describes and that fit in the room left on the
    /// line are written flat. A comment among bracketed arguments puts each on a line
    /// of its own with its comma (the last one too where the syntax allows it), and
    /// the closing bracket on the line after (`vertical_text`).
    pub fn format(&self, o: &mut Output, ctx: &FormatContext, Ghost(c): Ghost<int>)
        requires
            ready(*old(o), *ctx, c),
            self.ok_in(c, ctx.heredoc_map@),
        ensures
            advanced(*old(o), *final(o), *ctx, c),
            arguments_flat_ok(*self) && total_len(arguments_pieces(*self)) <= budget(*old(o))
                ==> wrote_pieces(*old(o), *final(o), arguments_pieces(*self)),
            // A comment among bracketed arguments keeps them off one line.
            self.opening is Some && (self.virtual_end is Some || has_line_end(self.nodes@)) ==> final(o).line_count
                > old(o).line_count,
            self.vertical_ok(*old(o)) ==> final(o).buffer@ == old(o).buffer@ + old(o).indent_prefix()
                + self.opening->0@ + self.vertical_text(
                (old(o).indent + old(o).config.indent_size) as nat,
                self.nodes@.len() as int,
            ) + seq![10u8] + match self.closing {
                Some(closing) => spaces(old(o).indent as nat) + closing@,
                None => Seq::empty(),
            },
        decreases heredoc_measure(c), 2int, self, 1int,
    {
        // Format horizontally if all these are met:
        //   - no intermediate comments
        //   - all nodes' argument styles are horizontal
        //   - only the last argument can span in multilines
        let ghost start = *o;
        let snapshot = o.snapshot();
        let attempt = self.format_horizontally(o, ctx, Ghost(c));
        let ghost during = *o;
        let draft_result = o.draft(snapshot, attempt);
        if draft_result == DraftResult::Commit {
            return;
        }
        proof {
            lemma_draft_rollback_restores(start, snapshot, during, *o);
        }
        let n = self.nodes.len();
        let ghost o0 = *o;
        let ghost vertical = self.vertical_ok(o0);
        let ghost ind = (o0.indent + o0.config.indent_size) as nat;
        if let Some(opening) = &self.opening {
            o.push_str(opening.as_slice());
            o.indent();
            let ghost o1 = *o;
            proof {
                if vertical {
                    lemma_pushes_one(o0.text_state(), o0.config.line_width as int, o0.indent as nat, opening@);
                    assert(o1.buffer@ =~= o0.buffer@ + o0.indent_prefix() + opening@ + self.vertical_text(ind, 0));
                }
            }
            let mut i: usize = 0;
            while i < n
                invariant
                    n == self.nodes@.len(),
                    ready(*o, *ctx, c),
                    advanced(*old(o), *o, *ctx, c),
                    self.ok_in(c, ctx.heredoc_map@),
                    o.line_count >= old(o).line_count,
                    vertical == self.vertical_ok(o0),
                    ind == (o0.indent + o0.config.indent_size) as nat,
                    vertical ==> {
                        &&& self.vertical_ok(o0)
                        &&& o.buffer@ == o1.buffer@ + self.vertical_text(ind, i as int)
                        &&& o.indent == ind
                        &&& o.config == o0.config
                        &&& o.heredoc_queue@.len() == 0
                        &&& 0 <= i <= n
                    },
                decreases n - i,
            {
                // Each argument on a line of its own ends with a comma, the last one
                // too where the syntax allows it.
                let comma: &[u8] = if i + 1 < n || self.last_comma_allowed {
                    &COMMA
                } else {
                    &[]
                };
                proof {
                    assert(comma@ == self.comma_after(i as int)) by {
                        assert(COMMA@ =~= seq![44u8]);
                    }
                }
                write_node_line(&self.nodes[i], o, ctx, i == 0, true, comma, Ghost(c));
                proof {
                    if vertical {
                        assert(fits_own_line(self.nodes@[i as int], ind as int, o0.config.line_width as int));
                        assert(o.buffer@ =~= o1.buffer@ + self.vertical_text(ind, i + 1));
                    }
                }
                i = i + 1;
            }
            o.write_trivia_at_virtual_end(ctx, &self.virtual_end, true, n == 0, Ghost(c));
            o.dedent();
            let ghost o2 = *o;
            o.break_line(ctx, Ghost(c));
            let ghost o3 = *o;
            proof {
                if vertical {
                    assert(o2.indent == o0.indent);
                    assert(self.nodes@.len() > 0);
                    assert(fits_own_line(self.nodes@[0], ind as int, o0.config.line_width as int));
                }
            }
            if let Some(closing) = &self.closing {
                o.put_indent_if_needed();
                let ghost o4 = *o;
                o.push_str(closing.as_slice());
                proof {
                    if vertical {
                        lemma_pushes_one(o3.text_state(), o3.config.line_width as int, o3.indent as nat, Seq::<u8>::empty());
                        lemma_pushes_one(o4.text_state(), o4.config.line_width as int, o4.indent as nat, closing@);
                        assert(o4.indent_prefix() =~= Seq::<u8>::empty());
                        assert(o.buffer@ =~= o3.buffer@ + spaces(o0.indent as nat) + closing@);
                    }
                }
            }
        } else if n > 0 {
            o.push(32u8);
            self.nodes[0].format(o, ctx, Ghost(c));
            if n > 1 {
                o.push(44u8);
            }
            self.nodes[0].trailing_trivia.format(o);
            if n == 2 && self.nodes[0].trailing_trivia.is_none() && self.nodes[1].shape.fits_in_one_line(
                o.remaining_width,
            ) {
                o.push(32u8);
                self.nodes[1].format(o, ctx, Ghost(c));
            } else if n > 1 {
                o.indent();
                let mut i: usize = 1;
                while i < n
                    invariant
                        n == self.nodes@.len(),
                        ready(*o, *ctx, c),
                        advanced(*old(o), *o, *ctx, c),
                        self.ok_in(c, ctx.heredoc_map@),
                    decreases n - i,
                {
                    let arg = &self.nodes[i];
                    o.break_line(ctx, Ghost(c));
                    arg.leading_trivia.format(o, ctx, EmptyLineHandling::Trim { start: i == 0, end: false }, Ghost(c));
                    o.put_indent_if_needed();
                    arg.format(o, ctx, Ghost(c));
                    if i + 1 < n {
                        o.push(44u8);
                    }
                    arg.trailing_trivia.format(o);
                    i = i + 1;
                }
                o.dedent();
            }
        }
    }
}

/// Writes `node` on a line of its own: a line break, its leading comments (trimming
/// empty lines at the start where `first`), the indentation (before the node where
/// `indent_first`, else with the node's first text), the node, `suffix` and its
/// trailing comment.
pub fn write_node_line(
    node: &Node,
    o: &mut Output,
    ctx: &FormatContext,
    first: bool,
    indent_first: bool,
    suffix: &[u8],
    Ghost(c): Ghost<int>,
)
    requires
        ready(*old(o), *ctx, c),
        node.ok_in(c, ctx.heredoc_map@),
    ensures
        advanced(*old(o), *final(o), *ctx, c),
        old(o).heredoc_queue@.len() == 0 && fits_own_line(*node, old(o).indent as int, old(o).config.line_width as int)
            ==> {
            &&& final(o).buffer@ == old(o).buffer@ + seq![10u8] + spaces(old(o).indent as nat) + joined(node_flat(*node))
                + suffix@ + trailing_text(*node)
            &&& final(o).indent == old(o).indent
            &&& final(o).heredoc_queue@.len() == 0
        },
    decreases heredoc_measure(c), 2int, node, 2int,
{
    let ghost o0 = *o;
    let ghost plain = o0.heredoc_queue@.len() == 0 && fits_own_line(*node, o0.indent as int, o0.config.line_width as int);
    o.break_line(ctx, Ghost(c));
    node.leading_trivia.format(o, ctx, EmptyLineHandling::Trim { start: first, end: false }, Ghost(c));
    let ghost o1 = *o;
    if indent_first {
        o.put_indent_if_needed();
    }
    let ghost o2 = *o;
    proof {
        if plain {
            assert(o1.at_line_start());
            if indent_first {
                lemma_pushes_one(o1.text_state(), o1.config.line_width as int, o1.indent as nat, Seq::<u8>::empty());
                assert(o2.buffer@ =~= o0.buffer@ + seq![10u8] + spaces(o0.indent as nat));
                assert(o2.indent_prefix() =~= Seq::<u8>::empty());
            } else {
                assert(o2.buffer@ + o2.indent_prefix() =~= o0.buffer@ + seq![10u8] + spaces(o0.indent as nat));
            }
            lemma_node_flat_nonempty(*node);
        }
    }
    node.format(o, ctx, Ghost(c));
    let ghost o3 = *o;
    proof {
        if plain {
            lemma_wrote_fitting(o2, o3, node_flat(*node));
            assert(o3.buffer@ =~= o0.buffer@ + seq![10u8] + spaces(o0.indent as nat) + joined(node_flat(*node)));
        }
    }
    o.push_str(suffix);
    let ghost o4 = *o;
    proof {
        if plain {
            lemma_pushes_one(o3.text_state(), o3.config.line_width as int, o3.indent as nat, suffix@);
            assert(o4.buffer@ =~= o3.buffer@ + suffix@);
            assert(o4.indent_prefix() =~= Seq::<u8>::empty());
        }
    }
    node.trailing_trivia.format(o);
    proof {
        if plain {
            if let Some(comment) = node.trailing_trivia.spec_comment() {
                let mid = choose|mid: Output| {
                    &&& #[trigger] o4.pushed(mid, seq![32u8])
                    &&& mid.same_but_raw(*o, comment@)
                };
                lemma_pushes_one(o4.text_state(), o4.config.line_width as int, o4.indent as nat, seq![32u8]);
                assert(o.buffer@ =~= o4.buffer@ + trailing_text(*node));
            } else {
                assert(o.buffer@ =~= o4.buffer@ + trailing_text(*node));
            }
            assert(o.buffer@ =~= o0.buffer@ + seq![10u8] + spaces(o0.indent as nat) + joined(node_flat(*node)) + suffix@
                + trailing_text(*node));
        }
    }
}

} // verus!
