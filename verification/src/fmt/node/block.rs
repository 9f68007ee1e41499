use vstd::prelude::*;

use crate::fmt::flat::{
    arguments_flat, budget, elided_flat, joined, kind_flat, kind_flat_ok, lemma_arguments_flat_prefix,
    lemma_elided_flat_prefix, lemma_flat_continues_line, lemma_node_flat_nonempty, lemma_total_len_concat, lemma_total_len_one, lemma_wrote_fitting, node_flat, node_flat_ok, total_len,
};
use crate::fmt::output::{
    advanced, heredoc_measure, lemma_pushes_one, lemma_wrote_nothing, lemma_wrote_pieces_concat, ready, spaces,
    wrote_pieces, FormatContext, Output,
};
use crate::fmt::shape::Shape;
use crate::fmt::text::{bytes_eq, COMMA_SPACE, END, ENSURE, ELSE, RESCUE, SEMI_SPACE, SPACE_ARROW};
use crate::fmt::trivia::{EmptyLineHandling, TrailingTrivia};

use super::ifs::lemma_append_empty;
use super::statements::{block_lines, block_ok};
use super::{Else, Heredoc, Kind, Node, Statements, VirtualEnd};

verus! {

broadcast use crate::fmt::growth::group_output_growth;

/// `{ |params| body }` or `do |params| body end`
#[derive(Debug)]
pub struct Block {
    pub shape: Shape,
    pub opening: Vec<u8>,
    pub closing: Vec<u8>,
    pub opening_trailing: TrailingTrivia,
    pub parameters: Option<BlockParameters>,
    pub body: BlockBody,
}

/// `|a, b; c|`
#[derive(Debug)]
pub struct BlockParameters {
    pub shape: Shape,
    pub opening: Vec<u8>,
    pub closing: Vec<u8>,
    pub params: Vec<Node>,
    pub locals: Vec<Node>,
    pub virtual_end: Option<VirtualEnd>,
    pub closing_trailing: TrailingTrivia,
}

/// Statements with their `rescue`, `else` and `ensure` clauses.
#[derive(Debug)]
pub struct BlockBody {
    pub shape: Shape,
    pub statements: Statements,
    pub rescues: Vec<Rescue>,
    pub rescue_else: Option<Else>,
    pub ensure: Option<Else>,
}

/// `rescue Exceptions => reference`
#[derive(Debug)]
pub struct Rescue {
    pub exceptions: Vec<Node>,
    pub exceptions_shape: Shape,
    pub reference: Option<Box<Node>>,
    pub head_trailing: TrailingTrivia,
    pub statements: Statements,
}

impl Block {
    pub open spec fn ok_in(&self, c: int, m: Map<usize, Heredoc>) -> bool
        decreases self,
    {
        &&& match self.parameters {
            Some(p) => p.ok_in(c, m),
            None => true,
        }
        &&& self.body.ok_in(c, m)
    }

    pub fn new(was_flat: bool, opening: Vec<u8>, closing: Vec<u8>) -> (b: Block)
        requires
            opening@.len() + closing@.len() <= usize::MAX,
        ensures
            b.shape == if was_flat {
                Shape::Inline { len: (opening@.len() + closing@.len()) as usize }
            } else {
                Shape::Multilines
            },
            b.opening == opening,
            b.closing == closing,
            b.opening_trailing.spec_comment() is None,
            b.parameters is None,
            b.body.shape == (Shape::Inline { len: 0 }),
            b.body.statements.nodes@.len() == 0,
            b.body.statements.virtual_end is None,
            b.body.rescues@.len() == 0,
            b.body.rescue_else is None,
            b.body.ensure is None,
    {
        let shape = if was_flat {
            Shape::inline(opening.len() + closing.len())
        } else {
            Shape::Multilines
        };
        Block {
            shape,
            opening,
            closing,
            opening_trailing: TrailingTrivia::none(),
            parameters: None,
            body: BlockBody::new(Statements::new()),
        }
    }

    pub fn set_opening_trailing(&mut self, trailing: TrailingTrivia)
        ensures
            final(self).shape == old(self).shape.inserted(trailing.spec_shape()),
            final(self).opening_trailing == trailing,
            final(self).opening == old(self).opening,
            final(self).closing == old(self).closing,
            final(self).parameters == old(self).parameters,
            final(self).body == old(self).body,
    {
        self.shape.insert(trailing.shape());
        self.opening_trailing = trailing;
    }

    pub fn set_parameters(&mut self, parameters: BlockParameters)
        requires
            old(self).shape.size() + 1 + parameters.shape.size() <= usize::MAX,
        ensures
            // a space before the parameters
            final(self).shape == old(self).shape.inserted(Shape::Inline { len: 1 }).inserted(parameters.shape),
            final(self).parameters == Some(parameters),
            final(self).opening == old(self).opening,
            final(self).closing == old(self).closing,
            final(self).body == old(self).body,
            final(self).opening_trailing == old(self).opening_trailing,
    {
        self.shape.insert(&Shape::inline(1));
        self.shape.insert(&parameters.shape);
        self.parameters = Some(parameters);
    }

    pub fn set_body(&mut self, body: BlockBody)
        requires
            old(self).shape.size() + 2 + body.shape.size() <= usize::MAX,
        ensures
            // a space on each side of the body
            final(self).shape == old(self).shape.inserted(Shape::Inline { len: 2 }).inserted(body.shape),
            final(self).body == body,
            final(self).opening == old(self).opening,
            final(self).closing == old(self).closing,
            final(self).parameters == old(self).parameters,
            final(self).opening_trailing == old(self).opening_trailing,
    {
        self.shape.insert(&Shape::inline(2));
        self.shape.insert(&body.shape);
        self.body = body;
    }

    pub fn is_empty(&self) -> (b: bool)
        ensures
            b == (!(self.shape is Multilines) && self.body.spec_is_empty()),
    {
        let multi = match self.shape {
            Shape::Multilines => true,
            _ => false,
        };
        !multi && self.body.is_empty()
    }

    /// The opening, and ` |` where parameters follow.
    pub fn min_first_line_len(&self) -> (n: usize)
        requires
            self.opening@.len() + 2 <= usize::MAX,
        ensures
            n == self.opening@.len() + if self.parameters is Some {
                2int
            } else {
                0int
            },
    {
        let params_opening_len: usize = if self.parameters.is_some() {
            2
        } else {
            0
        };
        self.opening.len() + params_opening_len
    }

    /// The parameters after a space, where there are any.
    pub open spec fn params_pieces(&self) -> Seq<Seq<u8>> {
        match self.parameters {
            Some(p) => seq![seq![32u8]] + p.line_pieces(),
            None => Seq::empty(),
        }
    }

    /// The statement between spaces, where the body shows one.
    pub open spec fn body_pieces(&self) -> Seq<Seq<u8>> {
        if self.body.shape.spec_is_empty() {
            Seq::empty()
        } else {
            seq![seq![32u8]] + kind_flat(Kind::Statements(self.body.statements)) + seq![seq![32u8]]
        }
    }

    /// A space before a closing `end`.
    pub open spec fn end_space(&self) -> Seq<Seq<u8>> {
        if self.closing@ == END@ {
            seq![seq![32u8]]
        } else {
            Seq::empty()
        }
    }

    /// The block on one line: a space, the opening, the parameters, the statement, and
    /// the closing.
    pub open spec fn line_pieces(&self) -> Seq<Seq<u8>> {
        seq![seq![32u8], self.opening@] + self.params_pieces() + self.body_pieces() + self.end_space() + seq![
            self.closing@,
        ]
    }

    /// A block that its shape lets stand on the line with `room` bytes left on it, whose
    /// parameters can stand on the line after its opening (see
    /// `BlockParameters::one_line_ok`), whose body, if it shows anything, is a statement
    /// that `kind_flat` describes and asks for no more than its flat text, and whose
    /// text fits in that room.
    pub open spec fn one_line_ok(&self, room: int) -> bool {
        &&& self.shape.spec_fits_in_one_line(room)
        &&& match self.parameters {
            Some(p) => p.one_line_ok(room - 2 - self.opening@.len()),
            None => true,
        }
        &&& !self.body.shape.spec_is_empty() ==> {
            &&& kind_flat_ok(Kind::Statements(self.body.statements))
            &&& self.body.shape matches Shape::Inline { len } && len <= total_len(
                kind_flat(Kind::Statements(self.body.statements)),
            )
        }
        &&& total_len(self.line_pieces()) <= room
    }

    /// A block that does not fit on the line at `o`, laid out over lines plainly: its
    /// parameters, if any, on the line after the opening (see
    /// `BlockParameters::one_line_ok`), or, where a comment follows the opening, on the
    /// next line one level deeper; its body, if it shows anything, laid out plainly
    /// (see `BlockBody::plain_ok`); with nothing waiting to be written.
    pub open spec fn lines_ok(&self, o: Output) -> bool {
        &&& !self.shape.spec_fits_in_one_line(o.remaining_width as int)
        &&& o.config.line_width > 0
        &&& o.heredoc_queue@.len() == 0
        &&& self.parameters matches Some(p) ==> if self.opening_trailing.spec_comment() is None {
            p.one_line_ok(budget(o) - 2 - self.opening@.len())
        } else {
            &&& o.indent + o.config.indent_size <= usize::MAX
            &&& p.one_line_ok(o.config.line_width - (o.indent + o.config.indent_size))
        }
        &&& !self.body.shape.spec_is_empty() ==> self.body.plain_ok(o)
    }

    /// The comment after the opening, after a space, if there is one.
    pub open spec fn opening_comment(&self) -> Seq<u8> {
        match self.opening_trailing.spec_comment() {
            Some(comment) => seq![32u8] + comment@,
            None => Seq::empty(),
        }
    }

    /// The parameters of a block laid out over lines at indentation `indent`: after a
    /// space on the opening line, or, after a comment, on the next line one level
    /// deeper; nothing where there are none.
    pub open spec fn params_text(&self, indent: nat, indent_size: nat) -> Seq<u8> {
        match self.parameters {
            Some(p) => if self.opening_trailing.spec_comment() is None {
                seq![32u8] + joined(p.line_pieces())
            } else {
                seq![10u8] + spaces(indent + indent_size) + joined(p.line_pieces())
            },
            None => Seq::empty(),
        }
    }

    /// The body of a block laid out over lines, at indentation `indent`: nothing where
    /// the body shows nothing, else its plain layout.
    pub open spec fn body_lines(&self, indent: nat, indent_size: nat) -> Seq<u8> {
        if self.body.shape.spec_is_empty() {
            Seq::empty()
        } else {
            self.body.plain_text(indent, indent_size)
        }
    }

    /// The text of such a block at indentation `indent`: a space, the opening, its
    /// comment, the parameters, the body one level deeper, then a line break, the
    /// indentation and the closing.
    pub open spec fn lines_text(&self, indent: nat, indent_size: nat) -> Seq<u8> {
        seq![32u8] + self.opening@ + self.opening_comment() + self.params_text(indent, indent_size)
            + self.body_lines(indent, indent_size) + seq![10u8] + spaces(indent) + self.closing@
    }

    /// Writes the block on one line: a space, the opening, the parameters, the body
    /// between spaces, and the closing. A block that `one_line_ok` describes is written
    /// as `line_pieces`.
    #[verifier::spinoff_prover]
    fn format_one_line(&self, o: &mut Output, ctx: &FormatContext, Ghost(c): Ghost<int>)
        requires
            ready(*old(o), *ctx, c),
            self.ok_in(c, ctx.heredoc_map@),
        ensures
            advanced(*old(o), *final(o), *ctx, c),
            self.one_line_ok(budget(*old(o))) ==> wrote_pieces(*old(o), *final(o), self.line_pieces()),
        decreases heredoc_measure(c), 2int, self, 0int,
    {
        let ghost o0 = *o;
        let ghost flat = self.one_line_ok(budget(o0));
        let ghost hp = seq![seq![32u8], self.opening@];
        let ghost pp = self.params_pieces();
        let ghost bp = self.body_pieces();
        let ghost ep = self.end_space();
        let ghost cp = seq![self.closing@];
        proof {
            if flat {
                assert(hp =~= seq![seq![32u8]] + seq![self.opening@]);
                lemma_total_len_concat(seq![seq![32u8]], seq![self.opening@]);
                lemma_total_len_concat(hp, pp);
                lemma_total_len_concat(hp + pp, bp);
                lemma_total_len_concat(hp + pp + bp, ep);
                lemma_total_len_concat(hp + pp + bp + ep, cp);
                lemma_total_len_one(seq![32u8]);
                lemma_total_len_one(self.opening@);
                lemma_total_len_one(self.closing@);
            }
        }
        o.push(32u8);
        let ghost o1 = *o;
        o.push_str(self.opening.as_slice());
        let ghost o2 = *o;
        proof {
            if flat {
                lemma_wrote_fitting(o0, o1, seq![seq![32u8]]);
                lemma_wrote_fitting(o1, o2, seq![self.opening@]);
                lemma_wrote_pieces_concat(o0, o1, o2, seq![seq![32u8]], seq![self.opening@]);
            }
        }
        if let Some(params) = &self.parameters {
            o.push(32u8);
            let ghost o3 = *o;
            proof {
                if flat {
                    lemma_total_len_concat(seq![seq![32u8]], params.line_pieces());
                    lemma_wrote_fitting(o2, o3, seq![seq![32u8]]);
                }
            }
            params.format(o, ctx, Ghost(c));
            proof {
                if flat {
                    lemma_wrote_pieces_concat(o2, o3, *o, seq![seq![32u8]], params.line_pieces());
                    lemma_wrote_fitting(o2, *o, pp);
                }
            }
        } else {
            proof {
                lemma_wrote_nothing(o2);
            }
        }
        let ghost o4 = *o;
        if !self.body.shape.is_empty() {
            let ghost sp = kind_flat(Kind::Statements(self.body.statements));
            o.push(32u8);
            let ghost o5 = *o;
            proof {
                if flat {
                    lemma_total_len_concat(seq![seq![32u8]], sp);
                    lemma_total_len_concat(seq![seq![32u8]] + sp, seq![seq![32u8]]);
                    lemma_wrote_fitting(o4, o5, seq![seq![32u8]]);
                }
            }
            self.body.format(o, ctx, false, Ghost(c));
            let ghost o6 = *o;
            o.push(32u8);
            proof {
                if flat {
                    lemma_wrote_pieces_concat(o4, o5, o6, seq![seq![32u8]], sp);
                    lemma_wrote_pieces_concat(o4, o6, *o, seq![seq![32u8]] + sp, seq![seq![32u8]]);
                    lemma_wrote_fitting(o4, *o, bp);
                }
            }
        } else {
            proof {
                lemma_wrote_nothing(o4);
            }
        }
        let ghost o7 = *o;
        if bytes_eq(self.closing.as_slice(), &END) {
            o.push(32u8);
            proof {
                if flat {
                    lemma_wrote_fitting(o7, *o, ep);
                }
            }
        } else {
            proof {
                lemma_wrote_nothing(o7);
            }
        }
        let ghost o8 = *o;
        o.push_str(self.closing.as_slice());
        proof {
            if flat {
                lemma_wrote_pieces_concat(o0, o2, o4, hp, pp);
                lemma_wrote_pieces_concat(o0, o4, o7, hp + pp, bp);
                lemma_wrote_pieces_concat(o0, o7, o8, hp + pp + bp, ep);
                lemma_wrote_pieces_concat(o0, o8, *o, hp + pp + bp + ep, cp);
            }
        }
    }

    /// Writes the block on one line where its shape fits there, else its body one level
    /// deeper and its closing on a line of its own. A block that `one_line_ok` describes
    /// is written as `line_pieces`; one that `lines_ok` describes as `lines_text`.
    #[verifier::spinoff_prover]
    #[verifier::rlimit(50)]
    pub fn format(&self, o: &mut Output, ctx: &FormatContext, Ghost(c): Ghost<int>)
        requires
            ready(*old(o), *ctx, c),
            self.ok_in(c, ctx.heredoc_map@),
        ensures
            advanced(*old(o), *final(o), *ctx, c),
            self.one_line_ok(budget(*old(o))) ==> wrote_pieces(*old(o), *final(o), self.line_pieces()),
            self.lines_ok(*old(o)) ==> {
                &&& final(o).buffer@ == old(o).buffer@ + old(o).indent_prefix() + self.lines_text(
                    old(o).indent as nat,
                    old(o).config.indent_size as nat,
                )
                &&& final(o).indent == old(o).indent
                &&& final(o).heredoc_queue@.len() == 0
            },
        decreases heredoc_measure(c), 2int, self, 1int,
    {
        let ghost o0 = *o;
        let ghost lines = self.lines_ok(o0);
        let ghost lw = o0.config.line_width as int;
        let ghost ind = o0.indent as nat;
        assert(self.one_line_ok(budget(o0)) ==> self.shape.spec_fits_in_one_line(o.remaining_width as int));
        if self.shape.fits_in_one_line(o.remaining_width) {
            self.format_one_line(o, ctx, Ghost(c));
        } else {
            o.push(32u8);
            let ghost p1 = *o;
            o.push_str(self.opening.as_slice());
            let ghost p2 = *o;
            self.opening_trailing.format(o);
            let ghost isz = o0.config.indent_size as nat;
            let ghost head = o0.buffer@ + o0.indent_prefix() + seq![32u8] + self.opening@ + self.opening_comment();
            proof {
                if lines {
                    lemma_pushes_one(o0.text_state(), lw, ind, seq![32u8]);
                    lemma_pushes_one(p1.text_state(), lw, ind, self.opening@);
                    lemma_append_empty(p1.buffer@);
                    match self.opening_trailing.spec_comment() {
                        Some(comment) => lemma_append_after_empty(p2.buffer@, p2.indent_prefix(), seq![32u8], comment@),
                        None => lemma_append_empty(p2.buffer@),
                    }
                }
            }
            if let Some(params) = &self.parameters {
                if self.opening_trailing.is_none() {
                    let ghost p3 = *o;
                    o.push(32u8);
                    let ghost p4 = *o;
                    proof {
                        if lines {
                            lemma_pushes_one(p3.text_state(), lw, ind, seq![32u8]);
                            assert(budget(p4) == budget(o0) - 2 - self.opening@.len());
                        }
                    }
                    params.format(o, ctx, Ghost(c));
                    proof {
                        if lines {
                            lemma_wrote_fitting(p4, *o, params.line_pieces());
                            lemma_params_assembled(
                                head,
                                p3.indent_prefix(),
                                seq![32u8],
                                p4.indent_prefix(),
                                joined(params.line_pieces()),
                            );
                        }
                    }
                } else {
                    o.indent();
                    o.break_line(ctx, Ghost(c));
                    let ghost q2 = *o;
                    proof {
                        if lines {
                            assert(budget(q2) == lw - (ind + isz));
                        }
                    }
                    params.format(o, ctx, Ghost(c));
                    proof {
                        if lines {
                            lemma_wrote_fitting(q2, *o, params.line_pieces());
                            lemma_push_assembled(head, spaces(ind + isz), joined(params.line_pieces()));
                        }
                    }
                    o.dedent();
                }
            }
            let ghost p5 = *o;
            let ghost bl = self.body_lines(ind, isz);
            proof {
                if lines {
                    if self.parameters is None {
                        lemma_append_empty(head);
                    }
                    assert(o0.heredoc_queue@ =~= p5.heredoc_queue@);
                    lemma_plain_ok_settings(self.body, o0, p5);
                    if self.body.shape.spec_is_empty() {
                        lemma_append_empty(p5.buffer@);
                    }
                }
            }
            if !self.body.shape.is_empty() {
                self.body.format(o, ctx, true, Ghost(c));
            }
            o.break_line(ctx, Ghost(c));
            o.push_str(self.closing.as_slice());
            proof {
                if lines {
                    lemma_block_assembled(
                        o0.buffer@,
                        o0.indent_prefix(),
                        self.opening@,
                        self.opening_comment(),
                        self.params_text(ind, isz),
                        bl,
                        spaces(ind),
                        self.closing@,
                    );
                }
            }
        }
    }
}

/// The text after a block's opening line, with empty indentations left out.
proof fn lemma_params_assembled(h: Seq<u8>, e1: Seq<u8>, sp: Seq<u8>, e2: Seq<u8>, j: Seq<u8>)
    requires
        e1.len() == 0,
        e2.len() == 0,
    ensures
        h + e1 + sp + e2 + j == h + (sp + j),
{
    assert(h + e1 + sp + e2 + j =~= h + (sp + j));
}

/// The text of a block laid out over lines, put together from its parts.
proof fn lemma_block_assembled(
    b: Seq<u8>,
    pre: Seq<u8>,
    op: Seq<u8>,
    ct: Seq<u8>,
    pt: Seq<u8>,
    bl: Seq<u8>,
    sp: Seq<u8>,
    cl: Seq<u8>,
)
    ensures
        (b + pre + seq![32u8] + op + ct + pt + bl).push(10u8) + sp + cl == b + pre + (seq![32u8] + op + ct + pt
            + bl + seq![10u8] + sp + cl),
{
    assert((b + pre + seq![32u8] + op + ct + pt + bl).push(10u8) + sp + cl =~= b + pre + (seq![32u8] + op + ct
        + pt + bl + seq![10u8] + sp + cl));
}

/// Appending an empty text, then two more, is appending the two joined.
proof fn lemma_append_after_empty(a: Seq<u8>, e: Seq<u8>, x: Seq<u8>, y: Seq<u8>)
    requires
        e.len() == 0,
    ensures
        a + e + x + y == a + (x + y),
{
    assert(a + e + x + y =~= a + (x + y));
}

/// A line break, then two texts, appended one after the other or joined.
proof fn lemma_push_assembled(h: Seq<u8>, s: Seq<u8>, j: Seq<u8>)
    ensures
        h.push(10u8) + s + j == h + (seq![10u8] + s + j),
{
    assert(h.push(10u8) + s + j =~= h + (seq![10u8] + s + j));
}

/// A block laid out over several lines begins with a space and its opening, and ends,
/// after its body, with a line break, the indentation of the block's line and its
/// closing (`end` or `}`), so that the closing never joins the last statement.
pub proof fn law_block_lines_close_on_own_line(b: Block, indent: nat, indent_size: nat)
    ensures
        ({
            let t = b.lines_text(indent, indent_size);
            let k = 1 + indent + b.closing@.len();
            &&& t.len() >= k + 1 + b.opening@.len()
            &&& t.subrange(0, 1 + b.opening@.len() as int) == seq![32u8] + b.opening@
            &&& t.subrange(t.len() - k, t.len() as int) == seq![10u8] + spaces(indent) + b.closing@
        }),
{
    let t = b.lines_text(indent, indent_size);
    let head = seq![32u8] + b.opening@;
    let mid = b.opening_comment() + b.params_text(indent, indent_size) + b.body_lines(indent, indent_size);
    let tail = seq![10u8] + spaces(indent) + b.closing@;
    assert(t =~= head + mid + tail);
    assert(t.subrange(0, head.len() as int) =~= head);
    assert(t.subrange(t.len() - tail.len(), t.len() as int) =~= tail);
}

impl BlockParameters {
    pub open spec fn ok_in(&self, c: int, m: Map<usize, Heredoc>) -> bool
        decreases self,
    {
        &&& forall|i: int| 0 <= i < self.params@.len() ==> (#[trigger] self.params@[i]).ok_in(c, m)
        &&& forall|i: int| 0 <= i < self.locals@.len() ==> (#[trigger] self.locals@[i]).ok_in(c, m)
    }

    pub fn new(opening: Vec<u8>, closing: Vec<u8>) -> (p: BlockParameters)
        requires
            opening@.len() + closing@.len() <= usize::MAX,
        ensures
            p.shape == (Shape::Inline { len: (opening@.len() + closing@.len()) as usize }),
            p.opening == opening,
            p.closing == closing,
            p.params@.len() == 0,
            p.locals@.len() == 0,
            p.virtual_end is None,
            p.closing_trailing.spec_comment() is None,
    {
        let shape = Shape::inline(opening.len() + closing.len());
        BlockParameters {
            shape,
            opening,
            closing,
            params: Vec::new(),
            locals: Vec::new(),
            closing_trailing: TrailingTrivia::none(),
            virtual_end: None,
        }
    }

    pub fn append_param(&mut self, node: Node)
        requires
            old(self).shape.size() + 2 + node.shape.size() <= usize::MAX,
        ensures
            // `, ` between parameters
            final(self).shape == if old(self).params@.len() > 0 {
                old(self).shape.inserted(Shape::Inline { len: 2 }).inserted(node.shape)
            } else {
                old(self).shape.inserted(node.shape)
            },
            final(self).params@ == old(self).params@.push(node),
            final(self).locals == old(self).locals,
    {
        if self.params.len() > 0 {
            self.shape.insert(&Shape::inline(2));
        }
        self.shape.insert(&node.shape);
        self.params.push(node);
    }

    pub fn append_local(&mut self, node: Node)
        requires
            old(self).shape.size() + 2 + node.shape.size() <= usize::MAX,
        ensures
            // `; ` before the first local
            final(self).shape == if old(self).locals@.len() == 0 {
                old(self).shape.inserted(Shape::Inline { len: 2 }).inserted(node.shape)
            } else {
                old(self).shape.inserted(node.shape)
            },
            final(self).locals@ == old(self).locals@.push(node),
            final(self).params == old(self).params,
    {
        if self.locals.len() == 0 {
            self.shape.insert(&Shape::inline(2));
        }
        self.shape.insert(&node.shape);
        self.locals.push(node);
    }

    pub fn set_virtual_end(&mut self, end: Option<VirtualEnd>)
        requires
            match end {
                Some(e) => old(self).shape.concat_fits(e.shape),
                None => true,
            },
        ensures
            final(self).shape == match end {
                Some(e) => old(self).shape.concat(e.shape),
                None => old(self).shape,
            },
            final(self).virtual_end == end,
            final(self).params == old(self).params,
            final(self).locals == old(self).locals,
    {
        if let Some(e) = &end {
            self.shape.append(&e.shape);
        }
        self.virtual_end = end;
    }

    pub fn set_closing_trailing(&mut self, trailing: TrailingTrivia)
        requires
            old(self).shape.concat_fits(trailing.spec_shape()),
        ensures
            final(self).shape == old(self).shape.concat(trailing.spec_shape()),
            final(self).closing_trailing == trailing,
            final(self).params == old(self).params,
            final(self).locals == old(self).locals,
    {
        self.shape.append(trailing.shape());
        self.closing_trailing = trailing;
    }

    /// The locals after `; `, where there are any.
    pub open spec fn locals_pieces(&self) -> Seq<Seq<u8>> {
        if self.locals@.len() > 0 {
            seq![SEMI_SPACE@] + arguments_flat(self.locals@, self.locals@.len() as int)
        } else {
            Seq::empty()
        }
    }

    /// The parameters on one line: the opening bar, the parameters separated by `, `
    /// (one with an empty shape, as in `|a,|`, only as a lone `,`), the locals after
    /// `; `, and the closing bar.
    pub open spec fn line_pieces(&self) -> Seq<Seq<u8>> {
        seq![self.opening@] + elided_flat(self.params@, self.params@.len() as int, true) + self.locals_pieces() + seq![
            self.closing@,
        ]
    }

    /// Parameters that their shape lets stand on the line with `room` bytes left on it,
    /// each made of parts that `node_flat` describes, with no comment after the closing
    /// bar, and whose text fits in that room.
    pub open spec fn one_line_ok(&self, room: int) -> bool {
        &&& self.shape.spec_fits_in_one_line(room)
        &&& forall|i: int| 0 <= i < self.params@.len() ==> node_flat_ok(#[trigger] self.params@[i])
        &&& forall|i: int| 0 <= i < self.locals@.len() ==> node_flat_ok(#[trigger] self.locals@[i])
        &&& self.closing_trailing.spec_comment() is None
        &&& total_len(self.line_pieces()) <= room
    }

    /// Writes the parameters between the bars on the line where their shape fits there,
    /// else one per line; parameters that `one_line_ok` describes are written as
    /// `line_pieces`.
    #[verifier::spinoff_prover]
    pub fn format(&self, o: &mut Output, ctx: &FormatContext, Ghost(c): Ghost<int>)
        requires
            ready(*old(o), *ctx, c),
            self.ok_in(c, ctx.heredoc_map@),
        ensures
            advanced(*old(o), *final(o), *ctx, c),
            self.one_line_ok(budget(*old(o))) ==> wrote_pieces(*old(o), *final(o), self.line_pieces()),
        decreases heredoc_measure(c), 2int, self, 1int,
    {
        let ghost o0 = *o;
        let ghost flat = self.one_line_ok(budget(o0));
        let ghost pf = elided_flat(self.params@, self.params@.len() as int, true);
        let ghost lp = self.locals_pieces();
        proof {
            if flat {
                lemma_total_len_concat(seq![self.opening@], pf);
                lemma_total_len_concat(seq![self.opening@] + pf, lp);
                lemma_total_len_concat(seq![self.opening@] + pf + lp, seq![self.closing@]);
                lemma_total_len_one(self.opening@);
                lemma_total_len_one(self.closing@);
                lemma_total_len_one(SEMI_SPACE@);
                if self.locals@.len() > 0 {
                    lemma_total_len_concat(seq![SEMI_SPACE@], arguments_flat(self.locals@, self.locals@.len() as int));
                }
            }
        }
        let np = self.params.len();
        let nl = self.locals.len();
        if self.shape.fits_in_one_line(o.remaining_width) {
            o.push_str(self.opening.as_slice());
            proof {
                if flat {
                    lemma_wrote_fitting(o0, *o, seq![self.opening@]);
                }
            }
            let ghost ns = self.params@;
            let ghost o1 = *o;
            let mut i: usize = 0;
            while i < np
                invariant
                    np == self.params@.len(),
                    ns == self.params@,
                    ready(*o, *ctx, c),
                    advanced(*old(o), *o, *ctx, c),
                    self.ok_in(c, ctx.heredoc_map@),
                    0 <= i <= np,
                    flat ==> {
                        &&& self.one_line_ok(budget(o0))
                        &&& o1.wf()
                        &&& wrote_pieces(o1, *o, elided_flat(ns, i as int, true))
                        &&& budget(*o) == budget(o1) - total_len(elided_flat(ns, i as int, true))
                        &&& total_len(elided_flat(ns, np as int, true)) <= budget(o1)
                        &&& o.indent_prefix().len() == 0
                    },
                decreases np - i,
            {
                let ghost oa = *o;
                let n = &self.params[i];
                let ghost glue = if i > 0 {
                    seq![seq![44u8, 32u8]]
                } else {
                    Seq::<Seq<u8>>::empty()
                };
                if n.shape.is_empty() {
                    o.push(44u8);
                    proof {
                        if flat {
                            let glue = seq![seq![44u8]];
                            lemma_elided_flat_prefix(ns, i + 1, np as int, true);
                            lemma_total_len_one(seq![44u8]);
                            lemma_total_len_concat(elided_flat(ns, i as int, true), glue);
                            lemma_wrote_fitting(oa, *o, glue);
                            lemma_wrote_pieces_concat(o1, oa, *o, elided_flat(ns, i as int, true), glue);
                            assert(elided_flat(ns, i as int, true) + glue =~= elided_flat(ns, i + 1, true));
                        }
                    }
                } else {
                    if i > 0 {
                        o.push_str(&COMMA_SPACE);
                        proof {
                            assert(COMMA_SPACE@ =~= seq![44u8, 32u8]);
                        }
                    } else {
                        proof {
                            lemma_wrote_nothing(oa);
                        }
                    }
                    let ghost od = *o;
                    proof {
                        if flat {
                            let ap = node_flat(ns[i as int]);
                            assert(node_flat_ok(ns[i as int]));
                            lemma_node_flat_nonempty(ns[i as int]);
                            lemma_elided_flat_prefix(ns, i + 1, np as int, true);
                            lemma_total_len_concat(glue, ap);
                            if i > 0 {
                                lemma_total_len_concat(elided_flat(ns, i as int, true), glue);
                                lemma_total_len_concat(elided_flat(ns, i as int, true) + glue, ap);
                                lemma_total_len_one(seq![44u8, 32u8]);
                                lemma_wrote_fitting(oa, od, glue);
                            } else {
                                assert(elided_flat(ns, 1, true) == ap);
                            }
                        }
                    }
                    n.format(o, ctx, Ghost(c));
                    proof {
                        if flat {
                            let ap = node_flat(ns[i as int]);
                            lemma_wrote_fitting(od, *o, ap);
                            lemma_wrote_pieces_concat(oa, od, *o, glue, ap);
                            lemma_wrote_pieces_concat(o1, oa, *o, elided_flat(ns, i as int, true), glue + ap);
                            if i > 0 {
                                assert(elided_flat(ns, i as int, true) + (glue + ap) =~= elided_flat(ns, i + 1, true));
                            } else {
                                assert(elided_flat(ns, 0, true) + (glue + ap) =~= elided_flat(ns, 1, true));
                            }
                            lemma_total_len_concat(elided_flat(ns, i as int, true), glue + ap);
                        }
                    }
                }
                i = i + 1;
            }
            let ghost o2 = *o;
            if nl > 0 {
                o.push_str(&SEMI_SPACE);
                proof {
                    if flat {
                        lemma_wrote_fitting(o2, *o, seq![SEMI_SPACE@]);
                    }
                }
                let ghost ns = self.locals@;
                let ghost o3 = *o;
                let mut i: usize = 0;
                while i < nl
                    invariant
                        nl == self.locals@.len(),
                        ns == self.locals@,
                        ready(*o, *ctx, c),
                        advanced(*old(o), *o, *ctx, c),
                        self.ok_in(c, ctx.heredoc_map@),
                        0 <= i <= nl,
                        flat ==> {
                            &&& self.one_line_ok(budget(o0))
                            &&& o3.wf()
                            &&& wrote_pieces(o3, *o, arguments_flat(ns, i as int))
                            &&& budget(*o) == budget(o3) - total_len(arguments_flat(ns, i as int))
                            &&& total_len(arguments_flat(ns, nl as int)) <= budget(o3)
                            &&& o.indent_prefix().len() == 0
                        },
                    decreases nl - i,
                {
                    let ghost oa = *o;
                    let n = &self.locals[i];
                    let ghost glue = if i > 0 {
                        seq![seq![44u8, 32u8]]
                    } else {
                        Seq::<Seq<u8>>::empty()
                    };
                
                    if i > 0 {
                        o.push_str(&COMMA_SPACE);
                        proof {
                            assert(COMMA_SPACE@ =~= seq![44u8, 32u8]);
                        }
                    } else {
                        proof {
                            lemma_wrote_nothing(oa);
                        }
                    }
                    let ghost od = *o;
                    proof {
                        if flat {
                            let ap = node_flat(ns[i as int]);
                            assert(node_flat_ok(ns[i as int]));
                            lemma_node_flat_nonempty(ns[i as int]);
                            lemma_arguments_flat_prefix(ns, i + 1, nl as int);
                            lemma_total_len_concat(glue, ap);
                            if i > 0 {
                                lemma_total_len_concat(arguments_flat(ns, i as int), glue);
                                lemma_total_len_concat(arguments_flat(ns, i as int) + glue, ap);
                                lemma_total_len_one(seq![44u8, 32u8]);
                                lemma_wrote_fitting(oa, od, glue);
                            } else {
                                assert(arguments_flat(ns, 1) == ap);
                            }
                        }
                    }
                    n.format(o, ctx, Ghost(c));
                    proof {
                        if flat {
                            let ap = node_flat(ns[i as int]);
                            lemma_wrote_fitting(od, *o, ap);
                            lemma_wrote_pieces_concat(oa, od, *o, glue, ap);
                            lemma_wrote_pieces_concat(o3, oa, *o, arguments_flat(ns, i as int), glue + ap);
                            if i > 0 {
                                assert(arguments_flat(ns, i as int) + (glue + ap) =~= arguments_flat(ns, i + 1));
                            } else {
                                assert(arguments_flat(ns, 0) + (glue + ap) =~= arguments_flat(ns, 1));
                            }
                            lemma_total_len_concat(arguments_flat(ns, i as int), glue + ap);
                        }
                    }
                    i = i + 1;
                }
                proof {
                    if flat {
                        lemma_wrote_pieces_concat(o2, o3, *o, seq![SEMI_SPACE@], arguments_flat(ns, nl as int));
                    }
                }
            } else {
                proof {
                    lemma_wrote_nothing(o2);
                }
            }
            let ghost o4 = *o;
            o.push_str(self.closing.as_slice());
            self.closing_trailing.format(o);
            proof {
                if flat {
                    lemma_wrote_pieces_concat(o0, o1, o2, seq![self.opening@], pf);
                    lemma_wrote_pieces_concat(o0, o2, o4, seq![self.opening@] + pf, lp);
                    lemma_wrote_pieces_concat(o0, o4, *o, seq![self.opening@] + pf + lp, seq![self.closing@]);
                }
            }
        } else {
            o.push_str(self.opening.as_slice());
            o.indent();
            let mut i: usize = 0;
            while i < np
                invariant
                    np == self.params@.len(),
                    ready(*o, *ctx, c),
                    advanced(*old(o), *o, *ctx, c),
                    self.ok_in(c, ctx.heredoc_map@),
                decreases np - i,
            {
                let n = &self.params[i];
                if n.shape.is_empty() {
                    n.trailing_trivia.format(o);
                } else {
                    o.break_line(ctx, Ghost(c));
                    n.leading_trivia.format(o, ctx, EmptyLineHandling::Trim { start: i == 0, end: false }, Ghost(c));
                    n.format(o, ctx, Ghost(c));
                    if i + 1 < np {
                        o.push(44u8);
                    }
                    n.trailing_trivia.format(o);
                }
                i = i + 1;
            }
            if nl > 0 {
                o.break_line(ctx, Ghost(c));
                o.push(59u8);
                let mut i: usize = 0;
                while i < nl
                    invariant
                        nl == self.locals@.len(),
                        ready(*o, *ctx, c),
                        advanced(*old(o), *o, *ctx, c),
                        self.ok_in(c, ctx.heredoc_map@),
                    decreases nl - i,
                {
                    let n = &self.locals[i];
                    o.break_line(ctx, Ghost(c));
                    n.leading_trivia.format(o, ctx, EmptyLineHandling::trim(), Ghost(c));
                    n.format(o, ctx, Ghost(c));
                    if i + 1 < nl {
                        o.push(44u8);
                    }
                    n.trailing_trivia.format(o);
                    i = i + 1;
                }
            }
            o.write_trivia_at_virtual_end(ctx, &self.virtual_end, true, np == 0, Ghost(c));
            o.dedent();
            o.break_line(ctx, Ghost(c));
            o.push_str(self.closing.as_slice());
            self.closing_trailing.format(o);
        }
    }
}

/// The parameters of a block on one line have some text.
pub proof fn lemma_block_parameters_len(p: BlockParameters)
    ensures
        p.line_pieces().len() > 0,
{
    assert(p.line_pieces()[0] == p.opening@);
}

impl BlockBody {
    pub open spec fn ok_in(&self, c: int, m: Map<usize, Heredoc>) -> bool
        decreases self,
    {
        &&& self.statements.ok_in(c, m)
        &&& forall|i: int| 0 <= i < self.rescues@.len() ==> (#[trigger] self.rescues@[i]).ok_in(c, m)
        &&& match self.rescue_else {
            Some(e) => e.ok_in(c, m),
            None => true,
        }
        &&& match self.ensure {
            Some(e) => e.ok_in(c, m),
            None => true,
        }
    }

    pub open spec fn spec_is_empty(&self) -> bool {
        &&& self.statements.nodes@.len() == 0
        &&& self.statements.virtual_end is None
        &&& self.rescues@.len() == 0
        &&& self.ensure is None
    }

    pub fn new(statements: Statements) -> (b: BlockBody)
        ensures
            b.shape == statements.shape,
            b.statements == statements,
            b.rescues@.len() == 0,
            b.rescue_else is None,
            b.ensure is None,
    {
        BlockBody { shape: statements.shape(), statements, rescues: Vec::new(), rescue_else: None, ensure: None }
    }

    pub fn set_rescues(&mut self, rescues: Vec<Rescue>)
        ensures
            final(self).shape == if rescues@.len() > 0 {
                Shape::Multilines
            } else {
                old(self).shape
            },
            final(self).rescues == rescues,
            final(self).statements == old(self).statements,
            final(self).rescue_else == old(self).rescue_else,
            final(self).ensure == old(self).ensure,
    {
        if rescues.len() > 0 {
            self.shape = Shape::Multilines;
        }
        self.rescues = rescues;
    }

    pub fn set_rescue_else(&mut self, rescue_else: Else)
        ensures
            final(self).shape == Shape::Multilines,
            final(self).rescue_else == Some(rescue_else),
            final(self).statements == old(self).statements,
            final(self).rescues == old(self).rescues,
            final(self).ensure == old(self).ensure,
    {
        self.shape = Shape::Multilines;
        self.rescue_else = Some(rescue_else);
    }

    pub fn set_ensure(&mut self, ensure: Else)
        ensures
            final(self).shape == Shape::Multilines,
            final(self).ensure == Some(ensure),
            final(self).statements == old(self).statements,
            final(self).rescues == old(self).rescues,
            final(self).rescue_else == old(self).rescue_else,
    {
        self.shape = Shape::Multilines;
        self.ensure = Some(ensure);
    }

    pub fn is_empty(&self) -> (b: bool)
        ensures
            b == self.spec_is_empty(),
    {
        self.statements.is_empty() && self.rescues.len() == 0 && self.ensure.is_none()
    }

    /// Writes the statements on the line where they fit and a block is not asked for;
    /// otherwise the statements one level deeper, then the `rescue`, `else` and `ensure`
    /// branches. A body of statements alone, in a block, whose statements can each be
    /// written flat one level deeper, comes out as their `block_lines`.
    pub fn format(&self, o: &mut Output, ctx: &FormatContext, block_always: bool, Ghost(c): Ghost<int>)
        requires
            ready(*old(o), *ctx, c),
            self.ok_in(c, ctx.heredoc_map@),
        ensures
            advanced(*old(o), *final(o), *ctx, c),
            !block_always && self.shape.spec_fits_in_inline(old(o).remaining_width as int) && kind_flat_ok(
                Kind::Statements(self.statements),
            ) && total_len(kind_flat(Kind::Statements(self.statements))) <= budget(*old(o)) ==> wrote_pieces(
                *old(o),
                *final(o),
                kind_flat(Kind::Statements(self.statements)),
            ),
            block_always && self.plain_ok(*old(o)) ==> {
                &&& final(o).buffer@ == old(o).buffer@ + self.plain_text(
                    old(o).indent as nat,
                    old(o).config.indent_size as nat,
                )
                &&& final(o).indent == old(o).indent
                &&& final(o).heredoc_queue@.len() == 0
            },
        decreases heredoc_measure(c), 2int, self, 2int,
    {
        if self.shape.fits_in_inline(o.remaining_width) && !block_always {
            self.statements.format(o, ctx, block_always, Ghost(c));
            return;
        }
        self.format_layout(o, ctx, Ghost(c));
    }

    /// Writes the statements one level deeper, then the `rescue`, `else` and `ensure`
    /// branches. A body laid out plainly comes out as `plain_text`.
    pub fn format_layout(&self, o: &mut Output, ctx: &FormatContext, Ghost(c): Ghost<int>)
        requires
            ready(*old(o), *ctx, c),
            self.ok_in(c, ctx.heredoc_map@),
        ensures
            advanced(*old(o), *final(o), *ctx, c),
            self.plain_ok(*old(o)) ==> {
                &&& final(o).buffer@ == old(o).buffer@ + self.plain_text(
                    old(o).indent as nat,
                    old(o).config.indent_size as nat,
                )
                &&& final(o).indent == old(o).indent
                &&& final(o).heredoc_queue@.len() == 0
            },
        decreases heredoc_measure(c), 2int, self, 1int,
    {
        let ghost o0 = *o;
        let ghost plain = self.plain_ok(o0);
        let ghost ind = o0.indent as nat;
        let ghost size = o0.config.indent_size as nat;
        assert(plain ==> block_ok(self.statements, o0)) by {
            reveal(BlockBody::plain_ok);
        }
        self.statements.format_block(o, ctx, Ghost(c));
        let ghost ob = *o;
        proof {
            if plain {
                assert(o0.heredoc_queue@ =~= ob.heredoc_queue@);
                lemma_plain_ok_settings(*self, o0, ob);
            }
        }
        self.format_rescues(o, ctx, Ghost(c));
        let ghost oe = *o;
        proof {
            if plain {
                assert(o0.heredoc_queue@ =~= oe.heredoc_queue@);
                lemma_plain_ok_settings(*self, o0, oe);
            }
        }
        self.format_clauses(o, ctx, Ghost(c));
        proof {
            if plain {
                assert(o.buffer@ =~= o0.buffer@ + self.plain_text(ind, size));
            }
        }
    }

    /// Writes the `else` and `ensure` branches, each from a new line. In a body laid out
    /// plainly they come out as their `clause_text`.
    pub fn format_clauses(&self, o: &mut Output, ctx: &FormatContext, Ghost(c): Ghost<int>)
        requires
            ready(*old(o), *ctx, c),
            self.ok_in(c, ctx.heredoc_map@),
        ensures
            advanced(*old(o), *final(o), *ctx, c),
            self.plain_ok(*old(o)) && old(o).heredoc_queue@.len() == 0 ==> {
                &&& final(o).buffer@ == old(o).buffer@ + clause_text(
                    self.rescue_else,
                    ELSE@,
                    old(o).indent as nat,
                    old(o).config.indent_size as nat,
                ) + clause_text(self.ensure, ENSURE@, old(o).indent as nat, old(o).config.indent_size as nat)
                &&& final(o).indent == old(o).indent
                &&& final(o).heredoc_queue@.len() == 0
            },
        decreases heredoc_measure(c), 2int, self, 0int,
    {
        let ghost o0 = *o;
        let ghost plain = self.plain_ok(o0) && o0.heredoc_queue@.len() == 0;
        let ghost ind = o0.indent as nat;
        let ghost size = o0.config.indent_size as nat;
        assert(plain ==> {
            &&& self.rescue_else matches Some(e) ==> e.keyword_trailing.spec_comment() is None && block_ok(e.body, o0)
            &&& self.ensure matches Some(e) ==> e.keyword_trailing.spec_comment() is None && block_ok(e.body, o0)
        }) by {
            reveal(BlockBody::plain_ok);
        }
        if let Some(rescue_else) = &self.rescue_else {
            rescue_else.format_clause(&ELSE, o, ctx, Ghost(c));
        }
        let ghost of = *o;
        if let Some(ensure) = &self.ensure {
            ensure.format_clause(&ENSURE, o, ctx, Ghost(c));
        }
        proof {
            if plain {
                assert(of.buffer@ =~= o0.buffer@ + clause_text(self.rescue_else, ELSE@, ind, size));
                assert(o.buffer@ =~= of.buffer@ + clause_text(self.ensure, ENSURE@, ind, size));
            }
        }
    }

    /// Writes each `rescue` branch from a new line. Branches that can each be laid out
    /// plainly on a line of their own come out as `rescue_rows`.
    pub fn format_rescues(&self, o: &mut Output, ctx: &FormatContext, Ghost(c): Ghost<int>)
        requires
            ready(*old(o), *ctx, c),
            self.ok_in(c, ctx.heredoc_map@),
        ensures
            advanced(*old(o), *final(o), *ctx, c),
            self.plain_ok(*old(o)) ==> {
                &&& final(o).buffer@ == old(o).buffer@ + rescue_rows(
                    self.rescues@,
                    self.rescues@.len() as int,
                    old(o).indent as nat,
                    old(o).config.indent_size as nat,
                )
                &&& final(o).indent == old(o).indent
                &&& final(o).config == old(o).config
                &&& final(o).heredoc_queue@.len() == 0
            },
        decreases heredoc_measure(c), 2int, self, 0int,
    {
        let ghost o0 = *o;
        let ghost plain = self.plain_ok(o0);
        proof {
            reveal(BlockBody::plain_ok);
        }
        let ghost ind = o0.indent as nat;
        let ghost size = o0.config.indent_size as nat;
        let ghost rs = self.rescues@;
        let n = self.rescues.len();
        let mut i: usize = 0;
        while i < n
            invariant
                n == self.rescues@.len(),
                rs == self.rescues@,
                ready(*o, *ctx, c),
                advanced(*old(o), *o, *ctx, c),
                self.ok_in(c, ctx.heredoc_map@),
                0 <= i <= n,
                plain ==> {
                    &&& self.plain_ok(o0)
                    &&& ind == o0.indent
                    &&& size == o0.config.indent_size
                    &&& o.buffer@ == o0.buffer@ + rescue_rows(rs, i as int, ind, size)
                    &&& o.indent == o0.indent
                    &&& o.config == o0.config
                    &&& o.heredoc_queue@.len() == 0
                },
            decreases n - i,
        {
            o.break_line(ctx, Ghost(c));
            let ghost ol = *o;
            proof {
                if plain {
                    reveal(BlockBody::plain_ok);
                    assert(rs[i as int].plain_layout_ok(o0.config.line_width - o0.indent, o0));
                    assert(budget(ol) == o0.config.line_width - o0.indent);
                }
            }
            self.rescues[i].format(o, ctx, Ghost(c));
            proof {
                if plain {
                    assert(ol.indent_prefix() == spaces(ind));
                    assert(o.buffer@ =~= o0.buffer@ + rescue_rows(rs, i + 1, ind, size));
                }
            }
            i = i + 1;
        }
    }

    /// A body laid out plainly at `o`: its statements, and those of each branch, can each
    /// be written flat one level deeper; each `rescue` can be laid out plainly on a line
    /// of its own (see `Rescue::plain_layout_ok`); and no comment follows an `else` or
    /// `ensure` keyword.
    #[verifier::opaque]
    pub open spec fn plain_ok(&self, o: Output) -> bool {
        &&& block_ok(self.statements, o)
        &&& forall|i: int|
            0 <= i < self.rescues@.len() ==> (#[trigger] self.rescues@[i]).plain_layout_ok(
                o.config.line_width - o.indent,
                o,
            )
        &&& match self.rescue_else {
            Some(e) => e.keyword_trailing.spec_comment() is None && block_ok(e.body, o),
            None => true,
        }
        &&& match self.ensure {
            Some(e) => e.keyword_trailing.spec_comment() is None && block_ok(e.body, o),
            None => true,
        }
    }

    /// The text of such a body at indentation `indent`: the statements one level deeper,
    /// then each branch on a line of its own with its statements one level deeper.
    pub open spec fn plain_text(&self, indent: nat, indent_size: nat) -> Seq<u8> {
        block_lines(self.statements, indent + indent_size) + rescue_rows(
            self.rescues@,
            self.rescues@.len() as int,
            indent,
            indent_size,
        ) + clause_text(self.rescue_else, ELSE@, indent, indent_size) + clause_text(
            self.ensure,
            ENSURE@,
            indent,
            indent_size,
        )
    }
}

/// Whether a body can be laid out plainly depends on the settings, the indentation and
/// what waits to be written, not on the text so far.
pub proof fn lemma_plain_ok_settings(b: BlockBody, o0: Output, o1: Output)
    requires
        o0.config == o1.config,
        o0.indent == o1.indent,
        o0.heredoc_queue@ == o1.heredoc_queue@,
    ensures
        b.plain_ok(o0) == b.plain_ok(o1),
{
    reveal(BlockBody::plain_ok);
    assert(block_ok(b.statements, o0) == block_ok(b.statements, o1));
    assert(forall|i: int|
        0 <= i < b.rescues@.len() ==> (#[trigger] b.rescues@[i]).plain_layout_ok(o0.config.line_width - o0.indent, o0)
            == b.rescues@[i].plain_layout_ok(o1.config.line_width - o1.indent, o1));
}

/// The first `i` `rescue` branches, each from a new line at indentation `indent`, with
/// its statements one level deeper.
pub open spec fn rescue_rows(rs: Seq<Rescue>, i: int, indent: nat, indent_size: nat) -> Seq<u8>
    decreases i,
{
    if i <= 0 {
        Seq::empty()
    } else {
        rescue_rows(rs, i - 1, indent, indent_size) + seq![10u8] + spaces(indent) + (joined(rs[i - 1].head_pieces())
            + block_lines(rs[i - 1].statements, indent + indent_size))
    }
}

/// An `else` or `ensure` branch from a new line at indentation `indent`, with its
/// statements one level deeper, where there is one.
pub open spec fn clause_text(e: Option<Else>, keyword: Seq<u8>, indent: nat, indent_size: nat) -> Seq<u8> {
    match e {
        Some(e) => seq![10u8] + spaces(indent) + keyword + block_lines(e.body, indent + indent_size),
        None => Seq::empty(),
    }
}

impl Rescue {
    pub open spec fn ok_in(&self, c: int, m: Map<usize, Heredoc>) -> bool
        decreases self,
    {
        &&& forall|i: int| 0 <= i < self.exceptions@.len() ==> (#[trigger] self.exceptions@[i]).ok_in(c, m)
        &&& match self.reference {
            Some(r) => r.ok_in(c, m),
            None => true,
        }
        &&& self.statements.ok_in(c, m)
    }

    pub fn new() -> (r: Rescue)
        ensures
            r.exceptions@.len() == 0,
            r.exceptions_shape == (Shape::Inline { len: 0 }),
            r.reference is None,
            r.head_trailing.spec_comment() is None,
            r.statements.nodes@.len() == 0,
            r.statements.virtual_end is None,
    {
        Rescue {
            exceptions: Vec::new(),
            exceptions_shape: Shape::inline(0),
            reference: None,
            head_trailing: TrailingTrivia::none(),
            statements: Statements::new(),
        }
    }

    pub fn append_exception(&mut self, exception: Node)
        requires
            old(self).exceptions_shape.concat_fits(exception.shape),
        ensures
            final(self).exceptions_shape == old(self).exceptions_shape.concat(exception.shape),
            final(self).exceptions@ == old(self).exceptions@.push(exception),
            final(self).reference == old(self).reference,
            final(self).statements == old(self).statements,
    {
        self.exceptions_shape.append(&exception.shape);
        self.exceptions.push(exception);
    }

    pub fn set_reference(&mut self, reference: Node)
        ensures
            final(self).reference == Some(Box::new(reference)),
            final(self).exceptions == old(self).exceptions,
            final(self).exceptions_shape == old(self).exceptions_shape,
            final(self).statements == old(self).statements,
    {
        self.reference = Some(Box::new(reference));
    }

    pub fn set_head_trailing(&mut self, trailing: TrailingTrivia)
        ensures
            final(self).head_trailing == trailing,
            final(self).exceptions == old(self).exceptions,
            final(self).reference == old(self).reference,
            final(self).statements == old(self).statements,
    {
        self.head_trailing = trailing;
    }

    pub fn set_statements(&mut self, statements: Statements)
        ensures
            final(self).statements == statements,
            final(self).exceptions == old(self).exceptions,
            final(self).reference == old(self).reference,
    {
        self.statements = statements;
    }

    /// The exceptions after a space, separated by `, `, where there are any.
    pub open spec fn exceptions_pieces(&self) -> Seq<Seq<u8>> {
        if self.exceptions@.len() > 0 {
            seq![seq![32u8]] + arguments_flat(self.exceptions@, self.exceptions@.len() as int)
        } else {
            Seq::empty()
        }
    }

    /// The reference after ` => `, where there is one.
    pub open spec fn reference_pieces(&self) -> Seq<Seq<u8>> {
        match self.reference {
            Some(r) => seq![SPACE_ARROW@, seq![32u8]] + node_flat(*r),
            None => Seq::empty(),
        }
    }

    /// The first line: `rescue`, the exceptions and the reference.
    pub open spec fn head_pieces(&self) -> Seq<Seq<u8>> {
        seq![RESCUE@] + self.exceptions_pieces() + self.reference_pieces()
    }

    /// A `rescue` laid out plainly with `room` bytes left on its line at `o`: its exceptions, which their shape lets stand on
    /// the line, and its reference can be written flat on the first line, with no comment
    /// after any of them; and its statements can each be written flat one level deeper.
    pub open spec fn plain_layout_ok(&self, room: int, o: Output) -> bool {
        &&& self.exceptions@.len() > 0 ==> self.exceptions_shape.spec_fits_in_one_line(room - RESCUE@.len())
        &&& forall|i: int|
            0 <= i < self.exceptions@.len() ==> node_flat_ok(#[trigger] self.exceptions@[i])
                && self.exceptions@[i].trailing_trivia.spec_comment() is None
        &&& match self.reference {
            Some(r) => node_flat_ok(*r) && r.trailing_trivia.spec_comment() is None,
            None => true,
        }
        &&& self.head_trailing.spec_comment() is None
        &&& total_len(self.head_pieces()) <= room
        &&& block_ok(self.statements, o)
    }

    /// Writes `rescue`, the exceptions, the reference and the statements one level
    /// deeper. A `rescue` laid out plainly comes out as its first line and its
    /// statements one per line.
    pub fn format(&self, o: &mut Output, ctx: &FormatContext, Ghost(c): Ghost<int>)
        requires
            ready(*old(o), *ctx, c),
            self.ok_in(c, ctx.heredoc_map@),
        ensures
            advanced(*old(o), *final(o), *ctx, c),
            self.plain_layout_ok(budget(*old(o)), *old(o)) ==> {
                &&& final(o).buffer@ == old(o).buffer@ + old(o).indent_prefix() + (joined(self.head_pieces())
                    + block_lines(self.statements, old(o).indent as nat + old(o).config.indent_size as nat))
                &&& final(o).indent == old(o).indent
                &&& final(o).heredoc_queue@.len() == 0
            },
        decreases heredoc_measure(c), 2int, self, 2int,
    {
        let ghost o0 = *o;
        let ghost plain = self.plain_layout_ok(budget(o0), o0);
        self.format_head(o, ctx, Ghost(c));
        let ghost oh = *o;
        proof {
            if plain {
                assert(self.head_pieces()[0] == RESCUE@);
                lemma_wrote_fitting(o0, oh, self.head_pieces());
            }
        }
        self.head_trailing.format(o);
        self.statements.format_block(o, ctx, Ghost(c));
    }

    /// Writes `rescue`, the exceptions, on the line where their shape fits there, else
    /// one per line after the first, and the reference, on the next line where it
    /// neither fits nor can continue the line.
    #[verifier::spinoff_prover]
    pub fn format_head(&self, o: &mut Output, ctx: &FormatContext, Ghost(c): Ghost<int>)
        requires
            ready(*old(o), *ctx, c),
            self.ok_in(c, ctx.heredoc_map@),
        ensures
            advanced(*old(o), *final(o), *ctx, c),
            self.plain_layout_ok(budget(*old(o)), *old(o)) ==> wrote_pieces(*old(o), *final(o), self.head_pieces()),
        decreases heredoc_measure(c), 2int, self, 1int,
    {
        let ghost o0 = *o;
        let ghost flat = self.plain_layout_ok(budget(o0), o0);
        let ghost ns = self.exceptions@;
        let ghost xp = self.exceptions_pieces();
        let ghost rp = self.reference_pieces();
        proof {
            if flat {
                lemma_total_len_concat(seq![RESCUE@], xp);
                lemma_total_len_concat(seq![RESCUE@] + xp, rp);
                lemma_total_len_one(RESCUE@);
                lemma_total_len_one(seq![32u8]);
                if ns.len() > 0 {
                    lemma_total_len_concat(seq![seq![32u8]], arguments_flat(ns, ns.len() as int));
                }
            }
        }
        o.push_str(&RESCUE);
        let ghost o1 = *o;
        proof {
            if flat {
                lemma_wrote_fitting(o0, o1, seq![RESCUE@]);
            }
        }
        let n = self.exceptions.len();
        if n > 0 {
            if self.exceptions_shape.fits_in_one_line(o.remaining_width) {
                o.push(32u8);
                let ghost o2 = *o;
                proof {
                    if flat {
                        lemma_wrote_fitting(o1, o2, seq![seq![32u8]]);
                    }
                }
                let mut i: usize = 0;
                while i < n
                    invariant
                        n == self.exceptions@.len(),
                        ns == self.exceptions@,
                        ready(*o, *ctx, c),
                        advanced(*old(o), *o, *ctx, c),
                        self.ok_in(c, ctx.heredoc_map@),
                        0 <= i <= n,
                        flat ==> {
                            &&& self.plain_layout_ok(budget(o0), o0)
                            &&& o2.wf()
                            &&& wrote_pieces(o2, *o, arguments_flat(ns, i as int))
                            &&& budget(*o) == budget(o2) - total_len(arguments_flat(ns, i as int))
                            &&& total_len(arguments_flat(ns, n as int)) <= budget(o2)
                            &&& o.indent_prefix().len() == 0
                        },
                    decreases n - i,
                {
                    let ghost oa = *o;
                    let ghost glue = if i > 0 {
                        seq![seq![44u8, 32u8]]
                    } else {
                        Seq::<Seq<u8>>::empty()
                    };
                    if i > 0 {
                        o.push_str(&COMMA_SPACE);
                        proof {
                            assert(COMMA_SPACE@ =~= seq![44u8, 32u8]);
                        }
                    } else {
                        proof {
                            lemma_wrote_nothing(oa);
                        }
                    }
                    let ghost od = *o;
                    proof {
                        if flat {
                            let ap = node_flat(ns[i as int]);
                            assert(node_flat_ok(ns[i as int]));
                            lemma_node_flat_nonempty(ns[i as int]);
                            lemma_arguments_flat_prefix(ns, i + 1, n as int);
                            lemma_total_len_concat(glue, ap);
                            if i > 0 {
                                lemma_total_len_concat(arguments_flat(ns, i as int), glue);
                                lemma_total_len_concat(arguments_flat(ns, i as int) + glue, ap);
                                lemma_total_len_one(seq![44u8, 32u8]);
                                lemma_wrote_fitting(oa, od, glue);
                            } else {
                                assert(arguments_flat(ns, 1) == ap);
                            }
                        }
                    }
                    self.exceptions[i].format(o, ctx, Ghost(c));
                    self.exceptions[i].trailing_trivia.format(o);
                    proof {
                        if flat {
                            let ap = node_flat(ns[i as int]);
                            lemma_wrote_fitting(od, *o, ap);
                            lemma_wrote_pieces_concat(oa, od, *o, glue, ap);
                            lemma_wrote_pieces_concat(o2, oa, *o, arguments_flat(ns, i as int), glue + ap);
                            if i > 0 {
                                assert(arguments_flat(ns, i as int) + (glue + ap) =~= arguments_flat(ns, i + 1));
                            } else {
                                assert(arguments_flat(ns, 0) + (glue + ap) =~= arguments_flat(ns, 1));
                            }
                            lemma_total_len_concat(arguments_flat(ns, i as int), glue + ap);
                        }
                    }
                    i = i + 1;
                }
                proof {
                    if flat {
                        lemma_wrote_pieces_concat(o1, o2, *o, seq![seq![32u8]], arguments_flat(ns, n as int));
                    }
                }
            } else {
                o.push(32u8);
                self.exceptions[0].format(o, ctx, Ghost(c));
                if n > 1 {
                    o.push(44u8);
                }
                self.exceptions[0].trailing_trivia.format(o);
                if n > 1 {
                    o.indent();
                    let mut i: usize = 1;
                    while i < n
                        invariant
                            n == self.exceptions@.len(),
                            ready(*o, *ctx, c),
                            advanced(*old(o), *o, *ctx, c),
                            self.ok_in(c, ctx.heredoc_map@),
                        decreases n - i,
                    {
                        let exception = &self.exceptions[i];
                        o.break_line(ctx, Ghost(c));
                        exception.leading_trivia.format(o, ctx, EmptyLineHandling::none(), Ghost(c));
                        exception.format(o, ctx, Ghost(c));
                        if i + 1 < n {
                            o.push(44u8);
                        }
                        exception.trailing_trivia.format(o);
                        i = i + 1;
                    }
                    o.dedent();
                }
            }
        } else {
            proof {
                lemma_wrote_nothing(o1);
            }
        }
        let ghost o3 = *o;
        if let Some(reference) = &self.reference {
            o.push_str(&SPACE_ARROW);
            let ghost o4 = *o;
            proof {
                if flat {
                    lemma_total_len_one(SPACE_ARROW@);
                    assert(seq![SPACE_ARROW@, seq![32u8]] =~= seq![SPACE_ARROW@] + seq![seq![32u8]]);
                    lemma_total_len_concat(seq![SPACE_ARROW@], seq![seq![32u8]]);
                    lemma_total_len_concat(seq![SPACE_ARROW@, seq![32u8]], node_flat(**reference));
                    lemma_wrote_fitting(o3, o4, seq![SPACE_ARROW@]);
                    lemma_flat_continues_line(**reference);
                    lemma_node_flat_nonempty(**reference);
                }
            }
            if reference.shape.fits_in_one_line(o.remaining_width) || reference.can_continue_line() {
                o.push(32u8);
                let ghost o5 = *o;
                proof {
                    if flat {
                        lemma_wrote_fitting(o4, o5, seq![seq![32u8]]);
                    }
                }
                reference.format(o, ctx, Ghost(c));
                reference.trailing_trivia.format(o);
                proof {
                    if flat {
                        lemma_wrote_pieces_concat(o3, o4, o5, seq![SPACE_ARROW@], seq![seq![32u8]]);
                        lemma_wrote_pieces_concat(o3, o5, *o, seq![SPACE_ARROW@] + seq![seq![32u8]], node_flat(**reference));
                    }
                }
            } else {
                o.indent();
                o.break_line(ctx, Ghost(c));
                reference.leading_trivia.format(o, ctx, EmptyLineHandling::trim(), Ghost(c));
                reference.format(o, ctx, Ghost(c));
                reference.trailing_trivia.format(o);
                o.dedent();
            }
        } else {
            proof {
                lemma_wrote_nothing(o3);
            }
        }
        proof {
            if flat {
                lemma_wrote_pieces_concat(o0, o1, o3, seq![RESCUE@], xp);
                lemma_wrote_pieces_concat(o0, o3, *o, seq![RESCUE@] + xp, rp);
            }
        }
    }
}

} // verus!
