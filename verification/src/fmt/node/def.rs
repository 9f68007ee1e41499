use vstd::prelude::*;

use crate::fmt::flat::{
    arguments_flat, budget, joined, lemma_arguments_flat_prefix, lemma_flat_continues_line,
    lemma_node_flat_nonempty, lemma_total_len_concat, lemma_total_len_one, lemma_wrote_fitting, node_flat,
    node_flat_ok, opening_piece, total_len,
};
use crate::fmt::output::{
    advanced, heredoc_measure, lemma_pushes_one, lemma_wrote_nothing, lemma_wrote_pieces_concat, ready, spaces,
    wrote_pieces, FormatContext, Output,
};
use crate::fmt::shape::Shape;
use crate::fmt::text::{opt_len, spec_opt_len, COMMA, COMMA_SPACE, DEF, END, SPACE_EQ};
use crate::fmt::trivia::{EmptyLineHandling, TrailingTrivia};

use super::arguments::{fits_own_line, trailing_text, write_node_line};
use super::block::lemma_plain_ok_settings;
use super::ifs::{closing_end, lemma_end_written};
use super::string_like::opt_piece;
use super::{BlockBody, Heredoc, Node, Statements, VirtualEnd};

verus! {

broadcast use crate::fmt::growth::group_output_growth;

/// A method definition.
#[derive(Debug)]
pub struct Def {
    pub shape: Shape,
    pub receiver: Option<Box<Node>>,
    pub name: Vec<u8>,
    pub parameters: Option<MethodParameters>,
    pub body: DefBody,
}

/// `def foo = body`, or a body ended by `end`.
#[derive(Debug)]
pub enum DefBody {
    Short { body: Box<Node> },
    Block { head_trailing: TrailingTrivia, body: BlockBody },
}

/// `(a, b = 1, *rest)`
#[derive(Debug)]
pub struct MethodParameters {
    pub shape: Shape,
    pub opening: Option<Vec<u8>>,
    pub closing: Option<Vec<u8>>,
    pub params: Vec<Node>,
    pub virtual_end: Option<VirtualEnd>,
}

impl Def {
    pub open spec fn ok_in(&self, c: int, m: Map<usize, Heredoc>) -> bool
        decreases self,
    {
        &&& match self.receiver {
            Some(r) => r.ok_in(c, m),
            None => true,
        }
        &&& match self.parameters {
            Some(p) => p.ok_in(c, m),
            None => true,
        }
        &&& self.body.ok_in(c, m)
    }

    pub fn new(receiver: Option<Node>, name: Vec<u8>) -> (d: Def)
        requires
            4 + name@.len() + match receiver {
                Some(r) => r.shape.size(),
                None => 0,
            } <= usize::MAX,
        ensures
            // `def ` and the name
            d.shape == match receiver {
                Some(r) => (Shape::Inline { len: (4 + name@.len()) as usize }).inserted(r.shape),
                None => Shape::Inline { len: (4 + name@.len()) as usize },
            },
            match receiver {
                Some(r) => d.receiver == Some(Box::new(r)),
                None => d.receiver is None,
            },
            d.name == name,
            d.parameters is None,
            d.body is Block,
    {
        let mut shape = Shape::inline(4 + name.len());
        if let Some(r) = &receiver {
            shape.insert(&r.shape);
        }
        let receiver = match receiver {
            Some(r) => Some(Box::new(r)),
            None => None,
        };
        Def {
            shape,
            receiver,
            name,
            parameters: None,
            body: DefBody::Block {
                head_trailing: TrailingTrivia::none(),
                body: BlockBody::new(Statements::new()),
            },
        }
    }

    pub fn set_parameters(&mut self, parameters: MethodParameters)
        requires
            old(self).shape.concat_fits(parameters.shape),
        ensures
            final(self).shape == old(self).shape.concat(parameters.shape),
            final(self).parameters == Some(parameters),
            final(self).receiver == old(self).receiver,
            final(self).name == old(self).name,
            final(self).body == old(self).body,
    {
        self.shape.append(&parameters.shape);
        self.parameters = Some(parameters);
    }

    pub fn set_body(&mut self, body: DefBody)
        requires
            old(self).shape.concat_fits(body.spec_shape()),
        ensures
            final(self).shape == old(self).shape.concat(body.spec_shape()),
            final(self).body == body,
            final(self).receiver == old(self).receiver,
            final(self).name == old(self).name,
            final(self).parameters == old(self).parameters,
    {
        self.shape.append(&body.shape());
        self.body = body;
    }

    /// The receiver written flat and `.`, where there is one.
    pub open spec fn receiver_pieces(&self) -> Seq<Seq<u8>> {
        match self.receiver {
            Some(r) => node_flat(*r) + seq![seq![46u8]],
            None => Seq::empty(),
        }
    }

    /// `def`, a space, the receiver and `.` if any, the name, and the parameters on the
    /// same line.
    pub open spec fn signature_pieces(&self) -> Seq<Seq<u8>> {
        seq![DEF@, seq![32u8]] + self.receiver_pieces() + seq![self.name@] + match self.parameters {
            Some(p) => p.line_pieces(),
            None => Seq::empty(),
        }
    }

    /// A method whose receiver, if any, can be written flat with no comment after it,
    /// and whose parameters, if any, can stand on the line after its name (see
    /// `MethodParameters::one_line_ok`), in a line with `room` bytes left.
    pub open spec fn signature_ok(&self, room: int) -> bool {
        let head = DEF@.len() + 1 + total_len(self.receiver_pieces()) + self.name@.len();
        &&& match self.receiver {
            Some(r) => node_flat_ok(*r) && r.trailing_trivia.spec_comment() is None,
            None => true,
        }
        &&& match self.parameters {
            Some(p) => p.one_line_ok(room - head),
            None => head <= room,
        }
    }

    /// A definition laid out plainly at `o`: its signature stands on one line; a body
    /// after `=` can be written flat after it, with no comment after it; a body ended by
    /// `end` has no comment after the signature and is laid out plainly (see
    /// `BlockBody::plain_ok`).
    pub open spec fn plain_layout_ok(&self, o: Output) -> bool {
        &&& self.signature_ok(budget(o))
        &&& match self.body {
            DefBody::Short { body } => {
                &&& node_flat_ok(*body)
                &&& body.trailing_trivia.spec_comment() is None
                &&& total_len(self.signature_pieces()) + SPACE_EQ@.len() + 1 + total_len(node_flat(*body))
                    <= budget(o)
            },
            DefBody::Block { head_trailing, body } => {
                &&& head_trailing.spec_comment() is None
                &&& body.plain_ok(o)
            },
        }
    }

    /// The text of such a definition at indentation `indent`.
    pub open spec fn plain_text(&self, indent: nat, indent_size: nat) -> Seq<u8> {
        joined(self.signature_pieces()) + match self.body {
            DefBody::Short { body } => SPACE_EQ@ + seq![32u8] + joined(node_flat(*body)),
            DefBody::Block { head_trailing: _, body } => body.plain_text(indent, indent_size)
                + closing_end(indent),
        }
    }

    /// Writes the signature, then `= body` or the body one level deeper and `end`. A
    /// definition laid out plainly comes out as `plain_text`.
    #[verifier::spinoff_prover]
    #[verifier::rlimit(50)]
    pub fn format(&self, o: &mut Output, ctx: &FormatContext, Ghost(c): Ghost<int>)
        requires
            ready(*old(o), *ctx, c),
            self.ok_in(c, ctx.heredoc_map@),
        ensures
            advanced(*old(o), *final(o), *ctx, c),
            self.plain_layout_ok(*old(o)) ==> final(o).buffer@ == old(o).buffer@ + old(o).indent_prefix()
                + self.plain_text(old(o).indent as nat, old(o).config.indent_size as nat),
        decreases heredoc_measure(c), 2int, self, 2int,
    {
        let ghost o0 = *o;
        let ghost plain = self.plain_layout_ok(o0);
        let ghost sp = self.signature_pieces();
        self.format_signature(o, ctx, Ghost(c));
        let ghost o1 = *o;
        proof {
            if plain {
                lemma_signature_len(*self);
                lemma_total_len_one(SPACE_EQ@);
                lemma_wrote_fitting(o0, o1, sp);
            }
        }
        match &self.body {
            // def foo = body
            DefBody::Short { body } => {
                o.push_str(&SPACE_EQ);
                let ghost o2 = *o;
                proof {
                    if plain {
                        lemma_wrote_fitting(o1, o2, seq![SPACE_EQ@]);
                    }
                }
                if body.shape.fits_in_one_line(o.remaining_width) || body.can_continue_line() {
                    o.push(32u8);
                    let ghost o3 = *o;
                    proof {
                        if plain {
                            lemma_total_len_one(seq![32u8]);
                            lemma_wrote_fitting(o2, o3, seq![seq![32u8]]);
                            lemma_node_flat_nonempty(**body);
                        }
                    }
                    body.format(o, ctx, Ghost(c));
                    proof {
                        if plain {
                            lemma_wrote_fitting(o3, *o, node_flat(**body));
                        }
                    }
                    body.trailing_trivia.format(o);
                    proof {
                        if plain {
                            assert(o.buffer@ =~= o0.buffer@ + o0.indent_prefix() + self.plain_text(
                                o0.indent as nat,
                                o0.config.indent_size as nat,
                            ));
                        }
                    }
                } else {
                    proof {
                        if plain {
                            lemma_flat_continues_line(**body);
                        }
                    }
                    o.indent();
                    o.break_line(ctx, Ghost(c));
                    body.leading_trivia.format(o, ctx, EmptyLineHandling::trim(), Ghost(c));
                    body.format(o, ctx, Ghost(c));
                    body.trailing_trivia.format(o);
                    o.dedent();
                }
            },
            // def foo\n body\n end
            DefBody::Block { head_trailing, body } => {
                head_trailing.format(o);
                let ghost ob = *o;
                proof {
                    if plain {
                        lemma_plain_ok_settings(*body, o0, ob);
                    }
                }
                body.format(o, ctx, true, Ghost(c));
                let ghost om = *o;
                o.break_line(ctx, Ghost(c));
                let ghost on = *o;
                o.push_str(&END);
                proof {
                    if plain {
                        lemma_end_written(om, on, *o);
                        assert(o.buffer@ =~= o0.buffer@ + o0.indent_prefix() + self.plain_text(
                            o0.indent as nat,
                            o0.config.indent_size as nat,
                        ));
                    }
                }
            },
        }
    }

    /// Writes `def`, the receiver if any, the name and the parameters. A signature that
    /// `signature_ok` describes is written as `signature_pieces`.
    pub fn format_signature(&self, o: &mut Output, ctx: &FormatContext, Ghost(c): Ghost<int>)
        requires
            ready(*old(o), *ctx, c),
            self.ok_in(c, ctx.heredoc_map@),
        ensures
            advanced(*old(o), *final(o), *ctx, c),
            self.signature_ok(budget(*old(o))) ==> wrote_pieces(*old(o), *final(o), self.signature_pieces()),
        decreases heredoc_measure(c), 2int, self, 1int,
    {
        let ghost o0 = *o;
        let ghost plain = self.signature_ok(budget(o0));
        let ghost head = seq![DEF@, seq![32u8], self.name@];
        proof {
            if plain {
                lemma_total_len_one(DEF@);
                lemma_total_len_one(seq![32u8]);
                lemma_total_len_one(self.name@);
                assert(head =~= seq![DEF@] + seq![seq![32u8]] + seq![self.name@]);
                lemma_total_len_concat(seq![DEF@], seq![seq![32u8]]);
                lemma_total_len_concat(seq![DEF@] + seq![seq![32u8]], seq![self.name@]);
            }
        }
        o.push_str(&DEF);
        if let Some(receiver) = &self.receiver {
            let ghost o1 = *o;
            let ghost rp = node_flat(**receiver);
            proof {
                if plain {
                    lemma_signature_len(*self);
                    lemma_wrote_fitting(o0, o1, seq![DEF@]);
                    lemma_node_flat_nonempty(**receiver);
                }
            }
            if receiver.shape.fits_in_one_line(o.remaining_width) || receiver.can_continue_line() {
                o.push(32u8);
                let ghost o2 = *o;
                proof {
                    if plain {
                        lemma_wrote_fitting(o1, o2, seq![seq![32u8]]);
                    }
                }
                receiver.format(o, ctx, Ghost(c));
                proof {
                    if plain {
                        lemma_wrote_fitting(o2, *o, rp);
                        lemma_wrote_pieces_concat(o0, o1, o2, seq![DEF@], seq![seq![32u8]]);
                        lemma_wrote_pieces_concat(o0, o2, *o, seq![DEF@] + seq![seq![32u8]], rp);
                    }
                }
            } else {
                o.indent();
                o.break_line(ctx, Ghost(c));
                // no leading trivia here.
                receiver.format(o, ctx, Ghost(c));
            }
            let ghost o3 = *o;
            o.push(46u8);
            let ghost o4 = *o;
            proof {
                if plain {
                    lemma_total_len_one(seq![46u8]);
                    lemma_wrote_fitting(o3, o4, seq![seq![46u8]]);
                    lemma_wrote_pieces_concat(o0, o3, o4, seq![DEF@] + seq![seq![32u8]] + rp, seq![seq![46u8]]);
                }
            }
            if receiver.trailing_trivia.is_none() {
                o.push_str(self.name.as_slice());
                let ghost o5 = *o;
                let ghost head = seq![DEF@] + seq![seq![32u8]] + rp + seq![seq![46u8]] + seq![self.name@];
                proof {
                    if plain {
                        lemma_wrote_fitting(o4, o5, seq![self.name@]);
                        lemma_wrote_pieces_concat(
                            o0,
                            o4,
                            o5,
                            seq![DEF@] + seq![seq![32u8]] + rp + seq![seq![46u8]],
                            seq![self.name@],
                        );
                        assert(head =~= seq![DEF@, seq![32u8]] + self.receiver_pieces() + seq![self.name@]);
                    }
                }
                if let Some(params) = &self.parameters {
                    params.format(o, ctx, Ghost(c));
                    proof {
                        if plain {
                            lemma_wrote_pieces_concat(o0, o5, *o, head, params.line_pieces());
                        }
                    }
                } else {
                    proof {
                        if plain {
                            assert(head + Seq::<Seq<u8>>::empty() =~= head);
                        }
                    }
                }
            } else {
                receiver.trailing_trivia.format(o);
                o.indent();
                o.break_line(ctx, Ghost(c));
                o.push_str(self.name.as_slice());
                if let Some(params) = &self.parameters {
                    params.format(o, ctx, Ghost(c));
                }
                o.dedent();
            }
        } else {
            let ghost o1 = *o;
            o.push(32u8);
            let ghost o2 = *o;
            o.push_str(self.name.as_slice());
            let ghost o3 = *o;
            proof {
                if plain {
                    lemma_wrote_fitting(o0, o1, seq![DEF@]);
                    lemma_wrote_fitting(o1, o2, seq![seq![32u8]]);
                    lemma_wrote_fitting(o2, o3, seq![self.name@]);
                    lemma_wrote_pieces_concat(o0, o1, o2, seq![DEF@], seq![seq![32u8]]);
                    lemma_wrote_pieces_concat(o0, o2, o3, seq![DEF@] + seq![seq![32u8]], seq![self.name@]);
                    assert(head =~= seq![DEF@, seq![32u8]] + self.receiver_pieces() + seq![self.name@]);
                }
            }
            if let Some(params) = &self.parameters {
                params.format(o, ctx, Ghost(c));
                proof {
                    if plain {
                        lemma_wrote_pieces_concat(o0, o3, *o, head, params.line_pieces());
                    }
                }
            } else {
                proof {
                    if plain {
                        assert(head + Seq::<Seq<u8>>::empty() =~= head);
                    }
                }
            }
        }
    }
}

/// The signature written on one line, and how long it is.
pub proof fn lemma_signature_len(d: Def)
    ensures
        total_len(d.signature_pieces()) == DEF@.len() + 1 + total_len(d.receiver_pieces()) + d.name@.len()
            + match d.parameters {
            Some(p) => total_len(p.line_pieces()),
            None => 0,
        },
        d.signature_pieces().len() > 0,
        d.receiver matches Some(r) ==> total_len(d.receiver_pieces()) == total_len(node_flat(*r)) + 1,
{
    let rest = match d.parameters {
        Some(p) => p.line_pieces(),
        None => Seq::<Seq<u8>>::empty(),
    };
    lemma_total_len_one(DEF@);
    lemma_total_len_one(seq![32u8]);
    lemma_total_len_one(d.name@);
    lemma_total_len_one(seq![46u8]);
    assert(seq![DEF@, seq![32u8]] =~= seq![DEF@] + seq![seq![32u8]]);
    lemma_total_len_concat(seq![DEF@], seq![seq![32u8]]);
    lemma_total_len_concat(seq![DEF@, seq![32u8]], d.receiver_pieces());
    lemma_total_len_concat(seq![DEF@, seq![32u8]] + d.receiver_pieces(), seq![d.name@]);
    lemma_total_len_concat(seq![DEF@, seq![32u8]] + d.receiver_pieces() + seq![d.name@], rest);
    if let Some(r) = d.receiver {
        lemma_total_len_concat(node_flat(*r), seq![seq![46u8]]);
    }
}

impl DefBody {
    pub open spec fn ok_in(&self, c: int, m: Map<usize, Heredoc>) -> bool
        decreases self,
    {
        match self {
            DefBody::Short { body } => body.ok_in(c, m),
            DefBody::Block { head_trailing: _, body } => body.ok_in(c, m),
        }
    }

    pub open spec fn spec_shape(&self) -> Shape {
        match self {
            DefBody::Short { body } => body.shape,
            DefBody::Block { .. } => Shape::Multilines,
        }
    }

    pub fn shape(&self) -> (s: Shape)
        ensures
            s == self.spec_shape(),
    {
        match self {
            DefBody::Short { body } => body.shape,
            DefBody::Block { .. } => Shape::Multilines,
        }
    }
}

impl MethodParameters {
    pub open spec fn ok_in(&self, c: int, m: Map<usize, Heredoc>) -> bool
        decreases self,
    {
        forall|i: int| 0 <= i < self.params@.len() ==> (#[trigger] self.params@[i]).ok_in(c, m)
    }

    pub fn new(opening: Option<Vec<u8>>, closing: Option<Vec<u8>>) -> (p: MethodParameters)
        requires
            spec_opt_len(opening) + spec_opt_len(closing) <= usize::MAX,
        ensures
            p.shape == (Shape::Inline { len: (spec_opt_len(opening) + spec_opt_len(closing)) as usize }),
            p.opening == opening,
            p.closing == closing,
            p.params@.len() == 0,
            p.virtual_end is None,
    {
        let opening_len = opt_len(&opening);
        let closing_len = opt_len(&closing);
        let shape = Shape::inline(opening_len + closing_len);
        MethodParameters { shape, opening, closing, params: Vec::new(), virtual_end: None }
    }

    pub fn append_param(&mut self, node: Node)
        requires
            old(self).shape.size() + node.shape.size() + 2 <= usize::MAX,
        ensures
            // `, ` between parameters
            final(self).shape == if old(self).params@.len() > 0 {
                old(self).shape.inserted(node.shape).inserted(Shape::Inline { len: 2 })
            } else {
                old(self).shape.inserted(node.shape)
            },
            final(self).params@ == old(self).params@.push(node),
            final(self).opening == old(self).opening,
            final(self).closing == old(self).closing,
            final(self).virtual_end == old(self).virtual_end,
    {
        self.shape.insert(&node.shape);
        if self.params.len() > 0 {
            self.shape.insert(&Shape::inline(2));
        }
        self.params.push(node);
    }

    pub fn set_virtual_end(&mut self, end: Option<VirtualEnd>)
        requires
            match end {
                Some(e) => old(self).shape.concat_fits(e.shape),
                None => true,
            },
        ensures
            final(self).shape == match end {
                Some(e) => old(self).shape.concat(e.shape),
                None => old(self).shape,
            },
            final(self).virtual_end == end,
            final(self).params == old(self).params,
            final(self).opening == old(self).opening,
            final(self).closing == old(self).closing,
    {
        if let Some(e) = &end {
            self.shape.append(&e.shape);
        }
        self.virtual_end = end;
    }

    /// The parameters on one line: the opening parenthesis (or a space), the
    /// parameters separated by `, `, and the closing parenthesis if any.
    pub open spec fn line_pieces(&self) -> Seq<Seq<u8>> {
        seq![opening_piece(self.opening)] + arguments_flat(self.params@, self.params@.len() as int) + opt_piece(
            self.closing,
        )
    }

    /// Parameters that their shape lets stand on the line with `room` bytes left on it,
    /// each made of parts that `node_flat` describes, and whose text fits in that room.
    pub open spec fn one_line_ok(&self, room: int) -> bool {
        &&& self.shape.spec_fits_in_one_line(room)
        &&& forall|i: int| 0 <= i < self.params@.len() ==> node_flat_ok(#[trigger] self.params@[i])
        &&& total_len(self.line_pieces()) <= room
    }

    /// The first `i` parameters one per line: each after a line break and `indent`
    /// spaces, with a comma after each but the last, and its comment.
    pub open spec fn vertical_text(&self, indent: nat, i: int) -> Seq<u8>
        decreases i,
    {
        if i <= 0 || i > self.params@.len() {
            Seq::empty()
        } else {
            self.vertical_text(indent, i - 1) + seq![10u8] + spaces(indent) + joined(node_flat(self.params@[i - 1]))
                + (if i < self.params@.len() {
                seq![44u8]
            } else {
                Seq::empty()
            }) + trailing_text(self.params@[i - 1])
        }
    }

    /// Parameters that do not fit on the line at `o`, without comments before the
    /// closing parenthesis, each of which can go on a line of its own one level deeper,
    /// with no heredoc waiting.
    pub open spec fn vertical_ok(&self, o: Output) -> bool {
        &&& !self.shape.spec_fits_in_one_line(o.remaining_width as int)
        &&& self.virtual_end is None
        &&& o.heredoc_queue@.len() == 0
        &&& o.indent < o.config.line_width
        &&& o.indent + o.config.indent_size <= usize::MAX
        &&& forall|i: int|
            0 <= i < self.params@.len() ==> fits_own_line(
                #[trigger] self.params@[i],
                o.indent + o.config.indent_size,
                o.config.line_width as int,
            )
    }

    /// Writes `(`, each parameter on a line of its own one level deeper, and `)` on a
    /// line of its own.
    #[verifier::spinoff_prover]
    fn format_vertically(&self, o: &mut Output, ctx: &FormatContext, Ghost(c): Ghost<int>)
        requires
            ready(*old(o), *ctx, c),
            self.ok_in(c, ctx.heredoc_map@),
        ensures
            advanced(*old(o), *final(o), *ctx, c),
            self.vertical_ok(*old(o)) ==> final(o).buffer@ == old(o).buffer@ + old(o).indent_prefix() + seq![40u8]
                + self.vertical_text((old(o).indent + old(o).config.indent_size) as nat, self.params@.len() as int)
                + seq![10u8] + spaces(old(o).indent as nat) + seq![41u8],
        decreases heredoc_measure(c), 2int, self, 0int,
    {
        let ghost o0 = *o;
        let ghost vertical = self.vertical_ok(o0);
        let ghost ind = (o0.indent + o0.config.indent_size) as nat;
        let n = self.params.len();
        o.push(40u8);
        o.indent();
        let ghost o1 = *o;
        proof {
            if vertical {
                lemma_pushes_one(o0.text_state(), o0.config.line_width as int, o0.indent as nat, seq![40u8]);
                assert(o1.buffer@ =~= o0.buffer@ + o0.indent_prefix() + seq![40u8] + self.vertical_text(ind, 0));
            }
        }
        let mut i: usize = 0;
        while i < n
            invariant
                n == self.params@.len(),
                ready(*o, *ctx, c),
                advanced(*old(o), *o, *ctx, c),
                self.ok_in(c, ctx.heredoc_map@),
                vertical == self.vertical_ok(o0),
                ind == (o0.indent + o0.config.indent_size) as nat,
                vertical ==> {
                    &&& o.buffer@ == o1.buffer@ + self.vertical_text(ind, i as int)
                    &&& o.indent == ind
                    &&& o.config == o0.config
                    &&& o.heredoc_queue@.len() == 0
                    &&& 0 <= i <= n
                },
            decreases n - i,
        {
            let comma: &[u8] = if i + 1 < n {
                &COMMA
            } else {
                &[]
            };
            proof {
                assert(COMMA@ =~= seq![44u8]);
                if vertical {
                    assert(fits_own_line(self.params@[i as int], ind as int, o0.config.line_width as int));
                }
            }
            write_node_line(&self.params[i], o, ctx, i == 0, false, comma, Ghost(c));
            proof {
                if vertical {
                    assert(o.buffer@ =~= o1.buffer@ + self.vertical_text(ind, i + 1));
                }
            }
            i = i + 1;
        }
        o.write_trivia_at_virtual_end(ctx, &self.virtual_end, true, n == 0, Ghost(c));
        o.dedent();
        o.break_line(ctx, Ghost(c));
        let ghost o3 = *o;
        o.push(41u8);
        proof {
            if vertical {
                lemma_pushes_one(o3.text_state(), o3.config.line_width as int, o3.indent as nat, seq![41u8]);
                assert(o.buffer@ =~= o3.buffer@ + spaces(o0.indent as nat) + seq![41u8]);
            }
        }
    }

    /// Writes the parameters on the line where their shape fits there, else one per line
    /// in parentheses. Parameters that `one_line_ok` describes are written as
    /// `line_pieces`.
    #[verifier::spinoff_prover]
    pub fn format(&self, o: &mut Output, ctx: &FormatContext, Ghost(c): Ghost<int>)
        requires
            ready(*old(o), *ctx, c),
            self.ok_in(c, ctx.heredoc_map@),
        ensures
            advanced(*old(o), *final(o), *ctx, c),
            self.one_line_ok(budget(*old(o))) ==> wrote_pieces(
                *old(o),
                *final(o),
                self.line_pieces(),
            ),
            self.vertical_ok(*old(o)) ==> final(o).buffer@ == old(o).buffer@ + old(o).indent_prefix() + seq![40u8]
                + self.vertical_text((old(o).indent + old(o).config.indent_size) as nat, self.params@.len() as int)
                + seq![10u8] + spaces(old(o).indent as nat) + seq![41u8],
        decreases heredoc_measure(c), 2int, self, 1int,
    {
        let ghost o0 = *o;
        let ghost ns = self.params@;
        let ghost flat = self.one_line_ok(budget(o0));
        let ghost op = opening_piece(self.opening);
        let ghost cf = arguments_flat(ns, ns.len() as int);
        let ghost cp = opt_piece(self.closing);
        proof {
            if flat {
                lemma_total_len_concat(seq![op], cf);
                lemma_total_len_concat(seq![op] + cf, cp);
                lemma_total_len_one(op);
            }
        }
        let n = self.params.len();
        if self.shape.fits_in_one_line(o.remaining_width) {
            match &self.opening {
                Some(opening) => o.push_str(opening.as_slice()),
                None => o.push(32u8),
            }
            let ghost o1 = *o;
            proof {
                if flat {
                    lemma_wrote_fitting(o0, o1, seq![op]);
                }
            }
            let mut i: usize = 0;
            while i < n
                invariant
                    n == self.params@.len(),
                    ns == self.params@,
                    ready(*o, *ctx, c),
                    advanced(*old(o), *o, *ctx, c),
                    self.ok_in(c, ctx.heredoc_map@),
                    0 <= i <= n,
                    flat ==> {
                        &&& self.one_line_ok(budget(o0))
                        &&& o1.wf()
                        &&& wrote_pieces(o1, *o, arguments_flat(ns, i as int))
                        &&& budget(*o) == budget(o1) - total_len(arguments_flat(ns, i as int))
                        &&& total_len(arguments_flat(ns, n as int)) + total_len(cp) <= budget(o1)
                        &&& o.indent_prefix().len() == 0
                    },
                decreases n - i,
            {
                let ghost oa = *o;
                let ghost glue = if i > 0 {
                    seq![seq![44u8, 32u8]]
                } else {
                    Seq::<Seq<u8>>::empty()
                };
                if i > 0 {
                    o.push_str(&COMMA_SPACE);
                    proof {
                        assert(COMMA_SPACE@ =~= seq![44u8, 32u8]);
                    }
                } else {
                    proof {
                        lemma_wrote_nothing(oa);
                    }
                }
                let ghost od = *o;
                proof {
                    if flat {
                        let ap = node_flat(ns[i as int]);
                        assert(node_flat_ok(ns[i as int]));
                        lemma_node_flat_nonempty(ns[i as int]);
                        lemma_arguments_flat_prefix(ns, i + 1, n as int);
                        lemma_total_len_concat(glue, ap);
                        if i > 0 {
                            lemma_total_len_concat(arguments_flat(ns, i as int), glue);
                            lemma_total_len_concat(arguments_flat(ns, i as int) + glue, ap);
                            lemma_total_len_one(seq![44u8, 32u8]);
                            lemma_wrote_fitting(oa, od, glue);
                        } else {
                            assert(arguments_flat(ns, 1) == ap);
                        }
                    }
                }
                self.params[i].format(o, ctx, Ghost(c));
                proof {
                    if flat {
                        let ap = node_flat(ns[i as int]);
                        lemma_wrote_fitting(od, *o, ap);
                        lemma_wrote_pieces_concat(oa, od, *o, glue, ap);
                        lemma_wrote_pieces_concat(o1, oa, *o, arguments_flat(ns, i as int), glue + ap);
                        if i > 0 {
                            assert(arguments_flat(ns, i as int) + (glue + ap) =~= arguments_flat(ns, i + 1));
                        } else {
                            assert(arguments_flat(ns, 0) + (glue + ap) =~= arguments_flat(ns, 1));
                        }
                        lemma_total_len_concat(arguments_flat(ns, i as int), glue + ap);
                    }
                }
                i = i + 1;
            }
            let ghost o2 = *o;
            if let Some(closing) = &self.closing {
                o.push_str(closing.as_slice());
            } else {
                proof {
                    lemma_wrote_nothing(o2);
                }
            }
            proof {
                if flat {
                    lemma_wrote_pieces_concat(o0, o1, o2, seq![op], cf);
                    lemma_wrote_pieces_concat(o0, o2, *o, seq![op] + cf, cp);
                }
            }
        } else {
            self.format_vertically(o, ctx, Ghost(c));
        }
    }
}

} // verus!
