pub mod alias;
pub mod alt_pattern_chain;
pub mod arguments;
pub mod array;
pub mod array_pattern;
pub mod assign;
pub mod assoc;
pub mod atom;
pub mod begin;
pub mod block;
pub mod call_like;
pub mod case;
pub mod case_match;
pub mod class_like;
pub mod constant_path;
pub mod def;
pub mod dyn_string_like;
pub mod fors;
pub mod hash;
pub mod heredoc;
pub mod ifs;
pub mod infix_chain;
pub mod lambda;
pub mod match_assign;
pub mod method_chain;
pub mod multi_assign_target;
pub mod parens;
pub mod postmodifier;
pub mod pre_post_exec;
pub mod prefix;
pub mod range_like;
pub mod singleton_class;
pub mod statements;
pub mod string_like;
pub mod ternary;
pub mod virtual_end;
pub mod whiles;

pub use self::alias::Alias;
pub use self::alt_pattern_chain::AltPatternChain;
pub use self::arguments::Arguments;
pub use self::array::Array;
pub use self::array_pattern::ArrayPattern;
pub use self::assign::Assign;
pub use self::assoc::Assoc;
pub use self::atom::Atom;
pub use self::begin::Begin;
pub use self::block::{Block, BlockBody, BlockParameters, Rescue};
pub use self::call_like::CallLike;
pub use self::case::{Case, CaseWhen};
pub use self::case_match::{CaseIn, CaseMatch};
pub use self::class_like::ClassLike;
pub use self::constant_path::ConstantPath;
pub use self::def::{Def, DefBody, MethodParameters};
pub use self::dyn_string_like::{DynStrPart, DynStringLike, EmbeddedStatements, EmbeddedVariable};
pub use self::fors::For;
pub use self::heredoc::{
    inspect_body_indent, prefix_spaces_of_empty_line, Heredoc, HeredocIndentMode, HeredocOpening,
    HeredocPart, HeredocState, Pos, SquigglyHeredocBodyInfo, SquigglyHeredocEmptyLineInfo,
    SquigglyHeredocLineStartPartInfo,
};
pub use self::ifs::{Conditional, Else, If};
pub use self::infix_chain::{InfixChain, InfixPrecedence, InfixRight};
pub use self::lambda::Lambda;
pub use self::match_assign::MatchAssign;
pub use self::method_chain::{
    CallUnit, IndexCall, MessageCall, MethodChain, MethodChainHead, Receiver,
};
pub use self::multi_assign_target::MultiAssignTarget;
pub use self::parens::Parens;
pub use self::postmodifier::Postmodifier;
pub use self::pre_post_exec::PrePostExec;
pub use self::prefix::Prefix;
pub use self::range_like::RangeLike;
pub use self::singleton_class::SingletonClass;
pub use self::statements::Statements;
pub use self::string_like::StringLike;
pub use self::ternary::Ternary;
pub use self::virtual_end::VirtualEnd;
pub use self::whiles::While;

use vstd::prelude::*;

use super::output::{advanced, heredoc_measure, ready, wrote_pieces, FormatContext, Output};
use self::string_like::delimited_pieces;
use super::flat::{budget, kind_flat, kind_flat_ok, lines_written, node_flat, node_flat_ok, total_len};
use super::shape::{ArgumentStyle, Shape};
use super::trivia::{LeadingTrivia, TrailingTrivia};

verus! {

broadcast use super::growth::group_output_growth;

/// A node of the layout tree: the code of `kind` with the comments around it.
#[derive(Debug)]
pub struct Node {
    pub leading_trivia: LeadingTrivia,
    pub trailing_trivia: TrailingTrivia,
    pub kind: Kind,
    pub shape: Shape,
}

/// Every kind of code that the formatter lays out.
#[derive(Debug)]
pub enum Kind {
    Atom(Atom),
    StringLike(StringLike),
    DynStringLike(DynStringLike),
    HeredocOpening(HeredocOpening),
    ConstantPath(ConstantPath),
    Statements(Statements),
    Parens(Parens),
    If(If),
    Ternary(Ternary),
    Case(Case),
    While(While),
    For(For),
    Postmodifier(Postmodifier),
    MethodChain(MethodChain),
    InfixChain(InfixChain),
    Lambda(Lambda),
    CallLike(CallLike),
    Assign(Assign),
    MultiAssignTarget(MultiAssignTarget),
    Prefix(Prefix),
    Array(Array),
    Hash(self::hash::Hash),
    Assoc(Assoc),
    Begin(Begin),
    Def(Def),
    ClassLike(ClassLike),
    SingletonClass(SingletonClass),
    RangeLike(RangeLike),
    CaseMatch(CaseMatch),
    MatchAssign(MatchAssign),
    ArrayPattern(ArrayPattern),
    AltPatternChain(AltPatternChain),
    PrePostExec(PrePostExec),
    Alias(Alias),
}

impl Node {
    /// Every heredoc that the node opens has a body in `m` and a position above `c`,
    /// and every array without brackets holds an element.
    pub open spec fn ok_in(&self, c: int, m: Map<usize, Heredoc>) -> bool
        decreases self,
    {
        self.kind.ok_in(c, m)
    }

    pub open spec fn spec_can_continue_line(&self) -> bool
        decreases self,
    {
        self.leading_trivia.spec_shape().spec_is_empty() && self.kind.spec_can_continue_line()
    }

    pub fn new(kind: Kind) -> (n: Node)
        requires
            kind.shape_ok(),
        ensures
            n.leading_trivia.spec_lines() == Seq::<super::trivia::LineTrivia>::empty(),
            n.trailing_trivia.spec_comment() is None,
            n.kind == kind,
            n.shape == kind.spec_shape(),
    {
        Self::with_leading_trivia(LeadingTrivia::new(), kind)
    }

    pub fn with_leading_trivia(leading_trivia: LeadingTrivia, kind: Kind) -> (n: Node)
        requires
            kind.shape_ok(),
        ensures
            n.leading_trivia == leading_trivia,
            n.trailing_trivia.spec_comment() is None,
            n.kind == kind,
            n.shape == leading_trivia.spec_shape().concat(kind.spec_shape()),
    {
        let shape = leading_trivia.shape().add(&kind.shape());
        Node { leading_trivia, trailing_trivia: TrailingTrivia::none(), kind, shape }
    }

    /// Puts `leading_trivia` in front of the lines that the node already had.
    pub fn prepend_leading_trivia(&mut self, leading_trivia: LeadingTrivia)
        requires
            old(self).shape.insert_fits(leading_trivia.spec_shape()),
        ensures
            final(self).shape == old(self).shape.inserted(leading_trivia.spec_shape()),
            final(self).leading_trivia.spec_lines() == leading_trivia.spec_lines()
                + old(self).leading_trivia.spec_lines(),
            final(self).trailing_trivia == old(self).trailing_trivia,
            final(self).kind == old(self).kind,
    {
        self.shape.insert(leading_trivia.shape());
        if self.leading_trivia.is_empty() {
            self.leading_trivia = leading_trivia;
            assert(final(self).leading_trivia.spec_lines() =~= leading_trivia.spec_lines()
                + old(self).leading_trivia.spec_lines());
        } else {
            let mut current = leading_trivia;
            std::mem::swap(&mut current, &mut self.leading_trivia);
            self.leading_trivia.merge(current);
        }
    }

    pub fn set_trailing_trivia(&mut self, trailing_trivia: TrailingTrivia)
        requires
            old(self).shape.concat_fits(trailing_trivia.spec_shape()),
        ensures
            final(self).shape == old(self).shape.concat(trailing_trivia.spec_shape()),
            final(self).trailing_trivia == trailing_trivia,
            final(self).leading_trivia == old(self).leading_trivia,
            final(self).kind == old(self).kind,
    {
        self.shape.append(trailing_trivia.shape());
        self.trailing_trivia = trailing_trivia;
    }

    pub fn format(&self, o: &mut Output, ctx: &FormatContext, Ghost(c): Ghost<int>)
        requires
            ready(*old(o), *ctx, c),
            self.ok_in(c, ctx.heredoc_map@),
        ensures
            advanced(*old(o), *final(o), *ctx, c),
            kind_flat_ok(self.kind) && total_len(node_flat(*self)) <= budget(*old(o)) ==> wrote_pieces(
                *old(o),
                *final(o),
                node_flat(*self),
            ),
            self.kind matches Kind::Statements(s) ==> lines_written(s, *old(o), *final(o)),
            self.kind matches Kind::Statements(s) && s.nodes@.len() == 0 && s.virtual_end is None ==> *final(o)
                == *old(o),
            self.kind matches Kind::Atom(a) ==> old(o).pushed(*final(o), a.0@),
            self.kind matches Kind::StringLike(s) ==> wrote_pieces(
                *old(o),
                *final(o),
                delimited_pieces(s.opening, s.value@, s.closing),
            ),
        decreases heredoc_measure(c), 2int, self, 1int,
    {
        self.kind.format(o, ctx, Ghost(c));
    }

    pub fn can_continue_line(&self) -> (b: bool)
        ensures
            b == self.spec_can_continue_line(),
        decreases self,
    {
        self.leading_trivia.shape().is_empty() && self.kind.can_continue_line()
    }

    pub open spec fn concat_ok(&self) -> bool
        decreases self,
    {
        self.kind.concat_ok()
    }

    /// How the node can be continued on the current line: not at all when comments
    /// stand in front of it.
    pub open spec fn spec_concat_style(&self) -> ArgumentStyle
        decreases self,
    {
        if self.leading_trivia.spec_lines().len() == 0 {
            self.kind.spec_concat_style()
        } else {
            ArgumentStyle::Vertical
        }
    }

    pub fn concat_style(&self) -> (s: ArgumentStyle)
        requires
            self.concat_ok(),
        ensures
            s == self.spec_concat_style(),
        decreases self,
    {
        if self.leading_trivia.is_empty() {
            self.kind.concat_style()
        } else {
            ArgumentStyle::Vertical
        }
    }
}

impl Kind {
    pub open spec fn ok_in(&self, c: int, m: Map<usize, Heredoc>) -> bool
        decreases self,
    {
        match self {
            Kind::Atom(_) => true,
            Kind::StringLike(_) => true,
            Kind::DynStringLike(s) => s.ok_in(c, m),
            Kind::HeredocOpening(h) => h.pos.0 > c && m.contains_key(h.pos.0),
            Kind::ConstantPath(p) => p.ok_in(c, m),
            Kind::Statements(s) => s.ok_in(c, m),
            Kind::Parens(p) => p.ok_in(c, m),
            Kind::If(i) => i.ok_in(c, m),
            Kind::Ternary(t) => t.ok_in(c, m),
            Kind::Case(k) => k.ok_in(c, m),
            Kind::While(w) => w.ok_in(c, m),
            Kind::For(f) => f.ok_in(c, m),
            Kind::Postmodifier(p) => p.ok_in(c, m),
            Kind::MethodChain(ch) => ch.ok_in(c, m),
            Kind::InfixChain(ch) => ch.ok_in(c, m),
            Kind::Lambda(l) => l.ok_in(c, m),
            Kind::CallLike(k) => k.ok_in(c, m),
            Kind::Assign(a) => a.ok_in(c, m),
            Kind::MultiAssignTarget(t) => t.ok_in(c, m),
            Kind::Prefix(p) => p.ok_in(c, m),
            Kind::Array(a) => a.ok_in(c, m),
            Kind::Hash(h) => h.ok_in(c, m),
            Kind::Assoc(a) => a.ok_in(c, m),
            Kind::Begin(b) => b.ok_in(c, m),
            Kind::Def(d) => d.ok_in(c, m),
            Kind::ClassLike(k) => k.ok_in(c, m),
            Kind::SingletonClass(k) => k.ok_in(c, m),
            Kind::RangeLike(r) => r.ok_in(c, m),
            Kind::CaseMatch(k) => k.ok_in(c, m),
            Kind::MatchAssign(a) => a.ok_in(c, m),
            Kind::ArrayPattern(a) => a.ok_in(c, m),
            Kind::AltPatternChain(ch) => ch.ok_in(c, m),
            Kind::PrePostExec(e) => e.ok_in(c, m),
            Kind::Alias(a) => a.ok_in(c, m),
        }
    }

    /// The shape that each kind of code takes on its own.
    pub open spec fn spec_shape(&self) -> Shape {
        match self {
            Kind::Atom(atom) => Shape::Inline { len: atom.0@.len() as usize },
            Kind::StringLike(s) => s.shape,
            Kind::DynStringLike(s) => s.shape,
            Kind::HeredocOpening(opening) => opening.shape,
            Kind::ConstantPath(p) => p.shape,
            Kind::Statements(s) => s.shape,
            Kind::Parens(p) => p.shape,
            Kind::If(_) => Shape::Multilines,
            Kind::Ternary(t) => t.shape,
            Kind::Case(_) => Shape::Multilines,
            Kind::While(_) => Shape::Multilines,
            Kind::For(_) => Shape::Multilines,
            Kind::Postmodifier(p) => p.shape,
            Kind::MethodChain(ch) => ch.shape,
            Kind::InfixChain(ch) => ch.shape,
            Kind::Lambda(l) => l.shape,
            Kind::CallLike(k) => k.shape,
            Kind::Assign(a) => a.shape,
            Kind::MultiAssignTarget(t) => t.shape,
            Kind::Prefix(p) => p.shape,
            Kind::Array(a) => a.shape,
            Kind::Hash(h) => h.shape,
            Kind::Assoc(a) => a.shape,
            Kind::Begin(_) => Shape::Multilines,
            Kind::Def(d) => d.shape,
            Kind::ClassLike(_) => Shape::Multilines,
            Kind::SingletonClass(_) => Shape::Multilines,
            Kind::RangeLike(r) => r.shape,
            Kind::CaseMatch(_) => Shape::Multilines,
            Kind::MatchAssign(a) => a.spec_shape(),
            Kind::ArrayPattern(a) => a.spec_shape(),
            Kind::AltPatternChain(ch) => ch.spec_shape(),
            Kind::PrePostExec(e) => e.shape,
            Kind::Alias(a) => a.shape,
        }
    }

    pub open spec fn spec_can_continue_line(&self) -> bool
        decreases self,
    {
        match self {
            Kind::Statements(s) => if s.nodes@.len() > 1 {
                false
            } else if s.nodes@.len() == 1 {
                s.nodes@[0].spec_can_continue_line()
            } else {
                s.virtual_end is None
            },
            _ => true,
        }
    }

    pub open spec fn concat_ok(&self) -> bool
        decreases self,
    {
        match self {
            Kind::Prefix(p) => match p.expression {
                Some(e) => e.concat_ok(),
                None => true,
            },
            Kind::Array(a) => a.opening is None ==> a.elements@.len() > 0 && a.elements@[0].concat_ok(),
            Kind::Assoc(a) => a.key.concat_ok() && match a.value {
                Some(v) => v.concat_ok(),
                None => true,
            },
            _ => true,
        }
    }

    #[verifier::spinoff_prover]
    #[verifier::rlimit(30)]
    pub fn format(&self, o: &mut Output, ctx: &FormatContext, Ghost(c): Ghost<int>)
        requires
            ready(*old(o), *ctx, c),
            self.ok_in(c, ctx.heredoc_map@),
        ensures
            advanced(*old(o), *final(o), *ctx, c),
            kind_flat_ok(*self) && total_len(kind_flat(*self)) <= budget(*old(o)) ==> wrote_pieces(
                *old(o),
                *final(o),
                kind_flat(*self),
            ),
            self matches Kind::Statements(s) ==> lines_written(*s, *old(o), *final(o)),
            self matches Kind::Statements(s) && s.nodes@.len() == 0 && s.virtual_end is None ==> *final(o)
                == *old(o),
            self matches Kind::Atom(a) ==> old(o).pushed(*final(o), a.0@),
            self matches Kind::StringLike(s) ==> wrote_pieces(
                *old(o),
                *final(o),
                delimited_pieces(s.opening, s.value@, s.closing),
            ),
        decreases heredoc_measure(c), 2int, self, 1int,
    {
        match self {
            Kind::Atom(atom) => atom.format(o),
            Kind::StringLike(s) => s.format(o),
            Kind::DynStringLike(s) => s.format(o, ctx, Ghost(c)),
            Kind::HeredocOpening(opening) => opening.format(o),
            Kind::ConstantPath(p) => p.format(o, ctx, Ghost(c)),
            Kind::Statements(s) => {
                s.format(o, ctx, false, Ghost(c));
                proof {
                    reveal(lines_written);
                }
            },
            Kind::Parens(p) => p.format(o, ctx, Ghost(c)),
            Kind::If(i) => i.format(o, ctx, Ghost(c)),
            Kind::Ternary(t) => t.format(o, ctx, Ghost(c)),
            Kind::Case(k) => k.format(o, ctx, Ghost(c)),
            Kind::While(w) => w.format(o, ctx, Ghost(c)),
            Kind::For(f) => f.format(o, ctx, Ghost(c)),
            Kind::Postmodifier(p) => p.format(o, ctx, Ghost(c)),
            Kind::MethodChain(ch) => ch.format(o, ctx, Ghost(c)),
            Kind::Lambda(l) => l.format(o, ctx, Ghost(c)),
            Kind::CallLike(k) => k.format(o, ctx, Ghost(c)),
            Kind::InfixChain(ch) => ch.format(o, ctx, Ghost(c)),
            Kind::Assign(a) => a.format(o, ctx, Ghost(c)),
            Kind::MultiAssignTarget(t) => t.format(o, ctx, Ghost(c)),
            Kind::Prefix(p) => p.format(o, ctx, Ghost(c)),
            Kind::Array(a) => a.format(o, ctx, Ghost(c)),
            Kind::Hash(h) => h.format(o, ctx, Ghost(c)),
            Kind::Assoc(a) => a.format(o, ctx, Ghost(c)),
            Kind::Begin(b) => b.format(o, ctx, Ghost(c)),
            Kind::Def(d) => d.format(o, ctx, Ghost(c)),
            Kind::ClassLike(k) => k.format(o, ctx, Ghost(c)),
            Kind::SingletonClass(k) => k.format(o, ctx, Ghost(c)),
            Kind::RangeLike(r) => r.format(o, ctx, Ghost(c)),
            Kind::CaseMatch(k) => k.format(o, ctx, Ghost(c)),
            Kind::MatchAssign(a) => a.format(o, ctx, Ghost(c)),
            Kind::ArrayPattern(a) => a.format(o, ctx, Ghost(c)),
            Kind::AltPatternChain(ch) => ch.format(o, ctx, Ghost(c)),
            Kind::PrePostExec(e) => e.format(o, ctx, Ghost(c)),
            Kind::Alias(a) => a.format(o, ctx, Ghost(c)),
        }
    }

    /// The kinds whose shape is computed from parts have parts whose lengths add up.
    pub open spec fn shape_ok(&self) -> bool {
        match self {
            Kind::ArrayPattern(a) => a.shape_fits(),
            _ => true,
        }
    }

    pub fn shape(&self) -> (s: Shape)
        requires
            self.shape_ok(),
        ensures
            s == self.spec_shape(),
    {
        match self {
            Kind::Atom(atom) => Shape::inline(atom.0.len()),
            Kind::StringLike(s) => s.shape,
            Kind::DynStringLike(s) => s.shape,
            Kind::HeredocOpening(opening) => *opening.shape(),
            Kind::ConstantPath(p) => p.shape,
            Kind::Statements(s) => s.shape,
            Kind::Parens(p) => p.shape,
            Kind::If(_) => If::shape(),
            Kind::Ternary(t) => t.shape,
            Kind::Case(_) => Case::shape(),
            Kind::While(_) => While::shape(),
            Kind::For(_) => For::shape(),
            Kind::Postmodifier(p) => p.shape,
            Kind::MethodChain(ch) => ch.shape,
            Kind::InfixChain(ch) => ch.shape,
            Kind::Lambda(l) => l.shape,
            Kind::CallLike(k) => k.shape,
            Kind::Assign(a) => a.shape,
            Kind::MultiAssignTarget(t) => t.shape,
            Kind::Prefix(p) => p.shape,
            Kind::Array(a) => a.shape,
            Kind::Hash(h) => h.shape,
            Kind::Assoc(a) => a.shape,
            Kind::Begin(_) => Begin::shape(),
            Kind::Def(d) => d.shape,
            Kind::ClassLike(_) => ClassLike::shape(),
            Kind::SingletonClass(_) => SingletonClass::shape(),
            Kind::RangeLike(r) => r.shape,
            Kind::CaseMatch(_) => CaseMatch::shape(),
            Kind::MatchAssign(a) => *a.shape(),
            Kind::ArrayPattern(a) => a.shape(),
            Kind::AltPatternChain(ch) => ch.shape(),
            Kind::PrePostExec(e) => e.shape,
            Kind::Alias(a) => a.shape,
        }
    }

    pub fn can_continue_line(&self) -> (b: bool)
        ensures
            b == self.spec_can_continue_line(),
        decreases self,
    {
        match self {
            Kind::Statements(statements) => {
                if statements.nodes.len() > 1 {
                    return false;
                }
                if statements.nodes.len() == 1 {
                    statements.nodes[0].can_continue_line()
                } else {
                    statements.virtual_end.is_none()
                }
            },
            _ => true,
        }
    }

    /// The length that the first line of each kind of code needs at least, for those
    /// that can start on the current line and continue on the next ones.
    pub open spec fn spec_concat_style(&self) -> ArgumentStyle
        decreases self,
    {
        match self {
            Kind::Atom(atom) => ArgumentStyle::Horizontal { min_first_line_len: atom.0@.len() as usize },
            Kind::StringLike(s) => s.shape.spec_argument_style(),
            Kind::HeredocOpening(opening) => opening.shape.spec_argument_style(),
            Kind::Parens(_) => ArgumentStyle::Horizontal { min_first_line_len: 1 },
            Kind::Lambda(lambda) => ArgumentStyle::Horizontal {
                min_first_line_len: if lambda.parameters is Some {
                    3
                } else {
                    4
                },
            },
            Kind::Prefix(prefix) => combined_or_longest(
                ArgumentStyle::Horizontal { min_first_line_len: prefix.operator@.len() as usize },
                match prefix.expression {
                    Some(e) => e.spec_concat_style(),
                    None => ArgumentStyle::Horizontal { min_first_line_len: 0 },
                },
            ),
            Kind::Array(array) => match array.opening {
                Some(opening) => ArgumentStyle::Horizontal { min_first_line_len: opening@.len() as usize },
                None => if array.elements@.len() > 0 {
                    array.elements@[0].spec_concat_style()
                } else {
                    ArgumentStyle::Vertical
                },
            },
            Kind::Hash(hash) => ArgumentStyle::Horizontal { min_first_line_len: hash.opening@.len() as usize },
            Kind::Assoc(assoc) => match assoc.value {
                Some(value) => match value.spec_concat_style() {
                    ArgumentStyle::Vertical => ArgumentStyle::Vertical,
                    ArgumentStyle::Horizontal { min_first_line_len: value_len } => combined_or_longest(
                        assoc.key.spec_concat_style(),
                        ArgumentStyle::Horizontal {
                            min_first_line_len: if value_len + 2 <= usize::MAX {
                                (value_len + 2) as usize
                            } else {
                                usize::MAX
                            },
                        },
                    ),
                },
                None => assoc.key.spec_concat_style(),
            },
            _ => ArgumentStyle::Vertical,
        }
    }

    pub fn concat_style(&self) -> (s: ArgumentStyle)
        requires
            self.concat_ok(),
        ensures
            s == self.spec_concat_style(),
        decreases self,
    {
        match self {
            Kind::Atom(atom) => ArgumentStyle::Horizontal { min_first_line_len: atom.0.len() },
            Kind::StringLike(s) => s.shape.argument_style(),
            Kind::HeredocOpening(opening) => opening.shape.argument_style(),
            Kind::Parens(_) => ArgumentStyle::Horizontal { min_first_line_len: 1 },
            Kind::Lambda(lambda) => {
                // `->(` or `-> {`
                let min_len: usize = if lambda.parameters.is_some() {
                    3
                } else {
                    4
                };
                ArgumentStyle::Horizontal { min_first_line_len: min_len }
            },
            Kind::Prefix(prefix) => {
                let expr_style = match &prefix.expression {
                    Some(e) => e.concat_style(),
                    None => ArgumentStyle::Horizontal { min_first_line_len: 0 },
                };
                let op_style = ArgumentStyle::Horizontal { min_first_line_len: prefix.operator.len() };
                combine_styles(op_style, expr_style)
            },
            Kind::Array(array) => match &array.opening {
                Some(opening) => ArgumentStyle::Horizontal { min_first_line_len: opening.len() },
                None => array.elements[0].concat_style(),
            },
            Kind::Hash(hash) => ArgumentStyle::Horizontal { min_first_line_len: hash.opening.len() },
            Kind::Assoc(assoc) => match &assoc.value {
                Some(value) => match value.concat_style() {
                    ArgumentStyle::Vertical => ArgumentStyle::Vertical,
                    ArgumentStyle::Horizontal { min_first_line_len: value_len } => {
                        // `: ` between the key and the value
                        let value_style = ArgumentStyle::Horizontal {
                            min_first_line_len: value_len.saturating_add(2),
                        };
                        combine_styles(assoc.key.concat_style(), value_style)
                    },
                },
                None => assoc.key.concat_style(),
            },
            _ => ArgumentStyle::Vertical,
        }
    }
}

/// A node fit for formatting can tell how it continues a line.
pub proof fn lemma_ok_in_concat_ok(n: &Node, c: int, m: Map<usize, Heredoc>)
    requires
        n.ok_in(c, m),
    ensures
        n.concat_ok(),
    decreases n,
{
    lemma_kind_ok_in_concat_ok(&n.kind, c, m);
}

pub proof fn lemma_kind_ok_in_concat_ok(k: &Kind, c: int, m: Map<usize, Heredoc>)
    requires
        k.ok_in(c, m),
    ensures
        k.concat_ok(),
    decreases k,
{
    match k {
        Kind::Prefix(p) => {
            if let Some(e) = &p.expression {
                lemma_ok_in_concat_ok(e, c, m);
            }
        },
        Kind::Array(a) => {
            if a.elements@.len() > 0 {
                lemma_ok_in_concat_ok(&a.elements@[0], c, m);
            }
        },
        Kind::Assoc(a) => {
            lemma_ok_in_concat_ok(&a.key, c, m);
            if let Some(v) = &a.value {
                lemma_ok_in_concat_ok(v, c, m);
            }
        },
        _ => {},
    }
}

/// Combined styles, where the lengths fit in a `usize`; otherwise the longest length.
pub open spec fn combined_or_longest(a: ArgumentStyle, b: ArgumentStyle) -> ArgumentStyle {
    if a.combine_fits(b) {
        a.combined(b)
    } else {
        ArgumentStyle::Horizontal { min_first_line_len: usize::MAX }
    }
}

fn combine_styles(a: ArgumentStyle, b: ArgumentStyle) -> (s: ArgumentStyle)
    ensures
        s == combined_or_longest(a, b),
{
    if a.combine_fits_exec(&b) {
        a.add(b)
    } else {
        ArgumentStyle::Horizontal { min_first_line_len: usize::MAX }
    }
}

} // verus!
