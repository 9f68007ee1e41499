use vstd::prelude::*;

use crate::fmt::flat::{
    budget, dyn_flat, dyn_flat_ok, dyn_parts_flat, kind_flat, lemma_dyn_parts_flat_prefix, lemma_opt_piece_len,
    lemma_total_len_concat, lemma_total_len_one, lemma_wrote_budget, lemma_wrote_fitting, part_flat, part_flat_ok,
    total_len,
};
use crate::fmt::output::{
    advanced, heredoc_measure, lemma_wrote_nothing, lemma_wrote_pieces_concat, ready, wrote_pieces, FormatContext,
    Output,
};
use crate::fmt::shape::Shape;
use crate::fmt::text::{opt_len, spec_opt_len};

use super::string_like::opt_piece;
use super::{Heredoc, Kind, Statements, StringLike};

verus! {

broadcast use crate::fmt::growth::group_output_growth;

/// A string, symbol or regexp with interpolated parts.
#[derive(Debug)]
pub struct DynStringLike {
    pub shape: Shape,
    pub opening: Option<Vec<u8>>,
    pub parts: Vec<DynStrPart>,
    pub closing: Option<Vec<u8>>,
}

#[derive(Debug)]
pub enum DynStrPart {
    Str(StringLike),
    DynStr(DynStringLike),
    Statements(EmbeddedStatements),
    Variable(EmbeddedVariable),
}

/// `#{...}` inside a string.
#[derive(Debug)]
pub struct EmbeddedStatements {
    pub shape: Shape,
    pub opening: Vec<u8>,
    pub statements: Statements,
    pub closing: Vec<u8>,
}

/// `#@var` inside a string.
#[derive(Debug)]
pub struct EmbeddedVariable {
    pub shape: Shape,
    pub operator: Vec<u8>,
    pub variable: Vec<u8>,
}

impl DynStringLike {
    pub open spec fn ok_in(&self, c: int, m: Map<usize, Heredoc>) -> bool
        decreases self,
    {
        forall|i: int| 0 <= i < self.parts@.len() ==> (#[trigger] self.parts@[i]).ok_in(c, m)
    }

    pub fn new(opening: Option<Vec<u8>>, closing: Option<Vec<u8>>) -> (s: DynStringLike)
        requires
            spec_opt_len(opening) + spec_opt_len(closing) <= usize::MAX,
        ensures
            s.opening == opening,
            s.closing == closing,
            s.parts@.len() == 0,
            s.shape == (Shape::Inline { len: (spec_opt_len(opening) + spec_opt_len(closing)) as usize }),
    {
        let opening_len = opt_len(&opening);
        let closing_len = opt_len(&closing);
        DynStringLike {
            shape: Shape::inline(opening_len + closing_len),
            opening,
            parts: Vec::new(),
            closing,
        }
    }

    pub fn append_part(&mut self, part: DynStrPart)
        requires
            old(self).shape.insert_fits(part.spec_shape()),
        ensures
            final(self).shape == old(self).shape.inserted(part.spec_shape()),
            final(self).parts@ == old(self).parts@.push(part),
            final(self).opening == old(self).opening,
            final(self).closing == old(self).closing,
    {
        self.shape.insert(part.shape());
        self.parts.push(part);
    }

    /// Writes the opening, each part, and the closing; a string whose embedded statements
    /// `dyn_flat_ok` describes that fits in the room left on the line is written as
    /// `dyn_flat`.
    pub fn format(&self, o: &mut Output, ctx: &FormatContext, Ghost(c): Ghost<int>)
        requires
            ready(*old(o), *ctx, c),
            self.ok_in(c, ctx.heredoc_map@),
        ensures
            advanced(*old(o), *final(o), *ctx, c),
            dyn_flat_ok(*self) && total_len(dyn_flat(*self)) <= budget(*old(o)) ==> wrote_pieces(
                *old(o),
                *final(o),
                dyn_flat(*self),
            ),
        decreases heredoc_measure(c), 2int, self, 1int,
    {
        let ghost o0 = *o;
        let ghost ps = self.parts@;
        let ghost lp = opt_piece(self.opening);
        let ghost pf = dyn_parts_flat(ps, ps.len() as int);
        let ghost rp = opt_piece(self.closing);
        let ghost flat = dyn_flat_ok(*self) && total_len(dyn_flat(*self)) <= budget(o0);
        proof {
            if flat {
                lemma_total_len_concat(lp, pf);
                lemma_total_len_concat(lp + pf, rp);
                lemma_opt_piece_len(self.opening);
                lemma_opt_piece_len(self.closing);
            }
        }
        if let Some(opening) = &self.opening {
            o.push_str(opening.as_slice());
        } else {
            proof {
                lemma_wrote_nothing(o0);
            }
        }
        let ghost o1 = *o;
        proof {
            if flat {
                lemma_wrote_budget(o0, o1, lp);
            }
        }
        let n = self.parts.len();
        let mut i: usize = 0;
        while i < n
            invariant
                n == self.parts@.len(),
                ps == self.parts@,
                ready(*o, *ctx, c),
                advanced(*old(o), *o, *ctx, c),
                self.ok_in(c, ctx.heredoc_map@),
                0 <= i <= n,
                flat ==> {
                    &&& dyn_flat_ok(*self)
                    &&& o1.wf()
                    &&& wrote_pieces(o1, *o, dyn_parts_flat(ps, i as int))
                    &&& budget(*o) == budget(o1) - total_len(dyn_parts_flat(ps, i as int))
                    &&& total_len(dyn_parts_flat(ps, n as int)) <= budget(o1)
                },
            decreases n - i,
        {
            let ghost oa = *o;
            proof {
                if flat {
                    assert(part_flat_ok(ps[i as int]));
                    lemma_dyn_parts_flat_prefix(ps, i + 1, n as int);
                    lemma_total_len_concat(dyn_parts_flat(ps, i as int), part_flat(ps[i as int]));
                }
            }
            match &self.parts[i] {
                DynStrPart::Str(s) => {
                    s.format(o);
                },
                DynStrPart::DynStr(s) => s.format(o, ctx, Ghost(c)),
                DynStrPart::Statements(e) => e.format(o, ctx, Ghost(c)),
                DynStrPart::Variable(v) => {
                    v.format(o);
                },
            }
            proof {
                if flat {
                    lemma_wrote_budget(oa, *o, part_flat(ps[i as int]));
                    lemma_wrote_pieces_concat(o1, oa, *o, dyn_parts_flat(ps, i as int), part_flat(ps[i as int]));
                    assert(dyn_parts_flat(ps, i as int) + part_flat(ps[i as int]) =~= dyn_parts_flat(ps, i + 1));
                }
            }
            i = i + 1;
        }
        let ghost o2 = *o;
        if let Some(closing) = &self.closing {
            o.push_str(closing.as_slice());
        } else {
            proof {
                lemma_wrote_nothing(o2);
            }
        }
        proof {
            if flat {
                lemma_wrote_pieces_concat(o0, o1, o2, lp, pf);
                lemma_wrote_pieces_concat(o0, o2, *o, lp + pf, rp);
            }
        }
    }
}

impl DynStrPart {
    pub open spec fn ok_in(&self, c: int, m: Map<usize, Heredoc>) -> bool
        decreases self,
    {
        match self {
            DynStrPart::Str(_) => true,
            DynStrPart::DynStr(s) => s.ok_in(c, m),
            DynStrPart::Statements(e) => e.ok_in(c, m),
            DynStrPart::Variable(_) => true,
        }
    }

    pub open spec fn spec_shape(&self) -> Shape {
        match self {
            DynStrPart::Str(s) => s.shape,
            DynStrPart::DynStr(s) => s.shape,
            DynStrPart::Statements(e) => e.shape,
            DynStrPart::Variable(v) => v.shape,
        }
    }

    pub fn shape(&self) -> (s: &Shape)
        ensures
            *s == self.spec_shape(),
    {
        match self {
            DynStrPart::Str(s) => &s.shape,
            DynStrPart::DynStr(s) => &s.shape,
            DynStrPart::Statements(e) => &e.shape,
            DynStrPart::Variable(v) => &v.shape,
        }
    }
}

impl EmbeddedStatements {
    pub open spec fn ok_in(&self, c: int, m: Map<usize, Heredoc>) -> bool
        decreases self,
    {
        self.statements.ok_in(c, m)
    }

    pub fn new(opening: Vec<u8>, statements: Statements, closing: Vec<u8>) -> (e: EmbeddedStatements)
        requires
            opening@.len() + closing@.len() + statements.shape.size() <= usize::MAX,
        ensures
            e.opening == opening,
            e.statements == statements,
            e.closing == closing,
            e.shape == (Shape::Inline { len: (opening@.len() + closing@.len()) as usize }).concat(
                statements.shape,
            ),
    {
        let shape = Shape::inline(opening.len() + closing.len()).add(&statements.shape);
        EmbeddedStatements { shape, opening, statements, closing }
    }

    /// Writes `#{`, the statements, and `}`; an embedded statement that `part_flat_ok`
    /// describes that fits in the room left on the line is written as its `part_flat`.
    pub fn format(&self, o: &mut Output, ctx: &FormatContext, Ghost(c): Ghost<int>)
        requires
            ready(*old(o), *ctx, c),
            self.ok_in(c, ctx.heredoc_map@),
        ensures
            advanced(*old(o), *final(o), *ctx, c),
            part_flat_ok(DynStrPart::Statements(*self)) && total_len(part_flat(DynStrPart::Statements(*self)))
                <= budget(*old(o)) ==> wrote_pieces(*old(o), *final(o), part_flat(DynStrPart::Statements(*self))),
        decreases heredoc_measure(c), 2int, self, 1int,
    {
        let ghost o0 = *o;
        let ghost sp = kind_flat(Kind::Statements(self.statements));
        let ghost flat = part_flat_ok(DynStrPart::Statements(*self)) && total_len(
            part_flat(DynStrPart::Statements(*self)),
        ) <= budget(o0);
        proof {
            assert(part_flat(DynStrPart::Statements(*self)) == seq![self.opening@] + sp + seq![self.closing@]);
            if flat {
                lemma_total_len_concat(seq![self.opening@], sp);
                lemma_total_len_concat(seq![self.opening@] + sp, seq![self.closing@]);
                lemma_total_len_one(self.opening@);
                lemma_total_len_one(self.closing@);
            }
        }
        o.push_str(self.opening.as_slice());
        let ghost o1 = *o;
        proof {
            if flat {
                lemma_wrote_fitting(o0, o1, seq![self.opening@]);
            }
        }
        self.statements.format(o, ctx, false, Ghost(c));
        let ghost o2 = *o;
        o.push_str(self.closing.as_slice());
        proof {
            if flat {
                lemma_wrote_pieces_concat(o0, o1, o2, seq![self.opening@], sp);
                lemma_wrote_pieces_concat(o0, o2, *o, seq![self.opening@] + sp, seq![self.closing@]);
            }
        }
    }
}

impl EmbeddedVariable {
    pub fn new(operator: Vec<u8>, variable: Vec<u8>) -> (e: EmbeddedVariable)
        requires
            operator@.len() + variable@.len() <= usize::MAX,
        ensures
            e.operator == operator,
            e.variable == variable,
            e.shape == (Shape::Inline { len: (operator@.len() + variable@.len()) as usize }),
    {
        let shape = Shape::inline(operator.len() + variable.len());
        EmbeddedVariable { shape, operator, variable }
    }

    pub fn format(&self, o: &mut Output)
        ensures
            wrote_pieces(*old(o), *final(o), seq![self.operator@, self.variable@]),
    {
        let ghost o0 = *o;
        o.push_str(self.operator.as_slice());
        let ghost o1 = *o;
        o.push_str(self.variable.as_slice());
        proof {
            lemma_wrote_pieces_concat(o0, o1, *o, seq![self.operator@], seq![self.variable@]);
            assert(seq![self.operator@] + seq![self.variable@] =~= seq![self.operator@, self.variable@]);
        }
    }
}

} // verus!
