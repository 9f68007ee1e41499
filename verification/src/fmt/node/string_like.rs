use vstd::prelude::*;

use crate::fmt::output::{wrote_pieces, lemma_wrote_pieces_concat, lemma_wrote_nothing, Output};
use crate::fmt::shape::Shape;
use crate::fmt::text::{contains_byte, has_byte, opt_len, spec_opt_len};

verus! {

/// A string, symbol or regexp without interpolation.
#[derive(Debug)]
pub struct StringLike {
    pub shape: Shape,
    pub opening: Option<Vec<u8>>,
    pub value: Vec<u8>,
    pub closing: Option<Vec<u8>>,
}

/// An optional delimiter as a list of zero or one pieces.
pub open spec fn opt_piece(t: Option<Vec<u8>>) -> Seq<Seq<u8>> {
    match t {
        Some(t) => seq![t@],
        None => Seq::empty(),
    }
}

/// The pieces that a piece of text with an optional opening and closing is written as.
pub open spec fn delimited_pieces(
    opening: Option<Vec<u8>>,
    value: Seq<u8>,
    closing: Option<Vec<u8>>,
) -> Seq<Seq<u8>> {
    opt_piece(opening) + seq![value] + opt_piece(closing)
}

impl StringLike {
    /// A string with a line break in it spans lines; otherwise it is as long as its
    /// delimiters and contents.
    pub fn new(opening: Option<Vec<u8>>, value: Vec<u8>, closing: Option<Vec<u8>>) -> (s: StringLike)
        requires
            value@.len() + spec_opt_len(opening) + spec_opt_len(closing) <= usize::MAX,
        ensures
            s.opening == opening,
            s.value == value,
            s.closing == closing,
            s.shape == if has_byte(value@, 10u8) {
                Shape::Multilines
            } else {
                Shape::Inline {
                    len: (value@.len() + spec_opt_len(opening) + spec_opt_len(closing)) as usize,
                }
            },
    {
        let opening_len = opt_len(&opening);
        let closing_len = opt_len(&closing);
        let len = value.len() + opening_len + closing_len;
        let shape = if contains_byte(value.as_slice(), 10u8) {
            Shape::Multilines
        } else {
            Shape::inline(len)
        };
        StringLike { shape, opening, value, closing }
    }

    pub fn format(&self, o: &mut Output)
        ensures
            wrote_pieces(*old(o), *final(o), delimited_pieces(self.opening, self.value@, self.closing)),
    {
        let ghost o0 = *o;
        proof {
            lemma_wrote_nothing(o0);
        }
        if let Some(opening) = &self.opening {
            o.push_str(opening.as_slice());
        }
        let ghost o1 = *o;
        let ghost head = opt_piece(self.opening);
        o.push_str(self.value.as_slice());
        let ghost o2 = *o;
        proof {
            lemma_wrote_pieces_concat(o0, o1, o2, head, seq![self.value@]);
            lemma_wrote_nothing(o2);
        }
        if let Some(closing) = &self.closing {
            o.push_str(closing.as_slice());
        }
        let ghost tail = opt_piece(self.closing);
        proof {
            lemma_wrote_pieces_concat(o0, o2, *o, head + seq![self.value@], tail);
        }
    }
}

} // verus!
