use vstd::prelude::*;

verus! {

/// How a piece of code occupies lines once it is laid out flat: on one line with
/// nothing after it (`Inline`), on one line that must end right after it (`LineEnd`,
/// as with a trailing comment), or over several lines.
#[derive(Debug, Clone, Copy, PartialEq, Eq, Structural)]
pub enum Shape {
    Inline { len: usize },
    LineEnd { len: usize },
    Multilines,
}

/// Whether an argument can start on the current line and continue from there.
#[derive(Debug, Clone, Copy, PartialEq, Eq, Structural)]
pub enum ArgumentStyle {
    Vertical,
    Horizontal { min_first_line_len: usize },
}

impl Shape {
    /// The flat length that the shape carries (zero for `Multilines`).
    pub open spec fn size(self) -> nat {
        match self {
            Shape::Inline { len } => len as nat,
            Shape::LineEnd { len } => len as nat,
            Shape::Multilines => 0,
        }
    }

    /// Concatenation of two shapes laid out one after the other.
    pub open spec fn concat(self, other: Shape) -> Shape {
        match self {
            Shape::Inline { len: l1 } => match other {
                Shape::Inline { len: l2 } => Shape::Inline { len: (l1 + l2) as usize },
                Shape::LineEnd { len: l2 } => Shape::LineEnd { len: (l1 + l2) as usize },
                Shape::Multilines => Shape::Multilines,
            },
            _ => Shape::Multilines,
        }
    }

    /// `concat` adds lengths only when `self` is inline; then the sum must fit in a `usize`.
    pub open spec fn concat_fits(self, other: Shape) -> bool {
        self is Inline ==> self.size() + other.size() <= usize::MAX
    }

    /// Putting `other` in front of what `self` describes: a line-ending piece may only
    /// stand in front of nothing.
    pub open spec fn inserted(self, other: Shape) -> Shape {
        match self {
            Shape::Inline { len: l1 } => match other {
                Shape::Inline { len: l2 } => Shape::Inline { len: (l1 + l2) as usize },
                Shape::LineEnd { len: l2 } => if l1 == 0 {
                    Shape::LineEnd { len: l2 }
                } else {
                    Shape::Multilines
                },
                Shape::Multilines => Shape::Multilines,
            },
            _ => Shape::Multilines,
        }
    }

    pub open spec fn insert_fits(self, other: Shape) -> bool {
        (self is Inline && other is Inline) ==> self.size() + other.size() <= usize::MAX
    }

    pub open spec fn spec_fits_in_inline(self, width: int) -> bool {
        match self {
            Shape::Inline { len } => len <= width,
            _ => false,
        }
    }

    pub open spec fn spec_fits_in_one_line(self, width: int) -> bool {
        match self {
            Shape::Inline { len } => len <= width,
            Shape::LineEnd { len } => len <= width,
            Shape::Multilines => false,
        }
    }

    pub open spec fn spec_is_empty(self) -> bool {
        match self {
            Shape::Inline { len } => len == 0,
            Shape::LineEnd { len } => len == 0,
            Shape::Multilines => false,
        }
    }

    pub open spec fn spec_argument_style(self) -> ArgumentStyle {
        match self {
            Shape::Inline { len } => ArgumentStyle::Horizontal { min_first_line_len: len },
            _ => ArgumentStyle::Vertical,
        }
    }

    pub fn inline(len: usize) -> (s: Shape)
        ensures
            s == (Shape::Inline { len }),
    {
        Shape::Inline { len }
    }

    pub fn is_inline(&self) -> (b: bool)
        ensures
            b == (*self is Inline),
    {
        match self {
            Shape::Inline { .. } => true,
            _ => false,
        }
    }

    pub fn fits_in_inline(&self, width: usize) -> (b: bool)
        ensures
            b == self.spec_fits_in_inline(width as int),
    {
        match self {
            Shape::Inline { len } => *len <= width,
            _ => false,
        }
    }

    pub fn fits_in_one_line(&self, width: usize) -> (b: bool)
        ensures
            b == self.spec_fits_in_one_line(width as int),
    {
        match self {
            Shape::Inline { len } => *len <= width,
            Shape::LineEnd { len } => *len <= width,
            Shape::Multilines => false,
        }
    }

    pub fn is_empty(&self) -> (b: bool)
        ensures
            b == self.spec_is_empty(),
    {
        match self {
            Shape::Inline { len } => *len == 0,
            Shape::LineEnd { len } => *len == 0,
            Shape::Multilines => false,
        }
    }

    pub fn argument_style(&self) -> (s: ArgumentStyle)
        ensures
            s == self.spec_argument_style(),
    {
        match self {
            Shape::Inline { len } => ArgumentStyle::Horizontal { min_first_line_len: *len },
            _ => ArgumentStyle::Vertical,
        }
    }

    pub fn append(&mut self, other: &Shape)
        requires
            old(self).concat_fits(*other),
        ensures
            *final(self) == old(self).concat(*other),
    {
        let shape = self.add(other);
        *self = shape;
    }

    pub fn add(self, other: &Shape) -> (s: Shape)
        requires
            self.concat_fits(*other),
        ensures
            s == self.concat(*other),
    {
        match self {
            Shape::Inline { len: len1 } => match other {
                Shape::Inline { len: len2 } => Shape::Inline { len: len1 + *len2 },
                Shape::LineEnd { len: len2 } => Shape::LineEnd { len: len1 + *len2 },
                Shape::Multilines => Shape::Multilines,
            },
            _ => Shape::Multilines,
        }
    }

    pub fn insert(&mut self, other: &Shape)
        requires
            old(self).insert_fits(*other),
        ensures
            *final(self) == old(self).inserted(*other),
    {
        let shape = match self {
            Shape::Inline { len: len1 } => match other {
                Shape::Inline { len: len2 } => Shape::Inline { len: *len1 + *len2 },
                Shape::LineEnd { len: len2 } => {
                    if *len1 == 0 {
                        Shape::LineEnd { len: *len2 }
                    } else {
                        Shape::Multilines
                    }
                },
                Shape::Multilines => Shape::Multilines,
            },
            _ => Shape::Multilines,
        };
        *self = shape;
    }
}

impl ArgumentStyle {
    pub open spec fn combined(self, other: ArgumentStyle) -> ArgumentStyle {
        match (self, other) {
            (
                ArgumentStyle::Horizontal { min_first_line_len: l1 },
                ArgumentStyle::Horizontal { min_first_line_len: l2 },
            ) => ArgumentStyle::Horizontal { min_first_line_len: (l1 + l2) as usize },
            _ => ArgumentStyle::Vertical,
        }
    }

    pub open spec fn combine_fits(self, other: ArgumentStyle) -> bool {
        match (self, other) {
            (
                ArgumentStyle::Horizontal { min_first_line_len: l1 },
                ArgumentStyle::Horizontal { min_first_line_len: l2 },
            ) => l1 + l2 <= usize::MAX,
            _ => true,
        }
    }

    pub fn combine_fits_exec(&self, other: &ArgumentStyle) -> (b: bool)
        ensures
            b == self.combine_fits(*other),
    {
        match (self, other) {
            (
                ArgumentStyle::Horizontal { min_first_line_len: l1 },
                ArgumentStyle::Horizontal { min_first_line_len: l2 },
            ) => *l1 <= usize::MAX - *l2,
            _ => true,
        }
    }

    pub fn add(&self, other: ArgumentStyle) -> (s: ArgumentStyle)
        requires
            self.combine_fits(other),
        ensures
            s == self.combined(other),
    {
        match (self, other) {
            (
                ArgumentStyle::Horizontal { min_first_line_len: len1 },
                ArgumentStyle::Horizontal { min_first_line_len: len2 },
            ) => ArgumentStyle::Horizontal { min_first_line_len: *len1 + len2 },
            _ => ArgumentStyle::Vertical,
        }
    }
}

/// Concatenating shapes is associative, as long as no length overflows.
pub proof fn lemma_concat_associative(a: Shape, b: Shape, c: Shape)
    requires
        a.size() + b.size() + c.size() <= usize::MAX,
    ensures
        a.concat(b).concat(c) == a.concat(b.concat(c)),
{
}

/// An empty inline shape in front of anything leaves it as it is.
pub proof fn lemma_concat_empty_left(a: Shape)
    ensures
        (Shape::Inline { len: 0 }).concat(a) == a,
{
}

/// Nothing that follows a shape that is not inline keeps it on one line.
pub proof fn lemma_concat_after_line_end(a: Shape, b: Shape)
    requires
        !(a is Inline),
    ensures
        a.concat(b) == Shape::Multilines,
{
}

/// A multi-line piece anywhere makes the whole multi-line.
pub proof fn lemma_concat_multilines(a: Shape)
    ensures
        a.concat(Shape::Multilines) == Shape::Multilines,
        Shape::Multilines.concat(a) == Shape::Multilines,
{
}

/// Inserting in front agrees with concatenating, except that a line-ending piece
/// cannot be put after non-empty text.
pub proof fn lemma_insert_agrees_with_concat(a: Shape, b: Shape)
    requires
        a.size() + b.size() <= usize::MAX,
        !(b is LineEnd) || a.size() == 0 || !(a is Inline),
    ensures
        a.inserted(b) == a.concat(b),
{
}

/// What fits in some width fits in any wider one.
pub proof fn lemma_fits_monotonic(s: Shape, w1: int, w2: int)
    requires
        w1 <= w2,
    ensures
        s.spec_fits_in_inline(w1) ==> s.spec_fits_in_inline(w2),
        s.spec_fits_in_one_line(w1) ==> s.spec_fits_in_one_line(w2),
        s.spec_fits_in_inline(w1) ==> s.spec_fits_in_one_line(w1),
{
}

} // verus!
