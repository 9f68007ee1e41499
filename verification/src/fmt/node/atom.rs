use vstd::prelude::*;

use crate::fmt::output::Output;

verus! {

/// Code written as it stands: names, literals, keywords.
#[derive(Debug)]
pub struct Atom(pub Vec<u8>);

impl Atom {
    pub fn format(&self, o: &mut Output)
        ensures
            old(o).pushed(*final(o), self.0@),
    {
        o.push_str(self.0.as_slice());
    }

    /// An atom without text stands for a value that the source leaves implicit.
    pub fn is_implicit_value(&self) -> (b: bool)
        ensures
            b == (self.0@.len() == 0),
    {
        self.0.len() == 0
    }
}

} // verus!
