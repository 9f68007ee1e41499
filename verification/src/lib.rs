pub mod cli;
pub mod config;
pub mod convert;
pub mod error;
pub mod fmt;
pub mod meaning;
pub mod parse;

use vstd::prelude::*;

verus! {

/// The formatted code, and the two meanings of the code when formatting changed it.
#[derive(Debug)]
pub struct FormatResult {
    pub code: String,
    pub meaning_diff: Option<(String, String)>,
}

impl FormatResult {
    /// `code` with the meanings of the code before and after formatting: they are kept
    /// only when they differ.
    pub fn new(code: String, meaning_before: String, meaning_after: String) -> (r: FormatResult)
        ensures
            r.code@ == code@,
            meaning_before@ == meaning_after@ ==> r.meaning_diff is None,
            meaning_before@ != meaning_after@ ==> (r.meaning_diff matches Some((b, a)) && b@
                == meaning_before@ && a@ == meaning_after@),
    {
        let meaning_diff = if meaning_before == meaning_after {
            None
        } else {
            Some((meaning_before, meaning_after))
        };
        FormatResult { code, meaning_diff }
    }

    /// Whether formatting kept the meaning of the code.
    pub fn is_meaning_kept(&self) -> (b: bool)
        ensures
            b == (self.meaning_diff is None),
    {
        self.meaning_diff.is_none()
    }
}

} // verus!
