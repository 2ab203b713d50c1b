//! The values that chunks decode to, and what their borrowed and owned forms
//! have in common.

use std::rc::Rc;
use vstd::prelude::*;

use crate::errors::DecodeError;

pub mod owned;

verus! {

/// A table of strings that are found by their index.
pub trait StringTable {
    /// The number of strings.
    spec fn strings_len_spec(&self) -> u32;

    /// The number of styles.
    spec fn styles_len_spec(&self) -> u32;

    /// The string at `idx`, or why there is none.
    spec fn string_spec(&self, idx: u32) -> Result<Seq<char>, DecodeError>;

    fn get_strings_len(&self) -> (len: u32)
        ensures
            len == self.strings_len_spec(),
    ;

    fn get_styles_len(&self) -> (len: u32)
        ensures
            len == self.styles_len_spec(),
    ;

    fn get_string(&self, idx: u32) -> (r: Result<Rc<String>, DecodeError>)
        ensures
            match r {
                Ok(text) => self.string_spec(idx) == Ok::<Seq<char>, DecodeError>(text@),
                Err(e) => self.string_spec(idx) == Err::<Seq<char>, DecodeError>(e),
            },
    ;
}

} // verus!
