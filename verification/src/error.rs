//! Error taxonomy: decoding the record data model and compiling filter
//! expressions each have exactly one class of failure, raised at
//! construction time and carrying the offending input.

use vstd::prelude::*;

verus! {

/// An error that can occur when decoding the record data model or
/// parsing the legacy filter language.
#[derive(Debug, Clone, Copy, PartialEq, Eq, Structural)]
pub enum ParsePicaError {
    InvalidSubfield,
    InvalidFilter,
}

/// The single failure of matcher construction: the expression text does
/// not belong to the grammar.  The offending text is carried verbatim.
#[derive(Debug, Clone)]
pub enum ParseMatcherError {
    InvalidSubfieldMatcher(String),
    InvalidFieldMatcher(String),
    InvalidRecordMatcher(String),
}

} // verus!
