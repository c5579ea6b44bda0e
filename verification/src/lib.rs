//! Matchers for bibliographic records in the tag/occurrence/subfield data
//! model: a filter-expression language that is compiled once into an
//! expression tree and then evaluated against many records.

use vstd::prelude::*;

pub mod bytes;
pub mod common;
pub mod error;
pub mod field_matcher;
pub mod filter;
pub mod fold;
pub mod occurrence_matcher;
pub mod options;
pub mod path;
pub mod pipeline;
pub mod properties;
pub mod record;
pub mod record_matcher;
pub mod regexes;
pub mod subfield_matcher;
pub mod tag_matcher;
pub mod similarity;

pub use common::{BooleanOp as MatcherBooleanOp, RelationalOp};
pub use error::{ParseMatcherError, ParsePicaError};
pub use field_matcher::FieldMatcher;
pub use filter::Filter;
pub use occurrence_matcher::OccurrenceMatcher;
pub use options::MatcherOptions;
pub use path::Path;
pub use record::{Field, Record, Subfield};
pub use record_matcher::RecordMatcher;
pub use tag_matcher::TagMatcher;

verus! {

} // verus!
