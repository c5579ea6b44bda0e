//! The record matcher facade: the public evaluation entry point.  It
//! wraps a compiled field expression, preserves the original source
//! text for display, and offers AND/OR/NOT as algebraic composition
//! producing new record matchers with freshly synthesized,
//! parenthesised source text.

use vstd::prelude::*;
use vstd::string::{StrSliceExecFns, StringExecFns, StringSliceAdditionalSpecFns};
use crate::common::BooleanOp;
use crate::error::ParseMatcherError;
use crate::field_matcher::{fm_eval, parse_field_matcher, spec_parse_field_matcher, FieldExpr,
    FieldMatcher};
use crate::options::MatcherOptions;
use crate::record::Record;

verus! {

/// A matcher over whole records: a compiled field expression plus the
/// verbatim expression text.
#[derive(Debug)]
pub struct RecordMatcher {
    pub field_matcher: FieldMatcher,
    pub matcher_str: String,
}

impl RecordMatcher {
    /// Compile a record matcher from a field expression text; the
    /// whole input must be consumed, and the text is kept verbatim.
    pub fn new(data: &str) -> (r: Result<RecordMatcher, ParseMatcherError>)
        ensures
            match r {
                Ok(m) => spec_parse_field_matcher(data.spec_bytes()) == Some(m.field_matcher@)
                    && m.matcher_str@ == data@,
                Err(e) => spec_parse_field_matcher(data.spec_bytes()) is None && match e {
                    ParseMatcherError::InvalidRecordMatcher(t) => t@ == data@,
                    _ => false,
                },
            },
    {
        let bytes = data.as_bytes_vec();
        match parse_field_matcher(&bytes) {
            Some(m) => Ok(RecordMatcher { field_matcher: m, matcher_str: data.to_owned() }),
            None => Err(ParseMatcherError::InvalidRecordMatcher(data.to_owned())),
        }
    }

    /// Returns `true` iff the record matches: the stored field
    /// expression holds of the record's field collection.
    pub fn is_match(&self, record: &Record, options: &MatcherOptions) -> (r: bool)
        ensures
            r == fm_eval(self.field_matcher@, record.fields@, *options),
    {
        self.field_matcher.is_match(&record.fields, options)
    }

    /// The expression text of the matcher: the verbatim construction
    /// text, or the synthesized text of an algebraic composition.
    pub fn to_string(&self) -> (r: String)
        ensures
            r@ == self.matcher_str@,
    {
        self.matcher_str.clone()
    }

    /// The conjunction of two matchers: a fresh composite tree over the
    /// operands' trees, displayed as `(lhs) && (rhs)`.
    pub fn bitand(self, rhs: RecordMatcher) -> (r: RecordMatcher)
        ensures
            r.field_matcher@ == (FieldExpr::Composite {
                lhs: Box::new(self.field_matcher@),
                op: BooleanOp::And,
                rhs: Box::new(rhs.field_matcher@),
            }),
            r.matcher_str@ == "("@ + self.matcher_str@ + ") && ("@ + rhs.matcher_str@ + ")"@,
    {
        let mut text = String::new();
        text.append("(");
        text.append(self.matcher_str.as_str());
        text.append(") && (");
        text.append(rhs.matcher_str.as_str());
        text.append(")");
        proof {
            assert(text@ =~= "("@ + self.matcher_str@ + ") && ("@ + rhs.matcher_str@ + ")"@);
        }
        RecordMatcher {
            field_matcher: FieldMatcher::Composite {
                lhs: Box::new(self.field_matcher),
                op: BooleanOp::And,
                rhs: Box::new(rhs.field_matcher),
            },
            matcher_str: text,
        }
    }

    /// The disjunction of two matchers: a fresh composite tree over the
    /// operands' trees, displayed as `(lhs) || (rhs)`.
    pub fn bitor(self, rhs: RecordMatcher) -> (r: RecordMatcher)
        ensures
            r.field_matcher@ == (FieldExpr::Composite {
                lhs: Box::new(self.field_matcher@),
                op: BooleanOp::Or,
                rhs: Box::new(rhs.field_matcher@),
            }),
            r.matcher_str@ == "("@ + self.matcher_str@ + ") || ("@ + rhs.matcher_str@ + ")"@,
    {
        let mut text = String::new();
        text.append("(");
        text.append(self.matcher_str.as_str());
        text.append(") || (");
        text.append(rhs.matcher_str.as_str());
        text.append(")");
        proof {
            assert(text@ =~= "("@ + self.matcher_str@ + ") || ("@ + rhs.matcher_str@ + ")"@);
        }
        RecordMatcher {
            field_matcher: FieldMatcher::Composite {
                lhs: Box::new(self.field_matcher),
                op: BooleanOp::Or,
                rhs: Box::new(rhs.field_matcher),
            },
            matcher_str: text,
        }
    }

    /// The complement of a matcher: a fresh negation node over the
    /// operand's tree, displayed as `!(inner)`.
    pub fn not(self) -> (r: RecordMatcher)
        ensures
            r.field_matcher@ == (FieldExpr::Not { inner: Box::new(self.field_matcher@) }),
            r.matcher_str@ == "!("@ + self.matcher_str@ + ")"@,
    {
        let mut text = String::new();
        text.append("!(");
        text.append(self.matcher_str.as_str());
        text.append(")");
        proof {
            assert(text@ =~= "!("@ + self.matcher_str@ + ")"@);
        }
        RecordMatcher {
            field_matcher: FieldMatcher::Not(Box::new(self.field_matcher)),
            matcher_str: text,
        }
    }
}

impl core::str::FromStr for RecordMatcher {
    type Err = ParseMatcherError;

    /// The same construction as `RecordMatcher::new`.
    fn from_str(s: &str) -> Result<RecordMatcher, ParseMatcherError> {
        RecordMatcher::new(s)
    }
}

} // verus!
