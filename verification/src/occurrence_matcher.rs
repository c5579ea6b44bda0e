//! Occurrence matching: a field's optional numeric occurrence suffix is
//! matched against absence, a literal value, or a wildcard.

use vstd::prelude::*;
use vstd::string::{StrSliceExecFns, StringSliceAdditionalSpecFns};
use crate::bytes::bytes_eq;
use crate::common::{spec_skip_ws, skip_ws};
use crate::error::ParseMatcherError;

verus! {

/// The model of an occurrence matcher.
pub enum OccSpec {
    Unspecified,
    Exact(Seq<u8>),
    Any,
}

/// Matches the optional occurrence suffix of a field: absence when no
/// occurrence is written, a literal `/NN` or `/NNN` value, or the `/*`
/// wildcard.
#[derive(Debug, Clone, PartialEq, Eq)]
pub enum OccurrenceMatcher {
    Unspecified,
    Exact(Vec<u8>),
    Any,
}

impl View for OccurrenceMatcher {
    type V = OccSpec;

    open spec fn view(&self) -> OccSpec {
        match self {
            OccurrenceMatcher::Unspecified => OccSpec::Unspecified,
            OccurrenceMatcher::Exact(v) => OccSpec::Exact(v@),
            OccurrenceMatcher::Any => OccSpec::Any,
        }
    }
}

/// Whether a field's occurrence satisfies the matcher.
pub open spec fn occ_matches(m: OccSpec, occ: Option<Vec<u8>>) -> bool {
    match m {
        OccSpec::Unspecified => occ is None,
        OccSpec::Exact(v) => occ is Some && occ->0@ == v,
        OccSpec::Any => true,
    }
}

/// A digit.
pub open spec fn is_digit(b: u8) -> bool {
    48 <= b <= 57
}

/// An occurrence pattern: nothing, `/*`, or `/` followed by two or
/// three digits.
pub open spec fn spec_parse_occ(s: Seq<u8>, pos: int) -> Option<(OccSpec, int)> {
    if 0 <= pos && pos < s.len() && s[pos] == 47 {
        if pos + 1 < s.len() && s[pos + 1] == 42 {
            Some((OccSpec::Any, pos + 2))
        } else if pos + 3 <= s.len() && is_digit(s[pos + 1]) && is_digit(s[pos + 2]) {
            if pos + 4 <= s.len() && is_digit(s[pos + 3]) {
                Some((OccSpec::Exact(seq![s[pos + 1], s[pos + 2], s[pos + 3]]), pos + 4))
            } else {
                Some((OccSpec::Exact(seq![s[pos + 1], s[pos + 2]]), pos + 3))
            }
        } else {
            None
        }
    } else {
        Some((OccSpec::Unspecified, pos))
    }
}

/// Parse an occurrence pattern.
pub(crate) fn parse_occ(s: &Vec<u8>, pos: usize) -> (r: Option<(OccurrenceMatcher, usize)>)
    requires
        pos <= s.len(),
    ensures
        match r {
            Some(v) => spec_parse_occ(s@, pos as int) == Some((v.0@, v.1 as int)) && pos <= v.1
                <= s.len(),
            None => spec_parse_occ(s@, pos as int) is None,
        },
{
    if pos < s.len() && s[pos] == 47 {
        if pos + 1 < s.len() && s[pos + 1] == 42 {
            return Some((OccurrenceMatcher::Any, pos + 2));
        }
        if s.len() - pos >= 3 && 48 <= s[pos + 1] && s[pos + 1] <= 57 && 48 <= s[pos + 2] && s[pos
            + 2] <= 57 {
            let mut v: Vec<u8> = Vec::new();
            v.push(s[pos + 1]);
            v.push(s[pos + 2]);
            if s.len() - pos >= 4 && 48 <= s[pos + 3] && s[pos + 3] <= 57 {
                v.push(s[pos + 3]);
                proof {
                    assert(v@ =~= seq![s@[pos + 1], s@[pos + 2], s@[pos + 3]]);
                }
                return Some((OccurrenceMatcher::Exact(v), pos + 4));
            }
            proof {
                assert(v@ =~= seq![s@[pos + 1], s@[pos + 2]]);
            }
            return Some((OccurrenceMatcher::Exact(v), pos + 3));
        }
        return None;
    }
    Some((OccurrenceMatcher::Unspecified, pos))
}

impl OccurrenceMatcher {
    /// Compile an occurrence matcher from its textual form; the whole
    /// input, up to surrounding whitespace, must be one occurrence
    /// pattern.
    pub fn new(data: &str) -> (r: Result<OccurrenceMatcher, ParseMatcherError>)
        ensures
            match r {
                Ok(m) => spec_parse_occ_matcher(data.spec_bytes()) == Some(m@),
                Err(e) => spec_parse_occ_matcher(data.spec_bytes()) is None && match e {
                    ParseMatcherError::InvalidFieldMatcher(t) => t@ == data@,
                    _ => false,
                },
            },
    {
        let bytes = data.as_bytes_vec();
        let p0 = skip_ws(&bytes, 0);
        match parse_occ(&bytes, p0) {
            Some((m, p)) => {
                let p2 = skip_ws(&bytes, p);
                if p2 == bytes.len() {
                    Ok(m)
                } else {
                    Err(ParseMatcherError::InvalidFieldMatcher(data.to_owned()))
                }
            },
            None => Err(ParseMatcherError::InvalidFieldMatcher(data.to_owned())),
        }
    }

    /// Evaluate the matcher against a field's occurrence.
    pub fn is_match(&self, occurrence: &Option<Vec<u8>>) -> (r: bool)
        ensures
            r == occ_matches(self@, *occurrence),
    {
        match self {
            OccurrenceMatcher::Unspecified => occurrence.is_none(),
            OccurrenceMatcher::Exact(v) => match occurrence {
                Some(o) => bytes_eq(v, o),
                None => false,
            },
            OccurrenceMatcher::Any => true,
        }
    }
}

/// The anchored occurrence grammar.
pub open spec fn spec_parse_occ_matcher(s: Seq<u8>) -> Option<OccSpec> {
    match spec_parse_occ(s, spec_skip_ws(s, 0)) {
        Some((m, p)) => if spec_skip_ws(s, p) == s.len() {
            Some(m)
        } else {
            None
        },
        None => None,
    }
}

} // verus!
