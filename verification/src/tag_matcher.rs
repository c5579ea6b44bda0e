//! Tag matching: a field's four-character tag is matched against a
//! pattern of four positions, each a literal character, a `.` wildcard
//! or a bracketed class.

use vstd::prelude::*;
use vstd::string::{StrSliceExecFns, StringSliceAdditionalSpecFns};
use crate::bytes::contains_code;
use crate::common::spec_skip_ws;
use crate::common::skip_ws;
use crate::error::ParseMatcherError;

verus! {

/// A character that may occur in a tag: a digit, an upper-case letter
/// or `@`.
pub open spec fn is_tag_char(b: u8) -> bool {
    (48 <= b <= 57) || (65 <= b <= 90) || b == 64
}

/// Decide whether `b` may occur in a tag.
pub fn tag_char_ok(b: u8) -> (r: bool)
    ensures
        r == is_tag_char(b),
{
    (48 <= b && b <= 57) || (65 <= b && b <= 90) || b == 64
}

/// The model of one pattern position.
pub enum TagSegSpec {
    Literal(u8),
    Any,
    Class(Seq<u8>),
}

/// One position of a tag pattern.
#[derive(Debug, Clone, PartialEq, Eq)]
pub enum TagSegment {
    Literal(u8),
    Any,
    Class(Vec<u8>),
}

impl View for TagSegment {
    type V = TagSegSpec;

    open spec fn view(&self) -> TagSegSpec {
        match self {
            TagSegment::Literal(c) => TagSegSpec::Literal(*c),
            TagSegment::Any => TagSegSpec::Any,
            TagSegment::Class(cs) => TagSegSpec::Class(cs@),
        }
    }
}

impl DeepView for TagSegment {
    type V = TagSegSpec;

    open spec fn deep_view(&self) -> TagSegSpec {
        self.view()
    }
}

/// Whether one tag byte satisfies one pattern position.
pub open spec fn seg_matches(seg: TagSegSpec, b: u8) -> bool {
    match seg {
        TagSegSpec::Literal(c) => b == c,
        TagSegSpec::Any => true,
        TagSegSpec::Class(cs) => cs.contains(b),
    }
}

/// Whether a tag satisfies a pattern: same length and every position
/// satisfied.
pub open spec fn tag_matches(pat: Seq<TagSegSpec>, tag: Seq<u8>) -> bool {
    pat.len() == tag.len() && forall|i: int|
        0 <= i < pat.len() ==> seg_matches(#[trigger] pat[i], tag[i])
}

/// Matches a field's tag against a pattern of four positions.
#[derive(Debug, Clone, PartialEq, Eq)]
pub struct TagMatcher {
    pub segments: Vec<TagSegment>,
}

impl View for TagMatcher {
    type V = Seq<TagSegSpec>;

    open spec fn view(&self) -> Seq<TagSegSpec> {
        self.segments.deep_view()
    }
}

/// A maximal run of tag characters.
pub open spec fn spec_parse_tag_char_run(s: Seq<u8>, pos: int) -> (Seq<u8>, int)
    decreases s.len() - pos,
{
    if 0 <= pos && pos < s.len() && is_tag_char(s[pos]) {
        let (v, p) = spec_parse_tag_char_run(s, pos + 1);
        (seq![s[pos]] + v, p)
    } else {
        (Seq::empty(), pos)
    }
}

/// One pattern position: a literal tag character, `.`, or a class.
pub open spec fn spec_parse_tag_seg(s: Seq<u8>, pos: int) -> Option<(TagSegSpec, int)> {
    if 0 <= pos && pos < s.len() && is_tag_char(s[pos]) {
        Some((TagSegSpec::Literal(s[pos]), pos + 1))
    } else if 0 <= pos && pos < s.len() && s[pos] == 46 {
        Some((TagSegSpec::Any, pos + 1))
    } else if 0 <= pos && pos < s.len() && s[pos] == 91 {
        let (v, p) = spec_parse_tag_char_run(s, pos + 1);
        if v.len() >= 1 && p < s.len() && s[p] == 93 {
            Some((TagSegSpec::Class(v), p + 1))
        } else {
            None
        }
    } else {
        None
    }
}

/// A tag pattern: exactly four positions.
pub open spec fn spec_parse_tag(s: Seq<u8>, pos: int) -> Option<(Seq<TagSegSpec>, int)> {
    match spec_parse_tag_seg(s, pos) {
        Some((g1, p1)) => match spec_parse_tag_seg(s, p1) {
            Some((g2, p2)) => match spec_parse_tag_seg(s, p2) {
                Some((g3, p3)) => match spec_parse_tag_seg(s, p3) {
                    Some((g4, p4)) => Some((seq![g1, g2, g3, g4], p4)),
                    None => None,
                },
                None => None,
            },
            None => None,
        },
        None => None,
    }
}

/// Evaluate one pattern position against one tag byte.
fn seg_match(seg: &TagSegment, b: u8) -> (r: bool)
    ensures
        r == seg_matches(seg@, b),
{
    match seg {
        TagSegment::Literal(c) => b == *c,
        TagSegment::Any => true,
        TagSegment::Class(cs) => contains_code(cs, b),
    }
}

/// Parse one pattern position.
fn parse_tag_seg(s: &Vec<u8>, pos: usize) -> (r: Option<(TagSegment, usize)>)
    requires
        pos <= s.len(),
    ensures
        match r {
            Some(v) => spec_parse_tag_seg(s@, pos as int) == Some((v.0@, v.1 as int)) && pos
                < v.1 <= s.len(),
            None => spec_parse_tag_seg(s@, pos as int) is None,
        },
{
    if pos < s.len() && tag_char_ok(s[pos]) {
        return Some((TagSegment::Literal(s[pos]), pos + 1));
    }
    if pos < s.len() && s[pos] == 46 {
        return Some((TagSegment::Any, pos + 1));
    }
    if pos < s.len() && s[pos] == 91 {
        let ghost start = pos + 1;
        let mut v: Vec<u8> = Vec::new();
        let mut i: usize = pos + 1;
        proof {
            assert(Seq::<u8>::empty() + spec_parse_tag_char_run(s@, start).0
                =~= spec_parse_tag_char_run(s@, start).0);
        }
        while i < s.len() && tag_char_ok(s[i])
            invariant
                start == pos + 1,
                pos + 1 <= i <= s.len(),
                spec_parse_tag_char_run(s@, start) == (
                    v@ + spec_parse_tag_char_run(s@, i as int).0,
                    spec_parse_tag_char_run(s@, i as int).1,
                ),
            decreases s.len() - i,
        {
            proof {
                let rec = spec_parse_tag_char_run(s@, i + 1);
                assert(v@.push(s@[i as int]) + rec.0 =~= v@ + (seq![s@[i as int]] + rec.0));
            }
            v.push(s[i]);
            i = i + 1;
        }
        proof {
            assert(spec_parse_tag_char_run(s@, i as int) == (Seq::<u8>::empty(), i as int));
            assert(v@ + Seq::<u8>::empty() =~= v@);
        }
        if v.len() >= 1 && i < s.len() && s[i] == 93 {
            return Some((TagSegment::Class(v), i + 1));
        }
        return None;
    }
    None
}

/// Parse a tag pattern of four positions.
pub(crate) fn parse_tag(s: &Vec<u8>, pos: usize) -> (r: Option<(TagMatcher, usize)>)
    requires
        pos <= s.len(),
    ensures
        match r {
            Some(v) => spec_parse_tag(s@, pos as int) == Some((v.0@, v.1 as int)) && pos < v.1
                <= s.len(),
            None => spec_parse_tag(s@, pos as int) is None,
        },
{
    match parse_tag_seg(s, pos) {
        Some((g1, p1)) => match parse_tag_seg(s, p1) {
            Some((g2, p2)) => match parse_tag_seg(s, p2) {
                Some((g3, p3)) => match parse_tag_seg(s, p3) {
                    Some((g4, p4)) => {
                        let ghost m = seq![g1@, g2@, g3@, g4@];
                        let mut segments: Vec<TagSegment> = Vec::new();
                        segments.push(g1);
                        segments.push(g2);
                        segments.push(g3);
                        segments.push(g4);
                        proof {
                            assert(segments.deep_view() =~~= m);
                        }
                        Some((TagMatcher { segments }, p4))
                    },
                    None => None,
                },
                None => None,
            },
            None => None,
        },
        None => None,
    }
}

impl TagMatcher {
    /// Compile a tag matcher from its textual form; the whole input, up
    /// to surrounding whitespace, must be one tag pattern.
    pub fn new(data: &str) -> (r: Result<TagMatcher, ParseMatcherError>)
        ensures
            match r {
                Ok(m) => spec_parse_tag_matcher(data.spec_bytes()) == Some(m@),
                Err(e) => spec_parse_tag_matcher(data.spec_bytes()) is None && match e {
                    ParseMatcherError::InvalidFieldMatcher(t) => t@ == data@,
                    _ => false,
                },
            },
    {
        let bytes = data.as_bytes_vec();
        let p0 = skip_ws(&bytes, 0);
        match parse_tag(&bytes, p0) {
            Some((m, p)) => {
                let p2 = skip_ws(&bytes, p);
                if p2 == bytes.len() {
                    Ok(m)
                } else {
                    Err(ParseMatcherError::InvalidFieldMatcher(data.to_owned()))
                }
            },
            None => Err(ParseMatcherError::InvalidFieldMatcher(data.to_owned())),
        }
    }

    /// Evaluate the pattern against a field's tag.
    pub fn is_match(&self, tag: &Vec<u8>) -> (r: bool)
        ensures
            r == tag_matches(self@, tag@),
    {
        if self.segments.len() != tag.len() {
            return false;
        }
        let mut i: usize = 0;
        while i < self.segments.len()
            invariant
                0 <= i <= self.segments.len(),
                self.segments.len() == tag.len(),
                forall|k: int|
                    0 <= k < i ==> seg_matches(#[trigger] self.segments.deep_view()[k], tag@[k]),
            decreases self.segments.len() - i,
        {
            let ok = seg_match(&self.segments[i], tag[i]);
            proof {
                assert(self.segments.deep_view()[i as int] == self.segments@[i as int]@);
            }
            if !ok {
                return false;
            }
            i = i + 1;
        }
        true
    }
}

/// The anchored tag-pattern grammar.
pub open spec fn spec_parse_tag_matcher(s: Seq<u8>) -> Option<Seq<TagSegSpec>> {
    match spec_parse_tag(s, spec_skip_ws(s, 0)) {
        Some((m, p)) => if spec_skip_ws(s, p) == s.len() {
            Some(m)
        } else {
            None
        },
        None => None,
    }
}

} // verus!
