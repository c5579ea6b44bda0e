//! Paths of the legacy filter language: a tag, an optional occurrence,
//! a subfield code and an optional index, written `003@.0` or
//! `028@.d[0]`.

use vstd::prelude::*;
use vstd::string::{StrSliceExecFns, StringSliceAdditionalSpecFns};
use crate::record::is_code;
use crate::record::code_byte_ok;
use crate::subfield_matcher::spec_parse_count;
use crate::tag_matcher::{is_tag_char, tag_char_ok};

verus! {

/// The mathematical model of a path.
pub struct PathModel {
    pub tag: Seq<u8>,
    pub occurrence: Option<Seq<u8>>,
    pub code: char,
    pub index: Option<usize>,
}

/// A path into a record: tag, optional occurrence, subfield code and
/// optional value index.
#[derive(Debug, Clone, PartialEq, Eq)]
pub struct Path {
    pub tag: Vec<u8>,
    pub occurrence: Option<Vec<u8>>,
    pub code: char,
    pub index: Option<usize>,
}

impl View for Path {
    type V = PathModel;

    open spec fn view(&self) -> PathModel {
        PathModel {
            tag: self.tag@,
            occurrence: match &self.occurrence {
                Some(o) => Some(o@),
                None => None,
            },
            code: self.code,
            index: self.index,
        }
    }
}

impl Path {
    /// Assemble a path from its parts.
    pub fn new(tag: &str, occurrence: Option<&str>, code: char, index: Option<usize>) -> (r:
        Path)
        ensures
            r@.tag == tag.spec_bytes(),
            r@.occurrence == match occurrence {
                Some(o) => Some(o.spec_bytes()),
                None => None::<Seq<u8>>,
            },
            r@.code == code,
            r@.index == index,
    {
        Path {
            tag: tag.as_bytes_vec(),
            occurrence: match occurrence {
                Some(o) => Some(o.as_bytes_vec()),
                None => None,
            },
            code,
            index,
        }
    }
}

/// A path: four tag characters, an optional `/NN`/`/NNN` occurrence, a
/// dot, a subfield code, and an optional bracketed index.
pub open spec fn spec_parse_path(s: Seq<u8>, pos: int) -> Option<(PathModel, int)> {
    if 0 <= pos && pos + 4 <= s.len() && is_tag_char(s[pos]) && is_tag_char(s[pos + 1])
        && is_tag_char(s[pos + 2]) && is_tag_char(s[pos + 3]) {
        let tag = s.subrange(pos, pos + 4);
        let p1 = pos + 4;
        let occ: Option<(Option<Seq<u8>>, int)> = if p1 < s.len() && s[p1] == 47 {
            if p1 + 3 <= s.len() && 48 <= s[p1 + 1] <= 57 && 48 <= s[p1 + 2] <= 57 {
                if p1 + 4 <= s.len() && 48 <= s[p1 + 3] <= 57 {
                    Some((Some(seq![s[p1 + 1], s[p1 + 2], s[p1 + 3]]), p1 + 4))
                } else {
                    Some((Some(seq![s[p1 + 1], s[p1 + 2]]), p1 + 3))
                }
            } else {
                None
            }
        } else {
            Some((None, p1))
        };
        match occ {
            Some((occurrence, p2)) => if p2 + 2 <= s.len() && s[p2] == 46 && is_code(
                s[p2 + 1],
            ) {
                let code = s[p2 + 1] as char;
                let p3 = p2 + 2;
                if p3 < s.len() && s[p3] == 91 {
                    match spec_parse_count(s, p3 + 1) {
                        Some((n, p4)) => if p4 < s.len() && s[p4] == 93 {
                            Some(
                                (
                                    PathModel {
                                        tag,
                                        occurrence,
                                        code,
                                        index: Some(n),
                                    },
                                    p4 + 1,
                                ),
                            )
                        } else {
                            None
                        },
                        None => None,
                    }
                } else {
                    Some((PathModel { tag, occurrence, code, index: None }, p3))
                }
            } else {
                None
            },
            None => None,
        }
    } else {
        None
    }
}

/// Parse a path.
pub(crate) fn parse_path(s: &Vec<u8>, pos: usize) -> (r: Option<(Path, usize)>)
    requires
        pos <= s.len(),
    ensures
        match r {
            Some(v) => spec_parse_path(s@, pos as int) == Some((v.0@, v.1 as int)) && pos < v.1
                <= s.len(),
            None => spec_parse_path(s@, pos as int) is None,
        },
{
    if !(s.len() - pos >= 4 && tag_char_ok(s[pos]) && tag_char_ok(s[pos + 1]) && tag_char_ok(
        s[pos + 2],
    ) && tag_char_ok(s[pos + 3])) {
        return None;
    }
    let mut tag: Vec<u8> = Vec::new();
    tag.push(s[pos]);
    tag.push(s[pos + 1]);
    tag.push(s[pos + 2]);
    tag.push(s[pos + 3]);
    proof {
        assert(tag@ =~= s@.subrange(pos as int, pos + 4));
    }
    let p1 = pos + 4;
    let occurrence: Option<Vec<u8>>;
    let p2: usize;
    if p1 < s.len() && s[p1] == 47 {
        if s.len() - p1 >= 3 && 48 <= s[p1 + 1] && s[p1 + 1] <= 57 && 48 <= s[p1 + 2] && s[p1 + 2]
            <= 57 {
            let mut o: Vec<u8> = Vec::new();
            o.push(s[p1 + 1]);
            o.push(s[p1 + 2]);
            if s.len() - p1 >= 4 && 48 <= s[p1 + 3] && s[p1 + 3] <= 57 {
                o.push(s[p1 + 3]);
                proof {
                    assert(o@ =~= seq![s@[p1 + 1], s@[p1 + 2], s@[p1 + 3]]);
                }
                occurrence = Some(o);
                p2 = p1 + 4;
            } else {
                proof {
                    assert(o@ =~= seq![s@[p1 + 1], s@[p1 + 2]]);
                }
                occurrence = Some(o);
                p2 = p1 + 3;
            }
        } else {
            return None;
        }
    } else {
        occurrence = None;
        p2 = p1;
    }
    if !(s.len() - p2 >= 2 && s[p2] == 46 && code_byte_ok(s[p2 + 1])) {
        return None;
    }
    let code = s[p2 + 1] as char;
    let p3 = p2 + 2;
    if p3 < s.len() && s[p3] == 91 {
        match crate::subfield_matcher::parse_count(s, p3 + 1) {
            Some((n, p4)) => {
                if p4 < s.len() && s[p4] == 93 {
                    Some((Path { tag, occurrence, code, index: Some(n) }, p4 + 1))
                } else {
                    None
                }
            },
            None => None,
        }
    } else {
        Some((Path { tag, occurrence, code, index: None }, p3))
    }
}

} // verus!
