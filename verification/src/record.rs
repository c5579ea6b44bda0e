//! The record data model: a record is an ordered sequence of fields, a
//! field a tag with an optional occurrence and an ordered sequence of
//! subfields, a subfield a one-character code paired with a value.

use vstd::prelude::*;
use crate::error::ParsePicaError;

verus! {

/// A subfield code: one alphanumeric ASCII character.
pub open spec fn is_code(b: u8) -> bool {
    (97 <= b <= 122) || (65 <= b <= 90) || (48 <= b <= 57)
}

/// Decide whether `b` is a valid subfield code.
pub fn code_byte_ok(b: u8) -> (r: bool)
    ensures
        r == is_code(b),
{
    (97 <= b && b <= 122) || (65 <= b && b <= 90) || (48 <= b && b <= 57)
}

/// A one-character code paired with a value.
#[derive(Debug, Clone, PartialEq, Eq)]
pub struct Subfield {
    pub code: u8,
    pub value: Vec<u8>,
}

/// A subfield encoded as bytes: a unit separator, the code, then the
/// value, which may not contain a record or unit separator.
pub open spec fn spec_subfield_from_bytes(s: Seq<u8>) -> Option<(u8, Seq<u8>)> {
    if s.len() >= 2 && s[0] == 31 && is_code(s[1]) && (forall|i: int|
        2 <= i < s.len() ==> s[i] != 30 && s[i] != 31) {
        Some((s[1], s.subrange(2, s.len() as int)))
    } else {
        None
    }
}

impl Subfield {
    /// The value is free of the separators and the code is alphanumeric.
    pub open spec fn wf(self) -> bool {
        is_code(self.code) && forall|i: int|
            0 <= i < self.value@.len() ==> self.value@[i] != 30 && self.value@[i] != 31
    }

    /// Decode a subfield from its byte encoding.
    pub fn from_bytes(data: &[u8]) -> (r: Result<Subfield, ParsePicaError>)
        ensures
            match r {
                Ok(sf) => spec_subfield_from_bytes(data@) == Some((sf.code, sf.value@))
                    && sf.wf(),
                Err(e) => spec_subfield_from_bytes(data@) is None && e
                    == ParsePicaError::InvalidSubfield,
            },
    {
        let n = data.len();
        if n < 2 || data[0] != 31 || !code_byte_ok(data[1]) {
            return Err(ParsePicaError::InvalidSubfield);
        }
        let mut value: Vec<u8> = Vec::new();
        let mut i: usize = 2;
        while i < n
            invariant
                2 <= i <= n,
                n == data@.len(),
                value@ == data@.subrange(2, i as int),
                forall|k: int| 2 <= k < i ==> data@[k] != 30 && data@[k] != 31,
            decreases n - i,
        {
            let b = data[i];
            if b == 30 || b == 31 {
                return Err(ParsePicaError::InvalidSubfield);
            }
            value.push(b);
            proof {
                assert(data@.subrange(2, i as int).push(data@[i as int]) =~= data@.subrange(
                    2,
                    i + 1,
                ));
            }
            i = i + 1;
        }
        proof {
            assert(value@ =~= data@.subrange(2, data@.len() as int));
        }
        Ok(Subfield { code: data[1], value })
    }
}

/// A tag, an optional occurrence and an ordered sequence of subfields.
#[derive(Debug, Clone, PartialEq, Eq)]
pub struct Field {
    pub tag: Vec<u8>,
    pub occurrence: Option<Vec<u8>>,
    pub subfields: Vec<Subfield>,
}

impl Field {
    /// Assemble a field from its parts.
    pub fn new(tag: Vec<u8>, occurrence: Option<Vec<u8>>, subfields: Vec<Subfield>) -> (r: Field)
        ensures
            r.tag == tag,
            r.occurrence == occurrence,
            r.subfields == subfields,
    {
        Field { tag, occurrence, subfields }
    }
}

/// An ordered sequence of fields.
#[derive(Debug, Clone, PartialEq, Eq)]
pub struct Record {
    pub fields: Vec<Field>,
}

impl Record {
    /// Assemble a record from its fields.
    pub fn new(fields: Vec<Field>) -> (r: Record)
        ensures
            r.fields == fields,
    {
        Record { fields }
    }
}

} // verus!
