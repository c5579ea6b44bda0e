//! Field-level matchers: a predicate composing a tag pattern, an
//! occurrence pattern and an optional subfield expression, together
//! with the AND/OR/NOT algebra over whole field-level sub-expressions.
//!
//! Every predicate leaf is evaluated existentially over a record's
//! field collection; composite children re-examine the same, never a
//! narrowed, collection.

use vstd::prelude::*;
use vstd::string::{StrSliceExecFns, StringSliceAdditionalSpecFns};
use crate::common::{spec_skip_ws, skip_ws, BooleanOp};
use crate::error::ParseMatcherError;
use crate::occurrence_matcher::{occ_matches, parse_occ, spec_parse_occ, OccSpec,
    OccurrenceMatcher};
use crate::options::MatcherOptions;
use crate::record::Field;
use crate::subfield_matcher::{sf_eval, spec_parse_sf_or, SubfieldExpr, SubfieldMatcher};
use crate::subfield_matcher::parse_sf_or;
use crate::tag_matcher::{parse_tag, spec_parse_tag, tag_matches, TagMatcher, TagSegSpec};

verus! {

/// The mathematical model of a compiled field expression.
pub enum FieldExpr {
    Predicate { tag: Seq<TagSegSpec>, occ: OccSpec, sf: Option<SubfieldExpr> },
    Composite { lhs: Box<FieldExpr>, op: BooleanOp, rhs: Box<FieldExpr> },
    Not { inner: Box<FieldExpr> },
}

/// A field expression tree: a tag/occurrence/subfield predicate, or a
/// boolean combination of sub-expressions.
#[derive(Debug)]
pub enum FieldMatcher {
    Predicate {
        tag: TagMatcher,
        occurrence: OccurrenceMatcher,
        subfields: Option<SubfieldMatcher>,
    },
    Composite { lhs: Box<FieldMatcher>, op: BooleanOp, rhs: Box<FieldMatcher> },
    Not(Box<FieldMatcher>),
}

/// The model of a field matcher tree.
pub open spec fn fm_model(m: FieldMatcher) -> FieldExpr
    decreases m,
{
    match m {
        FieldMatcher::Predicate { tag, occurrence, subfields } => FieldExpr::Predicate {
            tag: tag@,
            occ: occurrence@,
            sf: match subfields {
                Some(x) => Some(x@),
                None => None,
            },
        },
        FieldMatcher::Composite { lhs, op, rhs } => FieldExpr::Composite {
            lhs: Box::new(fm_model(*lhs)),
            op,
            rhs: Box::new(fm_model(*rhs)),
        },
        FieldMatcher::Not(inner) => FieldExpr::Not { inner: Box::new(fm_model(*inner)) },
    }
}

impl View for FieldMatcher {
    type V = FieldExpr;

    open spec fn view(&self) -> FieldExpr {
        fm_model(*self)
    }
}

/// Whether one field satisfies a predicate leaf: tag and occurrence
/// both match and, when a subfield expression is present, it holds of
/// the field's own subfield collection; omitting it means the tag and
/// occurrence match regardless of content.
pub open spec fn field_pred_matches(
    tag: Seq<TagSegSpec>,
    occ: OccSpec,
    sf: Option<SubfieldExpr>,
    field: Field,
    o: MatcherOptions,
) -> bool {
    tag_matches(tag, field.tag@) && occ_matches(occ, field.occurrence) && match sf {
        Some(e) => sf_eval(e, field.subfields@, o),
        None => true,
    }
}

/// The meaning of a compiled field expression against a record's field
/// collection: a predicate holds iff some field satisfies the whole
/// predicate, and each composite child is evaluated independently and
/// existentially over the same collection.
pub open spec fn fm_eval(e: FieldExpr, fields: Seq<Field>, o: MatcherOptions) -> bool
    decreases e,
{
    match e {
        FieldExpr::Predicate { tag, occ, sf } => exists|i: int|
            0 <= i < fields.len() && field_pred_matches(tag, occ, sf, fields[i], o),
        FieldExpr::Composite { lhs, op, rhs } => match op {
            BooleanOp::And => fm_eval(*lhs, fields, o) && fm_eval(*rhs, fields, o),
            BooleanOp::Or => fm_eval(*lhs, fields, o) || fm_eval(*rhs, fields, o),
        },
        FieldExpr::Not { inner } => !fm_eval(*inner, fields, o),
    }
}

/// A predicate leaf: a tag pattern, an optional occurrence, then `?`,
/// a braced subfield expression, or nothing.
pub open spec fn spec_parse_field_pred(s: Seq<u8>, pos: int) -> Option<(FieldExpr, int)> {
    match spec_parse_tag(s, pos) {
        Some((tag, p1)) => match spec_parse_occ(s, p1) {
            Some((occ, p2)) => if p2 < s.len() && s[p2] == 63 {
                Some((FieldExpr::Predicate { tag, occ, sf: None }, p2 + 1))
            } else {
                let q = spec_skip_ws(s, p2);
                if q < s.len() && s[q] == 123 {
                    match spec_parse_sf_or(s, q + 1) {
                        Some((e, p3)) => {
                            let p4 = spec_skip_ws(s, p3);
                            if p4 < s.len() && s[p4] == 125 {
                                Some((FieldExpr::Predicate { tag, occ, sf: Some(e) }, p4 + 1))
                            } else {
                                None
                            }
                        },
                        None => None,
                    }
                } else {
                    Some((FieldExpr::Predicate { tag, occ, sf: None }, p2))
                }
            },
            None => None,
        },
        None => None,
    }
}

/// An atom: a parenthesised sub-expression, or a predicate leaf.
pub open spec fn spec_parse_field_atom(s: Seq<u8>, pos: int) -> Option<(FieldExpr, int)>
    decreases s.len() - pos, 0int,
    via spec_parse_field_atom_dec
{
    if 0 <= pos <= s.len() {
        let p = spec_skip_ws(s, pos);
        if p < s.len() && s[p] == 40 {
            match spec_parse_field_or(s, p + 1) {
                Some((e, p2)) => {
                    let p3 = spec_skip_ws(s, p2);
                    if p3 < s.len() && s[p3] == 41 {
                        Some((e, p3 + 1))
                    } else {
                        None
                    }
                },
                None => None,
            }
        } else {
            spec_parse_field_pred(s, p)
        }
    } else {
        None
    }
}

#[via_fn]
proof fn spec_parse_field_atom_dec(s: Seq<u8>, pos: int) {
    if 0 <= pos <= s.len() {
        crate::common::lemma_skip_ws_bounds(s, pos);
    }
}

/// A negation chain over field expressions.
pub open spec fn spec_parse_field_not(s: Seq<u8>, pos: int) -> Option<(FieldExpr, int)>
    decreases s.len() - pos, 1int,
    via spec_parse_field_not_dec
{
    if 0 <= pos <= s.len() {
        let p = spec_skip_ws(s, pos);
        if p < s.len() && s[p] == 33 && !(p + 1 < s.len() && s[p + 1] == 61) {
            match spec_parse_field_not(s, p + 1) {
                Some((e, p2)) => Some((FieldExpr::Not { inner: Box::new(e) }, p2)),
                None => None,
            }
        } else {
            spec_parse_field_atom(s, pos)
        }
    } else {
        None
    }
}

#[via_fn]
proof fn spec_parse_field_not_dec(s: Seq<u8>, pos: int) {
    if 0 <= pos <= s.len() {
        crate::common::lemma_skip_ws_bounds(s, pos);
    }
}

/// The left-folded continuation of an `&&` chain.
pub open spec fn spec_parse_field_and_tail(s: Seq<u8>, pos: int, acc: FieldExpr) -> Option<
    (FieldExpr, int),
>
    decreases s.len() - pos, 2int,
    via spec_parse_field_and_tail_dec
{
    if 0 <= pos <= s.len() {
        let q = spec_skip_ws(s, pos);
        if q + 2 <= s.len() && s[q] == 38 && s[q + 1] == 38 {
            match spec_parse_field_not(s, q + 2) {
                Some((r, p2)) => if q + 2 <= p2 <= s.len() {
                    spec_parse_field_and_tail(
                        s,
                        p2,
                        FieldExpr::Composite {
                            lhs: Box::new(acc),
                            op: BooleanOp::And,
                            rhs: Box::new(r),
                        },
                    )
                } else {
                    None
                },
                None => None,
            }
        } else {
            Some((acc, pos))
        }
    } else {
        Some((acc, pos))
    }
}

#[via_fn]
proof fn spec_parse_field_and_tail_dec(s: Seq<u8>, pos: int, acc: FieldExpr) {
    if 0 <= pos <= s.len() {
        crate::common::lemma_skip_ws_bounds(s, pos);
    }
}

/// An `&&` chain over field expressions.
pub open spec fn spec_parse_field_and(s: Seq<u8>, pos: int) -> Option<(FieldExpr, int)>
    decreases s.len() - pos, 3int,
{
    match spec_parse_field_not(s, pos) {
        Some((l, p)) => if pos <= p <= s.len() {
            spec_parse_field_and_tail(s, p, l)
        } else {
            None
        },
        None => None,
    }
}

/// The left-folded continuation of an `||` chain.
pub open spec fn spec_parse_field_or_tail(s: Seq<u8>, pos: int, acc: FieldExpr) -> Option<
    (FieldExpr, int),
>
    decreases s.len() - pos, 4int,
    via spec_parse_field_or_tail_dec
{
    if 0 <= pos <= s.len() {
        let q = spec_skip_ws(s, pos);
        if q + 2 <= s.len() && s[q] == 124 && s[q + 1] == 124 {
            match spec_parse_field_and(s, q + 2) {
                Some((r, p2)) => if q + 2 <= p2 <= s.len() {
                    spec_parse_field_or_tail(
                        s,
                        p2,
                        FieldExpr::Composite {
                            lhs: Box::new(acc),
                            op: BooleanOp::Or,
                            rhs: Box::new(r),
                        },
                    )
                } else {
                    None
                },
                None => None,
            }
        } else {
            Some((acc, pos))
        }
    } else {
        Some((acc, pos))
    }
}

#[via_fn]
proof fn spec_parse_field_or_tail_dec(s: Seq<u8>, pos: int, acc: FieldExpr) {
    if 0 <= pos <= s.len() {
        crate::common::lemma_skip_ws_bounds(s, pos);
    }
}

/// An `||` chain over field expressions.
pub open spec fn spec_parse_field_or(s: Seq<u8>, pos: int) -> Option<(FieldExpr, int)>
    decreases s.len() - pos, 5int,
{
    match spec_parse_field_and(s, pos) {
        Some((l, p)) => if pos <= p <= s.len() {
            spec_parse_field_or_tail(s, p, l)
        } else {
            None
        },
        None => None,
    }
}

/// The anchored field grammar.
pub open spec fn spec_parse_field_matcher(s: Seq<u8>) -> Option<FieldExpr> {
    match spec_parse_field_or(s, 0) {
        Some((e, p)) => if spec_skip_ws(s, p) == s.len() {
            Some(e)
        } else {
            None
        },
        None => None,
    }
}

/// Parse a predicate leaf.
fn parse_field_pred(s: &Vec<u8>, pos: usize) -> (r: Option<(FieldMatcher, usize)>)
    requires
        pos <= s.len(),
    ensures
        match r {
            Some(v) => spec_parse_field_pred(s@, pos as int) == Some((v.0@, v.1 as int)) && pos
                < v.1 <= s.len(),
            None => spec_parse_field_pred(s@, pos as int) is None,
        },
{
    match parse_tag(s, pos) {
        Some((tag, p1)) => match parse_occ(s, p1) {
            Some((occurrence, p2)) => {
                if p2 < s.len() && s[p2] == 63 {
                    return Some(
                        (FieldMatcher::Predicate { tag, occurrence, subfields: None }, p2 + 1),
                    );
                }
                let q = skip_ws(s, p2);
                if q < s.len() && s[q] == 123 {
                    match parse_sf_or(s, q + 1) {
                        Some((e, p3)) => {
                            let p4 = skip_ws(s, p3);
                            if p4 < s.len() && s[p4] == 125 {
                                Some(
                                    (
                                        FieldMatcher::Predicate {
                                            tag,
                                            occurrence,
                                            subfields: Some(e),
                                        },
                                        p4 + 1,
                                    ),
                                )
                            } else {
                                None
                            }
                        },
                        None => None,
                    }
                } else {
                    Some((FieldMatcher::Predicate { tag, occurrence, subfields: None }, p2))
                }
            },
            None => None,
        },
        None => None,
    }
}

/// Parse an atom: a parenthesised sub-expression or a predicate.
fn parse_field_atom(s: &Vec<u8>, pos: usize) -> (r: Option<(FieldMatcher, usize)>)
    requires
        pos <= s.len(),
    ensures
        match r {
            Some(v) => spec_parse_field_atom(s@, pos as int) == Some((v.0@, v.1 as int)) && pos
                <= v.1 <= s.len(),
            None => spec_parse_field_atom(s@, pos as int) is None,
        },
    decreases s@.len() - pos, 0int,
{
    let p = skip_ws(s, pos);
    if p < s.len() && s[p] == 40 {
        match parse_field_or(s, p + 1) {
            Some((e, p2)) => {
                let p3 = skip_ws(s, p2);
                if p3 < s.len() && s[p3] == 41 {
                    Some((e, p3 + 1))
                } else {
                    None
                }
            },
            None => None,
        }
    } else {
        parse_field_pred(s, p)
    }
}

/// Parse a negation chain.
fn parse_field_not(s: &Vec<u8>, pos: usize) -> (r: Option<(FieldMatcher, usize)>)
    requires
        pos <= s.len(),
    ensures
        match r {
            Some(v) => spec_parse_field_not(s@, pos as int) == Some((v.0@, v.1 as int)) && pos
                <= v.1 <= s.len(),
            None => spec_parse_field_not(s@, pos as int) is None,
        },
    decreases s@.len() - pos, 1int,
{
    let p = skip_ws(s, pos);
    if p < s.len() && s[p] == 33 && !(p + 1 < s.len() && s[p + 1] == 61) {
        match parse_field_not(s, p + 1) {
            Some((e, p2)) => Some((FieldMatcher::Not(Box::new(e)), p2)),
            None => None,
        }
    } else {
        parse_field_atom(s, pos)
    }
}

/// Parse an `&&` chain, folding left-associatively.
#[verifier::loop_isolation(false)]
fn parse_field_and(s: &Vec<u8>, pos: usize) -> (r: Option<(FieldMatcher, usize)>)
    requires
        pos <= s.len(),
    ensures
        match r {
            Some(v) => spec_parse_field_and(s@, pos as int) == Some((v.0@, v.1 as int)) && pos
                <= v.1 <= s.len(),
            None => spec_parse_field_and(s@, pos as int) is None,
        },
    decreases s@.len() - pos, 3int,
{
    match parse_field_not(s, pos) {
        Some((l, p)) => {
            let mut acc = l;
            let mut cur: usize = p;
            let mut done: bool = false;
            while !done
                invariant
                    pos <= cur <= s.len(),
                    spec_parse_field_and(s@, pos as int) == spec_parse_field_and_tail(
                        s@,
                        cur as int,
                        acc@,
                    ),
                    done ==> spec_parse_field_and_tail(s@, cur as int, acc@) == Some(
                        (acc@, cur as int),
                    ),
                decreases s@.len() - cur, (if done { 0int } else { 1int }),
            {
                let q = skip_ws(s, cur);
                if s.len() - q >= 2 && s[q] == 38 && s[q + 1] == 38 {
                    match parse_field_not(s, q + 2) {
                        Some((rm, p2)) => {
                            acc = FieldMatcher::Composite {
                                lhs: Box::new(acc),
                                op: BooleanOp::And,
                                rhs: Box::new(rm),
                            };
                            cur = p2;
                        },
                        None => {
                            return None;
                        },
                    }
                } else {
                    done = true;
                }
            }
            Some((acc, cur))
        },
        None => None,
    }
}

/// Parse an `||` chain, folding left-associatively.
#[verifier::loop_isolation(false)]
fn parse_field_or(s: &Vec<u8>, pos: usize) -> (r: Option<(FieldMatcher, usize)>)
    requires
        pos <= s.len(),
    ensures
        match r {
            Some(v) => spec_parse_field_or(s@, pos as int) == Some((v.0@, v.1 as int)) && pos
                <= v.1 <= s.len(),
            None => spec_parse_field_or(s@, pos as int) is None,
        },
    decreases s@.len() - pos, 5int,
{
    match parse_field_and(s, pos) {
        Some((l, p)) => {
            let mut acc = l;
            let mut cur: usize = p;
            let mut done: bool = false;
            while !done
                invariant
                    pos <= cur <= s.len(),
                    spec_parse_field_or(s@, pos as int) == spec_parse_field_or_tail(
                        s@,
                        cur as int,
                        acc@,
                    ),
                    done ==> spec_parse_field_or_tail(s@, cur as int, acc@) == Some(
                        (acc@, cur as int),
                    ),
                decreases s@.len() - cur, (if done { 0int } else { 1int }),
            {
                let q = skip_ws(s, cur);
                if s.len() - q >= 2 && s[q] == 124 && s[q + 1] == 124 {
                    match parse_field_and(s, q + 2) {
                        Some((rm, p2)) => {
                            acc = FieldMatcher::Composite {
                                lhs: Box::new(acc),
                                op: BooleanOp::Or,
                                rhs: Box::new(rm),
                            };
                            cur = p2;
                        },
                        None => {
                            return None;
                        },
                    }
                } else {
                    done = true;
                }
            }
            Some((acc, cur))
        },
        None => None,
    }
}

/// Parse the anchored field grammar.
pub(crate) fn parse_field_matcher(s: &Vec<u8>) -> (r: Option<FieldMatcher>)
    ensures
        match r {
            Some(m) => spec_parse_field_matcher(s@) == Some(m@),
            None => spec_parse_field_matcher(s@) is None,
        },
{
    match parse_field_or(s, 0) {
        Some((m, p)) => {
            let p2 = skip_ws(s, p);
            if p2 == s.len() {
                Some(m)
            } else {
                None
            }
        },
        None => None,
    }
}

impl FieldMatcher {
    /// Compile a field expression from its textual form; parsing is
    /// anchored.
    pub fn new(data: &str) -> (r: Result<FieldMatcher, ParseMatcherError>)
        ensures
            match r {
                Ok(m) => spec_parse_field_matcher(data.spec_bytes()) == Some(m@),
                Err(e) => spec_parse_field_matcher(data.spec_bytes()) is None && match e {
                    ParseMatcherError::InvalidFieldMatcher(t) => t@ == data@,
                    _ => false,
                },
            },
    {
        let bytes = data.as_bytes_vec();
        match parse_field_matcher(&bytes) {
            Some(m) => Ok(m),
            None => Err(ParseMatcherError::InvalidFieldMatcher(data.to_owned())),
        }
    }

    /// Evaluate the expression tree against a record's field
    /// collection; each child re-examines the same collection.
    #[verifier::loop_isolation(false)]
    pub fn is_match(&self, fields: &Vec<Field>, options: &MatcherOptions) -> (r: bool)
        ensures
            r == fm_eval(self@, fields@, *options),
        decreases *self,
    {
        match self {
            FieldMatcher::Predicate { tag, occurrence, subfields } => {
                let ghost tg = tag@;
                let ghost oc = occurrence@;
                let ghost sfm = (match subfields {
                    Some(m) => Some(m@),
                    None => None::<SubfieldExpr>,
                });
                let mut i: usize = 0;
                while i < fields.len()
                    invariant
                        0 <= i <= fields.len(),
                        forall|k: int|
                            0 <= k < i ==> !field_pred_matches(
                                tg,
                                oc,
                                sfm,
                                #[trigger] fields@[k],
                                *options,
                            ),
                    decreases fields.len() - i,
                {
                    let f = &fields[i];
                    let ok = tag.is_match(&f.tag) && occurrence.is_match(&f.occurrence) && (
                    match subfields {
                        Some(sm) => sm.is_match(&f.subfields, options),
                        None => true,
                    });
                    if ok {
                        proof {
                            assert(field_pred_matches(tg, oc, sfm, fields@[i as int], *options));
                        }
                        return true;
                    }
                    i = i + 1;
                }
                false
            },
            FieldMatcher::Composite { lhs, op, rhs } => match op {
                BooleanOp::And => lhs.is_match(fields, options) && rhs.is_match(fields, options),
                BooleanOp::Or => lhs.is_match(fields, options) || rhs.is_match(fields, options),
            },
            FieldMatcher::Not(inner) => !inner.is_match(fields, options),
        }
    }
}

} // verus!
