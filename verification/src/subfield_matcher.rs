//! Subfield-level matchers: the five leaf predicates over a collection
//! of subfields (existence, relation, regular expression, set
//! membership, cardinality) and the boolean combinator engine joining
//! them with AND, OR and NOT.
//!
//! Every matcher is compiled once from its textual form and then
//! evaluated, as a pure predicate, against a collection of subfields
//! plus an options value.  The meaning of a compiled matcher is given by
//! the spec function `sf_eval`; the grammar is given by spec parse
//! functions over the byte sequence of the text.

use vstd::prelude::*;
use vstd::string::{StrSliceExecFns, StringSliceAdditionalSpecFns};
use crate::common::{
    spec_parse_rel_op_str, spec_parse_rel_op_usize, spec_parse_string, spec_skip_ws,
    parse_relational_op_str, parse_relational_op_usize, parse_string, skip_ws,
    lemma_skip_ws_bounds, lemma_quoted_body_ends_at_quote, BooleanOp, RelationalOp,
};
use crate::bytes::{bytes_eq, bytes_prefix, bytes_suffix, contains_code};
use crate::error::ParseMatcherError;
use crate::fold::{fold_bytes, fold_vec};
use crate::options::MatcherOptions;
use crate::record::{is_code, code_byte_ok, Subfield};
use crate::regexes::{regex_match, regex_valid, regex_is_match, regex_pattern_ok};
use crate::similarity::{spec_similar, similar};

verus! {

/// The mathematical model of a compiled subfield expression.
pub enum SubfieldExpr {
    Exists { codes: Seq<u8> },
    Relation { codes: Seq<u8>, op: RelationalOp, value: Seq<u8> },
    Regex { codes: Seq<u8>, pattern: Seq<u8>, invert: bool },
    In { codes: Seq<u8>, values: Seq<Seq<u8>>, invert: bool },
    Cardinality { code: u8, op: RelationalOp, count: usize },
    Composite { lhs: Box<SubfieldExpr>, op: BooleanOp, rhs: Box<SubfieldExpr> },
    Not { inner: Box<SubfieldExpr> },
}

/// How many subfields of the collection carry exactly this code.
pub open spec fn count_code(subs: Seq<Subfield>, code: u8) -> nat
    decreases subs.len(),
{
    if subs.len() == 0 {
        0
    } else {
        count_code(subs.drop_last(), code) + if subs.last().code == code {
            1nat
        } else {
            0nat
        }
    }
}

/// A numeric comparison; only the numeric-domain operators can hold.
pub open spec fn num_op_eval(op: RelationalOp, lhs: nat, rhs: nat) -> bool {
    match op {
        RelationalOp::Eq => lhs == rhs,
        RelationalOp::Ne => lhs != rhs,
        RelationalOp::Gt => lhs > rhs,
        RelationalOp::Ge => lhs >= rhs,
        RelationalOp::Lt => lhs < rhs,
        RelationalOp::Le => lhs <= rhs,
        _ => false,
    }
}

/// A string comparison between a subfield value and a literal, after
/// case folding; only the string-domain operators can hold.
pub open spec fn str_op_eval(op: RelationalOp, value: Seq<u8>, lit: Seq<u8>, o: MatcherOptions) -> bool {
    let v = fold_bytes(value, o.case_ignore);
    let l = fold_bytes(lit, o.case_ignore);
    match op {
        RelationalOp::Eq => v == l,
        RelationalOp::Ne => v != l,
        RelationalOp::StartsWith => l.is_prefix_of(v),
        RelationalOp::EndsWith => l.is_suffix_of(v),
        RelationalOp::Similar => spec_similar(v, l, o.strsim_threshold),
        _ => false,
    }
}

/// Whether a value equals, after case folding, one of a set of literals.
pub open spec fn in_values(value: Seq<u8>, values: Seq<Seq<u8>>, ci: bool) -> bool {
    exists|j: int|
        0 <= j < values.len() && fold_bytes(value, ci) == fold_bytes(values[j], ci)
}

/// The meaning of a compiled subfield expression against a collection of
/// subfields: every leaf is an existential test over the subfields whose
/// code lies in the leaf's code set (cardinality instead counts exact
/// code matches over the whole collection), and composites combine the
/// children's verdicts over the same, unpartitioned collection.
pub open spec fn sf_eval(e: SubfieldExpr, subs: Seq<Subfield>, o: MatcherOptions) -> bool
    decreases e,
{
    match e {
        SubfieldExpr::Exists { codes } => exists|i: int|
            0 <= i < subs.len() && codes.contains(subs[i].code),
        SubfieldExpr::Relation { codes, op, value } => exists|i: int|
            0 <= i < subs.len() && codes.contains(subs[i].code) && str_op_eval(
                op,
                subs[i].value@,
                value,
                o,
            ),
        SubfieldExpr::Regex { codes, pattern, invert } => exists|i: int|
            0 <= i < subs.len() && codes.contains(subs[i].code) && (regex_match(
                pattern,
                subs[i].value@,
                o.case_ignore,
            ) != invert),
        SubfieldExpr::In { codes, values, invert } => exists|i: int|
            0 <= i < subs.len() && codes.contains(subs[i].code) && (in_values(
                subs[i].value@,
                values,
                o.case_ignore,
            ) != invert),
        SubfieldExpr::Cardinality { code, op, count } => num_op_eval(
            op,
            count_code(subs, code),
            count as nat,
        ),
        SubfieldExpr::Composite { lhs, op, rhs } => match op {
            BooleanOp::And => sf_eval(*lhs, subs, o) && sf_eval(*rhs, subs, o),
            BooleanOp::Or => sf_eval(*lhs, subs, o) || sf_eval(*rhs, subs, o),
        },
        SubfieldExpr::Not { inner } => !sf_eval(*inner, subs, o),
    }
}

/// A maximal run of subfield-code bytes.
pub open spec fn spec_parse_code_run(s: Seq<u8>, pos: int) -> (Seq<u8>, int)
    decreases s.len() - pos,
{
    if 0 <= pos && pos < s.len() && is_code(s[pos]) {
        let (v, p) = spec_parse_code_run(s, pos + 1);
        (seq![s[pos]] + v, p)
    } else {
        (Seq::empty(), pos)
    }
}

/// A code set: a single code, or a non-empty bracketed class `[a12]`.
pub open spec fn spec_parse_codes(s: Seq<u8>, pos: int) -> Option<(Seq<u8>, int)> {
    if 0 <= pos && pos < s.len() && is_code(s[pos]) {
        Some((seq![s[pos]], pos + 1))
    } else if 0 <= pos && pos < s.len() && s[pos] == 91 {
        let (v, p) = spec_parse_code_run(s, pos + 1);
        if v.len() >= 1 && p < s.len() && s[p] == 93 {
            Some((v, p + 1))
        } else {
            None
        }
    } else {
        None
    }
}

/// A maximal run of decimal digits.
pub open spec fn spec_parse_digit_run(s: Seq<u8>, pos: int) -> (Seq<u8>, int)
    decreases s.len() - pos,
{
    if 0 <= pos && pos < s.len() && 48 <= s[pos] <= 57 {
        let (v, p) = spec_parse_digit_run(s, pos + 1);
        (seq![s[pos]] + v, p)
    } else {
        (Seq::empty(), pos)
    }
}

/// The numeric value of a digit string.
pub open spec fn digits_val(ds: Seq<u8>) -> int
    decreases ds.len(),
{
    if ds.len() == 0 {
        0
    } else {
        digits_val(ds.drop_last()) * 10 + (ds.last() - 48)
    }
}

/// A decimal count; fails on an empty digit run and on a value beyond
/// the machine word.
pub open spec fn spec_parse_count(s: Seq<u8>, pos: int) -> Option<(usize, int)> {
    let (ds, p) = spec_parse_digit_run(s, pos);
    if ds.len() >= 1 && digits_val(ds) <= usize::MAX {
        Some((digits_val(ds) as usize, p))
    } else {
        None
    }
}

/// An existence leaf: `<code-set>?`.
pub open spec fn spec_parse_exists(s: Seq<u8>, pos: int) -> Option<(SubfieldExpr, int)> {
    match spec_parse_codes(s, pos) {
        Some((codes, p)) => if p < s.len() && s[p] == 63 {
            Some((SubfieldExpr::Exists { codes }, p + 1))
        } else {
            None
        },
        None => None,
    }
}

/// A relation leaf: `<code-set> <string-op> <literal>`.
pub open spec fn spec_parse_relation(s: Seq<u8>, pos: int) -> Option<(SubfieldExpr, int)> {
    match spec_parse_codes(s, pos) {
        Some((codes, p)) => {
            let p1 = spec_skip_ws(s, p);
            match spec_parse_rel_op_str(s, p1) {
                Some((op, p2)) => {
                    let p3 = spec_skip_ws(s, p2);
                    match spec_parse_string(s, p3) {
                        Some((value, p4)) => Some(
                            (SubfieldExpr::Relation { codes, op, value }, p4),
                        ),
                        None => None,
                    }
                },
                None => None,
            }
        },
        None => None,
    }
}

/// A regex leaf: `<code-set> =~ <literal>` or `<code-set> !~ <literal>`;
/// the pattern must compile.
pub open spec fn spec_parse_regex(s: Seq<u8>, pos: int) -> Option<(SubfieldExpr, int)> {
    match spec_parse_codes(s, pos) {
        Some((codes, p)) => {
            let p1 = spec_skip_ws(s, p);
            if p1 + 2 <= s.len() && s[p1 + 1] == 126 && (s[p1] == 61 || s[p1] == 33) {
                let invert = s[p1] == 33;
                let p2 = spec_skip_ws(s, p1 + 2);
                match spec_parse_string(s, p2) {
                    Some((pattern, p3)) => if regex_valid(pattern) {
                        Some((SubfieldExpr::Regex { codes, pattern, invert }, p3))
                    } else {
                        None
                    },
                    None => None,
                }
            } else {
                None
            }
        },
        None => None,
    }
}

/// The comma-separated continuation of a literal list.
pub open spec fn spec_parse_in_tail(s: Seq<u8>, pos: int) -> Option<(Seq<Seq<u8>>, int)>
    decreases s.len() - pos,
    via spec_parse_in_tail_dec
{
    if 0 <= pos <= s.len() {
        let q = spec_skip_ws(s, pos);
        if q < s.len() && s[q] == 44 {
            let p2 = spec_skip_ws(s, q + 1);
            match spec_parse_string(s, p2) {
                Some((v, p3)) => match spec_parse_in_tail(s, p3) {
                    Some((vs, p4)) => Some((seq![v] + vs, p4)),
                    None => None,
                },
                None => None,
            }
        } else {
            Some((Seq::empty(), pos))
        }
    } else {
        Some((Seq::empty(), pos))
    }
}

#[via_fn]
proof fn spec_parse_in_tail_dec(s: Seq<u8>, pos: int) {
    if 0 <= pos <= s.len() {
        lemma_skip_ws_bounds(s, pos);
        let q = spec_skip_ws(s, pos);
        if q < s.len() && s[q] == 44 {
            lemma_skip_ws_bounds(s, q + 1);
            let p2 = spec_skip_ws(s, q + 1);
            if spec_parse_string(s, p2) is Some {
                lemma_parse_string_bounds(s, p2);
            }
        }
    }
}

/// On success a string literal ends past its two quotes and within the
/// input.
pub proof fn lemma_parse_string_bounds(s: Seq<u8>, pos: int)
    requires
        spec_parse_string(s, pos) is Some,
    ensures
        pos + 2 <= (spec_parse_string(s, pos)->0).1 <= s.len(),
{
    lemma_quoted_body_ends_at_quote(s, pos + 1, s[pos]);
}

/// A membership leaf: `<code-set> in [<lit>, ...]`, or with `not` for
/// the inverted per-subfield test.
pub open spec fn spec_parse_in(s: Seq<u8>, pos: int) -> Option<(SubfieldExpr, int)> {
    match spec_parse_codes(s, pos) {
        Some((codes, p)) => {
            let p1 = spec_skip_ws(s, p);
            let invert = p1 + 3 <= s.len() && s[p1] == 110 && s[p1 + 1] == 111 && s[p1 + 2]
                == 116;
            let p2 = if invert {
                spec_skip_ws(s, p1 + 3)
            } else {
                p1
            };
            if p2 + 2 <= s.len() && s[p2] == 105 && s[p2 + 1] == 110 {
                let p3 = spec_skip_ws(s, p2 + 2);
                if p3 < s.len() && s[p3] == 91 {
                    let p4 = spec_skip_ws(s, p3 + 1);
                    match spec_parse_string(s, p4) {
                        Some((first, p5)) => match spec_parse_in_tail(s, p5) {
                            Some((rest, p6)) => {
                                let p7 = spec_skip_ws(s, p6);
                                if p7 < s.len() && s[p7] == 93 {
                                    Some(
                                        (
                                            SubfieldExpr::In {
                                                codes,
                                                values: seq![first] + rest,
                                                invert,
                                            },
                                            p7 + 1,
                                        ),
                                    )
                                } else {
                                    None
                                }
                            },
                            None => None,
                        },
                        None => None,
                    }
                } else {
                    None
                }
            } else {
                None
            }
        },
        None => None,
    }
}

/// A cardinality leaf: `#<code> <numeric-op> <count>`; a class is not
/// permitted as its operand.
pub open spec fn spec_parse_cardinality(s: Seq<u8>, pos: int) -> Option<(SubfieldExpr, int)> {
    if 0 <= pos && pos + 2 <= s.len() && s[pos] == 35 && is_code(s[pos + 1]) {
        let code = s[pos + 1];
        let p1 = spec_skip_ws(s, pos + 2);
        match spec_parse_rel_op_usize(s, p1) {
            Some((op, p2)) => {
                let p3 = spec_skip_ws(s, p2);
                match spec_parse_count(s, p3) {
                    Some((count, p4)) => Some(
                        (SubfieldExpr::Cardinality { code, op, count }, p4),
                    ),
                    None => None,
                }
            },
            None => None,
        }
    } else {
        None
    }
}

/// A leaf: the five alternatives are tried in a fixed order; their
/// continuations are disjoint, so the order only settles error cases.
pub open spec fn spec_parse_leaf(s: Seq<u8>, pos: int) -> Option<(SubfieldExpr, int)> {
    if spec_parse_exists(s, pos) is Some {
        spec_parse_exists(s, pos)
    } else if spec_parse_relation(s, pos) is Some {
        spec_parse_relation(s, pos)
    } else if spec_parse_regex(s, pos) is Some {
        spec_parse_regex(s, pos)
    } else if spec_parse_in(s, pos) is Some {
        spec_parse_in(s, pos)
    } else {
        spec_parse_cardinality(s, pos)
    }
}

/// An atom: a parenthesised sub-expression, or a leaf.
pub open spec fn spec_parse_sf_atom(s: Seq<u8>, pos: int) -> Option<(SubfieldExpr, int)>
    decreases s.len() - pos, 0int,
    via spec_parse_sf_atom_dec
{
    if 0 <= pos <= s.len() {
        let p = spec_skip_ws(s, pos);
        if p < s.len() && s[p] == 40 {
            match spec_parse_sf_or(s, p + 1) {
                Some((e, p2)) => {
                    let p3 = spec_skip_ws(s, p2);
                    if p3 < s.len() && s[p3] == 41 {
                        Some((e, p3 + 1))
                    } else {
                        None
                    }
                },
                None => None,
            }
        } else {
            spec_parse_leaf(s, p)
        }
    } else {
        None
    }
}

#[via_fn]
proof fn spec_parse_sf_atom_dec(s: Seq<u8>, pos: int) {
    if 0 <= pos <= s.len() {
        lemma_skip_ws_bounds(s, pos);
    }
}

/// A negation chain: `!` binds tighter than both boolean operators and
/// may stack.
pub open spec fn spec_parse_sf_not(s: Seq<u8>, pos: int) -> Option<(SubfieldExpr, int)>
    decreases s.len() - pos, 1int,
    via spec_parse_sf_not_dec
{
    if 0 <= pos <= s.len() {
        let p = spec_skip_ws(s, pos);
        if p < s.len() && s[p] == 33 && !(p + 1 < s.len() && s[p + 1] == 61) {
            match spec_parse_sf_not(s, p + 1) {
                Some((e, p2)) => Some((SubfieldExpr::Not { inner: Box::new(e) }, p2)),
                None => None,
            }
        } else {
            spec_parse_sf_atom(s, pos)
        }
    } else {
        None
    }
}

#[via_fn]
proof fn spec_parse_sf_not_dec(s: Seq<u8>, pos: int) {
    if 0 <= pos <= s.len() {
        lemma_skip_ws_bounds(s, pos);
    }
}

/// The left-folded continuation of an `&&` chain.
pub open spec fn spec_parse_sf_and_tail(s: Seq<u8>, pos: int, acc: SubfieldExpr) -> Option<
    (SubfieldExpr, int),
>
    decreases s.len() - pos, 2int,
    via spec_parse_sf_and_tail_dec
{
    if 0 <= pos <= s.len() {
        let q = spec_skip_ws(s, pos);
        if q + 2 <= s.len() && s[q] == 38 && s[q + 1] == 38 {
            match spec_parse_sf_not(s, q + 2) {
                Some((r, p2)) => if q + 2 <= p2 <= s.len() {
                    spec_parse_sf_and_tail(
                        s,
                        p2,
                        SubfieldExpr::Composite {
                            lhs: Box::new(acc),
                            op: BooleanOp::And,
                            rhs: Box::new(r),
                        },
                    )
                } else {
                    None
                },
                None => None,
            }
        } else {
            Some((acc, pos))
        }
    } else {
        Some((acc, pos))
    }
}

#[via_fn]
proof fn spec_parse_sf_and_tail_dec(s: Seq<u8>, pos: int, acc: SubfieldExpr) {
    if 0 <= pos <= s.len() {
        lemma_skip_ws_bounds(s, pos);
    }
}

/// An `&&` chain, folded left-associatively.
pub open spec fn spec_parse_sf_and(s: Seq<u8>, pos: int) -> Option<(SubfieldExpr, int)>
    decreases s.len() - pos, 3int,
{
    match spec_parse_sf_not(s, pos) {
        Some((l, p)) => if pos <= p <= s.len() {
            spec_parse_sf_and_tail(s, p, l)
        } else {
            None
        },
        None => None,
    }
}

/// The left-folded continuation of an `||` chain.
pub open spec fn spec_parse_sf_or_tail(s: Seq<u8>, pos: int, acc: SubfieldExpr) -> Option<
    (SubfieldExpr, int),
>
    decreases s.len() - pos, 4int,
    via spec_parse_sf_or_tail_dec
{
    if 0 <= pos <= s.len() {
        let q = spec_skip_ws(s, pos);
        if q + 2 <= s.len() && s[q] == 124 && s[q + 1] == 124 {
            match spec_parse_sf_and(s, q + 2) {
                Some((r, p2)) => if q + 2 <= p2 <= s.len() {
                    spec_parse_sf_or_tail(
                        s,
                        p2,
                        SubfieldExpr::Composite {
                            lhs: Box::new(acc),
                            op: BooleanOp::Or,
                            rhs: Box::new(r),
                        },
                    )
                } else {
                    None
                },
                None => None,
            }
        } else {
            Some((acc, pos))
        }
    } else {
        Some((acc, pos))
    }
}

#[via_fn]
proof fn spec_parse_sf_or_tail_dec(s: Seq<u8>, pos: int, acc: SubfieldExpr) {
    if 0 <= pos <= s.len() {
        lemma_skip_ws_bounds(s, pos);
    }
}

/// An `||` chain: AND binds tighter than OR.
pub open spec fn spec_parse_sf_or(s: Seq<u8>, pos: int) -> Option<(SubfieldExpr, int)>
    decreases s.len() - pos, 5int,
{
    match spec_parse_sf_and(s, pos) {
        Some((l, p)) => if pos <= p <= s.len() {
            spec_parse_sf_or_tail(s, p, l)
        } else {
            None
        },
        None => None,
    }
}

/// The anchored subfield grammar: the whole input, up to surrounding
/// whitespace, must be one expression.
pub open spec fn spec_parse_subfield_matcher(s: Seq<u8>) -> Option<SubfieldExpr> {
    match spec_parse_sf_or(s, 0) {
        Some((e, p)) => if spec_skip_ws(s, p) == s.len() {
            Some(e)
        } else {
            None
        },
        None => None,
    }
}

/// Anchor a sub-parser: only trailing whitespace may follow it.
pub open spec fn spec_anchored(r: Option<(SubfieldExpr, int)>, s: Seq<u8>) -> Option<
    SubfieldExpr,
> {
    match r {
        Some((e, p)) => if spec_skip_ws(s, p) == s.len() {
            Some(e)
        } else {
            None
        },
        None => None,
    }
}

/// A leaf-level anchored parse: leading whitespace, one leaf parsed by
/// `leaf`, trailing whitespace, end of input.
pub open spec fn spec_parse_exists_matcher(s: Seq<u8>) -> Option<SubfieldExpr> {
    spec_anchored(spec_parse_exists(s, spec_skip_ws(s, 0)), s)
}

pub open spec fn spec_parse_relation_matcher(s: Seq<u8>) -> Option<SubfieldExpr> {
    spec_anchored(spec_parse_relation(s, spec_skip_ws(s, 0)), s)
}

pub open spec fn spec_parse_regex_matcher(s: Seq<u8>) -> Option<SubfieldExpr> {
    spec_anchored(spec_parse_regex(s, spec_skip_ws(s, 0)), s)
}

pub open spec fn spec_parse_in_matcher(s: Seq<u8>) -> Option<SubfieldExpr> {
    spec_anchored(spec_parse_in(s, spec_skip_ws(s, 0)), s)
}

pub open spec fn spec_parse_cardinality_matcher(s: Seq<u8>) -> Option<SubfieldExpr> {
    spec_anchored(spec_parse_cardinality(s, spec_skip_ws(s, 0)), s)
}

/// Decide a string comparison between a subfield value and a literal.
fn str_op_match(op: RelationalOp, value: &Vec<u8>, lit: &Vec<u8>, o: &MatcherOptions) -> (r: bool)
    ensures
        r == str_op_eval(op, value@, lit@, *o),
{
    let v = fold_vec(value, o.case_ignore);
    let l = fold_vec(lit, o.case_ignore);
    match op {
        RelationalOp::Eq => bytes_eq(&v, &l),
        RelationalOp::Ne => !bytes_eq(&v, &l),
        RelationalOp::StartsWith => bytes_prefix(&l, &v),
        RelationalOp::EndsWith => bytes_suffix(&l, &v),
        RelationalOp::Similar => similar(&v, &l, o.strsim_threshold),
        _ => false,
    }
}

/// Decide whether a value equals, after case folding, one of the
/// literals.
fn value_in_list(value: &Vec<u8>, values: &Vec<Vec<u8>>, ci: bool) -> (r: bool)
    ensures
        r == in_values(value@, values.deep_view(), ci),
{
    let folded = fold_vec(value, ci);
    let mut j: usize = 0;
    while j < values.len()
        invariant
            0 <= j <= values.len(),
            folded@ == fold_bytes(value@, ci),
            forall|k: int|
                0 <= k < j ==> fold_bytes(value@, ci) != fold_bytes(
                    values.deep_view()[k],
                    ci,
                ),
        decreases values.len() - j,
    {
        let fv = fold_vec(&values[j], ci);
        if bytes_eq(&folded, &fv) {
            proof {
                assert(values.deep_view()[j as int] == values@[j as int]@);
            }
            return true;
        }
        proof {
            assert(values.deep_view()[j as int] == values@[j as int]@);
        }
        j = j + 1;
    }
    false
}

/// Decide a numeric comparison between two counts.
fn num_op_holds(op: RelationalOp, lhs: usize, rhs: usize) -> (r: bool)
    ensures
        r == num_op_eval(op, lhs as nat, rhs as nat),
{
    match op {
        RelationalOp::Eq => lhs == rhs,
        RelationalOp::Ne => lhs != rhs,
        RelationalOp::Gt => lhs > rhs,
        RelationalOp::Ge => lhs >= rhs,
        RelationalOp::Lt => lhs < rhs,
        RelationalOp::Le => lhs <= rhs,
        _ => false,
    }
}

/// Parse a code set: a single code or a bracketed class.
fn parse_codes(s: &Vec<u8>, pos: usize) -> (r: Option<(Vec<u8>, usize)>)
    requires
        pos <= s.len(),
    ensures
        match r {
            Some(v) => spec_parse_codes(s@, pos as int) == Some((v.0@, v.1 as int)) && pos < v.1
                <= s.len(),
            None => spec_parse_codes(s@, pos as int) is None,
        },
{
    if pos < s.len() && code_byte_ok(s[pos]) {
        let mut v: Vec<u8> = Vec::new();
        v.push(s[pos]);
        proof {
            assert(v@ =~= seq![s@[pos as int]]);
        }
        return Some((v, pos + 1));
    }
    if pos < s.len() && s[pos] == 91 {
        let ghost start = pos + 1;
        let mut v: Vec<u8> = Vec::new();
        let mut i: usize = pos + 1;
        proof {
            assert(Seq::<u8>::empty() + spec_parse_code_run(s@, start).0 =~= spec_parse_code_run(
                s@,
                start,
            ).0);
        }
        while i < s.len() && code_byte_ok(s[i])
            invariant
                start == pos + 1,
                pos + 1 <= i <= s.len(),
                spec_parse_code_run(s@, start) == (
                    v@ + spec_parse_code_run(s@, i as int).0,
                    spec_parse_code_run(s@, i as int).1,
                ),
            decreases s.len() - i,
        {
            proof {
                let rec = spec_parse_code_run(s@, i + 1);
                assert(v@.push(s@[i as int]) + rec.0 =~= v@ + (seq![s@[i as int]] + rec.0));
            }
            v.push(s[i]);
            i = i + 1;
        }
        proof {
            assert(spec_parse_code_run(s@, i as int) == (Seq::<u8>::empty(), i as int));
            assert(v@ + Seq::<u8>::empty() =~= v@);
        }
        if v.len() >= 1 && i < s.len() && s[i] == 93 {
            return Some((v, i + 1));
        }
        return None;
    }
    None
}

/// The value of a longer digit string is no smaller.
proof fn lemma_digits_val_nonneg(ds: Seq<u8>)
    requires
        forall|k: int| 0 <= k < ds.len() ==> 48 <= #[trigger] ds[k] <= 57,
    ensures
        digits_val(ds) >= 0,
    decreases ds.len(),
{
    if ds.len() > 0 {
        lemma_digits_val_nonneg(ds.drop_last());
    }
}

/// Parse a decimal count.
pub(crate) fn parse_count(s: &Vec<u8>, pos: usize) -> (r: Option<(usize, usize)>)
    requires
        pos <= s.len(),
    ensures
        match r {
            Some(v) => spec_parse_count(s@, pos as int) == Some((v.0, v.1 as int)) && pos < v.1
                <= s.len(),
            None => spec_parse_count(s@, pos as int) is None,
        },
{
    let mut acc: u128 = 0;
    let mut i: usize = pos;
    let max: u128 = usize::MAX as u128;
    proof {
        assert(Seq::<u8>::empty() + spec_parse_digit_run(s@, pos as int).0
            =~= spec_parse_digit_run(s@, pos as int).0);
        assert(s@.subrange(pos as int, pos as int) =~= Seq::<u8>::empty());
        assert(digits_val(s@.subrange(pos as int, pos as int)) == 0);
    }
    while i < s.len() && 48 <= s[i] && s[i] <= 57
        invariant
            pos <= i <= s.len(),
            max == usize::MAX as u128,
            spec_parse_digit_run(s@, pos as int) == (
                s@.subrange(pos as int, i as int) + spec_parse_digit_run(s@, i as int).0,
                spec_parse_digit_run(s@, i as int).1,
            ),
            forall|k: int| pos <= k < i ==> 48 <= #[trigger] s@[k] <= 57,
            digits_val(s@.subrange(pos as int, i as int)) <= usize::MAX ==> acc == digits_val(
                s@.subrange(pos as int, i as int),
            ),
            digits_val(s@.subrange(pos as int, i as int)) > usize::MAX ==> acc > max,
            acc <= max * 10 + 9,
        decreases s.len() - i,
    {
        let d = s[i];
        proof {
            let cur = s@.subrange(pos as int, i as int);
            let nxt = s@.subrange(pos as int, i + 1);
            assert(nxt.drop_last() =~= cur);
            assert(nxt.last() == s@[i as int]);
            lemma_digits_val_nonneg(cur);
            let rec = spec_parse_digit_run(s@, i + 1);
            assert(cur.push(s@[i as int]) + rec.0 =~= cur + (seq![s@[i as int]] + rec.0));
            assert(nxt =~= cur.push(s@[i as int]));
        }
        if acc <= max {
            acc = acc * 10 + ((d - 48) as u128);
        }
        i = i + 1;
    }
    proof {
        assert(spec_parse_digit_run(s@, i as int) == (Seq::<u8>::empty(), i as int));
        assert(s@.subrange(pos as int, i as int) + Seq::<u8>::empty() =~= s@.subrange(
            pos as int,
            i as int,
        ));
    }
    if i == pos {
        return None;
    }
    if acc > max {
        return None;
    }
    Some((acc as usize, i))
}

/// True iff any subfield of the collection has a code in the matcher's
/// code set.  Surface syntax: `<code-or-class>?`.
#[derive(Debug, Clone, PartialEq, Eq)]
pub struct ExistsMatcher {
    pub codes: Vec<u8>,
}

impl View for ExistsMatcher {
    type V = SubfieldExpr;

    open spec fn view(&self) -> SubfieldExpr {
        SubfieldExpr::Exists { codes: self.codes@ }
    }
}

impl ExistsMatcher {
    /// Evaluate the matcher against a collection of subfields.
    pub fn is_match(&self, subfields: &Vec<Subfield>, options: &MatcherOptions) -> (r: bool)
        ensures
            r == sf_eval(self@, subfields@, *options),
    {
        let mut i: usize = 0;
        while i < subfields.len()
            invariant
                0 <= i <= subfields.len(),
                forall|k: int| 0 <= k < i ==> !self.codes@.contains(#[trigger] subfields@[k].code),
            decreases subfields.len() - i,
        {
            if contains_code(&self.codes, subfields[i].code) {
                return true;
            }
            i = i + 1;
        }
        false
    }
}

/// True iff any subfield with a code in the code set has a value that
/// satisfies the relational operator against the literal.
#[derive(Debug, Clone, PartialEq, Eq)]
pub struct RelationMatcher {
    pub codes: Vec<u8>,
    pub op: RelationalOp,
    pub value: Vec<u8>,
}

impl View for RelationMatcher {
    type V = SubfieldExpr;

    open spec fn view(&self) -> SubfieldExpr {
        SubfieldExpr::Relation { codes: self.codes@, op: self.op, value: self.value@ }
    }
}

impl RelationMatcher {
    /// Evaluate the matcher against a collection of subfields.
    pub fn is_match(&self, subfields: &Vec<Subfield>, options: &MatcherOptions) -> (r: bool)
        ensures
            r == sf_eval(self@, subfields@, *options),
    {
        let mut i: usize = 0;
        while i < subfields.len()
            invariant
                0 <= i <= subfields.len(),
                forall|k: int|
                    0 <= k < i ==> !(self.codes@.contains(#[trigger] subfields@[k].code)
                        && str_op_eval(self.op, subfields@[k].value@, self.value@, *options)),
            decreases subfields.len() - i,
        {
            if contains_code(&self.codes, subfields[i].code) && str_op_match(
                self.op,
                &subfields[i].value,
                &self.value,
                options,
            ) {
                return true;
            }
            i = i + 1;
        }
        false
    }
}

/// True iff any subfield with a code in the code set has a value the
/// regular expression matches; the invert flag (`!~`) negates the
/// per-subfield test before the existential OR.
#[derive(Debug, Clone, PartialEq, Eq)]
pub struct RegexMatcher {
    pub codes: Vec<u8>,
    pub pattern: Vec<u8>,
    pub invert: bool,
}

impl View for RegexMatcher {
    type V = SubfieldExpr;

    open spec fn view(&self) -> SubfieldExpr {
        SubfieldExpr::Regex { codes: self.codes@, pattern: self.pattern@, invert: self.invert }
    }
}

impl RegexMatcher {
    /// Evaluate the matcher against a collection of subfields.
    pub fn is_match(&self, subfields: &Vec<Subfield>, options: &MatcherOptions) -> (r: bool)
        ensures
            r == sf_eval(self@, subfields@, *options),
    {
        let mut i: usize = 0;
        while i < subfields.len()
            invariant
                0 <= i <= subfields.len(),
                forall|k: int|
                    0 <= k < i ==> !(self.codes@.contains(#[trigger] subfields@[k].code) && (
                    regex_match(self.pattern@, subfields@[k].value@, options.case_ignore)
                        != self.invert)),
            decreases subfields.len() - i,
    {
            if contains_code(&self.codes, subfields[i].code) {
                let m = regex_is_match(&self.pattern, &subfields[i].value, options.case_ignore);
                if m != self.invert {
                    return true;
                }
            }
            i = i + 1;
        }
        false
    }
}

/// True iff any subfield with a code in the code set has a value equal,
/// after case folding, to one of a set of literals; `not in` negates the
/// per-subfield test before the existential OR.
#[derive(Debug, Clone, PartialEq, Eq)]
pub struct InMatcher {
    pub codes: Vec<u8>,
    pub values: Vec<Vec<u8>>,
    pub invert: bool,
}

impl View for InMatcher {
    type V = SubfieldExpr;

    open spec fn view(&self) -> SubfieldExpr {
        SubfieldExpr::In {
            codes: self.codes@,
            values: self.values.deep_view(),
            invert: self.invert,
        }
    }
}

impl InMatcher {
    /// Evaluate the matcher against a collection of subfields.
    pub fn is_match(&self, subfields: &Vec<Subfield>, options: &MatcherOptions) -> (r: bool)
        ensures
            r == sf_eval(self@, subfields@, *options),
    {
        let mut i: usize = 0;
        while i < subfields.len()
            invariant
                0 <= i <= subfields.len(),
                forall|k: int|
                    0 <= k < i ==> !(self.codes@.contains(#[trigger] subfields@[k].code) && (
                    in_values(subfields@[k].value@, self.values.deep_view(), options.case_ignore)
                        != self.invert)),
            decreases subfields.len() - i,
        {
            if contains_code(&self.codes, subfields[i].code) {
                let m = value_in_list(&subfields[i].value, &self.values, options.case_ignore);
                if m != self.invert {
                    return true;
                }
            }
            i = i + 1;
        }
        false
    }
}

/// True iff the count of subfields whose code equals the matcher's code
/// satisfies the numeric comparison; independent of case folding.
#[derive(Debug, Clone, PartialEq, Eq)]
pub struct CardinalityMatcher {
    pub code: u8,
    pub op: RelationalOp,
    pub count: usize,
}

impl View for CardinalityMatcher {
    type V = SubfieldExpr;

    open spec fn view(&self) -> SubfieldExpr {
        SubfieldExpr::Cardinality { code: self.code, op: self.op, count: self.count }
    }
}

impl CardinalityMatcher {
    /// Evaluate the matcher against a collection of subfields.
    pub fn is_match(&self, subfields: &Vec<Subfield>, options: &MatcherOptions) -> (r: bool)
        ensures
            r == sf_eval(self@, subfields@, *options),
    {
        let n = count_code_of(subfields, self.code);
        num_op_holds(self.op, n, self.count)
    }
}

/// Parse an existence leaf.
fn parse_exists_m(s: &Vec<u8>, pos: usize) -> (r: Option<(ExistsMatcher, usize)>)
    requires
        pos <= s.len(),
    ensures
        match r {
            Some(v) => spec_parse_exists(s@, pos as int) == Some((v.0@, v.1 as int)) && pos < v.1
                <= s.len(),
            None => spec_parse_exists(s@, pos as int) is None,
        },
{
    match parse_codes(s, pos) {
        Some((codes, p)) => {
            if p < s.len() && s[p] == 63 {
                Some((ExistsMatcher { codes }, p + 1))
            } else {
                None
            }
        },
        None => None,
    }
}

/// Parse a relation leaf.
fn parse_relation_m(s: &Vec<u8>, pos: usize) -> (r: Option<(RelationMatcher, usize)>)
    requires
        pos <= s.len(),
    ensures
        match r {
            Some(v) => spec_parse_relation(s@, pos as int) == Some((v.0@, v.1 as int)) && pos
                < v.1 <= s.len(),
            None => spec_parse_relation(s@, pos as int) is None,
        },
{
    match parse_codes(s, pos) {
        Some((codes, p)) => {
            let p1 = skip_ws(s, p);
            match parse_relational_op_str(s, p1) {
                Some((op, p2)) => {
                    let p3 = skip_ws(s, p2);
                    match parse_string(s, p3) {
                        Some((value, p4)) => Some((RelationMatcher { codes, op, value }, p4)),
                        None => None,
                    }
                },
                None => None,
            }
        },
        None => None,
    }
}

/// Parse a regex leaf; the pattern must compile.
fn parse_regex_m(s: &Vec<u8>, pos: usize) -> (r: Option<(RegexMatcher, usize)>)
    requires
        pos <= s.len(),
    ensures
        match r {
            Some(v) => spec_parse_regex(s@, pos as int) == Some((v.0@, v.1 as int)) && pos < v.1
                <= s.len(),
            None => spec_parse_regex(s@, pos as int) is None,
        },
{
    match parse_codes(s, pos) {
        Some((codes, p)) => {
            let p1 = skip_ws(s, p);
            if s.len() - p1 >= 2 && s[p1 + 1] == 126 && (s[p1] == 61 || s[p1] == 33) {
                let invert = s[p1] == 33;
                let p2 = skip_ws(s, p1 + 2);
                match parse_string(s, p2) {
                    Some((pattern, p3)) => {
                        if regex_pattern_ok(&pattern) {
                            Some((RegexMatcher { codes, pattern, invert }, p3))
                        } else {
                            None
                        }
                    },
                    None => None,
                }
            } else {
                None
            }
        },
        None => None,
    }
}

/// Parse a membership leaf.
#[verifier::loop_isolation(false)]
fn parse_in_m(s: &Vec<u8>, pos: usize) -> (r: Option<(InMatcher, usize)>)
    requires
        pos <= s.len(),
    ensures
        match r {
            Some(v) => spec_parse_in(s@, pos as int) == Some((v.0@, v.1 as int)) && pos < v.1
                <= s.len(),
            None => spec_parse_in(s@, pos as int) is None,
        },
{
    match parse_codes(s, pos) {
        Some((codes, p)) => {
            let p1 = skip_ws(s, p);
            let invert = s.len() - p1 >= 3 && s[p1] == 110 && s[p1 + 1] == 111 && s[p1 + 2]
                == 116;
            let p2 = if invert {
                skip_ws(s, p1 + 3)
            } else {
                p1
            };
            if !(s.len() - p2 >= 2 && s[p2] == 105 && s[p2 + 1] == 110) {
                return None;
            }
            let p3 = skip_ws(s, p2 + 2);
            if !(p3 < s.len() && s[p3] == 91) {
                return None;
            }
            let p4 = skip_ws(s, p3 + 1);
            match parse_string(s, p4) {
                Some((first, p5)) => {
                    let ghost tail_start = p5 as int;
                    let ghost first_val = first@;
                    let mut values: Vec<Vec<u8>> = Vec::new();
                    values.push(first);
                    let mut cur: usize = p5;
                    proof {
                        assert(values.deep_view() =~~= seq![first_val]);
                        assert(values.deep_view().skip(1) =~~= Seq::<Seq<u8>>::empty());
                        let r0 = spec_parse_in_tail(s@, tail_start);
                        if r0 is Some {
                            assert(values.deep_view().skip(1) + (r0->0).0 =~~= (r0->0).0);
                        }
                    }
                    let mut done: bool = false;
                    while !done
                        invariant
                            pos < p5 <= cur <= s.len(),
                            values.deep_view().len() >= 1,
                            values.deep_view()[0] == first_val,
                            spec_parse_in_tail(s@, tail_start) == match spec_parse_in_tail(
                                s@,
                                cur as int,
                            ) {
                                Some((vs, q)) => Some((values.deep_view().skip(1) + vs, q)),
                                None => None::<(Seq<Seq<u8>>, int)>,
                            },
                            done ==> spec_parse_in_tail(s@, cur as int) == Some(
                                (Seq::<Seq<u8>>::empty(), cur as int),
                            ),
                        decreases s@.len() - cur, (if done { 0int } else { 1int }),
                    {
                        let q = skip_ws(s, cur);
                        if q < s.len() && s[q] == 44 {
                            let p6 = skip_ws(s, q + 1);
                            match parse_string(s, p6) {
                                Some((v, p7)) => {
                                    let ghost prev = values.deep_view();
                                    proof {
                                        let rec = spec_parse_in_tail(s@, p7 as int);
                                        if rec is Some {
                                            assert(prev.skip(1).push(v@) + (rec->0).0 =~~= prev
                                                .skip(1) + (seq![v@] + (rec->0).0));
                                        }
                                    }
                                    values.push(v);
                                    proof {
                                        assert(values.deep_view() =~~= prev.push(v@));
                                        assert(values.deep_view().skip(1) =~~= prev.skip(1).push(
                                            v@,
                                        ));
                                    }
                                    cur = p7;
                                },
                                None => {
                                    return None;
                                },
                            }
                        } else {
                            done = true;
                        }
                    }
                    proof {
                        assert(values.deep_view().skip(1) + Seq::<Seq<u8>>::empty() =~~= values
                            .deep_view().skip(1));
                        assert(seq![first_val] + values.deep_view().skip(1) =~~= values
                            .deep_view());
                    }
                    let p8 = skip_ws(s, cur);
                    if p8 < s.len() && s[p8] == 93 {
                        Some((InMatcher { codes, values, invert }, p8 + 1))
                    } else {
                        None
                    }
                },
                None => None,
            }
        },
        None => None,
    }
}

/// Parse a cardinality leaf.
fn parse_cardinality_m(s: &Vec<u8>, pos: usize) -> (r: Option<(CardinalityMatcher, usize)>)
    requires
        pos <= s.len(),
    ensures
        match r {
            Some(v) => spec_parse_cardinality(s@, pos as int) == Some((v.0@, v.1 as int)) && pos
                < v.1 <= s.len(),
            None => spec_parse_cardinality(s@, pos as int) is None,
        },
{
    if s.len() - pos >= 2 && s[pos] == 35 && code_byte_ok(s[pos + 1]) {
        let code = s[pos + 1];
        let p1 = skip_ws(s, pos + 2);
        match parse_relational_op_usize(s, p1) {
            Some((op, p2)) => {
                let p3 = skip_ws(s, p2);
                match parse_count(s, p3) {
                    Some((count, p4)) => Some((CardinalityMatcher { code, op, count }, p4)),
                    None => None,
                }
            },
            None => None,
        }
    } else {
        None
    }
}

/// A subfield expression tree: one of the five leaves, or a boolean
/// combination.
#[derive(Debug)]
pub enum SubfieldMatcher {
    Exists(ExistsMatcher),
    Relation(RelationMatcher),
    Regex(RegexMatcher),
    In(InMatcher),
    Cardinality(CardinalityMatcher),
    Composite { lhs: Box<SubfieldMatcher>, op: BooleanOp, rhs: Box<SubfieldMatcher> },
    Not(Box<SubfieldMatcher>),
}

/// The model of a subfield matcher tree.
pub open spec fn sf_model(m: SubfieldMatcher) -> SubfieldExpr
    decreases m,
{
    match m {
        SubfieldMatcher::Exists(x) => x@,
        SubfieldMatcher::Relation(x) => x@,
        SubfieldMatcher::Regex(x) => x@,
        SubfieldMatcher::In(x) => x@,
        SubfieldMatcher::Cardinality(x) => x@,
        SubfieldMatcher::Composite { lhs, op, rhs } => SubfieldExpr::Composite {
            lhs: Box::new(sf_model(*lhs)),
            op,
            rhs: Box::new(sf_model(*rhs)),
        },
        SubfieldMatcher::Not(inner) => SubfieldExpr::Not { inner: Box::new(sf_model(*inner)) },
    }
}

impl View for SubfieldMatcher {
    type V = SubfieldExpr;

    open spec fn view(&self) -> SubfieldExpr {
        sf_model(*self)
    }
}

/// Parse a leaf, trying the five alternatives in the grammar's order.
fn parse_leaf_m(s: &Vec<u8>, pos: usize) -> (r: Option<(SubfieldMatcher, usize)>)
    requires
        pos <= s.len(),
    ensures
        match r {
            Some(v) => spec_parse_leaf(s@, pos as int) == Some((v.0@, v.1 as int)) && pos < v.1
                <= s.len(),
            None => spec_parse_leaf(s@, pos as int) is None,
        },
{
    match parse_exists_m(s, pos) {
        Some((m, p)) => {
            return Some((SubfieldMatcher::Exists(m), p));
        },
        None => {},
    }
    match parse_relation_m(s, pos) {
        Some((m, p)) => {
            return Some((SubfieldMatcher::Relation(m), p));
        },
        None => {},
    }
    match parse_regex_m(s, pos) {
        Some((m, p)) => {
            return Some((SubfieldMatcher::Regex(m), p));
        },
        None => {},
    }
    match parse_in_m(s, pos) {
        Some((m, p)) => {
            return Some((SubfieldMatcher::In(m), p));
        },
        None => {},
    }
    match parse_cardinality_m(s, pos) {
        Some((m, p)) => {
            return Some((SubfieldMatcher::Cardinality(m), p));
        },
        None => {},
    }
    None
}

/// Parse an atom: a parenthesised sub-expression or a leaf.
fn parse_sf_atom(s: &Vec<u8>, pos: usize) -> (r: Option<(SubfieldMatcher, usize)>)
    requires
        pos <= s.len(),
    ensures
        match r {
            Some(v) => spec_parse_sf_atom(s@, pos as int) == Some((v.0@, v.1 as int)) && pos
                <= v.1 <= s.len(),
            None => spec_parse_sf_atom(s@, pos as int) is None,
        },
    decreases s@.len() - pos, 0int,
{
    let p = skip_ws(s, pos);
    if p < s.len() && s[p] == 40 {
        match parse_sf_or(s, p + 1) {
            Some((e, p2)) => {
                let p3 = skip_ws(s, p2);
                if p3 < s.len() && s[p3] == 41 {
                    Some((e, p3 + 1))
                } else {
                    None
                }
            },
            None => None,
        }
    } else {
        parse_leaf_m(s, p)
    }
}

/// Parse a negation chain.
fn parse_sf_not(s: &Vec<u8>, pos: usize) -> (r: Option<(SubfieldMatcher, usize)>)
    requires
        pos <= s.len(),
    ensures
        match r {
            Some(v) => spec_parse_sf_not(s@, pos as int) == Some((v.0@, v.1 as int)) && pos
                <= v.1 <= s.len(),
            None => spec_parse_sf_not(s@, pos as int) is None,
        },
    decreases s@.len() - pos, 1int,
{
    let p = skip_ws(s, pos);
    if p < s.len() && s[p] == 33 && !(p + 1 < s.len() && s[p + 1] == 61) {
        match parse_sf_not(s, p + 1) {
            Some((e, p2)) => Some((SubfieldMatcher::Not(Box::new(e)), p2)),
            None => None,
        }
    } else {
        parse_sf_atom(s, pos)
    }
}

/// Parse an `&&` chain, folding left-associatively.
#[verifier::loop_isolation(false)]
fn parse_sf_and(s: &Vec<u8>, pos: usize) -> (r: Option<(SubfieldMatcher, usize)>)
    requires
        pos <= s.len(),
    ensures
        match r {
            Some(v) => spec_parse_sf_and(s@, pos as int) == Some((v.0@, v.1 as int)) && pos
                <= v.1 <= s.len(),
            None => spec_parse_sf_and(s@, pos as int) is None,
        },
    decreases s@.len() - pos, 3int,
{
    match parse_sf_not(s, pos) {
        Some((l, p)) => {
            let mut acc = l;
            let mut cur: usize = p;
            let mut done: bool = false;
            while !done
                invariant
                    pos <= cur <= s.len(),
                    spec_parse_sf_and(s@, pos as int) == spec_parse_sf_and_tail(
                        s@,
                        cur as int,
                        acc@,
                    ),
                    done ==> spec_parse_sf_and_tail(s@, cur as int, acc@) == Some(
                        (acc@, cur as int),
                    ),
                decreases s@.len() - cur, (if done { 0int } else { 1int }),
            {
                let q = skip_ws(s, cur);
                if s.len() - q >= 2 && s[q] == 38 && s[q + 1] == 38 {
                    match parse_sf_not(s, q + 2) {
                        Some((rm, p2)) => {
                            acc = SubfieldMatcher::Composite {
                                lhs: Box::new(acc),
                                op: BooleanOp::And,
                                rhs: Box::new(rm),
                            };
                            cur = p2;
                        },
                        None => {
                            return None;
                        },
                    }
                } else {
                    done = true;
                }
            }
            Some((acc, cur))
        },
        None => None,
    }
}

/// Parse an `||` chain, folding left-associatively.
#[verifier::loop_isolation(false)]
pub(crate) fn parse_sf_or(s: &Vec<u8>, pos: usize) -> (r: Option<(SubfieldMatcher, usize)>)
    requires
        pos <= s.len(),
    ensures
        match r {
            Some(v) => spec_parse_sf_or(s@, pos as int) == Some((v.0@, v.1 as int)) && pos <= v.1
                <= s.len(),
            None => spec_parse_sf_or(s@, pos as int) is None,
        },
    decreases s@.len() - pos, 5int,
{
    match parse_sf_and(s, pos) {
        Some((l, p)) => {
            let mut acc = l;
            let mut cur: usize = p;
            let mut done: bool = false;
            while !done
                invariant
                    pos <= cur <= s.len(),
                    spec_parse_sf_or(s@, pos as int) == spec_parse_sf_or_tail(
                        s@,
                        cur as int,
                        acc@,
                    ),
                    done ==> spec_parse_sf_or_tail(s@, cur as int, acc@) == Some(
                        (acc@, cur as int),
                    ),
                decreases s@.len() - cur, (if done { 0int } else { 1int }),
            {
                let q = skip_ws(s, cur);
                if s.len() - q >= 2 && s[q] == 124 && s[q + 1] == 124 {
                    match parse_sf_and(s, q + 2) {
                        Some((rm, p2)) => {
                            acc = SubfieldMatcher::Composite {
                                lhs: Box::new(acc),
                                op: BooleanOp::Or,
                                rhs: Box::new(rm),
                            };
                            cur = p2;
                        },
                        None => {
                            return None;
                        },
                    }
                } else {
                    done = true;
                }
            }
            Some((acc, cur))
        },
        None => None,
    }
}

impl SubfieldMatcher {
    /// Evaluate the expression tree against a collection of subfields;
    /// each child re-examines the same collection.
    pub fn is_match(&self, subfields: &Vec<Subfield>, options: &MatcherOptions) -> (r: bool)
        ensures
            r == sf_eval(self@, subfields@, *options),
        decreases *self,
    {
        match self {
            SubfieldMatcher::Exists(m) => m.is_match(subfields, options),
            SubfieldMatcher::Relation(m) => m.is_match(subfields, options),
            SubfieldMatcher::Regex(m) => m.is_match(subfields, options),
            SubfieldMatcher::In(m) => m.is_match(subfields, options),
            SubfieldMatcher::Cardinality(m) => m.is_match(subfields, options),
            SubfieldMatcher::Composite { lhs, op, rhs } => match op {
                BooleanOp::And => lhs.is_match(subfields, options) && rhs.is_match(
                    subfields,
                    options,
                ),
                BooleanOp::Or => lhs.is_match(subfields, options) || rhs.is_match(
                    subfields,
                    options,
                ),
            },
            SubfieldMatcher::Not(inner) => !inner.is_match(subfields, options),
        }
    }
}

impl ExistsMatcher {
    /// Compile an existence matcher from its textual form; the whole
    /// input, up to surrounding whitespace, must be one existence leaf.
    pub fn new(data: &str) -> (r: Result<ExistsMatcher, ParseMatcherError>)
        ensures
            match r {
                Ok(m) => spec_parse_exists_matcher(data.spec_bytes()) == Some(m@),
                Err(e) => spec_parse_exists_matcher(data.spec_bytes()) is None && match e {
                    ParseMatcherError::InvalidSubfieldMatcher(t) => t@ == data@,
                    _ => false,
                },
            },
    {
        let bytes = data.as_bytes_vec();
        let p0 = skip_ws(&bytes, 0);
        match parse_exists_m(&bytes, p0) {
            Some((m, p)) => {
                let p2 = skip_ws(&bytes, p);
                if p2 == bytes.len() {
                    Ok(m)
                } else {
                    Err(ParseMatcherError::InvalidSubfieldMatcher(data.to_owned()))
                }
            },
            None => Err(ParseMatcherError::InvalidSubfieldMatcher(data.to_owned())),
        }
    }
}

impl RelationMatcher {
    /// Compile a relation matcher from its textual form.
    pub fn new(data: &str) -> (r: Result<RelationMatcher, ParseMatcherError>)
        ensures
            match r {
                Ok(m) => spec_parse_relation_matcher(data.spec_bytes()) == Some(m@),
                Err(e) => spec_parse_relation_matcher(data.spec_bytes()) is None && match e {
                    ParseMatcherError::InvalidSubfieldMatcher(t) => t@ == data@,
                    _ => false,
                },
            },
    {
        let bytes = data.as_bytes_vec();
        let p0 = skip_ws(&bytes, 0);
        match parse_relation_m(&bytes, p0) {
            Some((m, p)) => {
                let p2 = skip_ws(&bytes, p);
                if p2 == bytes.len() {
                    Ok(m)
                } else {
                    Err(ParseMatcherError::InvalidSubfieldMatcher(data.to_owned()))
                }
            },
            None => Err(ParseMatcherError::InvalidSubfieldMatcher(data.to_owned())),
        }
    }
}

impl RegexMatcher {
    /// Compile a regex matcher from its textual form; the pattern must
    /// compile as a regular expression.
    pub fn new(data: &str) -> (r: Result<RegexMatcher, ParseMatcherError>)
        ensures
            match r {
                Ok(m) => spec_parse_regex_matcher(data.spec_bytes()) == Some(m@),
                Err(e) => spec_parse_regex_matcher(data.spec_bytes()) is None && match e {
                    ParseMatcherError::InvalidSubfieldMatcher(t) => t@ == data@,
                    _ => false,
                },
            },
    {
        let bytes = data.as_bytes_vec();
        let p0 = skip_ws(&bytes, 0);
        match parse_regex_m(&bytes, p0) {
            Some((m, p)) => {
                let p2 = skip_ws(&bytes, p);
                if p2 == bytes.len() {
                    Ok(m)
                } else {
                    Err(ParseMatcherError::InvalidSubfieldMatcher(data.to_owned()))
                }
            },
            None => Err(ParseMatcherError::InvalidSubfieldMatcher(data.to_owned())),
        }
    }
}

impl InMatcher {
    /// Compile a membership matcher from its textual form.
    pub fn new(data: &str) -> (r: Result<InMatcher, ParseMatcherError>)
        ensures
            match r {
                Ok(m) => spec_parse_in_matcher(data.spec_bytes()) == Some(m@),
                Err(e) => spec_parse_in_matcher(data.spec_bytes()) is None && match e {
                    ParseMatcherError::InvalidSubfieldMatcher(t) => t@ == data@,
                    _ => false,
                },
            },
    {
        let bytes = data.as_bytes_vec();
        let p0 = skip_ws(&bytes, 0);
        match parse_in_m(&bytes, p0) {
            Some((m, p)) => {
                let p2 = skip_ws(&bytes, p);
                if p2 == bytes.len() {
                    Ok(m)
                } else {
                    Err(ParseMatcherError::InvalidSubfieldMatcher(data.to_owned()))
                }
            },
            None => Err(ParseMatcherError::InvalidSubfieldMatcher(data.to_owned())),
        }
    }
}

impl CardinalityMatcher {
    /// Compile a cardinality matcher from its textual form.
    pub fn new(data: &str) -> (r: Result<CardinalityMatcher, ParseMatcherError>)
        ensures
            match r {
                Ok(m) => spec_parse_cardinality_matcher(data.spec_bytes()) == Some(m@),
                Err(e) => spec_parse_cardinality_matcher(data.spec_bytes()) is None && match e {
                    ParseMatcherError::InvalidSubfieldMatcher(t) => t@ == data@,
                    _ => false,
                },
            },
    {
        let bytes = data.as_bytes_vec();
        let p0 = skip_ws(&bytes, 0);
        match parse_cardinality_m(&bytes, p0) {
            Some((m, p)) => {
                let p2 = skip_ws(&bytes, p);
                if p2 == bytes.len() {
                    Ok(m)
                } else {
                    Err(ParseMatcherError::InvalidSubfieldMatcher(data.to_owned()))
                }
            },
            None => Err(ParseMatcherError::InvalidSubfieldMatcher(data.to_owned())),
        }
    }
}

impl SubfieldMatcher {
    /// Compile a subfield expression from its textual form, accepting
    /// the full boolean grammar: OR of ANDs of possibly negated atoms.
    /// Parsing is anchored: the whole input must be consumed.
    pub fn new(data: &str) -> (r: Result<SubfieldMatcher, ParseMatcherError>)
        ensures
            match r {
                Ok(m) => spec_parse_subfield_matcher(data.spec_bytes()) == Some(m@),
                Err(e) => spec_parse_subfield_matcher(data.spec_bytes()) is None && match e {
                    ParseMatcherError::InvalidSubfieldMatcher(t) => t@ == data@,
                    _ => false,
                },
            },
    {
        let bytes = data.as_bytes_vec();
        match parse_sf_or(&bytes, 0) {
            Some((m, p)) => {
                let p2 = skip_ws(&bytes, p);
                if p2 == bytes.len() {
                    Ok(m)
                } else {
                    Err(ParseMatcherError::InvalidSubfieldMatcher(data.to_owned()))
                }
            },
            None => Err(ParseMatcherError::InvalidSubfieldMatcher(data.to_owned())),
        }
    }
}

/// Count the subfields carrying exactly this code.
fn count_code_of(subs: &Vec<Subfield>, code: u8) -> (r: usize)
    ensures
        r == count_code(subs@, code),
{
    let mut n: usize = 0;
    let mut i: usize = 0;
    while i < subs.len()
        invariant
            0 <= i <= subs.len(),
            n == count_code(subs@.take(i as int), code),
            n <= i,
        decreases subs.len() - i,
    {
        proof {
            assert(subs@.take(i + 1).drop_last() =~= subs@.take(i as int));
            assert(subs@.take(i + 1).last() == subs@[i as int]);
        }
        if subs[i].code == code {
            n = n + 1;
        }
        i = i + 1;
    }
    proof {
        assert(subs@.take(subs@.len() as int) =~= subs@);
    }
    n
}

} // verus!
