//! The legacy filter language: comparison and existence predicates
//! over paths, combined by `&&`/`||` in one flat left-folded level,
//! with grouping and negation.  Construction parses the whole input;
//! trailing text is a failure.

use vstd::prelude::*;
use vstd::string::{StrSliceExecFns, StringSliceAdditionalSpecFns};
use crate::common::{lemma_skip_ws_bounds, parse_string, skip_ws, spec_parse_string,
    spec_skip_ws};
use crate::error::ParsePicaError;
use crate::path::{parse_path, spec_parse_path, Path, PathModel};

verus! {

/// Comparison operators of the legacy filter language.
#[derive(Debug, Clone, Copy, PartialEq, Eq, Structural)]
pub enum ComparisonOp {
    Eq,
    Ne,
    Re,
    StartsWith,
    EndsWith,
}

/// Boolean operators of the legacy filter language; both bind equally
/// and fold left-associatively.
#[derive(Debug, Clone, Copy, PartialEq, Eq, Structural)]
pub enum BooleanOp {
    And,
    Or,
}

/// The mathematical model of a filter expression.
pub enum FilterModel {
    Comparison(PathModel, ComparisonOp, Seq<u8>),
    Existence(PathModel),
    Boolean(Box<FilterModel>, BooleanOp, Box<FilterModel>),
    Grouped(Box<FilterModel>),
    Not(Box<FilterModel>),
}

/// A compiled filter expression.
#[derive(Debug, PartialEq)]
pub enum Filter {
    ComparisonExpr(Path, ComparisonOp, Vec<u8>),
    ExistenceExpr(Path),
    BooleanExpr(Box<Filter>, BooleanOp, Box<Filter>),
    GroupedExpr(Box<Filter>),
    NotExpr(Box<Filter>),
}

/// The model of a filter tree.
pub open spec fn fl_model(f: Filter) -> FilterModel
    decreases f,
{
    match f {
        Filter::ComparisonExpr(p, op, v) => FilterModel::Comparison(p@, op, v@),
        Filter::ExistenceExpr(p) => FilterModel::Existence(p@),
        Filter::BooleanExpr(l, op, r) => FilterModel::Boolean(
            Box::new(fl_model(*l)),
            op,
            Box::new(fl_model(*r)),
        ),
        Filter::GroupedExpr(i) => FilterModel::Grouped(Box::new(fl_model(*i))),
        Filter::NotExpr(i) => FilterModel::Not(Box::new(fl_model(*i))),
    }
}

impl View for Filter {
    type V = FilterModel;

    open spec fn view(&self) -> FilterModel {
        fl_model(*self)
    }
}

/// A comparison operator token.
pub open spec fn spec_parse_cmp_op(s: Seq<u8>, pos: int) -> Option<(ComparisonOp, int)> {
    if 0 <= pos && pos + 2 <= s.len() {
        let a = s[pos];
        let b = s[pos + 1];
        if a == 61 && b == 61 {
            Some((ComparisonOp::Eq, pos + 2))
        } else if a == 33 && b == 61 {
            Some((ComparisonOp::Ne, pos + 2))
        } else if a == 61 && b == 126 {
            Some((ComparisonOp::Re, pos + 2))
        } else if a == 61 && b == 94 {
            Some((ComparisonOp::StartsWith, pos + 2))
        } else if a == 61 && b == 36 {
            Some((ComparisonOp::EndsWith, pos + 2))
        } else {
            None
        }
    } else {
        None
    }
}

/// A comparison expression: `path op 'literal'`, whitespace tolerated
/// around every token and consumed after the literal.
pub open spec fn spec_parse_comparison(s: Seq<u8>, pos: int) -> Option<(FilterModel, int)> {
    let p = spec_skip_ws(s, pos);
    match spec_parse_path(s, p) {
        Some((path, p1)) => {
            let q = spec_skip_ws(s, p1);
            match spec_parse_cmp_op(s, q) {
                Some((op, q2)) => {
                    let r = spec_skip_ws(s, q2);
                    match spec_parse_string(s, r) {
                        Some((lit, p2)) => Some(
                            (FilterModel::Comparison(path, op, lit), spec_skip_ws(s, p2)),
                        ),
                        None => None,
                    }
                },
                None => None,
            }
        },
        None => None,
    }
}

/// An existence expression: `path?`, with no whitespace tolerance.
pub open spec fn spec_parse_existence(s: Seq<u8>, pos: int) -> Option<(FilterModel, int)> {
    match spec_parse_path(s, pos) {
        Some((path, p)) => if p < s.len() && s[p] == 63 {
            Some((FilterModel::Existence(path), p + 1))
        } else {
            None
        },
        None => None,
    }
}

/// A grouped expression: a parenthesised boolean expression.
pub open spec fn spec_parse_grouped(s: Seq<u8>, pos: int) -> Option<(FilterModel, int)>
    decreases s.len() - pos, 1int,
{
    if 0 <= pos && pos < s.len() && s[pos] == 40 {
        match spec_parse_boolean(s, pos + 1) {
            Some((e, p)) => if p < s.len() && s[p] == 41 {
                Some((FilterModel::Grouped(Box::new(e)), p + 1))
            } else {
                None
            },
            None => None,
        }
    } else {
        None
    }
}

/// A negated expression: `!` followed by an existence, grouped or
/// negated expression.
pub open spec fn spec_parse_not(s: Seq<u8>, pos: int) -> Option<(FilterModel, int)>
    decreases s.len() - pos, 2int,
    via spec_parse_not_dec
{
    if 0 <= pos <= s.len() {
        let p = spec_skip_ws(s, pos);
        if p < s.len() && s[p] == 33 {
            let r = spec_skip_ws(s, p + 1);
            let inner: Option<(FilterModel, int)> = if spec_parse_existence(s, r) is Some {
                spec_parse_existence(s, r)
            } else if spec_parse_grouped(s, r) is Some {
                spec_parse_grouped(s, r)
            } else {
                spec_parse_not(s, r)
            };
            match inner {
                Some((e, p2)) => Some((FilterModel::Not(Box::new(e)), p2)),
                None => None,
            }
        } else {
            None
        }
    } else {
        None
    }
}

#[via_fn]
proof fn spec_parse_not_dec(s: Seq<u8>, pos: int) {
    if 0 <= pos <= s.len() {
        lemma_skip_ws_bounds(s, pos);
        let p = spec_skip_ws(s, pos);
        if p < s.len() {
            lemma_skip_ws_bounds(s, p + 1);
        }
    }
}

/// A term: a comparison, existence, grouped or negated expression,
/// tried in that order.
pub open spec fn spec_parse_term(s: Seq<u8>, pos: int) -> Option<(FilterModel, int)>
    decreases s.len() - pos, 3int,
{
    if 0 <= pos <= s.len() {
        if spec_parse_comparison(s, pos) is Some {
            spec_parse_comparison(s, pos)
        } else if spec_parse_existence(s, pos) is Some {
            spec_parse_existence(s, pos)
        } else if spec_parse_grouped(s, pos) is Some {
            spec_parse_grouped(s, pos)
        } else {
            spec_parse_not(s, pos)
        }
    } else {
        None
    }
}

/// The left-folded continuation of a boolean chain; `&&` and `||` bind
/// equally.
pub open spec fn spec_parse_bool_tail(s: Seq<u8>, pos: int, acc: FilterModel) -> Option<
    (FilterModel, int),
>
    decreases s.len() - pos, 4int,
    via spec_parse_bool_tail_dec
{
    if 0 <= pos <= s.len() {
        let q = spec_skip_ws(s, pos);
        if q + 2 <= s.len() && ((s[q] == 38 && s[q + 1] == 38) || (s[q] == 124 && s[q + 1]
            == 124)) {
            let op = if s[q] == 38 {
                BooleanOp::And
            } else {
                BooleanOp::Or
            };
            let r = spec_skip_ws(s, q + 2);
            match spec_parse_term(s, r) {
                Some((t, p2)) => if q + 2 <= p2 <= s.len() {
                    spec_parse_bool_tail(
                        s,
                        p2,
                        FilterModel::Boolean(Box::new(acc), op, Box::new(t)),
                    )
                } else {
                    None
                },
                None => None,
            }
        } else {
            Some((acc, pos))
        }
    } else {
        Some((acc, pos))
    }
}

#[via_fn]
proof fn spec_parse_bool_tail_dec(s: Seq<u8>, pos: int, acc: FilterModel) {
    if 0 <= pos <= s.len() {
        lemma_skip_ws_bounds(s, pos);
        let q = spec_skip_ws(s, pos);
        if q + 2 <= s.len() {
            lemma_skip_ws_bounds(s, q + 2);
        }
    }
}

/// A boolean chain of terms, folded left-associatively.
pub open spec fn spec_parse_boolean(s: Seq<u8>, pos: int) -> Option<(FilterModel, int)>
    decreases s.len() - pos, 5int,
{
    match spec_parse_term(s, pos) {
        Some((l, p)) => if pos <= p <= s.len() {
            spec_parse_bool_tail(s, p, l)
        } else {
            None
        },
        None => None,
    }
}

/// The anchored filter grammar: the whole input must be one boolean
/// chain.
pub open spec fn spec_parse_filter(s: Seq<u8>) -> Option<FilterModel> {
    match spec_parse_boolean(s, 0) {
        Some((e, p)) => if p == s.len() {
            Some(e)
        } else {
            None
        },
        None => None,
    }
}

/// Parse a comparison operator token.
fn parse_cmp_op(s: &Vec<u8>, pos: usize) -> (r: Option<(ComparisonOp, usize)>)
    requires
        pos <= s.len(),
    ensures
        match r {
            Some(v) => spec_parse_cmp_op(s@, pos as int) == Some((v.0, v.1 as int)) && pos < v.1
                <= s.len(),
            None => spec_parse_cmp_op(s@, pos as int) is None,
        },
{
    if s.len() - pos >= 2 {
        let a = s[pos];
        let b = s[pos + 1];
        if a == 61 && b == 61 {
            Some((ComparisonOp::Eq, pos + 2))
        } else if a == 33 && b == 61 {
            Some((ComparisonOp::Ne, pos + 2))
        } else if a == 61 && b == 126 {
            Some((ComparisonOp::Re, pos + 2))
        } else if a == 61 && b == 94 {
            Some((ComparisonOp::StartsWith, pos + 2))
        } else if a == 61 && b == 36 {
            Some((ComparisonOp::EndsWith, pos + 2))
        } else {
            None
        }
    } else {
        None
    }
}

/// Parse a comparison expression.
pub fn parse_comparison_expr(s: &Vec<u8>, pos: usize) -> (r: Option<(Filter, usize)>)
    requires
        pos <= s.len(),
    ensures
        match r {
            Some(v) => spec_parse_comparison(s@, pos as int) == Some((v.0@, v.1 as int)) && pos
                <= v.1 <= s.len(),
            None => spec_parse_comparison(s@, pos as int) is None,
        },
{
    let p = skip_ws(s, pos);
    match parse_path(s, p) {
        Some((path, p1)) => {
            let q = skip_ws(s, p1);
            match parse_cmp_op(s, q) {
                Some((op, q2)) => {
                    let r = skip_ws(s, q2);
                    match parse_string(s, r) {
                        Some((lit, p2)) => {
                            let p3 = skip_ws(s, p2);
                            Some((Filter::ComparisonExpr(path, op, lit), p3))
                        },
                        None => None,
                    }
                },
                None => None,
            }
        },
        None => None,
    }
}

/// Parse an existence expression.
pub fn parse_existence_expr(s: &Vec<u8>, pos: usize) -> (r: Option<(Filter, usize)>)
    requires
        pos <= s.len(),
    ensures
        match r {
            Some(v) => spec_parse_existence(s@, pos as int) == Some((v.0@, v.1 as int)) && pos
                < v.1 <= s.len(),
            None => spec_parse_existence(s@, pos as int) is None,
        },
{
    match parse_path(s, pos) {
        Some((path, p)) => {
            if p < s.len() && s[p] == 63 {
                Some((Filter::ExistenceExpr(path), p + 1))
            } else {
                None
            }
        },
        None => None,
    }
}

/// Parse a grouped expression.
pub fn parse_grouped_expr(s: &Vec<u8>, pos: usize) -> (r: Option<(Filter, usize)>)
    requires
        pos <= s.len(),
    ensures
        match r {
            Some(v) => spec_parse_grouped(s@, pos as int) == Some((v.0@, v.1 as int)) && pos
                < v.1 <= s.len(),
            None => spec_parse_grouped(s@, pos as int) is None,
        },
    decreases s@.len() - pos, 1int,
{
    if pos < s.len() && s[pos] == 40 {
        match parse_boolean_expr(s, pos + 1) {
            Some((e, p)) => {
                if p < s.len() && s[p] == 41 {
                    Some((Filter::GroupedExpr(Box::new(e)), p + 1))
                } else {
                    None
                }
            },
            None => None,
        }
    } else {
        None
    }
}

/// Parse a negated expression.
pub fn parse_not_expr(s: &Vec<u8>, pos: usize) -> (r: Option<(Filter, usize)>)
    requires
        pos <= s.len(),
    ensures
        match r {
            Some(v) => spec_parse_not(s@, pos as int) == Some((v.0@, v.1 as int)) && pos < v.1
                <= s.len(),
            None => spec_parse_not(s@, pos as int) is None,
        },
    decreases s@.len() - pos, 2int,
{
    let p = skip_ws(s, pos);
    if p < s.len() && s[p] == 33 {
        let r = skip_ws(s, p + 1);
        let inner: Option<(Filter, usize)> = match parse_existence_expr(s, r) {
            Some(v) => Some(v),
            None => match parse_grouped_expr(s, r) {
                Some(v) => Some(v),
                None => parse_not_expr(s, r),
            },
        };
        match inner {
            Some((e, p2)) => Some((Filter::NotExpr(Box::new(e)), p2)),
            None => None,
        }
    } else {
        None
    }
}

/// Parse a term.
pub fn parse_term_expr(s: &Vec<u8>, pos: usize) -> (r: Option<(Filter, usize)>)
    requires
        pos <= s.len(),
    ensures
        match r {
            Some(v) => spec_parse_term(s@, pos as int) == Some((v.0@, v.1 as int)) && pos <= v.1
                <= s.len(),
            None => spec_parse_term(s@, pos as int) is None,
        },
    decreases s@.len() - pos, 3int,
{
    match parse_comparison_expr(s, pos) {
        Some(v) => {
            return Some(v);
        },
        None => {},
    }
    match parse_existence_expr(s, pos) {
        Some(v) => {
            return Some(v);
        },
        None => {},
    }
    match parse_grouped_expr(s, pos) {
        Some(v) => {
            return Some(v);
        },
        None => {},
    }
    parse_not_expr(s, pos)
}

/// Parse a boolean chain, folding left-associatively.
#[verifier::loop_isolation(false)]
pub fn parse_boolean_expr(s: &Vec<u8>, pos: usize) -> (r: Option<(Filter, usize)>)
    requires
        pos <= s.len(),
    ensures
        match r {
            Some(v) => spec_parse_boolean(s@, pos as int) == Some((v.0@, v.1 as int)) && pos
                <= v.1 <= s.len(),
            None => spec_parse_boolean(s@, pos as int) is None,
        },
    decreases s@.len() - pos, 5int,
{
    match parse_term_expr(s, pos) {
        Some((l, p)) => {
            let mut acc = l;
            let mut cur: usize = p;
            let mut done: bool = false;
            while !done
                invariant
                    pos <= cur <= s.len(),
                    spec_parse_boolean(s@, pos as int) == spec_parse_bool_tail(
                        s@,
                        cur as int,
                        acc@,
                    ),
                    done ==> spec_parse_bool_tail(s@, cur as int, acc@) == Some(
                        (acc@, cur as int),
                    ),
                decreases s@.len() - cur, (if done { 0int } else { 1int }),
            {
                let q = skip_ws(s, cur);
                if s.len() - q >= 2 && ((s[q] == 38 && s[q + 1] == 38) || (s[q] == 124 && s[q + 1]
                    == 124)) {
                    let op = if s[q] == 38 {
                        BooleanOp::And
                    } else {
                        BooleanOp::Or
                    };
                    let r = skip_ws(s, q + 2);
                    match parse_term_expr(s, r) {
                        Some((t, p2)) => {
                            acc = Filter::BooleanExpr(Box::new(acc), op, Box::new(t));
                            cur = p2;
                        },
                        None => {
                            return None;
                        },
                    }
                } else {
                    done = true;
                }
            }
            Some((acc, cur))
        },
        None => None,
    }
}

/// Parse the anchored filter grammar: the whole input must be one
/// boolean chain of terms.
pub fn parse_filter(data: &str) -> (r: Option<Filter>)
    ensures
        match r {
            Some(f) => spec_parse_filter(data.spec_bytes()) == Some(f@),
            None => spec_parse_filter(data.spec_bytes()) is None,
        },
{
    let bytes = data.as_bytes_vec();
    match parse_boolean_expr(&bytes, 0) {
        Some((f, p)) => {
            if p == bytes.len() {
                Some(f)
            } else {
                None
            }
        },
        None => None,
    }
}

impl Filter {
    /// Compile a filter from its textual form; invalid text is the one
    /// failure.
    pub fn from_str(data: &str) -> (r: Result<Filter, ParsePicaError>)
        ensures
            match r {
                Ok(f) => spec_parse_filter(data.spec_bytes()) == Some(f@),
                Err(e) => spec_parse_filter(data.spec_bytes()) is None && e
                    == ParsePicaError::InvalidFilter,
            },
    {
        match parse_filter(data) {
            Some(f) => Ok(f),
            None => Err(ParsePicaError::InvalidFilter),
        }
    }
}

} // verus!
