//! Laws of the matcher engine, stated over the spec-level models and
//! proved once and for all: threshold monotonicity of the similarity
//! comparison, idempotence of stacked negation, operator precedence on
//! the texts it distinguishes, and the display round trip of a freshly
//! parsed record matcher.

use vstd::prelude::*;
use vstd::arithmetic::mul::lemma_mul_inequality;
use crate::common::{BooleanOp, RelationalOp};
use crate::field_matcher::{fm_eval, spec_parse_field_matcher, FieldExpr};
use crate::options::MatcherOptions;
use crate::record::{Field, Subfield};
use crate::record_matcher::RecordMatcher;
use crate::similarity::spec_similar;
use crate::common::{spec_parse_quoted_body, spec_parse_string, spec_skip_ws};
use crate::subfield_matcher::{sf_eval, spec_parse_code_run, spec_parse_exists, spec_parse_leaf,
    spec_parse_relation, spec_parse_sf_and, spec_parse_sf_and_tail, spec_parse_sf_atom,
    spec_parse_sf_not, spec_parse_sf_or, spec_parse_sf_or_tail, spec_parse_subfield_matcher,
    str_op_eval, SubfieldExpr};

verus! {

/// Lowering the similarity threshold never turns a match into a
/// non-match: the score is compared against a closed lower bound.
pub proof fn lemma_similar_threshold_monotonic(a: Seq<u8>, b: Seq<u8>, t1: u32, t2: u32)
    requires
        t1 <= t2,
        spec_similar(a, b, t2),
    ensures
        spec_similar(a, b, t1),
{
    let m = if a.len() >= b.len() {
        a.len()
    } else {
        b.len()
    };
    lemma_mul_inequality(t1 as int, t2 as int, m as int);
}

/// The same monotonicity, lifted to a whole similarity leaf: whenever a
/// `=*` relation holds of a collection under a threshold, it holds
/// under every lower threshold with the same case folding.
pub proof fn lemma_similar_leaf_monotonic(
    codes: Seq<u8>,
    value: Seq<u8>,
    subs: Seq<Subfield>,
    o1: MatcherOptions,
    o2: MatcherOptions,
)
    requires
        o1.case_ignore == o2.case_ignore,
        o1.strsim_threshold <= o2.strsim_threshold,
        sf_eval(
            SubfieldExpr::Relation { codes, op: RelationalOp::Similar, value },
            subs,
            o2,
        ),
    ensures
        sf_eval(SubfieldExpr::Relation { codes, op: RelationalOp::Similar, value }, subs, o1),
{
    let i = choose|i: int|
        0 <= i < subs.len() && codes.contains(subs[i].code) && str_op_eval(
            RelationalOp::Similar,
            subs[i].value@,
            value,
            o2,
        );
    lemma_similar_threshold_monotonic(
        crate::fold::fold_bytes(subs[i].value@, o1.case_ignore),
        crate::fold::fold_bytes(value, o1.case_ignore),
        o1.strsim_threshold,
        o2.strsim_threshold,
    );
    assert(codes.contains(subs[i].code) && str_op_eval(
        RelationalOp::Similar,
        subs[i].value@,
        value,
        o1,
    ));
}

/// Stacked negation collapses: two negations cancel, so a triple
/// negation means the same as a single one, on every collection and
/// under every option value.
pub proof fn lemma_double_negation(e: SubfieldExpr, subs: Seq<Subfield>, o: MatcherOptions)
    ensures
        sf_eval(
            SubfieldExpr::Not { inner: Box::new(SubfieldExpr::Not { inner: Box::new(e) }) },
            subs,
            o,
        ) == sf_eval(e, subs, o),
{
    let ne = SubfieldExpr::Not { inner: Box::new(e) };
    assert(sf_eval(ne, subs, o) == !sf_eval(e, subs, o));
    assert(sf_eval(SubfieldExpr::Not { inner: Box::new(ne) }, subs, o) == !sf_eval(
        ne,
        subs,
        o,
    ));
}

/// The bytes of `a =^ 'ab' || a =^ 'bc' && a =$ 'cd'`.
pub open spec fn precedence_sample() -> Seq<u8> {
    seq![97u8, 32, 61, 94, 32, 39, 97, 98, 39, 32, 124, 124, 32, 97, 32, 61, 94, 32, 39, 98, 99,
        39, 32, 38, 38, 32, 97, 32, 61, 36, 32, 39, 99, 100, 39]
}

/// The bytes of `a =^ 'ab' || (a =^ 'bc' && a =$ 'cd')`.
pub open spec fn precedence_sample_grouped() -> Seq<u8> {
    seq![97u8, 32, 61, 94, 32, 39, 97, 98, 39, 32, 124, 124, 32, 40, 97, 32, 61, 94, 32, 39, 98,
        99, 39, 32, 38, 38, 32, 97, 32, 61, 36, 32, 39, 99, 100, 39, 41]
}

/// The tree both precedence sample texts compile to: the AND chain
/// hangs below the OR.
pub open spec fn precedence_sample_tree() -> SubfieldExpr {
    SubfieldExpr::Composite {
        lhs: Box::new(
            SubfieldExpr::Relation {
                codes: seq![97u8],
                op: RelationalOp::StartsWith,
                value: seq![97u8, 98u8],
            },
        ),
        op: BooleanOp::Or,
        rhs: Box::new(
            SubfieldExpr::Composite {
                lhs: Box::new(
                    SubfieldExpr::Relation {
                        codes: seq![97u8],
                        op: RelationalOp::StartsWith,
                        value: seq![98u8, 99u8],
                    },
                ),
                op: BooleanOp::And,
                rhs: Box::new(
                    SubfieldExpr::Relation {
                        codes: seq![97u8],
                        op: RelationalOp::EndsWith,
                        value: seq![99u8, 100u8],
                    },
                ),
            },
        ),
    }
}

#[verifier::rlimit(100)]
proof fn lemma_parse_precedence_sample()
    ensures
        spec_parse_subfield_matcher(precedence_sample()) == Some(precedence_sample_tree()),
{
    let s1 = precedence_sample();
    assert(spec_skip_ws(s1, 0) == 0);
    assert(spec_skip_ws(s1, 2) == 2);
    assert(spec_skip_ws(s1, 1) == 2);
    assert(spec_skip_ws(s1, 5) == 5);
    assert(spec_skip_ws(s1, 4) == 5);
    assert(spec_parse_quoted_body(s1, 8, 39) == Some((Seq::<u8>::empty(), 8int)));
    assert(seq![98u8] + Seq::<u8>::empty() =~= seq![98u8]);
    assert(spec_parse_quoted_body(s1, 7, 39) == Some((seq![98u8], 8int)));
    assert(seq![97u8] + seq![98u8] =~= seq![97u8, 98u8]);
    assert(spec_parse_quoted_body(s1, 6, 39) == Some((seq![97u8, 98u8], 8int)));
    assert(spec_parse_string(s1, 5) == Some((seq![97u8, 98u8], 9int)));
    let ea = (SubfieldExpr::Relation { codes: seq![97u8], op: RelationalOp::StartsWith, value: seq![97u8, 98u8] });
    assert(spec_parse_relation(s1, 0) == Some((ea, 9int)));
    assert(spec_parse_exists(s1, 0) is None);
    assert(spec_parse_leaf(s1, 0) == Some((ea, 9int)));
    assert(spec_parse_sf_atom(s1, 0) == Some((ea, 9int)));
    assert(spec_parse_sf_not(s1, 0) == Some((ea, 9int)));
    assert(spec_skip_ws(s1, 10) == 10);
    assert(spec_skip_ws(s1, 9) == 10);
    assert(spec_parse_sf_and_tail(s1, 9, ea) == Some((ea, 9int)));
    assert(spec_parse_sf_and(s1, 0) == Some((ea, 9int)));
    assert(spec_skip_ws(s1, 13) == 13);
    assert(spec_skip_ws(s1, 12) == 13);
    assert(spec_skip_ws(s1, 15) == 15);
    assert(spec_skip_ws(s1, 14) == 15);
    assert(spec_skip_ws(s1, 18) == 18);
    assert(spec_skip_ws(s1, 17) == 18);
    assert(spec_parse_quoted_body(s1, 21, 39) == Some((Seq::<u8>::empty(), 21int)));
    assert(seq![99u8] + Seq::<u8>::empty() =~= seq![99u8]);
    assert(spec_parse_quoted_body(s1, 20, 39) == Some((seq![99u8], 21int)));
    assert(seq![98u8] + seq![99u8] =~= seq![98u8, 99u8]);
    assert(spec_parse_quoted_body(s1, 19, 39) == Some((seq![98u8, 99u8], 21int)));
    assert(spec_parse_string(s1, 18) == Some((seq![98u8, 99u8], 22int)));
    let eb = (SubfieldExpr::Relation { codes: seq![97u8], op: RelationalOp::StartsWith, value: seq![98u8, 99u8] });
    assert(spec_parse_relation(s1, 13) == Some((eb, 22int)));
    assert(spec_parse_exists(s1, 13) is None);
    assert(spec_parse_leaf(s1, 13) == Some((eb, 22int)));
    assert(spec_parse_sf_atom(s1, 12) == Some((eb, 22int)));
    assert(spec_parse_sf_not(s1, 12) == Some((eb, 22int)));
    assert(spec_skip_ws(s1, 26) == 26);
    assert(spec_skip_ws(s1, 25) == 26);
    assert(spec_skip_ws(s1, 28) == 28);
    assert(spec_skip_ws(s1, 27) == 28);
    assert(spec_skip_ws(s1, 31) == 31);
    assert(spec_skip_ws(s1, 30) == 31);
    assert(spec_parse_quoted_body(s1, 34, 39) == Some((Seq::<u8>::empty(), 34int)));
    assert(seq![100u8] + Seq::<u8>::empty() =~= seq![100u8]);
    assert(spec_parse_quoted_body(s1, 33, 39) == Some((seq![100u8], 34int)));
    assert(seq![99u8] + seq![100u8] =~= seq![99u8, 100u8]);
    assert(spec_parse_quoted_body(s1, 32, 39) == Some((seq![99u8, 100u8], 34int)));
    assert(spec_parse_string(s1, 31) == Some((seq![99u8, 100u8], 35int)));
    let ec = (SubfieldExpr::Relation { codes: seq![97u8], op: RelationalOp::EndsWith, value: seq![99u8, 100u8] });
    assert(spec_parse_relation(s1, 26) == Some((ec, 35int)));
    assert(spec_parse_exists(s1, 26) is None);
    assert(spec_parse_leaf(s1, 26) == Some((ec, 35int)));
    assert(spec_parse_sf_atom(s1, 25) == Some((ec, 35int)));
    assert(spec_parse_sf_not(s1, 25) == Some((ec, 35int)));
    assert(spec_skip_ws(s1, 23) == 23);
    assert(spec_skip_ws(s1, 22) == 23);
    let ebc = (SubfieldExpr::Composite { lhs: Box::new(eb), op: BooleanOp::And, rhs: Box::new(ec) });
    assert(spec_skip_ws(s1, 35) == 35);
    assert(spec_parse_sf_and_tail(s1, 35, ebc) == Some((ebc, 35int)));
    assert(spec_parse_sf_and_tail(s1, 22, eb) == Some((ebc, 35int)));
    assert(spec_parse_sf_and(s1, 12) == Some((ebc, 35int)));
    let et = (SubfieldExpr::Composite { lhs: Box::new(ea), op: BooleanOp::Or, rhs: Box::new(ebc) });
    assert(spec_parse_sf_or_tail(s1, 35, et) == Some((et, 35int)));
    assert(spec_parse_sf_or_tail(s1, 9, ea) == Some((et, 35int)));
    assert(spec_parse_sf_or(s1, 0) == Some((et, 35int)));
    assert(spec_parse_subfield_matcher(s1) == Some(et));
    assert(et == precedence_sample_tree());
}

#[verifier::rlimit(100)]
proof fn lemma_parse_precedence_sample_grouped()
    ensures
        spec_parse_subfield_matcher(precedence_sample_grouped()) == Some(
            precedence_sample_tree(),
        ),
{
    let s2 = precedence_sample_grouped();
    assert(spec_skip_ws(s2, 0) == 0);
    assert(spec_skip_ws(s2, 2) == 2);
    assert(spec_skip_ws(s2, 1) == 2);
    assert(spec_skip_ws(s2, 5) == 5);
    assert(spec_skip_ws(s2, 4) == 5);
    assert(spec_parse_quoted_body(s2, 8, 39) == Some((Seq::<u8>::empty(), 8int)));
    assert(seq![98u8] + Seq::<u8>::empty() =~= seq![98u8]);
    assert(spec_parse_quoted_body(s2, 7, 39) == Some((seq![98u8], 8int)));
    assert(seq![97u8] + seq![98u8] =~= seq![97u8, 98u8]);
    assert(spec_parse_quoted_body(s2, 6, 39) == Some((seq![97u8, 98u8], 8int)));
    assert(spec_parse_string(s2, 5) == Some((seq![97u8, 98u8], 9int)));
    let fa = (SubfieldExpr::Relation { codes: seq![97u8], op: RelationalOp::StartsWith, value: seq![97u8, 98u8] });
    assert(spec_parse_relation(s2, 0) == Some((fa, 9int)));
    assert(spec_parse_exists(s2, 0) is None);
    assert(spec_parse_leaf(s2, 0) == Some((fa, 9int)));
    assert(spec_parse_sf_atom(s2, 0) == Some((fa, 9int)));
    assert(spec_parse_sf_not(s2, 0) == Some((fa, 9int)));
    assert(spec_skip_ws(s2, 10) == 10);
    assert(spec_skip_ws(s2, 9) == 10);
    assert(spec_parse_sf_and_tail(s2, 9, fa) == Some((fa, 9int)));
    assert(spec_parse_sf_and(s2, 0) == Some((fa, 9int)));
    assert(spec_skip_ws(s2, 14) == 14);
    assert(spec_skip_ws(s2, 16) == 16);
    assert(spec_skip_ws(s2, 15) == 16);
    assert(spec_skip_ws(s2, 19) == 19);
    assert(spec_skip_ws(s2, 18) == 19);
    assert(spec_parse_quoted_body(s2, 22, 39) == Some((Seq::<u8>::empty(), 22int)));
    assert(seq![99u8] + Seq::<u8>::empty() =~= seq![99u8]);
    assert(spec_parse_quoted_body(s2, 21, 39) == Some((seq![99u8], 22int)));
    assert(seq![98u8] + seq![99u8] =~= seq![98u8, 99u8]);
    assert(spec_parse_quoted_body(s2, 20, 39) == Some((seq![98u8, 99u8], 22int)));
    assert(spec_parse_string(s2, 19) == Some((seq![98u8, 99u8], 23int)));
    let fb = (SubfieldExpr::Relation { codes: seq![97u8], op: RelationalOp::StartsWith, value: seq![98u8, 99u8] });
    assert(spec_parse_relation(s2, 14) == Some((fb, 23int)));
    assert(spec_parse_exists(s2, 14) is None);
    assert(spec_parse_leaf(s2, 14) == Some((fb, 23int)));
    assert(spec_parse_sf_atom(s2, 14) == Some((fb, 23int)));
    assert(spec_parse_sf_not(s2, 14) == Some((fb, 23int)));
    assert(spec_skip_ws(s2, 27) == 27);
    assert(spec_skip_ws(s2, 26) == 27);
    assert(spec_skip_ws(s2, 29) == 29);
    assert(spec_skip_ws(s2, 28) == 29);
    assert(spec_skip_ws(s2, 32) == 32);
    assert(spec_skip_ws(s2, 31) == 32);
    assert(spec_parse_quoted_body(s2, 35, 39) == Some((Seq::<u8>::empty(), 35int)));
    assert(seq![100u8] + Seq::<u8>::empty() =~= seq![100u8]);
    assert(spec_parse_quoted_body(s2, 34, 39) == Some((seq![100u8], 35int)));
    assert(seq![99u8] + seq![100u8] =~= seq![99u8, 100u8]);
    assert(spec_parse_quoted_body(s2, 33, 39) == Some((seq![99u8, 100u8], 35int)));
    assert(spec_parse_string(s2, 32) == Some((seq![99u8, 100u8], 36int)));
    let fc = (SubfieldExpr::Relation { codes: seq![97u8], op: RelationalOp::EndsWith, value: seq![99u8, 100u8] });
    assert(spec_parse_relation(s2, 27) == Some((fc, 36int)));
    assert(spec_parse_exists(s2, 27) is None);
    assert(spec_parse_leaf(s2, 27) == Some((fc, 36int)));
    assert(spec_parse_sf_atom(s2, 26) == Some((fc, 36int)));
    assert(spec_parse_sf_not(s2, 26) == Some((fc, 36int)));
    assert(spec_skip_ws(s2, 24) == 24);
    assert(spec_skip_ws(s2, 23) == 24);
    let fbc = (SubfieldExpr::Composite { lhs: Box::new(fb), op: BooleanOp::And, rhs: Box::new(fc) });
    assert(spec_skip_ws(s2, 36) == 36);
    assert(spec_parse_sf_and_tail(s2, 36, fbc) == Some((fbc, 36int)));
    assert(spec_parse_sf_and_tail(s2, 23, fb) == Some((fbc, 36int)));
    assert(spec_parse_sf_and(s2, 14) == Some((fbc, 36int)));
    assert(spec_parse_sf_or_tail(s2, 36, fbc) == Some((fbc, 36int)));
    assert(spec_parse_sf_or(s2, 14) == Some((fbc, 36int)));
    assert(spec_skip_ws(s2, 13) == 13);
    assert(spec_skip_ws(s2, 12) == 13);
    assert(spec_parse_sf_atom(s2, 12) == Some((fbc, 37int)));
    assert(spec_parse_sf_not(s2, 12) == Some((fbc, 37int)));
    assert(spec_parse_sf_and_tail(s2, 37, fbc) == Some((fbc, 37int)));
    assert(spec_parse_sf_and(s2, 12) == Some((fbc, 37int)));
    let ft = (SubfieldExpr::Composite { lhs: Box::new(fa), op: BooleanOp::Or, rhs: Box::new(fbc) });
    assert(spec_parse_sf_or_tail(s2, 37, ft) == Some((ft, 37int)));
    assert(spec_parse_sf_or_tail(s2, 9, fa) == Some((ft, 37int)));
    assert(spec_parse_sf_or(s2, 0) == Some((ft, 37int)));
    assert(spec_parse_subfield_matcher(s2) == Some(ft));
    assert(ft == precedence_sample_tree());
}

/// AND binds tighter than OR: the unparenthesised sample text parses
/// to the very tree of its explicitly grouped reading, so the two
/// expressions behave identically on every collection and under every
/// option value.
pub proof fn lemma_and_binds_tighter(subs: Seq<Subfield>, o: MatcherOptions)
    ensures
        spec_parse_subfield_matcher(precedence_sample()) is Some,
        spec_parse_subfield_matcher(precedence_sample()) == spec_parse_subfield_matcher(
            precedence_sample_grouped(),
        ),
        sf_eval(spec_parse_subfield_matcher(precedence_sample())->0, subs, o) == sf_eval(
            spec_parse_subfield_matcher(precedence_sample_grouped())->0,
            subs,
            o,
        ),
{
    lemma_parse_precedence_sample();
    lemma_parse_precedence_sample_grouped();
}

/// The bytes of `!!!(a == 'bcd')`.
pub open spec fn negation_sample_triple() -> Seq<u8> {
    seq![33u8, 33, 33, 40, 97, 32, 61, 61, 32, 39, 98, 99, 100, 39, 41]
}

/// The bytes of `!(a == 'bcd')`.
pub open spec fn negation_sample_single() -> Seq<u8> {
    seq![33u8, 40, 97, 32, 61, 61, 32, 39, 98, 99, 100, 39, 41]
}

/// The relation both negation sample texts negate.
pub open spec fn negation_sample_leaf() -> SubfieldExpr {
    SubfieldExpr::Relation {
        codes: seq![97u8],
        op: RelationalOp::Eq,
        value: seq![98u8, 99u8, 100u8],
    }
}

#[verifier::rlimit(100)]
proof fn lemma_parse_negation_sample_triple()
    ensures
        spec_parse_subfield_matcher(negation_sample_triple()) == Some(
            SubfieldExpr::Not {
                inner: Box::new(
                    SubfieldExpr::Not {
                        inner: Box::new(
                            SubfieldExpr::Not { inner: Box::new(negation_sample_leaf()) },
                        ),
                    },
                ),
            },
        ),
{
    let s1 = negation_sample_triple();
    assert(spec_skip_ws(s1, 4) == 4);
    assert(spec_skip_ws(s1, 6) == 6);
    assert(spec_skip_ws(s1, 5) == 6);
    assert(spec_skip_ws(s1, 9) == 9);
    assert(spec_skip_ws(s1, 8) == 9);
    assert(spec_parse_quoted_body(s1, 13, 39) == Some((Seq::<u8>::empty(), 13int)));
    assert(seq![100u8] + Seq::<u8>::empty() =~= seq![100u8]);
    assert(spec_parse_quoted_body(s1, 12, 39) == Some((seq![100u8], 13int)));
    assert(seq![99u8] + seq![100u8] =~= seq![99u8, 100u8]);
    assert(spec_parse_quoted_body(s1, 11, 39) == Some((seq![99u8, 100u8], 13int)));
    assert(seq![98u8] + seq![99u8, 100u8] =~= seq![98u8, 99u8, 100u8]);
    assert(spec_parse_quoted_body(s1, 10, 39) == Some((seq![98u8, 99u8, 100u8], 13int)));
    assert(spec_parse_string(s1, 9) == Some((seq![98u8, 99u8, 100u8], 14int)));
    let g = (SubfieldExpr::Relation { codes: seq![97u8], op: RelationalOp::Eq, value: seq![98u8, 99u8, 100u8] });
    assert(spec_parse_relation(s1, 4) == Some((g, 14int)));
    assert(spec_parse_exists(s1, 4) is None);
    assert(spec_parse_leaf(s1, 4) == Some((g, 14int)));
    assert(spec_parse_sf_atom(s1, 4) == Some((g, 14int)));
    assert(spec_parse_sf_not(s1, 4) == Some((g, 14int)));
    assert(spec_skip_ws(s1, 14) == 14);
    assert(spec_parse_sf_and_tail(s1, 14, g) == Some((g, 14int)));
    assert(spec_parse_sf_and(s1, 4) == Some((g, 14int)));
    assert(spec_parse_sf_or_tail(s1, 14, g) == Some((g, 14int)));
    assert(spec_parse_sf_or(s1, 4) == Some((g, 14int)));
    assert(spec_skip_ws(s1, 3) == 3);
    assert(spec_parse_sf_atom(s1, 3) == Some((g, 15int)));
    assert(spec_parse_sf_not(s1, 3) == Some((g, 15int)));
    assert(spec_skip_ws(s1, 2) == 2);
    let gn1 = (SubfieldExpr::Not { inner: Box::new(g) });
    assert(spec_parse_sf_not(s1, 2) == Some((gn1, 15int)));
    assert(spec_skip_ws(s1, 1) == 1);
    let gn2 = (SubfieldExpr::Not { inner: Box::new(gn1) });
    assert(spec_parse_sf_not(s1, 1) == Some((gn2, 15int)));
    assert(spec_skip_ws(s1, 0) == 0);
    let gn3 = (SubfieldExpr::Not { inner: Box::new(gn2) });
    assert(spec_parse_sf_not(s1, 0) == Some((gn3, 15int)));
    assert(spec_parse_sf_and_tail(s1, 15, gn3) == Some((gn3, 15int)));
    assert(spec_parse_sf_and(s1, 0) == Some((gn3, 15int)));
    assert(spec_parse_sf_or_tail(s1, 15, gn3) == Some((gn3, 15int)));
    assert(spec_parse_sf_or(s1, 0) == Some((gn3, 15int)));
    assert(spec_parse_subfield_matcher(s1) == Some(gn3));
    assert(g == negation_sample_leaf());
}

#[verifier::rlimit(100)]
proof fn lemma_parse_negation_sample_single()
    ensures
        spec_parse_subfield_matcher(negation_sample_single()) == Some(
            SubfieldExpr::Not { inner: Box::new(negation_sample_leaf()) },
        ),
{
    let s2 = negation_sample_single();
    assert(spec_skip_ws(s2, 2) == 2);
    assert(spec_skip_ws(s2, 4) == 4);
    assert(spec_skip_ws(s2, 3) == 4);
    assert(spec_skip_ws(s2, 7) == 7);
    assert(spec_skip_ws(s2, 6) == 7);
    assert(spec_parse_quoted_body(s2, 11, 39) == Some((Seq::<u8>::empty(), 11int)));
    assert(seq![100u8] + Seq::<u8>::empty() =~= seq![100u8]);
    assert(spec_parse_quoted_body(s2, 10, 39) == Some((seq![100u8], 11int)));
    assert(seq![99u8] + seq![100u8] =~= seq![99u8, 100u8]);
    assert(spec_parse_quoted_body(s2, 9, 39) == Some((seq![99u8, 100u8], 11int)));
    assert(seq![98u8] + seq![99u8, 100u8] =~= seq![98u8, 99u8, 100u8]);
    assert(spec_parse_quoted_body(s2, 8, 39) == Some((seq![98u8, 99u8, 100u8], 11int)));
    assert(spec_parse_string(s2, 7) == Some((seq![98u8, 99u8, 100u8], 12int)));
    let h = (SubfieldExpr::Relation { codes: seq![97u8], op: RelationalOp::Eq, value: seq![98u8, 99u8, 100u8] });
    assert(spec_parse_relation(s2, 2) == Some((h, 12int)));
    assert(spec_parse_exists(s2, 2) is None);
    assert(spec_parse_leaf(s2, 2) == Some((h, 12int)));
    assert(spec_parse_sf_atom(s2, 2) == Some((h, 12int)));
    assert(spec_parse_sf_not(s2, 2) == Some((h, 12int)));
    assert(spec_skip_ws(s2, 12) == 12);
    assert(spec_parse_sf_and_tail(s2, 12, h) == Some((h, 12int)));
    assert(spec_parse_sf_and(s2, 2) == Some((h, 12int)));
    assert(spec_parse_sf_or_tail(s2, 12, h) == Some((h, 12int)));
    assert(spec_parse_sf_or(s2, 2) == Some((h, 12int)));
    assert(spec_skip_ws(s2, 1) == 1);
    assert(spec_parse_sf_atom(s2, 1) == Some((h, 13int)));
    assert(spec_parse_sf_not(s2, 1) == Some((h, 13int)));
    assert(spec_skip_ws(s2, 0) == 0);
    let hn1 = (SubfieldExpr::Not { inner: Box::new(h) });
    assert(spec_parse_sf_not(s2, 0) == Some((hn1, 13int)));
    assert(spec_parse_sf_and_tail(s2, 13, hn1) == Some((hn1, 13int)));
    assert(spec_parse_sf_and(s2, 0) == Some((hn1, 13int)));
    assert(spec_parse_sf_or_tail(s2, 13, hn1) == Some((hn1, 13int)));
    assert(spec_parse_sf_or(s2, 0) == Some((hn1, 13int)));
    assert(spec_parse_subfield_matcher(s2) == Some(hn1));
    assert(h == negation_sample_leaf());
}

/// A triple negation behaves identically to a single one: the sample
/// texts parse to trees that differ by a double negation, which
/// `lemma_double_negation` collapses on every collection.
pub proof fn lemma_triple_negation_sample(subs: Seq<Subfield>, o: MatcherOptions)
    ensures
        spec_parse_subfield_matcher(negation_sample_triple()) is Some,
        spec_parse_subfield_matcher(negation_sample_single()) is Some,
        sf_eval(spec_parse_subfield_matcher(negation_sample_triple())->0, subs, o) == sf_eval(
            spec_parse_subfield_matcher(negation_sample_single())->0,
            subs,
            o,
        ),
{
    lemma_parse_negation_sample_triple();
    lemma_parse_negation_sample_single();
    lemma_double_negation(
        SubfieldExpr::Not { inner: Box::new(negation_sample_leaf()) },
        subs,
        o,
    );
}

/// Algebraic composition means exactly the boolean algebra: a composed
/// tree is evaluated by combining the operands' verdicts over the same
/// field collection, and negation complements.
pub proof fn lemma_composition_semantics(
    lhs: FieldExpr,
    rhs: FieldExpr,
    fields: Seq<Field>,
    o: MatcherOptions,
)
    ensures
        fm_eval(
            FieldExpr::Composite {
                lhs: Box::new(lhs),
                op: BooleanOp::And,
                rhs: Box::new(rhs),
            },
            fields,
            o,
        ) == (fm_eval(lhs, fields, o) && fm_eval(rhs, fields, o)),
        fm_eval(
            FieldExpr::Composite {
                lhs: Box::new(lhs),
                op: BooleanOp::Or,
                rhs: Box::new(rhs),
            },
            fields,
            o,
        ) == (fm_eval(lhs, fields, o) || fm_eval(rhs, fields, o)),
        fm_eval(FieldExpr::Not { inner: Box::new(lhs) }, fields, o) == !fm_eval(
            lhs,
            fields,
            o,
        ),
{
}

/// The display round trip: a freshly parsed record matcher re-displays
/// its construction text verbatim, and that text re-parses to the very
/// tree the matcher holds, hence to the same verdict on every record.
/// The premises are exactly what `RecordMatcher::new` ensures of every
/// successfully constructed matcher.
pub proof fn lemma_display_round_trip(
    m: RecordMatcher,
    t: Seq<char>,
    fields: Seq<Field>,
    o: MatcherOptions,
)
    requires
        m.matcher_str@ == t,
        spec_parse_field_matcher(vstd::utf8::encode_utf8(t)) == Some(m.field_matcher@),
    ensures
        spec_parse_field_matcher(vstd::utf8::encode_utf8(m.matcher_str@)) is Some,
        fm_eval(
            spec_parse_field_matcher(vstd::utf8::encode_utf8(m.matcher_str@))->0,
            fields,
            o,
        ) == fm_eval(m.field_matcher@, fields, o),
{
}

} // verus!
