use pica_matcher::subfield_matcher::{
    CardinalityMatcher, ExistsMatcher, InMatcher, RegexMatcher, RelationMatcher, SubfieldMatcher,
};
use pica_matcher::MatcherOptions;
use pica_matcher::Subfield;

fn sf(data: &[u8]) -> Subfield {
    Subfield::from_bytes(data).unwrap()
}

#[test]
fn exists_matcher() {
    let matcher = ExistsMatcher::new("1?").unwrap();
    let options = MatcherOptions::default();

    assert!(matcher.is_match(&vec![sf(b"\x1f1abc")], &options));
    assert!(!matcher.is_match(&vec![sf(b"\x1f0abc")], &options));

    assert!(matcher.is_match(&vec![sf(b"\x1f3def"), sf(b"\x1f1hij")], &options));

    let matcher = ExistsMatcher::new("[a12]?").unwrap();
    let options = MatcherOptions::default();

    assert!(matcher.is_match(&vec![sf(b"\x1f1abc")], &options));
    assert!(!matcher.is_match(&vec![sf(b"\x1f9abc")], &options));
    assert!(matcher.is_match(
        &vec![sf(b"\x1f3def"), sf(b"\x1f9hij"), sf(b"\x1f2bsg")],
        &options
    ));
}

#[test]
fn relational_matcher_eq() {
    // case sensitive
    let matcher = RelationMatcher::new("0 == 'abc'").unwrap();
    let options = MatcherOptions::default();

    assert!(matcher.is_match(&vec![sf(b"\x1f0abc")], &options));
    assert!(!matcher.is_match(&vec![sf(b"\x1f0ABC")], &options));
    assert!(!matcher.is_match(&vec![sf(b"\x1f1abc")], &options));
    assert!(matcher.is_match(
        &vec![sf(b"\x1f3def"), sf(b"\x1f0abc"), sf(b"\x1f2bsg")],
        &options
    ));

    // case insensitive
    let matcher = RelationMatcher::new("0 == 'abc'").unwrap();
    let options = MatcherOptions::new().case_ignore(true);

    assert!(matcher.is_match(&vec![sf(b"\x1f0abc")], &options));
    assert!(matcher.is_match(&vec![sf(b"\x1f0ABC")], &options));

    // multiple subfields
    let matcher = RelationMatcher::new("0 == 'abc'").unwrap();
    let options = MatcherOptions::default();

    assert!(matcher.is_match(
        &vec![sf(b"\x1f3def"), sf(b"\x1f0abc"), sf(b"\x1f2bsg")],
        &options
    ));

    assert!(!matcher.is_match(&vec![sf(b"\x1f3def"), sf(b"\x1f2bsg")], &options));
}

#[test]
fn relational_matcher_ne() {
    // case sensitive
    let matcher = RelationMatcher::new("0 != 'abc'").unwrap();
    let options = MatcherOptions::default();

    assert!(!matcher.is_match(&vec![sf(b"\x1f0abc")], &options));
    assert!(matcher.is_match(&vec![sf(b"\x1f0ABC")], &options));
    assert!(!matcher.is_match(&vec![sf(b"\x1f1abc")], &options));
    assert!(!matcher.is_match(&vec![sf(b"\x1f0abc"), sf(b"\x1f2bsg")], &options));

    // case insensitive
    let matcher = RelationMatcher::new("0 != 'abc'").unwrap();
    let options = MatcherOptions::new().case_ignore(true);

    assert!(!matcher.is_match(&vec![sf(b"\x1f0abc")], &options));
    assert!(!matcher.is_match(&vec![sf(b"\x1f0ABC")], &options));

    // multiple subfields
    let matcher = RelationMatcher::new("0 != 'abc'").unwrap();
    let options = MatcherOptions::default();

    assert!(matcher.is_match(&vec![sf(b"\x1f3def"), sf(b"\x1f0bsg")], &options));

    assert!(!matcher.is_match(
        &vec![sf(b"\x1f3def"), sf(b"\x1f0abc"), sf(b"\x1f2bsg")],
        &options
    ));
}

#[test]
fn relational_matcher_starts_with() {
    // case sensitive
    let matcher = RelationMatcher::new("0 =^ 'ab'").unwrap();
    let options = MatcherOptions::default();

    assert!(matcher.is_match(&vec![sf(b"\x1f0abc")], &options));
    assert!(!matcher.is_match(&vec![sf(b"\x1f0def")], &options));

    // case insensitive
    let matcher = RelationMatcher::new("0 =^ 'ab'").unwrap();
    let options = MatcherOptions::new().case_ignore(true);

    assert!(matcher.is_match(&vec![sf(b"\x1f0abc")], &options));
    assert!(matcher.is_match(&vec![sf(b"\x1f0aBc")], &options));
    assert!(!matcher.is_match(&vec![sf(b"\x1f0def")], &options));

    // multiple subfields
    let matcher = RelationMatcher::new("0 =^ 'ab'").unwrap();
    let options = MatcherOptions::default();

    assert!(matcher.is_match(&vec![sf(b"\x1f0baab"), sf(b"\x1f0abba")], &options));

    assert!(!matcher.is_match(&vec![sf(b"\x1f0def"), sf(b"\x1f1abc")], &options));
}

#[test]
fn relational_matcher_ends_with() {
    // case sensitive
    let matcher = RelationMatcher::new("0 =$ 'ab'").unwrap();
    let options = MatcherOptions::default();

    assert!(matcher.is_match(&vec![sf(b"\x1f0abab")], &options));
    assert!(!matcher.is_match(&vec![sf(b"\x1f0abba")], &options));

    // case insensitive
    let matcher = RelationMatcher::new("0 =$ 'ab'").unwrap();
    let options = MatcherOptions::new().case_ignore(true);

    assert!(matcher.is_match(&vec![sf(b"\x1f0abab")], &options));
    assert!(matcher.is_match(&vec![sf(b"\x1f0abAB")], &options));

    // multiple subfields
    let matcher = RelationMatcher::new("0 =$ 'ab'").unwrap();
    let options = MatcherOptions::default();

    assert!(matcher.is_match(&vec![sf(b"\x1f0baba"), sf(b"\x1f0abab")], &options));

    assert!(!matcher.is_match(&vec![sf(b"\x1f0def"), sf(b"\x1f1aab")], &options));
}

#[test]
fn relational_matcher_similar() {
    // default threshold
    let matcher = RelationMatcher::new("a =* 'Heike'").unwrap();
    let options = MatcherOptions::default();

    assert!(matcher.is_match(&vec![sf(b"\x1faHeike")], &options));
    assert!(!matcher.is_match(&vec![sf(b"\x1faHeiko")], &options));

    // threshold set
    let matcher = RelationMatcher::new("a =* 'Heike'").unwrap();
    let options = MatcherOptions::new().strsim_threshold(700);

    assert!(matcher.is_match(&vec![sf(b"\x1faHeike")], &options));
    assert!(matcher.is_match(&vec![sf(b"\x1faHeiko")], &options));

    // case folding
    let matcher = RelationMatcher::new("a =* 'Heike'").unwrap();
    let options = MatcherOptions::new().case_ignore(true);

    assert!(matcher.is_match(&vec![sf(b"\x1faheike")], &options));

    // multiple subfields
    let matcher = RelationMatcher::new("a =* 'Heike'").unwrap();
    let options = MatcherOptions::default();

    assert!(matcher.is_match(&vec![sf(b"\x1faHeiko"), sf(b"\x1faHeike")], &options));
}

#[test]
fn regex_matcher() {
    // case sensitive
    let matcher = RegexMatcher::new("0 =~ '^ab'").unwrap();
    let options = MatcherOptions::default();

    assert!(matcher.is_match(&vec![sf(b"\x1f0abba")], &options));
    assert!(!matcher.is_match(&vec![sf(b"\x1f0ABBA")], &options));
    assert!(!matcher.is_match(&vec![sf(b"\x1faabba")], &options));

    // case insensitive
    let matcher = RegexMatcher::new("0 =~ '^ab'").unwrap();
    let options = MatcherOptions::new().case_ignore(true);

    assert!(matcher.is_match(&vec![sf(b"\x1f0abba")], &options));
    assert!(matcher.is_match(&vec![sf(b"\x1f0ABBA")], &options));

    // invert match
    let matcher = RegexMatcher::new("0 !~ '^ab'").unwrap();
    let options = MatcherOptions::default();

    assert!(matcher.is_match(&vec![sf(b"\x1f0baba")], &options));
    assert!(!matcher.is_match(&vec![sf(b"\x1f0abba")], &options));

    // multiple subfields
    let matcher = RegexMatcher::new("0 =~ '^ab'").unwrap();
    let options = MatcherOptions::default();

    assert!(matcher.is_match(&vec![sf(b"\x1f0foobar"), sf(b"\x1f0abba")], &options));

    assert!(!matcher.is_match(&vec![sf(b"\x1f0foo"), sf(b"\x1f0bar")], &options));
}

#[test]
fn in_matcher() {
    // case sensitive
    let matcher = InMatcher::new("0 in ['abc', 'def']").unwrap();
    let options = MatcherOptions::default();

    assert!(matcher.is_match(&vec![sf(b"\x1f0abc")], &options));
    assert!(matcher.is_match(&vec![sf(b"\x1f0def")], &options));
    assert!(!matcher.is_match(&vec![sf(b"\x1f0hij")], &options));
    assert!(!matcher.is_match(&vec![sf(b"\x1f0DEF")], &options));

    // case insensitive
    let matcher = InMatcher::new("0 in ['abc', 'def']").unwrap();
    let options = MatcherOptions::new().case_ignore(true);

    assert!(matcher.is_match(&vec![sf(b"\x1f0abc")], &options));
    assert!(matcher.is_match(&vec![sf(b"\x1f0ABC")], &options));

    // multiple subfields
    let matcher = InMatcher::new("0 in ['abc', 'def']").unwrap();
    let options = MatcherOptions::default();

    assert!(matcher.is_match(&vec![sf(b"\x1f0hij"), sf(b"\x1f0abc")], &options));

    let matcher = InMatcher::new("a in ['000', '999']").unwrap();
    let options = MatcherOptions::default();

    assert!(matcher.is_match(&vec![sf(b"\x1fa000"), sf(b"\x1fzxyz")], &options));

    let matcher = InMatcher::new("a not in ['000', '999']").unwrap();
    let options = MatcherOptions::default();

    assert!(!matcher.is_match(&vec![sf(b"\x1fa000"), sf(b"\x1fzxyz")], &options));
}

#[test]
fn cardinality_matcher_eq() {
    let matcher = CardinalityMatcher::new("#0 == 2").unwrap();
    let options = MatcherOptions::default();

    assert!(!matcher.is_match(&vec![sf(b"\x1fXabc")], &options));
    assert!(!matcher.is_match(&vec![sf(b"\x1f0abc")], &options));
    assert!(matcher.is_match(&vec![sf(b"\x1f0abc"), sf(b"\x1f0def")], &options));
    assert!(!matcher.is_match(
        &vec![sf(b"\x1f0abc"), sf(b"\x1f0def"), sf(b"\x1f0hij")],
        &options
    ));
}

#[test]
fn cardinality_matcher_ne() {
    let matcher = CardinalityMatcher::new("#0 != 2").unwrap();
    let options = MatcherOptions::default();

    assert!(matcher.is_match(&vec![sf(b"\x1fXabc")], &options));
    assert!(matcher.is_match(&vec![sf(b"\x1f0abc")], &options));
    assert!(!matcher.is_match(&vec![sf(b"\x1f0abc"), sf(b"\x1f0def")], &options));
    assert!(matcher.is_match(
        &vec![sf(b"\x1f0abc"), sf(b"\x1f0def"), sf(b"\x1f0hij")],
        &options
    ));
}

#[test]
fn cardinality_matcher_ge() {
    let matcher = CardinalityMatcher::new("#0 >= 2").unwrap();
    let options = MatcherOptions::default();

    assert!(!matcher.is_match(&vec![sf(b"\x1fXabc")], &options));
    assert!(!matcher.is_match(&vec![sf(b"\x1f0abc")], &options));
    assert!(matcher.is_match(&vec![sf(b"\x1f0abc"), sf(b"\x1f0def")], &options));
    assert!(matcher.is_match(
        &vec![sf(b"\x1f0abc"), sf(b"\x1f0def"), sf(b"\x1f0hij")],
        &options
    ));
}

#[test]
fn cardinality_matcher_gt() {
    let matcher = CardinalityMatcher::new("#0 > 2").unwrap();
    let options = MatcherOptions::default();

    assert!(!matcher.is_match(&vec![sf(b"\x1fXabc")], &options));
    assert!(!matcher.is_match(&vec![sf(b"\x1f0abc")], &options));
    assert!(!matcher.is_match(&vec![sf(b"\x1f0abc"), sf(b"\x1f0def")], &options));
    assert!(matcher.is_match(
        &vec![sf(b"\x1f0abc"), sf(b"\x1f0def"), sf(b"\x1f0hij")],
        &options
    ));
}

#[test]
fn cardinality_matcher_le() {
    let matcher = CardinalityMatcher::new("#0 <= 2").unwrap();
    let options = MatcherOptions::default();

    assert!(matcher.is_match(&vec![sf(b"\x1fXabc")], &options));
    assert!(matcher.is_match(&vec![sf(b"\x1f0abc")], &options));
    assert!(matcher.is_match(&vec![sf(b"\x1f0abc"), sf(b"\x1f0def")], &options));
    assert!(!matcher.is_match(
        &vec![sf(b"\x1f0abc"), sf(b"\x1f0def"), sf(b"\x1f0hij")],
        &options
    ));
}

#[test]
fn cardinality_matcher_lt() {
    let matcher = CardinalityMatcher::new("#0 < 2").unwrap();
    let options = MatcherOptions::default();

    assert!(matcher.is_match(&vec![sf(b"\x1fXabc")], &options));
    assert!(matcher.is_match(&vec![sf(b"\x1f0abc")], &options));
    assert!(!matcher.is_match(&vec![sf(b"\x1f0abc"), sf(b"\x1f0def")], &options));
    assert!(!matcher.is_match(
        &vec![sf(b"\x1f0abc"), sf(b"\x1f0def"), sf(b"\x1f0hij")],
        &options
    ));
}

#[test]
fn subfield_matcher_not() {
    // group
    let matcher = SubfieldMatcher::new("!(a == 'bcd')").unwrap();
    let options = MatcherOptions::default();

    assert!(!matcher.is_match(&vec![sf(b"\x1fabcd")], &options));
    assert!(matcher.is_match(&vec![sf(b"\x1fbcde")], &options));

    // exists
    let matcher = SubfieldMatcher::new("!a?").unwrap();
    let options = MatcherOptions::default();

    assert!(!matcher.is_match(&vec![sf(b"\x1fabcd")], &options));
    assert!(matcher.is_match(&vec![sf(b"\x1fbcde")], &options));

    // not
    let matcher = SubfieldMatcher::new("!!!(a == 'bcd')").unwrap();
    let options = MatcherOptions::default();

    assert!(!matcher.is_match(&vec![sf(b"\x1fabcd")], &options));
    assert!(matcher.is_match(&vec![sf(b"\x1fbcde")], &options));
}

#[test]
fn subfield_matcher_group() {
    // and
    let matcher = SubfieldMatcher::new("(a =^ 'ab' && a =$ 'ba')").unwrap();
    let options = MatcherOptions::default();

    assert!(matcher.is_match(&vec![sf(b"\x1faabba")], &options));
    assert!(!matcher.is_match(&vec![sf(b"\x1fbcde")], &options));

    // or
    let matcher = SubfieldMatcher::new("(a =^ 'ab' || a =^ 'ba')").unwrap();
    let options = MatcherOptions::default();

    assert!(matcher.is_match(&vec![sf(b"\x1faabba")], &options));
    assert!(matcher.is_match(&vec![sf(b"\x1fababa")], &options));

    // singleton
    let matcher = SubfieldMatcher::new("(a == 'bcd')").unwrap();
    let options = MatcherOptions::default();

    assert!(matcher.is_match(&vec![sf(b"\x1fabcd")], &options));
    assert!(!matcher.is_match(&vec![sf(b"\x1fbcde")], &options));

    // nested group
    let matcher = SubfieldMatcher::new("(((a == 'bcd')))").unwrap();
    let options = MatcherOptions::default();

    assert!(matcher.is_match(&vec![sf(b"\x1fabcd")], &options));

    // not
    let matcher = SubfieldMatcher::new("(!(a == 'bcd'))").unwrap();
    let options = MatcherOptions::default();

    assert!(matcher.is_match(&vec![sf(b"\x1fhijk")], &options));
}

#[test]
fn subfield_matcher_or() {
    // singleton
    let matcher = SubfieldMatcher::new("a =^ 'ab' || a =^ 'bc' || a =^ 'cd'").unwrap();
    let options = MatcherOptions::default();

    assert!(matcher.is_match(&vec![sf(b"\x1faabab")], &options));
    assert!(matcher.is_match(&vec![sf(b"\x1fabcbc")], &options));
    assert!(matcher.is_match(&vec![sf(b"\x1facdcd")], &options));
    assert!(!matcher.is_match(&vec![sf(b"\x1fadede")], &options));
    assert!(!matcher.is_match(&vec![sf(b"\x1fbabab")], &options));

    // group
    let matcher = SubfieldMatcher::new("a =^ 'ab' || (a =^ 'bc' && a =$ 'cd')").unwrap();
    let options = MatcherOptions::default();

    assert!(matcher.is_match(&vec![sf(b"\x1faabab")], &options));
    assert!(matcher.is_match(&vec![sf(b"\x1fabccd")], &options));
    assert!(!matcher.is_match(&vec![sf(b"\x1fabcbc")], &options));

    // and
    let matcher = SubfieldMatcher::new("a =^ 'ab' || a =^ 'bc' && a =$ 'cd'").unwrap();
    let options = MatcherOptions::default();

    assert!(matcher.is_match(&vec![sf(b"\x1faabab")], &options));
    assert!(matcher.is_match(&vec![sf(b"\x1faabcd")], &options));
    assert!(matcher.is_match(&vec![sf(b"\x1fabccd")], &options));
    assert!(!matcher.is_match(&vec![sf(b"\x1fabcbc")], &options));

    // not
    let matcher = SubfieldMatcher::new("a == 'bcd' || !(a != 'def')").unwrap();
    let options = MatcherOptions::default();

    assert!(matcher.is_match(&vec![sf(b"\x1fabcd")], &options));
    assert!(matcher.is_match(&vec![sf(b"\x1fadef")], &options));
    assert!(!matcher.is_match(&vec![sf(b"\x1fahij")], &options));

    // boolean op precedence
    let matcher = SubfieldMatcher::new("(a =^ 'ab' || a =^ 'bc') && a =$ 'cd'").unwrap();
    let options = MatcherOptions::default();

    assert!(!matcher.is_match(&vec![sf(b"\x1faabab")], &options));
    assert!(matcher.is_match(&vec![sf(b"\x1faabcd")], &options));
    assert!(matcher.is_match(&vec![sf(b"\x1fabccd")], &options));
    assert!(!matcher.is_match(&vec![sf(b"\x1fabcbc")], &options));

    // multiple subfields
    let matcher = SubfieldMatcher::new("#a == 2 || a =^ 'ab'").unwrap();
    let options = MatcherOptions::default();

    assert!(matcher.is_match(&vec![sf(b"\x1fadef"), sf(b"\x1fahij")], &options));

    assert!(matcher.is_match(
        &vec![sf(b"\x1fadef"), sf(b"\x1fahij"), sf(b"\x1faabc")],
        &options
    ));
}

#[test]
fn subfield_matcher_and() {
    // singleton
    let matcher = SubfieldMatcher::new("#a == 1 && a =^ 'ab' && a =$ 'ba'").unwrap();
    let options = MatcherOptions::default();

    assert!(matcher.is_match(&vec![sf(b"\x1faabba")], &options));
    assert!(!matcher.is_match(&vec![sf(b"\x1fababa")], &options));
    assert!(!matcher.is_match(&vec![sf(b"\x1faabba"), sf(b"\x1fababa")], &options));

    // group
    let matcher = SubfieldMatcher::new("#a == 1 && (a =^ 'ab' || a =^ 'ba')").unwrap();
    let options = MatcherOptions::default();

    assert!(matcher.is_match(&vec![sf(b"\x1faabba")], &options));
    assert!(matcher.is_match(&vec![sf(b"\x1fababa")], &options));
    assert!(!matcher.is_match(&vec![sf(b"\x1faabba"), sf(b"\x1fababa")], &options));

    // not
    let matcher = SubfieldMatcher::new("#a == 1 && !(a =^ 'ab' || a =^ 'ba')").unwrap();
    let options = MatcherOptions::default();

    assert!(!matcher.is_match(&vec![sf(b"\x1faabba")], &options));
    assert!(!matcher.is_match(&vec![sf(b"\x1fababa")], &options));
    assert!(matcher.is_match(&vec![sf(b"\x1facbcb")], &options));
}
