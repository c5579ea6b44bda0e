use pica_matcher::fold::fold_vec;
use pica_matcher::error::ParsePicaError;
use pica_matcher::pipeline::{
    dedup_values, freq_row_precedes, freq_row_stops, lex_less, record_stats, render_template,
    starts_new_chunk, SliceBounds,
};
use pica_matcher::similarity::{edit_distance_of, similar};
use pica_matcher::subfield_matcher::{
    CardinalityMatcher, InMatcher, RegexMatcher, RelationMatcher, SubfieldMatcher,
};
use pica_matcher::tag_matcher::TagMatcher;
use pica_matcher::occurrence_matcher::OccurrenceMatcher;
use pica_matcher::{Field, MatcherOptions, ParseMatcherError, Record, RecordMatcher, Subfield};

fn sf(data: &[u8]) -> Subfield {
    Subfield::from_bytes(data).unwrap()
}

#[test]
fn precedence_of_and_over_or() {
    // the unparenthesised text behaves exactly like its grouped reading
    let plain = SubfieldMatcher::new("a =^ 'ab' || a =^ 'bc' && a =$ 'cd'").unwrap();
    let grouped = SubfieldMatcher::new("a =^ 'ab' || (a =^ 'bc' && a =$ 'cd')").unwrap();
    let options = MatcherOptions::default();
    for value in [
        &b"\x1faabab"[..],
        b"\x1faabcd",
        b"\x1fabccd",
        b"\x1fabcbc",
        b"\x1fadede",
    ] {
        let subs = vec![sf(value)];
        assert_eq!(
            plain.is_match(&subs, &options),
            grouped.is_match(&subs, &options)
        );
    }
}

#[test]
fn in_negation_asymmetry() {
    // with one matching and one non-matching code-a value, `in` and
    // `not in` both hold of the same collection
    let subs = vec![sf(b"\x1fa000"), sf(b"\x1fawxy")];
    let options = MatcherOptions::default();

    let positive = InMatcher::new("a in ['000']").unwrap();
    let negative = InMatcher::new("a not in ['000']").unwrap();
    assert!(positive.is_match(&subs, &options));
    assert!(negative.is_match(&subs, &options));
}

#[test]
fn case_folding_example() {
    let matcher = RelationMatcher::new("0 == 'abc'").unwrap();
    let subs = vec![sf(b"\x1f0ABC")];
    assert!(matcher.is_match(&subs, &MatcherOptions::new().case_ignore(true)));
    assert!(!matcher.is_match(&subs, &MatcherOptions::default()));
}

#[test]
fn similarity_threshold_monotonic() {
    let matcher = RelationMatcher::new("a =* 'Heike'").unwrap();
    let heiko = vec![sf(b"\x1faHeiko")];

    // not a match at the high default, a match from 0.8 downwards
    assert!(!matcher.is_match(&heiko, &MatcherOptions::default()));
    assert!(matcher.is_match(&heiko, &MatcherOptions::new().strsim_threshold(800)));
    assert!(matcher.is_match(&heiko, &MatcherOptions::new().strsim_threshold(700)));
    assert!(matcher.is_match(&heiko, &MatcherOptions::new().strsim_threshold(0)));
}

#[test]
fn edit_distance_values() {
    assert_eq!(edit_distance_of(&b"kitten".to_vec(), &b"sitting".to_vec()), 3);
    assert_eq!(edit_distance_of(&b"Heike".to_vec(), &b"Heiko".to_vec()), 1);
    assert_eq!(edit_distance_of(&b"".to_vec(), &b"abc".to_vec()), 3);
    assert_eq!(edit_distance_of(&b"abc".to_vec(), &b"".to_vec()), 3);
    assert_eq!(edit_distance_of(&b"same".to_vec(), &b"same".to_vec()), 0);
    // two empty strings are fully similar at any threshold
    assert!(similar(&b"".to_vec(), &b"".to_vec(), 1000));
}

#[test]
fn fold_is_ascii_lower_case() {
    assert_eq!(fold_vec(&b"AbC12[]".to_vec(), true), b"abc12[]".to_vec());
    assert_eq!(fold_vec(&b"AbC12[]".to_vec(), false), b"AbC12[]".to_vec());
}

#[test]
fn invalid_matcher_texts() {
    assert!(RegexMatcher::new("0 =~ '[ab'").is_err());
    assert!(RelationMatcher::new("0 == abc").is_err());
    assert!(SubfieldMatcher::new("a? &&").is_err());
    assert!(SubfieldMatcher::new("(a?").is_err());
    assert!(CardinalityMatcher::new("#[ab] == 2").is_err());
    assert!(CardinalityMatcher::new("#a == 99999999999999999999999999").is_err());
    assert!(SubfieldMatcher::new("a? trailing").is_err());
}

#[test]
fn error_variants_carry_text() {
    let err = SubfieldMatcher::new("a? &&").unwrap_err();
    assert!(matches!(err, ParseMatcherError::InvalidSubfieldMatcher(t) if t == "a? &&"));

    let err = TagMatcher::new("03@").unwrap_err();
    assert!(matches!(err, ParseMatcherError::InvalidFieldMatcher(t) if t == "03@"));

    let err = RecordMatcher::new("003@!!").unwrap_err();
    assert!(matches!(err, ParseMatcherError::InvalidRecordMatcher(t) if t == "003@!!"));
}

#[test]
fn subfield_from_bytes_errors() {
    assert_eq!(Subfield::from_bytes(b""), Err(ParsePicaError::InvalidSubfield));
    assert_eq!(Subfield::from_bytes(b"\x1f"), Err(ParsePicaError::InvalidSubfield));
    assert_eq!(Subfield::from_bytes(b"0abc"), Err(ParsePicaError::InvalidSubfield));
    assert_eq!(
        Subfield::from_bytes(b"\x1f0ab\x1ec"),
        Err(ParsePicaError::InvalidSubfield)
    );
    let good = Subfield::from_bytes(b"\x1f0abc").unwrap();
    assert_eq!(good.code, b'0');
    assert_eq!(good.value, b"abc".to_vec());
}

#[test]
fn tag_matcher_standalone() {
    let matcher = TagMatcher::new("0[04]3@").unwrap();
    assert!(matcher.is_match(&b"003@".to_vec()));
    assert!(matcher.is_match(&b"043@".to_vec()));
    assert!(!matcher.is_match(&b"013@".to_vec()));
    assert!(!matcher.is_match(&b"003".to_vec()));

    let matcher = TagMatcher::new("...@").unwrap();
    assert!(matcher.is_match(&b"012@".to_vec()));
    assert!(!matcher.is_match(&b"012A".to_vec()));

    assert!(TagMatcher::new("03@").is_err());
    assert!(TagMatcher::new("003@x").is_err());
}

#[test]
fn occurrence_matcher_standalone() {
    let matcher = OccurrenceMatcher::new("/01").unwrap();
    assert!(matcher.is_match(&Some(b"01".to_vec())));
    assert!(!matcher.is_match(&Some(b"02".to_vec())));
    assert!(!matcher.is_match(&None));

    let matcher = OccurrenceMatcher::new("/*").unwrap();
    assert!(matcher.is_match(&Some(b"17".to_vec())));
    assert!(matcher.is_match(&None));

    let matcher = OccurrenceMatcher::new("").unwrap();
    assert!(matcher.is_match(&None));
    assert!(!matcher.is_match(&Some(b"01".to_vec())));

    assert!(OccurrenceMatcher::new("/1").is_err());
}

#[test]
fn matcher_options_builder() {
    let options = MatcherOptions::new();
    assert!(!options.case_ignore);
    assert_eq!(options.strsim_threshold, 850);

    let options = MatcherOptions::default().case_ignore(true).strsim_threshold(750);
    assert!(options.case_ignore);
    assert_eq!(options.strsim_threshold, 750);
}

#[test]
fn slice_bounds_decisions() {
    let bounds = SliceBounds::from_start_end(2, 4);
    assert!(!bounds.keep(1));
    assert!(bounds.keep(2));
    assert!(bounds.keep(3));
    assert!(!bounds.keep(4));
    assert!(bounds.past_end(4));

    let mut bounds = SliceBounds::from_start_length(1, 2);
    assert_eq!(bounds.end, 3);
    bounds.on_invalid();
    assert_eq!(bounds.end, 4);

    let mut fixed = SliceBounds::from_start_end(0, 3);
    fixed.on_invalid();
    assert_eq!(fixed.end, 3);

    let open = SliceBounds::from_start(5);
    assert!(open.keep(1000000));
    assert!(!open.keep(4));
}

#[test]
fn split_chunk_decisions() {
    assert!(!starts_new_chunk(0, 500));
    assert!(starts_new_chunk(500, 500));
    assert!(!starts_new_chunk(501, 500));
    assert!(starts_new_chunk(1000, 500));
}

#[test]
fn render_template_values() {
    assert_eq!(
        render_template(&b"{}.dat".to_vec(), &b"Tp1".to_vec()),
        b"Tp1.dat".to_vec()
    );
    assert_eq!(
        render_template(&b"{}-{}.dat.gz".to_vec(), &b"7".to_vec()),
        b"7-7.dat.gz".to_vec()
    );
    assert_eq!(render_template(&b"plain".to_vec(), &b"x".to_vec()), b"plain".to_vec());
}

#[test]
fn record_stats_totals() {
    let record = Record::new(vec![
        Field::new(b"003@".to_vec(), None, vec![sf(b"\x1f0abc")]),
        Field::new(b"012A".to_vec(), None, vec![sf(b"\x1faxyz"), sf(b"\x1fbuvw")]),
    ]);
    let other = Record::new(vec![Field::new(b"044H".to_vec(), None, vec![])]);
    let (records, fields, subfields) = record_stats(&vec![record, other]);
    assert_eq!(records, 2);
    assert_eq!(fields, 3);
    assert_eq!(subfields, 3);
}

#[test]
fn frequency_ordering() {
    let a = b"abc".to_vec();
    let b = b"abd".to_vec();
    assert!(lex_less(&a, &b));
    assert!(!lex_less(&b, &a));
    assert!(!lex_less(&a, &a));
    assert!(lex_less(&b"ab".to_vec(), &b"abc".to_vec()));

    // descending counts first; ties by ascending key
    assert!(freq_row_precedes(&a, 5, &b, 3, false));
    assert!(!freq_row_precedes(&a, 3, &b, 5, false));
    assert!(freq_row_precedes(&a, 5, &b, 5, false));

    // ascending counts in reverse mode
    assert!(freq_row_precedes(&a, 3, &b, 5, true));
    assert!(freq_row_precedes(&a, 5, &b, 5, true));

    assert!(freq_row_stops(10, 10, 5, 0));
    assert!(!freq_row_stops(9, 10, 5, 0));
    assert!(!freq_row_stops(9, 0, 5, 0));
    assert!(freq_row_stops(0, 0, 5, 5));
}

#[test]
fn partition_value_dedup() {
    let values = vec![
        b"Tp1".to_vec(),
        b"Tb1".to_vec(),
        b"Tp1".to_vec(),
        b"Ts1".to_vec(),
        b"Tb1".to_vec(),
    ];
    let distinct = dedup_values(&values);
    assert_eq!(distinct, vec![b"Tp1".to_vec(), b"Tb1".to_vec(), b"Ts1".to_vec()]);
}
