use pica_matcher::{Field, MatcherOptions, Record, RecordMatcher, Subfield};

fn sf(data: &[u8]) -> Subfield {
    Subfield::from_bytes(data).unwrap()
}

fn record_003 () -> Record {
    Record::new(vec![Field::new(b"003@".to_vec(), None, vec![sf(b"\x1f0abc")])])
}

fn record_012() -> Record {
    Record::new(vec![Field::new(
        b"012A".to_vec(),
        Some(b"01".to_vec()),
        vec![sf(b"\x1faxyz")],
    )])
}

#[test]
fn record_matcher_new() {
    let matcher = RecordMatcher::new("003@?").unwrap();
    assert!(matcher.is_match(&record_003(), &MatcherOptions::default()));
    assert!(!matcher.is_match(&record_012(), &MatcherOptions::default()));

    assert!(RecordMatcher::new("003@!!").is_err());
    assert!(RecordMatcher::new("").is_err());
}

#[test]
fn record_matcher_subfield_condition() {
    let matcher = RecordMatcher::new("003@{0 == 'abc'}").unwrap();
    let options = MatcherOptions::default();
    assert!(matcher.is_match(&record_003(), &options));

    let matcher = RecordMatcher::new("003@{0 == 'xyz'}").unwrap();
    assert!(!matcher.is_match(&record_003(), &options));

    // a bare tag matches regardless of content
    let matcher = RecordMatcher::new("003@").unwrap();
    assert!(matcher.is_match(&record_003(), &options));
}

#[test]
fn record_matcher_tag_pattern() {
    let options = MatcherOptions::default();

    let matcher = RecordMatcher::new(".03@?").unwrap();
    assert!(matcher.is_match(&record_003(), &options));

    let matcher = RecordMatcher::new("0[04]3@?").unwrap();
    assert!(matcher.is_match(&record_003(), &options));

    let matcher = RecordMatcher::new("0[14]3@?").unwrap();
    assert!(!matcher.is_match(&record_003(), &options));
}

#[test]
fn record_matcher_occurrence() {
    let options = MatcherOptions::default();

    let matcher = RecordMatcher::new("012A/01?").unwrap();
    assert!(matcher.is_match(&record_012(), &options));

    let matcher = RecordMatcher::new("012A/02?").unwrap();
    assert!(!matcher.is_match(&record_012(), &options));

    let matcher = RecordMatcher::new("012A/*?").unwrap();
    assert!(matcher.is_match(&record_012(), &options));

    // without an occurrence the matcher asks for its absence
    let matcher = RecordMatcher::new("012A?").unwrap();
    assert!(!matcher.is_match(&record_012(), &options));
}

#[test]
fn record_matcher_composition() {
    let options = MatcherOptions::default();

    let lhs = RecordMatcher::new("003@?").unwrap();
    let rhs = RecordMatcher::new("012A/01?").unwrap();
    let both = lhs.bitand(rhs);
    assert_eq!(both.to_string(), "(003@?) && (012A/01?)");
    assert!(!both.is_match(&record_003(), &options));

    let lhs = RecordMatcher::new("003@?").unwrap();
    let rhs = RecordMatcher::new("012A/01?").unwrap();
    let either = lhs.bitor(rhs);
    assert_eq!(either.to_string(), "(003@?) || (012A/01?)");
    assert!(either.is_match(&record_003(), &options));
    assert!(either.is_match(&record_012(), &options));

    let inner = RecordMatcher::new("003@?").unwrap();
    let negated = inner.not();
    assert_eq!(negated.to_string(), "!(003@?)");
    assert!(!negated.is_match(&record_003(), &options));
    assert!(negated.is_match(&record_012(), &options));
}

#[test]
fn record_matcher_display_round_trip() {
    let options = MatcherOptions::default();
    let text = "003@?  &&  !(012A/01?)";
    let matcher = RecordMatcher::new(text).unwrap();
    assert_eq!(matcher.to_string(), text);

    let reparsed = RecordMatcher::new(&matcher.to_string()).unwrap();
    for record in [record_003(), record_012()] {
        assert_eq!(
            matcher.is_match(&record, &options),
            reparsed.is_match(&record, &options)
        );
    }

    // the synthesized text of a composition is parseable and equivalent
    let lhs = RecordMatcher::new("003@?").unwrap();
    let rhs = RecordMatcher::new("012A/01?").unwrap();
    let both = lhs.bitand(rhs);
    let reparsed = RecordMatcher::new(&both.to_string()).unwrap();
    for record in [record_003(), record_012()] {
        assert_eq!(
            both.is_match(&record, &options),
            reparsed.is_match(&record, &options)
        );
    }
}

#[test]
fn record_matcher_field_algebra() {
    let options = MatcherOptions::default();
    let record = Record::new(vec![
        Field::new(b"003@".to_vec(), None, vec![sf(b"\x1f0abc")]),
        Field::new(b"012A".to_vec(), None, vec![sf(b"\x1faxyz")]),
    ]);

    let matcher = RecordMatcher::new("003@? && 012A?").unwrap();
    assert!(matcher.is_match(&record, &options));

    let matcher = RecordMatcher::new("003@? && 044H?").unwrap();
    assert!(!matcher.is_match(&record, &options));

    let matcher = RecordMatcher::new("044H? || 012A?").unwrap();
    assert!(matcher.is_match(&record, &options));

    let matcher = RecordMatcher::new("!044H?").unwrap();
    assert!(matcher.is_match(&record, &options));

    let matcher = RecordMatcher::new("(003@? || 044H?) && 012A{a?}").unwrap();
    assert!(matcher.is_match(&record, &options));
}
