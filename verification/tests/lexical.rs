use pica_matcher::common::{parse_relational_op_str, parse_relational_op_usize, parse_string};
use pica_matcher::RelationalOp;

#[test]
fn test_parse_relational_op_str() {
    let input = b"==".to_vec();
    assert_eq!(
        parse_relational_op_str(&input, 0),
        Some((RelationalOp::Eq, input.len()))
    );
    let input = b"!=".to_vec();
    assert_eq!(
        parse_relational_op_str(&input, 0),
        Some((RelationalOp::Ne, input.len()))
    );
    let input = b"=^".to_vec();
    assert_eq!(
        parse_relational_op_str(&input, 0),
        Some((RelationalOp::StartsWith, input.len()))
    );
    let input = b"=$".to_vec();
    assert_eq!(
        parse_relational_op_str(&input, 0),
        Some((RelationalOp::EndsWith, input.len()))
    );
    let input = b"=*".to_vec();
    assert_eq!(
        parse_relational_op_str(&input, 0),
        Some((RelationalOp::Similar, input.len()))
    );
}

#[test]
fn relational_op_tokens() {
    assert_eq!(RelationalOp::Eq.token(), "==");
    assert_eq!(RelationalOp::Ne.token(), "!=");
    assert_eq!(RelationalOp::Gt.token(), ">");
    assert_eq!(RelationalOp::Ge.token(), ">=");
    assert_eq!(RelationalOp::Lt.token(), "<");
    assert_eq!(RelationalOp::Le.token(), "<=");
    assert_eq!(RelationalOp::StartsWith.token(), "=^");
    assert_eq!(RelationalOp::EndsWith.token(), "=$");
    assert_eq!(RelationalOp::Similar.token(), "=*");
}

#[test]
fn test_parse_relational_op_usize() {
    assert_eq!(
        parse_relational_op_usize(&b"==".to_vec(), 0),
        Some((RelationalOp::Eq, 2))
    );
    assert_eq!(
        parse_relational_op_usize(&b"!=".to_vec(), 0),
        Some((RelationalOp::Ne, 2))
    );
    assert_eq!(
        parse_relational_op_usize(&b">=".to_vec(), 0),
        Some((RelationalOp::Ge, 2))
    );
    assert_eq!(
        parse_relational_op_usize(&b">".to_vec(), 0),
        Some((RelationalOp::Gt, 1))
    );
    assert_eq!(
        parse_relational_op_usize(&b"<=".to_vec(), 0),
        Some((RelationalOp::Le, 2))
    );
    assert_eq!(
        parse_relational_op_usize(&b"<".to_vec(), 0),
        Some((RelationalOp::Lt, 1))
    );
}

#[test]
fn string_literal_escapes() {
    // named escapes
    assert_eq!(
        parse_string(&b"'a\\nb'".to_vec(), 0),
        Some((b"a\nb".to_vec(), 6))
    );
    assert_eq!(
        parse_string(&b"'\\t\\r\\\\\\/'".to_vec(), 0),
        Some((b"\t\r\\/".to_vec(), 10))
    );
    // the quote character itself can be escaped
    assert_eq!(
        parse_string(&b"'a\\'b'".to_vec(), 0),
        Some((b"a'b".to_vec(), 6))
    );
    // the other quote character is literal
    assert_eq!(
        parse_string(&b"'a\"b'".to_vec(), 0),
        Some((b"a\"b".to_vec(), 5))
    );
    // a backslash followed by whitespace contributes nothing
    assert_eq!(
        parse_string(&b"'a\\  b'".to_vec(), 0),
        Some((b"ab".to_vec(), 7))
    );
    // malformed escape and unterminated literal
    assert_eq!(parse_string(&b"'a\\qb'".to_vec(), 0), None);
    assert_eq!(parse_string(&b"'abc".to_vec(), 0), None);
}

#[test]
fn common_test_parse_string() {
    assert_eq!(
        parse_string(&b"'abc'".to_vec(), 0),
        Some((b"abc".to_vec(), 5))
    );
    assert_eq!(
        parse_string(&b"'\tc'".to_vec(), 0),
        Some((b"\tc".to_vec(), 4))
    );
    assert_eq!(
        parse_string(&b"\"abc\"".to_vec(), 0),
        Some((b"abc".to_vec(), 5))
    );
    assert_eq!(
        parse_string(&b"\"\tc\"".to_vec(), 0),
        Some((b"\tc".to_vec(), 4))
    );
}
