use pica_matcher::error::ParsePicaError;
use pica_matcher::filter::{
    parse_boolean_expr, parse_comparison_expr, BooleanOp, ComparisonOp, Filter,
};
use pica_matcher::common::parse_string;
use pica_matcher::Path;

#[test]
fn filter_test_parse_comparison_expr() {
    let input = b"003@.0 == '123456789X'".to_vec();
    let path = Path::new("003@", None, '0', None);
    let value = b"123456789X".to_vec();
    let expected = Filter::ComparisonExpr(path, ComparisonOp::Eq, value);
    assert_eq!(parse_comparison_expr(&input, 0), Some((expected, input.len())));

    let input = b"003@.0 != '123456789X'".to_vec();
    let path = Path::new("003@", None, '0', None);
    let value = b"123456789X".to_vec();
    let expected = Filter::ComparisonExpr(path, ComparisonOp::Ne, value);
    assert_eq!(parse_comparison_expr(&input, 0), Some((expected, input.len())));

    let input = b"028@.d[0] == 'abc'".to_vec();
    let path = Path::new("028@", None, 'd', Some(0));
    let value = b"abc".to_vec();
    let expected = Filter::ComparisonExpr(path, ComparisonOp::Eq, value);
    assert_eq!(parse_comparison_expr(&input, 0), Some((expected, input.len())));

    let input = b"002@.0 =~ 'Tp[12]'".to_vec();
    let path = Path::new("002@", None, '0', None);
    let value = b"Tp[12]".to_vec();
    let expected = Filter::ComparisonExpr(path, ComparisonOp::Re, value);
    assert_eq!(parse_comparison_expr(&input, 0), Some((expected, input.len())));

    let input = b"002@.0 =^ 'Tp'".to_vec();
    let path = Path::new("002@", None, '0', None);
    let value = b"Tp".to_vec();
    let expected = Filter::ComparisonExpr(path, ComparisonOp::StartsWith, value);
    assert_eq!(parse_comparison_expr(&input, 0), Some((expected, input.len())));

    let input = b"002@.0 =$ 'Tp'".to_vec();
    let path = Path::new("002@", None, '0', None);
    let value = b"Tp".to_vec();
    let expected = Filter::ComparisonExpr(path, ComparisonOp::EndsWith, value);
    assert_eq!(parse_comparison_expr(&input, 0), Some((expected, input.len())));
}

#[test]
fn filter_test_parse_boolean_expr() {
    let term1 = Filter::ComparisonExpr(
        Path::new("003@", None, '0', None),
        ComparisonOp::Eq,
        b"123456789X".to_vec(),
    );
    let term2 = Filter::ComparisonExpr(
        Path::new("002@", None, '0', None),
        ComparisonOp::Eq,
        b"Tp1".to_vec(),
    );
    let term3 = Filter::ComparisonExpr(
        Path::new("012A", None, '0', None),
        ComparisonOp::Ne,
        b"foo".to_vec(),
    );
    let expected = Filter::BooleanExpr(
        Box::new(Filter::BooleanExpr(
            Box::new(term1),
            BooleanOp::Or,
            Box::new(term2),
        )),
        BooleanOp::And,
        Box::new(term3),
    );
    let input = b"003@.0 == '123456789X' || 002@.0 == 'Tp1' && 012A.0 != 'foo'".to_vec();
    assert_eq!(parse_boolean_expr(&input, 0), Some((expected, input.len())));

    let term1 = Filter::ComparisonExpr(
        Path::new("003@", None, '0', None),
        ComparisonOp::Eq,
        b"123456789X".to_vec(),
    );
    let term2 = Filter::ComparisonExpr(
        Path::new("002@", None, '0', None),
        ComparisonOp::Eq,
        b"Tp1".to_vec(),
    );
    let term3 = Filter::ComparisonExpr(
        Path::new("012A", None, '0', None),
        ComparisonOp::Ne,
        b"foo".to_vec(),
    );
    let expected = Filter::BooleanExpr(
        Box::new(Filter::GroupedExpr(Box::new(Filter::BooleanExpr(
            Box::new(term1),
            BooleanOp::Or,
            Box::new(term2),
        )))),
        BooleanOp::And,
        Box::new(term3),
    );
    let input = b"(003@.0 == '123456789X' || 002@.0 == 'Tp1') && 012A.0 != 'foo'".to_vec();
    assert_eq!(parse_boolean_expr(&input, 0), Some((expected, input.len())));

    let term1 = Filter::ComparisonExpr(
        Path::new("003@", None, '0', None),
        ComparisonOp::Eq,
        b"123456789X".to_vec(),
    );
    let term2 = Filter::ComparisonExpr(
        Path::new("002@", None, '0', None),
        ComparisonOp::Eq,
        b"Tp1".to_vec(),
    );
    let term3 = Filter::ComparisonExpr(
        Path::new("012A", None, '0', None),
        ComparisonOp::Ne,
        b"foo".to_vec(),
    );
    let expected = Filter::BooleanExpr(
        Box::new(term1),
        BooleanOp::Or,
        Box::new(Filter::GroupedExpr(Box::new(Filter::BooleanExpr(
            Box::new(term2),
            BooleanOp::And,
            Box::new(term3),
        )))),
    );
    let input = b"003@.0 == '123456789X' || (002@.0 == 'Tp1' && 012A.0 != 'foo')".to_vec();
    assert_eq!(parse_boolean_expr(&input, 0), Some((expected, input.len())));
}

#[test]
fn test_from_str() {
    let filter = Filter::from_str("003@.0[0]?").unwrap();
    assert_eq!(
        filter,
        Filter::ExistenceExpr(Path::new("003@", None, '0', Some(0)))
    );

    let result = Filter::from_str("003@.0!");
    assert_eq!(result.err(), Some(ParsePicaError::InvalidFilter));
}

#[test]
fn parser_test_parse_comparison_expr() {
    let input = b"003@.0 == '123456789X'".to_vec();
    let path = Path::new("003@", None, '0', None);
    let value = b"123456789X".to_vec();
    let expected = Filter::ComparisonExpr(path, ComparisonOp::Eq, value);
    assert_eq!(parse_comparison_expr(&input, 0), Some((expected, input.len())));

    let input = b"003@.0 != '123456789X'".to_vec();
    let path = Path::new("003@", None, '0', None);
    let value = b"123456789X".to_vec();
    let expected = Filter::ComparisonExpr(path, ComparisonOp::Ne, value);
    assert_eq!(parse_comparison_expr(&input, 0), Some((expected, input.len())));

    let input = b"028@.d[0] == 'abc'".to_vec();
    let path = Path::new("028@", None, 'd', Some(0));
    let value = b"abc".to_vec();
    let expected = Filter::ComparisonExpr(path, ComparisonOp::Eq, value);
    assert_eq!(parse_comparison_expr(&input, 0), Some((expected, input.len())));

    let input = b"002@.0 =~ 'Tp[12]'".to_vec();
    let path = Path::new("002@", None, '0', None);
    let value = b"Tp[12]".to_vec();
    let expected = Filter::ComparisonExpr(path, ComparisonOp::Re, value);
    assert_eq!(parse_comparison_expr(&input, 0), Some((expected, input.len())));

    let input = b"002@.0 =^ 'Tp'".to_vec();
    let path = Path::new("002@", None, '0', None);
    let value = b"Tp".to_vec();
    let expected = Filter::ComparisonExpr(path, ComparisonOp::StartsWith, value);
    assert_eq!(parse_comparison_expr(&input, 0), Some((expected, input.len())));

    let input = b"002@.0 =$ 'Tp'".to_vec();
    let path = Path::new("002@", None, '0', None);
    let value = b"Tp".to_vec();
    let expected = Filter::ComparisonExpr(path, ComparisonOp::EndsWith, value);
    assert_eq!(parse_comparison_expr(&input, 0), Some((expected, input.len())));
}

#[test]
fn parser_test_parse_boolean_expr() {
    let term1 = Filter::ComparisonExpr(
        Path::new("003@", None, '0', None),
        ComparisonOp::Eq,
        b"123456789X".to_vec(),
    );
    let term2 = Filter::ComparisonExpr(
        Path::new("002@", None, '0', None),
        ComparisonOp::Eq,
        b"Tp1".to_vec(),
    );
    let term3 = Filter::ComparisonExpr(
        Path::new("012A", None, '0', None),
        ComparisonOp::Ne,
        b"foo".to_vec(),
    );
    let expected = Filter::BooleanExpr(
        Box::new(Filter::BooleanExpr(
            Box::new(term1),
            BooleanOp::Or,
            Box::new(term2),
        )),
        BooleanOp::And,
        Box::new(term3),
    );
    let input = b"003@.0 == '123456789X' || 002@.0 == 'Tp1' && 012A.0 != 'foo'".to_vec();
    assert_eq!(parse_boolean_expr(&input, 0), Some((expected, input.len())));

    let term1 = Filter::ComparisonExpr(
        Path::new("003@", None, '0', None),
        ComparisonOp::Eq,
        b"123456789X".to_vec(),
    );
    let term2 = Filter::ComparisonExpr(
        Path::new("002@", None, '0', None),
        ComparisonOp::Eq,
        b"Tp1".to_vec(),
    );
    let term3 = Filter::ComparisonExpr(
        Path::new("012A", None, '0', None),
        ComparisonOp::Ne,
        b"foo".to_vec(),
    );
    let expected = Filter::BooleanExpr(
        Box::new(Filter::GroupedExpr(Box::new(Filter::BooleanExpr(
            Box::new(term1),
            BooleanOp::Or,
            Box::new(term2),
        )))),
        BooleanOp::And,
        Box::new(term3),
    );
    let input = b"(003@.0 == '123456789X' || 002@.0 == 'Tp1') && 012A.0 != 'foo'".to_vec();
    assert_eq!(parse_boolean_expr(&input, 0), Some((expected, input.len())));

    let term1 = Filter::ComparisonExpr(
        Path::new("003@", None, '0', None),
        ComparisonOp::Eq,
        b"123456789X".to_vec(),
    );
    let term2 = Filter::ComparisonExpr(
        Path::new("002@", None, '0', None),
        ComparisonOp::Eq,
        b"Tp1".to_vec(),
    );
    let term3 = Filter::ComparisonExpr(
        Path::new("012A", None, '0', None),
        ComparisonOp::Ne,
        b"foo".to_vec(),
    );
    let expected = Filter::BooleanExpr(
        Box::new(term1),
        BooleanOp::Or,
        Box::new(Filter::GroupedExpr(Box::new(Filter::BooleanExpr(
            Box::new(term2),
            BooleanOp::And,
            Box::new(term3),
        )))),
    );
    let input = b"003@.0 == '123456789X' || (002@.0 == 'Tp1' && 012A.0 != 'foo')".to_vec();
    assert_eq!(parse_boolean_expr(&input, 0), Some((expected, input.len())));
}

#[test]
fn parser_test_parse_string() {
    let input = b"'abc'".to_vec();
    assert_eq!(parse_string(&input, 0), Some((b"abc".to_vec(), input.len())));
    let input = b"'a\tb'".to_vec();
    assert_eq!(parse_string(&input, 0), Some((b"a\tb".to_vec(), input.len())));
    let input = b"'\x1f'".to_vec();
    assert_eq!(parse_string(&input, 0), Some((b"\x1f".to_vec(), input.len())));
}
