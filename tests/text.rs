use rpn_eval::numeral::{is_numeral_token, parse_i32};
use rpn_eval::report::LineReport;
use rpn_eval::rpn::{ErrorKind, LineOutcome};
use rpn_eval::text::{chars_of, is_whitespace, split_lines, split_words};

fn chars(s: &str) -> Vec<char> {
    s.chars().collect()
}

#[test]
fn parses_i32_tokens() {
    assert_eq!(parse_i32(&chars("42")), Some(42));
    assert_eq!(parse_i32(&chars("-42")), Some(-42));
    assert_eq!(parse_i32(&chars("+42")), Some(42));
    assert_eq!(parse_i32(&chars("2147483647")), Some(i32::MAX));
    assert_eq!(parse_i32(&chars("-2147483648")), Some(i32::MIN));
    assert_eq!(parse_i32(&chars("2147483648")), None);
    assert_eq!(parse_i32(&chars("99999999999999999999")), None);
    assert_eq!(parse_i32(&chars("")), None);
    assert_eq!(parse_i32(&chars("-")), None);
    assert_eq!(parse_i32(&chars("+-1")), None);
    assert_eq!(parse_i32(&chars("1a")), None);
    assert_eq!(parse_i32(&chars("\u{661}")), None);
}

#[test]
fn numerals_of_any_size() {
    assert!(is_numeral_token(&chars("99999999999999999999")));
    assert!(is_numeral_token(&chars("-0")));
    assert!(!is_numeral_token(&chars("+")));
    assert!(!is_numeral_token(&chars("1.5")));
    assert!(!is_numeral_token(&chars("")));
}

#[test]
fn whitespace_characters() {
    for c in [' ', '\t', '\n', '\r', '\u{b}', '\u{c}', '\u{85}', '\u{a0}', '\u{2003}', '\u{3000}'] {
        assert!(is_whitespace(c));
        assert_eq!(is_whitespace(c), c.is_whitespace());
    }
    for c in ['a', '0', '+', '\u{200b}', '\u{feff}'] {
        assert!(!is_whitespace(c));
        assert_eq!(is_whitespace(c), c.is_whitespace());
    }
}

#[test]
fn words_and_lines() {
    let s = chars("  12 +\t-3\n\nx  ");
    assert_eq!(chars_of("  12 +\t-3\n\nx  "), s);
    assert_eq!(split_words(&s), vec![chars("12"), chars("+"), chars("-3"), chars("x")]);
    assert_eq!(split_lines(&s), vec![chars("  12 +\t-3"), chars(""), chars("x  ")]);
    assert_eq!(split_words(&chars("")), Vec::<Vec<char>>::new());
    assert_eq!(split_lines(&chars("")), vec![chars("")]);
}

#[test]
fn reports_read_as_text() {
    let ok = LineReport { line: 1, outcome: LineOutcome::Value(7) };
    assert_eq!(ok.describe(), "Line 1: 7");
    let negative = LineReport { line: 12, outcome: LineOutcome::Value(-2147483648) };
    assert_eq!(negative.describe(), "Line 12: -2147483648");
    let failed = LineReport { line: 2, outcome: LineOutcome::Failure(ErrorKind::DivisionByZero) };
    assert_eq!(failed.describe(), "Line 2: division by zero");
}

#[test]
fn every_failure_has_a_message() {
    assert_eq!(ErrorKind::InsufficientOperands.message(), "not enough operands");
    assert_eq!(ErrorKind::UnknownOperator.message(), "unknown operator");
    assert_eq!(ErrorKind::DivisionByZero.message(), "division by zero");
    assert_eq!(ErrorKind::StackOverflow.message(), "stack capacity reached");
    assert_eq!(ErrorKind::InvalidFinalStack.message(), "invalid stack");
    assert_eq!(ErrorKind::OperandParseError.message(), "operand out of range");
    assert_eq!(ErrorKind::ArithmeticOverflow.message(), "arithmetic overflow");
}
