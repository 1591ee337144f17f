use rpn_eval::report::{run, LineReport};
use rpn_eval::rpn::{contains_two_operands, ErrorKind, Evaluator, LineOutcome, Operator};

fn eval(line: &str, bound: usize) -> LineOutcome {
    let mut evaluator = Evaluator::new(bound);
    evaluator.evaluate(line)
}

#[test]
fn division_by_zero_is_a_failure() {
    assert_eq!(eval("10 0 /", 10), LineOutcome::Failure(ErrorKind::DivisionByZero));
}

#[test]
fn unknown_operator_is_a_failure() {
    assert_eq!(eval("3 4 %", 10), LineOutcome::Failure(ErrorKind::UnknownOperator));
}

#[test]
fn subtraction_is_left_associated() {
    assert_eq!(eval("10 4 -", 10), LineOutcome::Value(6));
    assert_eq!(eval("4 10 -", 10), LineOutcome::Value(-6));
}

#[test]
fn division_is_left_associated_and_truncates() {
    assert_eq!(eval("7 2 /", 10), LineOutcome::Value(3));
    assert_eq!(eval("-7 2 /", 10), LineOutcome::Value(-3));
    assert_eq!(eval("7 -2 /", 10), LineOutcome::Value(-3));
    assert_eq!(eval("2 7 /", 10), LineOutcome::Value(0));
}

#[test]
fn eleven_operands_overflow_a_stack_of_ten() {
    assert_eq!(
        eval("1 2 3 4 5 6 7 8 9 10 11", 10),
        LineOutcome::Failure(ErrorKind::StackOverflow)
    );
}

#[test]
fn ten_operands_fit_a_stack_of_ten() {
    assert_eq!(
        eval("1 2 3 4 5 6 7 8 9 10", 10),
        LineOutcome::Failure(ErrorKind::InvalidFinalStack)
    );
}

#[test]
fn bound_zero_refuses_every_token() {
    assert_eq!(eval("1 2 +", 0), LineOutcome::Failure(ErrorKind::StackOverflow));
    assert_eq!(eval("", 0), LineOutcome::Failure(ErrorKind::InvalidFinalStack));
}

#[test]
fn bound_one_holds_a_single_value() {
    assert_eq!(eval("5", 1), LineOutcome::Value(5));
    assert_eq!(eval("1 2 +", 1), LineOutcome::Failure(ErrorKind::StackOverflow));
}

#[test]
fn operator_token_counts_against_the_bound() {
    assert_eq!(eval("1 2 +", 2), LineOutcome::Failure(ErrorKind::StackOverflow));
    assert_eq!(eval("1 2 +", 3), LineOutcome::Value(3));
}

#[test]
fn batch_of_three_lines() {
    let reports = run("3 4 +\n10 0 /\n5 1 2 + 4 * + 3 -", 10);
    assert_eq!(
        reports,
        vec![
            LineReport { line: 1, outcome: LineOutcome::Value(7) },
            LineReport { line: 2, outcome: LineOutcome::Failure(ErrorKind::DivisionByZero) },
            LineReport { line: 3, outcome: LineOutcome::Value(14) },
        ]
    );
}

#[test]
fn postfix_expressions_evaluate_to_their_value() {
    assert_eq!(eval("5 1 2 + 4 * + 3 -", 10), LineOutcome::Value(14));
    assert_eq!(eval("2 3 4 * +", 10), LineOutcome::Value(14));
    assert_eq!(eval("2 3 + 4 *", 10), LineOutcome::Value(20));
    assert_eq!(eval("100 7 - 3 /", 10), LineOutcome::Value(31));
}

#[test]
fn precheck_rejects_short_lines() {
    assert!(!contains_two_operands("5"));
    assert!(!contains_two_operands(""));
    assert!(!contains_two_operands("+"));
    assert!(!contains_two_operands("   \t "));
    assert!(!contains_two_operands("5 + x 99999999999"));
    assert!(contains_two_operands("1 2"));
    assert!(contains_two_operands("+ 1 x -2 y"));
}

#[test]
fn precheck_failures_are_reported_without_evaluation() {
    let reports = run("5\n\n+", 0);
    assert_eq!(reports.len(), 3);
    for (i, report) in reports.iter().enumerate() {
        assert_eq!(report.line, i + 1);
        assert_eq!(report.outcome, LineOutcome::Failure(ErrorKind::InsufficientOperands));
    }
}

#[test]
fn evaluating_twice_gives_the_same_outcome() {
    let mut evaluator = Evaluator::new(10);
    let first = evaluator.evaluate("6 3 / 4 *");
    let second = evaluator.evaluate("6 3 / 4 *");
    assert_eq!(first, LineOutcome::Value(8));
    assert_eq!(first, second);
    let failed = evaluator.evaluate("1 2 3 %");
    assert_eq!(failed, evaluator.evaluate("1 2 3 %"));
}

#[test]
fn aborted_line_leaves_nothing_behind() {
    let mut evaluator = Evaluator::new(10);
    assert_eq!(evaluator.evaluate("1 2 3 %"), LineOutcome::Failure(ErrorKind::UnknownOperator));
    assert_eq!(evaluator.evaluate("2 3 +"), LineOutcome::Value(5));
    assert_eq!(evaluator.evaluate("1 2 3 4"), LineOutcome::Failure(ErrorKind::InvalidFinalStack));
    assert_eq!(evaluator.evaluate("4 2 /"), LineOutcome::Value(2));
    assert_eq!(evaluator.bound(), 10);
    let reports = run("9 9 9 9 0 /\n2 3 +", 10);
    assert_eq!(reports[1].outcome, LineOutcome::Value(5));
}

#[test]
fn operator_with_too_few_values() {
    assert_eq!(eval("1 + 2", 10), LineOutcome::Failure(ErrorKind::InsufficientOperands));
    assert_eq!(eval("-", 10), LineOutcome::Failure(ErrorKind::InsufficientOperands));
}

#[test]
fn leftover_values_make_an_invalid_stack() {
    assert_eq!(eval("1 2 3 +", 10), LineOutcome::Failure(ErrorKind::InvalidFinalStack));
    assert_eq!(eval("", 10), LineOutcome::Failure(ErrorKind::InvalidFinalStack));
}

#[test]
fn operands_out_of_range_fail_to_parse() {
    assert_eq!(eval("2147483648 1 +", 10), LineOutcome::Failure(ErrorKind::OperandParseError));
    assert_eq!(eval("1 -2147483649 +", 10), LineOutcome::Failure(ErrorKind::OperandParseError));
    assert_eq!(eval("2147483647 -2147483648 +", 10), LineOutcome::Value(-1));
    assert_eq!(eval("+5 3 -", 10), LineOutcome::Value(2));
    assert_eq!(eval("0005 -0003 *", 10), LineOutcome::Value(-15));
}

#[test]
fn results_out_of_range_overflow() {
    assert_eq!(eval("2147483647 1 +", 10), LineOutcome::Failure(ErrorKind::ArithmeticOverflow));
    assert_eq!(eval("-2147483648 1 -", 10), LineOutcome::Failure(ErrorKind::ArithmeticOverflow));
    assert_eq!(eval("65536 65536 *", 10), LineOutcome::Failure(ErrorKind::ArithmeticOverflow));
    assert_eq!(eval("-2147483648 -1 /", 10), LineOutcome::Failure(ErrorKind::ArithmeticOverflow));
}

#[test]
fn any_unicode_whitespace_separates_tokens() {
    assert_eq!(eval("\t3\u{3000}4\r\n+ ", 10), LineOutcome::Value(7));
    assert_eq!(eval("3\u{a0}4\u{2009}*", 10), LineOutcome::Value(12));
    assert_eq!(eval("3 4 4+", 10), LineOutcome::Failure(ErrorKind::UnknownOperator));
    assert_eq!(eval("3 4+", 10), LineOutcome::Failure(ErrorKind::InsufficientOperands));
}

#[test]
fn text_is_cut_at_each_newline() {
    let reports = run("1 2 +\n", 10);
    assert_eq!(reports.len(), 2);
    assert_eq!(reports[0].outcome, LineOutcome::Value(3));
    assert_eq!(reports[1].outcome, LineOutcome::Failure(ErrorKind::InsufficientOperands));
    assert_eq!(run("", 10).len(), 1);
}

#[test]
fn operator_tokens() {
    assert_eq!(Operator::from_token(&vec!['+']), Some(Operator::Add));
    assert_eq!(Operator::from_token(&vec!['-']), Some(Operator::Sub));
    assert_eq!(Operator::from_token(&vec!['*']), Some(Operator::Mul));
    assert_eq!(Operator::from_token(&vec!['/']), Some(Operator::Div));
    assert_eq!(Operator::from_token(&vec!['%']), None);
    assert_eq!(Operator::from_token(&vec!['+', '+']), None);
    assert_eq!(Operator::Sub.apply(10, 4), Ok(6));
    assert_eq!(Operator::Div.apply(1, 0), Err(ErrorKind::DivisionByZero));
}
