//! Whole texts: each line checked, evaluated and reported on its own.
use vstd::prelude::*;
use crate::rpn::{contains_two_operands_chars, evaluation, has_two_operands, ErrorKind, Evaluator, LineOutcome};
use crate::text::{chars_of, lines, split_lines, views};

verus! {

/// What a line comes to: the check for two integers first, then the
/// evaluation on a stack bounded at `bound`.
pub open spec fn line_outcome(bound: nat, line: Seq<char>) -> LineOutcome {
    if has_two_operands(line) {
        evaluation(bound, line)
    } else {
        LineOutcome::Failure(ErrorKind::InsufficientOperands)
    }
}

/// The outcome of one line of a text, with its line number, counted from 1.
#[derive(Clone, Copy, Debug, PartialEq, Eq, Structural)]
pub struct LineReport {
    pub line: usize,
    pub outcome: LineOutcome,
}

/// Checks and evaluates the line of characters `line` with `evaluator`.
pub fn process_line(evaluator: &mut Evaluator, line: &Vec<char>) -> (r: LineOutcome)
    ensures
        final(evaluator).depth_bound() == old(evaluator).depth_bound(),
        final(evaluator).contents() == Seq::<i32>::empty(),
        r == line_outcome(old(evaluator).depth_bound(), line@),
{
    if !contains_two_operands_chars(line) {
        evaluator.clear();
        return LineOutcome::Failure(ErrorKind::InsufficientOperands);
    }
    evaluator.evaluate_chars(line)
}

/// Checks and evaluates each line of `text` in turn, on a stack bounded at
/// `bound` and emptied between lines: one report per line, in order.
pub fn run(text: &str, bound: usize) -> (r: Vec<LineReport>)
    ensures
        r@.len() == lines(text@).len(),
        forall|i: int|
            0 <= i < r@.len() ==> (#[trigger] r@[i]).line == i + 1 && r@[i].outcome
                == line_outcome(bound as nat, lines(text@)[i]),
{
    let chars = chars_of(text);
    let all = split_lines(&chars);
    let ghost ls = views(all@);
    let mut evaluator = Evaluator::new(bound);
    let mut r: Vec<LineReport> = Vec::new();
    let mut i: usize = 0;
    while i < all.len()
        invariant
            ls == views(all@),
            ls == lines(text@),
            evaluator.depth_bound() == bound,
            i <= all.len(),
            r@.len() == i,
            forall|j: int|
                0 <= j < i ==> (#[trigger] r@[j]).line == j + 1 && r@[j].outcome
                    == line_outcome(bound as nat, ls[j]),
        decreases all.len() - i,
    {
        assert(all@[i as int]@ == ls[i as int]);
        let outcome = process_line(&mut evaluator, &all[i]);
        r.push(LineReport { line: i + 1, outcome });
        i = i + 1;
    }
    r
}


/// The character of the decimal digit `d`.
pub open spec fn digit_char(d: int) -> char {
    (d + '0' as int) as char
}

/// The decimal digits of `n`, most significant first, without leading zeros.
pub open spec fn decimal_digits(n: nat) -> Seq<char>
    decreases n,
{
    if n < 10 {
        seq![digit_char(n as int)]
    } else {
        decimal_digits(n / 10).push(digit_char((n % 10) as int))
    }
}

/// `n` written in decimal, with a leading `-` when it is negative.
pub open spec fn decimal(n: int) -> Seq<char> {
    if n < 0 {
        seq!['-'] + decimal_digits((-n) as nat)
    } else {
        decimal_digits(n as nat)
    }
}

/// Relies on `ToString` for `i128`, which writes the number through its
/// `Display`: the decimal digits, after a `-` for a negative number.
#[verifier::external_body]
fn decimal_text(n: i128) -> (r: String)
    ensures
        r@ == decimal(n as int),
{
    n.to_string()
}

/// The diagnostic for each failure.
pub open spec fn message_of(kind: ErrorKind) -> Seq<char> {
    match kind {
        ErrorKind::InsufficientOperands => "not enough operands"@,
        ErrorKind::UnknownOperator => "unknown operator"@,
        ErrorKind::DivisionByZero => "division by zero"@,
        ErrorKind::StackOverflow => "stack capacity reached"@,
        ErrorKind::InvalidFinalStack => "invalid stack"@,
        ErrorKind::OperandParseError => "operand out of range"@,
        ErrorKind::ArithmeticOverflow => "arithmetic overflow"@,
    }
}

/// The line that reports `report`: `Line <number>: <value>`, or the
/// diagnostic in place of the value.
pub open spec fn report_text(report: LineReport) -> Seq<char> {
    "Line "@ + decimal(report.line as int) + ": "@ + match report.outcome {
        LineOutcome::Value(v) => decimal(v as int),
        LineOutcome::Failure(kind) => message_of(kind),
    }
}

impl ErrorKind {
    /// A short diagnostic that names the failure.
    pub fn message(&self) -> (r: &'static str)
        ensures
            r@ == message_of(*self),
    {
        match self {
            ErrorKind::InsufficientOperands => "not enough operands",
            ErrorKind::UnknownOperator => "unknown operator",
            ErrorKind::DivisionByZero => "division by zero",
            ErrorKind::StackOverflow => "stack capacity reached",
            ErrorKind::InvalidFinalStack => "invalid stack",
            ErrorKind::OperandParseError => "operand out of range",
            ErrorKind::ArithmeticOverflow => "arithmetic overflow",
        }
    }
}

impl LineReport {
    /// The line of text that reports this outcome.
    pub fn describe(&self) -> (r: String)
        ensures
            r@ == report_text(*self),
    {
        let prefix = String::from_str("Line ");
        let number = decimal_text(self.line as i128);
        let head = prefix.concat(number.as_str()).concat(": ");
        match self.outcome {
            LineOutcome::Value(v) => {
                let value = decimal_text(v as i128);
                head.concat(value.as_str())
            },
            LineOutcome::Failure(kind) => head.concat(kind.message()),
        }
    }
}

} // verus!
