//! The stack machine: operators, failures, and the evaluation of one line.
use vstd::prelude::*;
use crate::numeral::{is_numeral, is_numeral_token, parse_i32, parsed_i32};
use crate::text::{
    chars_of, copy_range, find_word_end, lemma_skip_spaces_bounds, lemma_word_end_bounds,
    skip_whitespace, split_words, views, words, words_from,
};

verus! {

/// The four binary operators.
#[derive(Clone, Copy, Debug, PartialEq, Eq, Structural)]
pub enum Operator {
    Add,
    Sub,
    Mul,
    Div,
}

/// Why a line produced no value.
#[derive(Clone, Copy, Debug, PartialEq, Eq, Structural)]
pub enum ErrorKind {
    /// The line has fewer than two numbers, or an operator found fewer than
    /// two values on the stack.
    InsufficientOperands,
    /// A token is neither a number nor one of `+ - * /`.
    UnknownOperator,
    /// The right-hand operand of `/` was zero.
    DivisionByZero,
    /// A token came while the stack held as many values as its bound allows.
    StackOverflow,
    /// After the last token the stack did not hold exactly one value.
    InvalidFinalStack,
    /// A token written as an integer does not fit in an `i32`.
    OperandParseError,
    /// The result of an operator does not fit in an `i32`.
    ArithmeticOverflow,
}

/// What one line evaluates to.
#[derive(Clone, Copy, Debug, PartialEq, Eq, Structural)]
pub enum LineOutcome {
    Value(i32),
    Failure(ErrorKind),
}

/// The operator that the token `t` names, if any.
pub open spec fn operator_of(t: Seq<char>) -> Option<Operator> {
    if t == seq!['+'] {
        Some(Operator::Add)
    } else if t == seq!['-'] {
        Some(Operator::Sub)
    } else if t == seq!['*'] {
        Some(Operator::Mul)
    } else if t == seq!['/'] {
        Some(Operator::Div)
    } else {
        None
    }
}

pub open spec fn abs(a: int) -> int {
    if a < 0 {
        -a
    } else {
        a
    }
}

/// Integer division rounded toward zero, as Rust's `/` divides.
pub open spec fn truncated_quotient(a: int, b: int) -> int {
    if (a < 0) == (b < 0) {
        abs(a) / abs(b)
    } else {
        -(abs(a) / abs(b))
    }
}

pub open spec fn fits_i32(v: int) -> bool {
    i32::MIN <= v <= i32::MAX
}

impl Operator {
    /// The exact value of `lhs op rhs`, where it is defined.
    pub open spec fn exact(self, lhs: int, rhs: int) -> int {
        match self {
            Operator::Add => lhs + rhs,
            Operator::Sub => lhs - rhs,
            Operator::Mul => lhs * rhs,
            Operator::Div => truncated_quotient(lhs, rhs),
        }
    }

    /// What applying the operator to `lhs` and `rhs` gives.
    pub open spec fn result(self, lhs: i32, rhs: i32) -> Result<i32, ErrorKind> {
        if self == Operator::Div && rhs == 0 {
            Err(ErrorKind::DivisionByZero)
        } else if fits_i32(self.exact(lhs as int, rhs as int)) {
            Ok(self.exact(lhs as int, rhs as int) as i32)
        } else {
            Err(ErrorKind::ArithmeticOverflow)
        }
    }

    /// The operator that the token `t` names, or `None`.
    pub fn from_token(t: &Vec<char>) -> (r: Option<Operator>)
        ensures
            r == operator_of(t@),
    {
        if t.len() != 1 {
            assert(t@.len() != 1);
            return None;
        }
        let c = t[0];
        assert(t@ =~= seq![c]);
        if c == '+' {
            Some(Operator::Add)
        } else if c == '-' {
            Some(Operator::Sub)
        } else if c == '*' {
            Some(Operator::Mul)
        } else if c == '/' {
            Some(Operator::Div)
        } else {
            assert(seq![c][0] == c);
            None
        }
    }

    /// Applies the operator, with `lhs` the operand that was pushed first.
    pub fn apply(self, lhs: i32, rhs: i32) -> (r: Result<i32, ErrorKind>)
        ensures
            r == self.result(lhs, rhs),
    {
        let v = match self {
            Operator::Add => lhs.checked_add(rhs),
            Operator::Sub => lhs.checked_sub(rhs),
            Operator::Mul => lhs.checked_mul(rhs),
            Operator::Div => {
                if rhs == 0 {
                    return Err(ErrorKind::DivisionByZero);
                }
                lhs.checked_div(rhs)
            },
        };
        match v {
            Some(x) => Ok(x),
            None => Err(ErrorKind::ArithmeticOverflow),
        }
    }
}


/// One token applied to the stack `stack`, under the depth bound `bound`:
/// the stack after it, or the failure that ends the line.
pub open spec fn step(bound: nat, stack: Seq<i32>, token: Seq<char>) -> Result<Seq<i32>, ErrorKind> {
    if stack.len() >= bound {
        Err(ErrorKind::StackOverflow)
    } else if parsed_i32(token) is Some {
        Ok(stack.push(parsed_i32(token)->0))
    } else if is_numeral(token) {
        Err(ErrorKind::OperandParseError)
    } else if stack.len() < 2 {
        Err(ErrorKind::InsufficientOperands)
    } else if operator_of(token) is None {
        Err(ErrorKind::UnknownOperator)
    } else {
        let n = stack.len() as int;
        match operator_of(token)->0.result(stack[n - 2], stack[n - 1]) {
            Ok(v) => Ok(stack.subrange(0, n - 2).push(v)),
            Err(e) => Err(e),
        }
    }
}

/// The stack after `tokens`, applied in order from the stack `stack`, or
/// the first failure among them.
pub open spec fn run_from(bound: nat, stack: Seq<i32>, tokens: Seq<Seq<char>>) -> Result<Seq<i32>, ErrorKind>
    decreases tokens.len(),
{
    if tokens.len() == 0 {
        Ok(stack)
    } else {
        match run_from(bound, stack, tokens.drop_last()) {
            Ok(s) => step(bound, s, tokens.last()),
            Err(e) => Err(e),
        }
    }
}

/// The outcome of evaluating `line` on a fresh stack bounded at `bound`.
pub open spec fn evaluation(bound: nat, line: Seq<char>) -> LineOutcome {
    let tokens = words(line);
    match run_from(bound, seq![], tokens) {
        Err(e) => LineOutcome::Failure(e),
        Ok(stack) => if stack.len() == 1 {
            LineOutcome::Value(stack[0])
        } else {
            LineOutcome::Failure(ErrorKind::InvalidFinalStack)
        },
    }
}

/// One line evaluated by an evaluator whose bound and stack are `state`:
/// the outcome, and the state after it.
pub open spec fn evaluate_step(state: (nat, Seq<i32>), line: Seq<char>) -> (LineOutcome, (nat, Seq<i32>)) {
    (evaluation(state.0, line), (state.0, seq![]))
}

/// Evaluates lines on an operand stack that holds at most `bound` values.
pub struct Evaluator {
    bound: usize,
    stack: Vec<i32>,
}

impl Evaluator {
    /// The most values the stack may hold at once.
    pub closed spec fn depth_bound(&self) -> nat {
        self.bound as nat
    }

    /// What the stack holds between two tokens.
    pub closed spec fn contents(&self) -> Seq<i32> {
        self.stack@
    }

    /// An evaluator whose stack holds at most `bound` values.
    pub fn new(bound: usize) -> (r: Evaluator)
        ensures
            r.depth_bound() == bound,
            r.contents() == Seq::<i32>::empty(),
    {
        Evaluator { bound, stack: Vec::new() }
    }

    /// The most values the stack may hold at once.
    pub fn bound(&self) -> (r: usize)
        ensures
            r == self.depth_bound(),
    {
        self.bound
    }

    /// Empties the stack.
    pub fn clear(&mut self)
        ensures
            final(self).depth_bound() == old(self).depth_bound(),
            final(self).contents() == Seq::<i32>::empty(),
    {
        self.stack.clear();
    }

    /// Applies the operator token `op` to the two values on top of the stack.
    fn perform_op(&mut self, op: &Vec<char>) -> (r: Result<(), ErrorKind>)
        requires
            2 <= old(self).stack@.len() < old(self).bound,
            parsed_i32(op@) is None,
            !is_numeral(op@),
        ensures
            final(self).bound == old(self).bound,
            match step(old(self).bound as nat, old(self).stack@, op@) {
                Ok(s) => r is Ok && final(self).stack@ == s,
                Err(e) => r == Err::<(), ErrorKind>(e),
            },
    {
        let ghost before = self.stack@;
        let operator = match Operator::from_token(op) {
            Some(o) => o,
            None => {
                return Err(ErrorKind::UnknownOperator);
            },
        };
        let n = self.stack.len();
        let lhs = self.stack[n - 2];
        let rhs = self.stack[n - 1];
        match operator.apply(lhs, rhs) {
            Ok(v) => {
                self.stack.pop();
                self.stack.pop();
                self.stack.push(v);
                assert(self.stack@ =~= before.subrange(0, n - 2).push(v));
                Ok(())
            },
            Err(e) => Err(e),
        }
    }

    /// Applies one token to the stack.
    fn push_token(&mut self, token: &Vec<char>) -> (r: Result<(), ErrorKind>)
        ensures
            final(self).bound == old(self).bound,
            match step(old(self).bound as nat, old(self).stack@, token@) {
                Ok(s) => r is Ok && final(self).stack@ == s,
                Err(e) => r == Err::<(), ErrorKind>(e),
            },
    {
        if self.stack.len() >= self.bound {
            return Err(ErrorKind::StackOverflow);
        }
        match parse_i32(token) {
            Some(v) => {
                self.stack.push(v);
                Ok(())
            },
            None => {
                if is_numeral_token(token) {
                    Err(ErrorKind::OperandParseError)
                } else if self.stack.len() < 2 {
                    Err(ErrorKind::InsufficientOperands)
                } else {
                    self.perform_op(token)
                }
            },
        }
    }

    /// The outcome that the stack gives once the tokens are done; the stack
    /// is then emptied.
    fn check_and_return_results(&mut self) -> (r: LineOutcome)
        ensures
            final(self).bound == old(self).bound,
            final(self).stack@ == Seq::<i32>::empty(),
            r == (if old(self).stack@.len() == 1 {
                LineOutcome::Value(old(self).stack@[0])
            } else {
                LineOutcome::Failure(ErrorKind::InvalidFinalStack)
            }),
    {
        let r = if self.stack.len() == 1 {
            LineOutcome::Value(self.stack[0])
        } else {
            LineOutcome::Failure(ErrorKind::InvalidFinalStack)
        };
        self.stack.clear();
        r
    }

    /// Evaluates the line of characters `line`. The stack is emptied before
    /// and after, so nothing of an earlier line takes part.
    pub fn evaluate_chars(&mut self, line: &Vec<char>) -> (r: LineOutcome)
        ensures
            final(self).depth_bound() == old(self).depth_bound(),
            final(self).contents() == Seq::<i32>::empty(),
            r == evaluation(old(self).depth_bound(), line@),
    {
        self.stack.clear();
        let tokens = split_words(line);
        let ghost t = views(tokens@);
        let mut i: usize = 0;
        while i < tokens.len()
            invariant
                t == views(tokens@),
                t == words(line@),
                self.bound == old(self).bound,
                i <= tokens.len(),
                run_from(self.bound as nat, seq![], t.take(i as int)) == Ok::<Seq<i32>, ErrorKind>(
                    self.stack@,
                ),
            decreases tokens.len() - i,
        {
            assert(tokens@[i as int]@ == t[i as int]);
            assert(t.take(i + 1).drop_last() =~= t.take(i as int));
            match self.push_token(&tokens[i]) {
                Ok(()) => {},
                Err(e) => {
                    self.stack.clear();
                    proof {
                        lemma_run_from_append(
                            self.bound as nat,
                            seq![],
                            t.take(i + 1),
                            t.skip(i + 1),
                        );
                        assert(t.take(i + 1) + t.skip(i + 1) =~= t);
                    }
                    return LineOutcome::Failure(e);
                },
            }
            i = i + 1;
        }
        assert(t.take(i as int) =~= t);
        self.check_and_return_results()
    }

    /// Evaluates `line`. The stack is emptied before and after, so nothing of
    /// an earlier line takes part.
    pub fn evaluate(&mut self, line: &str) -> (r: LineOutcome)
        ensures
            final(self).depth_bound() == old(self).depth_bound(),
            final(self).contents() == Seq::<i32>::empty(),
            r == evaluation(old(self).depth_bound(), line@),
            (r, (final(self).depth_bound(), final(self).contents())) == evaluate_step(
                (old(self).depth_bound(), old(self).contents()),
                line@,
            ),
    {
        let chars = chars_of(line);
        self.evaluate_chars(&chars)
    }
}

/// Tokens `a` then `b` do what `a` does, and then what `b` does from there.
pub proof fn lemma_run_from_append(bound: nat, stack: Seq<i32>, a: Seq<Seq<char>>, b: Seq<Seq<char>>)
    ensures
        run_from(bound, stack, a + b) == match run_from(bound, stack, a) {
            Ok(s) => run_from(bound, s, b),
            Err(e) => Err(e),
        },
    decreases b.len(),
{
    if b.len() == 0 {
        assert(a + b =~= a);
    } else {
        assert((a + b).drop_last() =~= a + b.drop_last());
        lemma_run_from_append(bound, stack, a, b.drop_last());
    }
}

/// How many of `tokens` are integers that fit in an `i32`.
pub open spec fn numeric_count(tokens: Seq<Seq<char>>) -> nat
    decreases tokens.len(),
{
    if tokens.len() == 0 {
        0
    } else {
        numeric_count(tokens.drop_last()) + if parsed_i32(tokens.last()) is Some {
            1nat
        } else {
            0nat
        }
    }
}

/// `line` holds at least two integers that fit in an `i32`.
pub open spec fn has_two_operands(line: Seq<char>) -> bool {
    numeric_count(words(line)) >= 2
}

pub proof fn lemma_numeric_count_append(a: Seq<Seq<char>>, b: Seq<Seq<char>>)
    ensures
        numeric_count(a + b) == numeric_count(a) + numeric_count(b),
    decreases b.len(),
{
    if b.len() == 0 {
        assert(a + b =~= a);
    } else {
        assert((a + b).drop_last() =~= a + b.drop_last());
        lemma_numeric_count_append(a, b.drop_last());
    }
}

/// Whether the line of characters `line` holds at least two integers. The
/// words are read from the left, and reading stops at the second integer.
pub fn contains_two_operands_chars(line: &Vec<char>) -> (r: bool)
    ensures
        r == has_two_operands(line@),
{
    let ghost s = line@;
    let ghost mut seen: Seq<Seq<char>> = seq![];
    let mut count: usize = 0;
    let mut i: usize = 0;
    while i < line.len()
        invariant
            s == line@,
            i <= line.len(),
            seen + words_from(s, i as int) == words(s),
            count == numeric_count(seen),
            count < 2,
        decreases line.len() - i,
    {
        let j = skip_whitespace(line, i);
        proof {
            lemma_skip_spaces_bounds(s, i as int);
        }
        if j == line.len() {
            i = j;
        } else {
            let k = find_word_end(line, j);
            proof {
                lemma_word_end_bounds(s, j as int);
            }
            let w = copy_range(line, j, k);
            let ghost before = seen;
            proof {
                seen = seen.push(w@);
                assert(seen.drop_last() =~= before);
                assert(seen + words_from(s, k as int) =~= before + words_from(s, i as int));
            }
            if parse_i32(&w).is_some() {
                count = count + 1;
            }
            i = k;
            if count == 2 {
                proof {
                    lemma_numeric_count_append(seen, words_from(s, i as int));
                }
                return true;
            }
        }
    }
    assert(seen + words_from(s, i as int) =~= seen);
    false
}

/// Whether `line` holds at least two integers: the check made before a line
/// is evaluated at all.
pub fn contains_two_operands(line: &str) -> (r: bool)
    ensures
        r == has_two_operands(line@),
{
    let chars = chars_of(line);
    contains_two_operands_chars(&chars)
}

} // verus!
