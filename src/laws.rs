//! What holds of every line: expressions written in postfix evaluate to
//! their value, the pre-check stops short lines, and no line depends on
//! the lines before it.
use vstd::prelude::*;
use crate::numeral::{is_numeral, numeral_value, parsed_i32, sign_len, magnitude, is_digit};
use crate::report::line_outcome;
use crate::rpn::{
    evaluate_step, evaluation, fits_i32, has_two_operands, lemma_numeric_count_append,
    lemma_run_from_append, numeric_count, operator_of, run_from, step, ErrorKind, LineOutcome,
    Operator,
};
use crate::text::{line_end, lines, lines_from, words};

verus! {

/// An arithmetic expression: integer tokens combined by the four operators.
pub enum Expr {
    Number(Seq<char>),
    Apply(Operator, Box<Expr>, Box<Expr>),
}

/// The token that writes `op`.
pub open spec fn symbol(op: Operator) -> Seq<char> {
    match op {
        Operator::Add => seq!['+'],
        Operator::Sub => seq!['-'],
        Operator::Mul => seq!['*'],
        Operator::Div => seq!['/'],
    }
}

impl Expr {
    /// The exact value, the left operand of each operator being its first.
    pub open spec fn value(self) -> int
        decreases self,
    {
        match self {
            Expr::Number(t) => numeral_value(t),
            Expr::Apply(op, l, r) => op.exact(l.value(), r.value()),
        }
    }

    /// Each number is an `i32`, no divisor is zero, and each intermediate
    /// value fits in an `i32`.
    pub open spec fn computable(self) -> bool
        decreases self,
    {
        match self {
            Expr::Number(t) => parsed_i32(t) is Some,
            Expr::Apply(op, l, r) => {
                &&& l.computable()
                &&& r.computable()
                &&& !(op == Operator::Div && r.value() == 0)
                &&& fits_i32(self.value())
            },
        }
    }

    /// The most values on the stack before any token of the expression,
    /// counted from the height at which it starts.
    pub open spec fn peak(self) -> nat
        decreases self,
    {
        match self {
            Expr::Number(_) => 0,
            Expr::Apply(_, l, r) => {
                let p = if l.peak() >= r.peak() + 1 {
                    l.peak()
                } else {
                    r.peak() + 1
                };
                if p >= 2 {
                    p
                } else {
                    2
                }
            },
        }
    }

    /// The expression in reverse Polish notation: its tokens in order.
    pub open spec fn postfix(self) -> Seq<Seq<char>>
        decreases self,
    {
        match self {
            Expr::Number(t) => seq![t],
            Expr::Apply(op, l, r) => l.postfix() + r.postfix() + seq![symbol(op)],
        }
    }
}

proof fn lemma_symbol(op: Operator)
    ensures
        parsed_i32(symbol(op)) is None,
        !is_numeral(symbol(op)),
        operator_of(symbol(op)) == Some(op),
{
    let t = symbol(op);
    assert(t.len() == 1);
    if op == Operator::Add || op == Operator::Sub {
        assert(sign_len(t) == 1);
        assert(magnitude(t).len() == 0);
    } else {
        assert(sign_len(t) == 0);
        assert(magnitude(t)[0] == t[0]);
        assert(!is_digit(t[0]));
    }
    assert(seq!['+'][0] == '+');
    assert(seq!['-'][0] == '-');
    assert(seq!['*'][0] == '*');
    assert(seq!['/'][0] == '/');
}

proof fn lemma_computable_fits(e: Expr)
    requires
        e.computable(),
    ensures
        fits_i32(e.value()),
{
}

proof fn lemma_postfix_runs(bound: nat, stack: Seq<i32>, e: Expr)
    requires
        e.computable(),
        stack.len() + e.peak() < bound,
    ensures
        run_from(bound, stack, e.postfix()) == Ok::<Seq<i32>, ErrorKind>(
            stack.push(e.value() as i32),
        ),
    decreases e,
{
    match e {
        Expr::Number(t) => {
            assert(seq![t].drop_last() =~= Seq::<Seq<char>>::empty());
            assert(seq![t].last() == t);
            assert(run_from(bound, stack, Seq::<Seq<char>>::empty()) == Ok::<Seq<i32>, ErrorKind>(
                stack,
            ));
        },
        Expr::Apply(op, l, r) => {
            lemma_computable_fits(*l);
            lemma_computable_fits(*r);
            let vl = l.value() as i32;
            let vr = r.value() as i32;
            lemma_postfix_runs(bound, stack, *l);
            lemma_postfix_runs(bound, stack.push(vl), *r);
            lemma_run_from_append(bound, stack, l.postfix(), r.postfix());
            lemma_run_from_append(bound, stack, l.postfix() + r.postfix(), seq![symbol(op)]);
            let s2 = stack.push(vl).push(vr);
            assert(seq![symbol(op)].drop_last() =~= Seq::<Seq<char>>::empty());
            lemma_symbol(op);
            let n = s2.len() as int;
            assert(s2.subrange(0, n - 2) =~= stack);
            assert(seq![symbol(op)].last() == symbol(op));
            assert(run_from(bound, s2, Seq::<Seq<char>>::empty()) == Ok::<Seq<i32>, ErrorKind>(s2));
            assert(step(bound, s2, symbol(op)) == Ok::<Seq<i32>, ErrorKind>(
                stack.push(e.value() as i32),
            ));
        },
    }
}

/// An expression writes at least one integer token, and at least two where
/// it applies an operator.
proof fn lemma_postfix_numbers(e: Expr)
    requires
        e.computable(),
    ensures
        e is Apply ==> numeric_count(e.postfix()) >= 2,
        numeric_count(e.postfix()) >= 1,
    decreases e,
{
    match e {
        Expr::Number(t) => {
            assert(seq![t].drop_last() =~= Seq::<Seq<char>>::empty());
        },
        Expr::Apply(op, l, r) => {
            lemma_postfix_numbers(*l);
            lemma_postfix_numbers(*r);
            lemma_symbol(op);
            lemma_numeric_count_append(l.postfix(), r.postfix());
            lemma_numeric_count_append(l.postfix() + r.postfix(), seq![symbol(op)]);
            assert(seq![symbol(op)].drop_last() =~= Seq::<Seq<char>>::empty());
        },
    }
}

/// A line whose words are an expression written in reverse Polish notation
/// evaluates to the value of the expression, with each left operand the one
/// written first, wherever every intermediate value is an `i32`, no divisor
/// is zero and the stack stays below its bound. A line with at least one
/// operator also passes the check for two integers, with the same outcome.
pub proof fn lemma_postfix_line_evaluates(bound: nat, e: Expr, line: Seq<char>)
    requires
        e.computable(),
        e.peak() < bound,
        words(line) == e.postfix(),
    ensures
        evaluation(bound, line) == LineOutcome::Value(e.value() as i32),
        e is Apply ==> line_outcome(bound, line) == LineOutcome::Value(e.value() as i32),
{
    lemma_postfix_runs(bound, seq![], e);
    lemma_postfix_numbers(e);
    assert(seq![].push(e.value() as i32)[0] == e.value() as i32);
}

/// A line that fails the check for two integers comes to
/// `InsufficientOperands` under every bound: it is never evaluated.
pub proof fn lemma_precheck_failure(bound: nat, line: Seq<char>)
    requires
        !has_two_operands(line),
    ensures
        line_outcome(bound, line) == LineOutcome::Failure(ErrorKind::InsufficientOperands),
{
}

proof fn lemma_numeric_count_le_len(tokens: Seq<Seq<char>>)
    ensures
        numeric_count(tokens) <= tokens.len(),
    decreases tokens.len(),
{
    if tokens.len() > 0 {
        lemma_numeric_count_le_len(tokens.drop_last());
    }
}

/// A line of fewer than two words fails the check for two integers.
pub proof fn lemma_short_line_fails_precheck(line: Seq<char>)
    requires
        words(line).len() < 2,
    ensures
        !has_two_operands(line),
{
    lemma_numeric_count_le_len(words(line));
}

/// Evaluating a line twice in a row gives the same outcome both times.
pub proof fn lemma_evaluate_idempotent(state: (nat, Seq<i32>), line: Seq<char>)
    ensures
        evaluate_step(evaluate_step(state, line).1, line).0 == evaluate_step(state, line).0,
{
}

/// A line evaluated after any other line, whether that line succeeded or
/// stopped half way with values on the stack, has the outcome that it has
/// on a fresh evaluator with the same bound.
pub proof fn lemma_no_leakage(state: (nat, Seq<i32>), first: Seq<char>, second: Seq<char>)
    ensures
        evaluate_step(evaluate_step(state, first).1, second).0 == evaluate_step(
            (state.0, seq![]),
            second,
        ).0,
        evaluate_step(evaluate_step(state, first).1, second).0 == evaluation(state.0, second),
{
}

proof fn lemma_line_end_at(s: Seq<char>, i: int, j: int)
    requires
        0 <= i <= j <= s.len(),
        forall|k: int| i <= k < j ==> s[k] != '\n',
        j == s.len() || s[j] == '\n',
    ensures
        line_end(s, i) == j,
    decreases j - i,
{
    if i < j {
        lemma_line_end_at(s, i + 1, j);
    }
}

/// In a text of two lines, the second line comes to what it comes to alone,
/// whatever the first line holds and however its evaluation ended.
pub proof fn lemma_batch_no_leakage(bound: nat, first: Seq<char>, second: Seq<char>)
    requires
        !first.contains('\n'),
        !second.contains('\n'),
    ensures
        lines(first + seq!['\n'] + second) == seq![first, second],
        lines(second) == seq![second],
        line_outcome(bound, lines(first + seq!['\n'] + second)[1]) == line_outcome(
            bound,
            lines(second)[0],
        ),
{
    let s = first + seq!['\n'] + second;
    let n = first.len() as int;
    assert forall|k: int| 0 <= k < n implies s[k] != '\n' by {
        assert(s[k] == first[k]);
    }
    assert forall|k: int| n + 1 <= k < s.len() implies s[k] != '\n' by {
        assert(s[k] == second[k - n - 1]);
    }
    lemma_line_end_at(s, 0, n);
    lemma_line_end_at(s, n + 1, s.len() as int);
    assert(s.subrange(0, n) =~= first);
    assert(s.subrange(n + 1, s.len() as int) =~= second);
    assert(lines_from(s, n + 1) == seq![second]);
    assert(lines(s) =~= seq![first, second]);
    assert forall|k: int| 0 <= k < second.len() implies second[k] != '\n' by {
        assert(!second.contains('\n'));
    }
    lemma_line_end_at(second, 0, second.len() as int);
    assert(second.subrange(0, second.len() as int) =~= second);
}

} // verus!
