//! Signed decimal integers, read as `str::parse::<i32>` reads them.
use vstd::prelude::*;

verus! {

pub open spec fn is_digit(c: char) -> bool {
    '0' <= c <= '9'
}

pub open spec fn digit_value(c: char) -> int {
    c as int - '0' as int
}

/// The value of a sequence of decimal digits, most significant first.
pub open spec fn digits_value(d: Seq<char>) -> int
    decreases d.len(),
{
    if d.len() == 0 {
        0
    } else {
        10 * digits_value(d.drop_last()) + digit_value(d.last())
    }
}

/// The length of the sign in front of `t`: one for a leading `+` or `-`.
pub open spec fn sign_len(t: Seq<char>) -> int {
    if t.len() > 0 && (t[0] == '+' || t[0] == '-') {
        1
    } else {
        0
    }
}

/// What follows the sign of `t`.
pub open spec fn magnitude(t: Seq<char>) -> Seq<char> {
    t.subrange(sign_len(t), t.len() as int)
}

/// `t` is written as a decimal integer: an optional sign, then one or more
/// ASCII digits and nothing else. Its value may still be out of range.
pub open spec fn is_numeral(t: Seq<char>) -> bool {
    &&& magnitude(t).len() > 0
    &&& forall|i: int| 0 <= i < magnitude(t).len() ==> is_digit(#[trigger] magnitude(t)[i])
}

/// The value that the numeral `t` denotes.
pub open spec fn numeral_value(t: Seq<char>) -> int {
    if t.len() > 0 && t[0] == '-' {
        -digits_value(magnitude(t))
    } else {
        digits_value(magnitude(t))
    }
}

/// The `i32` that `t` denotes: a numeral whose value lies in range.
pub open spec fn parsed_i32(t: Seq<char>) -> Option<i32> {
    if is_numeral(t) && i32::MIN <= numeral_value(t) <= i32::MAX {
        Some(numeral_value(t) as i32)
    } else {
        None
    }
}

/// Whether `t` is written as a decimal integer, whatever its size.
pub fn is_numeral_token(t: &Vec<char>) -> (r: bool)
    ensures
        r == is_numeral(t@),
{
    let start: usize = if t.len() > 0 && (t[0] == '+' || t[0] == '-') {
        1
    } else {
        0
    };
    if start == t.len() {
        return false;
    }
    let mut i: usize = start;
    while i < t.len()
        invariant
            start == sign_len(t@),
            start <= i <= t.len(),
            forall|j: int| start <= j < i ==> is_digit(#[trigger] t@[j]),
        decreases t.len() - i,
    {
        if !('0' <= t[i] && t[i] <= '9') {
            assert(magnitude(t@)[i - start] == t@[i as int]);
            return false;
        }
        i = i + 1;
    }
    assert forall|j: int| 0 <= j < magnitude(t@).len() implies is_digit(#[trigger] magnitude(t@)[j]) by {
        assert(magnitude(t@)[j] == t@[j + start]);
    }
    true
}

/// The `i32` that `t` denotes, or `None` where `t` is no numeral or its
/// value does not fit.
pub fn parse_i32(t: &Vec<char>) -> (r: Option<i32>)
    ensures
        r == parsed_i32(t@),
{
    if !is_numeral_token(t) {
        return None;
    }
    let negative = t[0] == '-';
    let start: usize = if t[0] == '+' || t[0] == '-' {
        1
    } else {
        0
    };
    let ghost m = magnitude(t@);
    // the magnitude read so far, held at `cap` once it exceeds the range
    let cap: i64 = 2147483649;
    let mut acc: i64 = 0;
    let mut i: usize = start;
    while i < t.len()
        invariant
            start == sign_len(t@),
            start <= i <= t.len(),
            m == magnitude(t@),
            is_numeral(t@),
            cap == 2147483649,
            0 <= acc <= cap,
            acc < cap ==> acc == digits_value(m.take(i - start)),
            acc == cap ==> digits_value(m.take(i - start)) >= cap,
        decreases t.len() - i,
    {
        let ghost k = i - start;
        assert(m.take(k + 1).drop_last() =~= m.take(k));
        assert(m[k] == t@[i as int]);
        assert(is_digit(m[k]));
        let d = (t[i] as u32 - '0' as u32) as i64;
        if acc < cap {
            let next = acc * 10 + d;
            acc = if next > cap {
                cap
            } else {
                next
            };
        }
        i = i + 1;
    }
    assert(m.take(m.len() as int) =~= m);
    let value: i64 = if negative {
        -acc
    } else {
        acc
    };
    if value < -2147483648 || value > 2147483647 {
        None
    } else {
        Some(value as i32)
    }
}

} // verus!
