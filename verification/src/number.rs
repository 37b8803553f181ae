use crate::chars::decimal_digit;
use crate::chars::digit_of;
use crate::chars::digit_value;
use crate::chars::is_decimal_digit;
use crate::error::ASTError;
use crate::error::Reason;
use crate::outcome::yields;
use crate::outcome::Scan;
use crate::runs::agree;
use crate::runs::lemma_agree_skip;
use crate::runs::lemma_run_len;
use crate::runs::lemma_run_len_local;
use crate::runs::lemma_run_len_at_least;
use crate::runs::lemma_run_len_unique;
use crate::runs::run_len;
use crate::text::count_fits;
use crate::token::Lexeme;
use crate::token::TOKEN;
use vstd::prelude::*;
use vstd::std_specs::iter::IteratorSpec;

verus! {

/// The length of the decimal digits that `s` begins with.
pub open spec fn digit_run(s: Seq<char>) -> nat {
    run_len(s, |c: char| is_decimal_digit(c))
}

/// The number that a sequence of decimal digits writes, the empty one zero.
pub open spec fn decimal_value(digits: Seq<char>) -> nat
    decreases digits.len(),
{
    if digits.len() == 0 {
        0
    } else {
        10 * decimal_value(digits.drop_last()) + digit_value(digits.last())
    }
}

/// Whether a point follows the whole part of `whole` digits.
pub open spec fn has_point(s: Seq<char>, whole: nat) -> bool {
    whole < s.len() && s[whole as int] == '.'
}

/// The length of the digits that follow the point.
pub open spec fn fraction_run(s: Seq<char>, whole: nat) -> nat {
    digit_run(s.skip(whole + 1 as int))
}

/// The digits of a literal with a point, the point left out.
pub open spec fn fraction_digits(s: Seq<char>, whole: nat, fraction: nat) -> Seq<char> {
    s.take(whole as int) + s.subrange(whole + 1 as int, whole + 1 + fraction as int)
}

/// The numeric literal at the start of `s`.
///
/// The grammar is small on purpose. Digits alone are a `Number`. Digits, a
/// point and the digits after it, of which there may be none, are a `Float`:
/// it carries all its digits as one number, and the count of those after the
/// point. Each run of digits is as long as it can be, no sign, exponent or
/// suffix is read, and either number has to fit 64 bits.
pub open spec fn number(s: Seq<char>) -> Scan {
    let whole = digit_run(s);
    if has_point(s, whole) {
        let fraction = fraction_run(s, whole);
        let value = decimal_value(fraction_digits(s, whole, fraction));
        if value <= u64::MAX {
            Ok((Lexeme::Float(value, fraction), whole + 1 + fraction))
        } else {
            Err(Reason::NumberTooLarge)
        }
    } else {
        let value = decimal_value(s.take(whole as int));
        if value <= u64::MAX {
            Ok((Lexeme::Number(value), whole))
        } else {
            Err(Reason::NumberTooLarge)
        }
    }
}

/// A literal stays inside the text, and where the text begins with a digit
/// it is not empty.
pub proof fn lemma_number_len(s: Seq<char>)
    ensures
        number(s) matches Ok((_, n)) ==> n <= s.len(),
        s.len() > 0 && is_decimal_digit(s[0]) ==> (number(s) matches Ok((_, n)) ==> n > 0),
{
    let whole = digit_run(s);
    lemma_run_len(s, |c: char| is_decimal_digit(c));
    if has_point(s, whole) {
        lemma_run_len(s.skip(whole + 1 as int), |c: char| is_decimal_digit(c));
    }
}

/// A literal that ends before the end of the text is decided by its own
/// characters and the one that follows.
pub proof fn lemma_number_local(s: Seq<char>, t: Seq<char>)
    requires
        number(s) matches Ok((_, n)) && agree(s, t, n + 1),
    ensures
        number(t) == number(s),
{
    let whole = digit_run(s);
    lemma_run_len(s, |c: char| is_decimal_digit(c));
    if has_point(s, whole) {
        let fraction = fraction_run(s, whole);
        let n = whole + 1 + fraction;
        lemma_run_len(s.skip(whole + 1 as int), |c: char| is_decimal_digit(c));
        lemma_run_len_local(s, t, |c: char| is_decimal_digit(c));
        lemma_agree_skip(s, t, n + 1, whole + 1);
        lemma_run_len_local(
            s.skip(whole + 1 as int),
            t.skip(whole + 1 as int),
            |c: char| is_decimal_digit(c),
        );
        assert(fraction_digits(t, whole, fraction) =~= fraction_digits(s, whole, fraction));
    } else {
        lemma_run_len_local(s, t, |c: char| is_decimal_digit(c));
        assert(t.take(whole as int) =~= s.take(whole as int));
    }
}

/// One more digit at the end: ten times the number, and the digit.
pub proof fn lemma_decimal_value_push(digits: Seq<char>, c: char)
    ensures
        decimal_value(digits.push(c)) == 10 * decimal_value(digits) + digit_value(c),
{
    assert(digits.push(c).drop_last() =~= digits);
}

/// More digits at the end never make the number smaller.
pub proof fn lemma_decimal_value_grows(digits: Seq<char>, more: Seq<char>)
    ensures
        decimal_value(digits) <= decimal_value(digits + more),
    decreases more.len(),
{
    if more.len() == 0 {
        assert(digits + more =~= digits);
    } else {
        lemma_decimal_value_grows(digits, more.drop_last());
        assert((digits + more).drop_last() =~= digits + more.drop_last());
    }
}

/// `value` with the digit `d` written after it, if that fits.
fn with_digit(value: u64, d: u64) -> (r: Option<u64>)
    requires
        d <= 9,
    ensures
        match r {
            Some(v) => v == 10 * value + d,
            None => 10 * value + d > u64::MAX,
        },
{
    match value.checked_mul(10) {
        None => None,
        Some(tens) => tens.checked_add(d),
    }
}

/// Reads the numeric literal that `data` begins with. The dispatcher calls it
/// where it has seen a digit.
pub(crate) fn parse_number(data: &str) -> (r: Result<(TOKEN, usize), ASTError>)
    requires
        data@.len() > 0,
        is_decimal_digit(data@[0]),
    ensures
        yields(r, number(data@)),
        r matches Ok((_, n)) ==> 0 < n <= data@.len(),
{
    count_fits(data);
    let ghost s = data@;
    let mut it = data.chars();
    let mut value: u64 = 0;
    let mut index: usize = 0;
    let mut stop: Option<char> = None;
    proof {
        lemma_number_len(s);
    }
    loop
        invariant_except_break
            it.remaining() == s.skip(index as int),
            stop is None,
        invariant
            s == data@,
            index <= s.len() <= usize::MAX,
            forall|i: int| 0 <= i < index ==> is_decimal_digit(#[trigger] s[i]),
            value == decimal_value(s.take(index as int)),
        ensures
            stop is None ==> index == s.len(),
            stop matches Some(c) ==> index < s.len() && c == s[index as int] && !is_decimal_digit(
                c,
            ) && it.remaining() == s.skip(index + 1),
        decreases s.len() - index,
    {
        match it.next() {
            None => {
                break ;
            },
            Some(c) => {
                assert(s.skip(index as int).drop_first() =~= s.skip(index + 1));
                if !decimal_digit(c) {
                    stop = Some(c);
                    break ;
                }
                proof {
                    assert(s.take(index + 1) =~= s.take(index as int).push(c));
                    lemma_decimal_value_push(s.take(index as int), c);
                }
                match with_digit(value, digit_of(c)) {
                    None => {
                        proof {
                            lemma_too_large(s, (index + 1) as nat);
                        }
                        return Err(ASTError::new(Reason::NumberTooLarge));
                    },
                    Some(v) => {
                        value = v;
                    },
                }
                index += 1;
            },
        }
    }
    proof {
        lemma_run_len_unique(s, |c: char| is_decimal_digit(c), index as nat);
    }
    let whole = index;
    let point = match stop {
        Some(c) => c == '.',
        None => false,
    };
    if !point {
        return Ok((TOKEN::Number(value), whole));
    }
    let ghost rest = s.skip(whole + 1);
    let mut count: usize = 0;
    proof {
        assert(fraction_digits(s, whole as nat, 0) =~= s.take(whole as int));
    }
    loop
        invariant_except_break
            it.remaining() == rest.skip(count as int),
        invariant
            s == data@,
            rest == s.skip(whole + 1),
            whole == digit_run(s),
            whole < s.len() <= usize::MAX,
            s[whole as int] == '.',
            count <= rest.len(),
            forall|i: int| 0 <= i < count ==> is_decimal_digit(#[trigger] rest[i]),
            value == decimal_value(fraction_digits(s, whole as nat, count as nat)),
        ensures
            count == rest.len() || !is_decimal_digit(rest[count as int]),
        decreases rest.len() - count,
    {
        match it.next() {
            None => {
                break ;
            },
            Some(c) => {
                assert(rest.skip(count as int).drop_first() =~= rest.skip(count + 1));
                if !decimal_digit(c) {
                    break ;
                }
                proof {
                    assert(c == s[whole + 1 + count]);
                    assert(fraction_digits(s, whole as nat, (count + 1) as nat)
                        =~= fraction_digits(s, whole as nat, count as nat).push(c));
                    lemma_decimal_value_push(fraction_digits(s, whole as nat, count as nat), c);
                }
                match with_digit(value, digit_of(c)) {
                    None => {
                        proof {
                            lemma_fraction_too_large(s, (count + 1) as nat);
                        }
                        return Err(ASTError::new(Reason::NumberTooLarge));
                    },
                    Some(v) => {
                        value = v;
                    },
                }
                count += 1;
            },
        }
    }
    proof {
        lemma_run_len_unique(rest, |c: char| is_decimal_digit(c), count as nat);
    }
    Ok((TOKEN::Float(value, count), whole + 1 + count))
}

/// Where the first `k` characters are digits that write too large a number,
/// the literal is too large, with or without a fraction.
proof fn lemma_too_large(s: Seq<char>, k: nat)
    requires
        k <= s.len(),
        forall|i: int| 0 <= i < k ==> is_decimal_digit(#[trigger] s[i]),
        decimal_value(s.take(k as int)) > u64::MAX,
    ensures
        number(s) == Err::<(Lexeme, nat), Reason>(Reason::NumberTooLarge),
{
    let whole = digit_run(s);
    let fraction = fraction_run(s, whole);
    lemma_run_len_at_least(s, |c: char| is_decimal_digit(c), k);
    lemma_run_len(s, |c: char| is_decimal_digit(c));
    assert(s.take(whole as int) =~= s.take(k as int) + s.subrange(k as int, whole as int));
    lemma_decimal_value_grows(s.take(k as int), s.subrange(k as int, whole as int));
    if has_point(s, whole) {
        lemma_decimal_value_grows(
            s.take(whole as int),
            s.subrange(whole + 1 as int, whole + 1 + fraction as int),
        );
    }
}

/// Where the whole part, a point and `k` digits after it write too large a
/// number, the literal is too large.
proof fn lemma_fraction_too_large(s: Seq<char>, k: nat)
    requires
        digit_run(s) < s.len(),
        s[digit_run(s) as int] == '.',
        0 < k <= s.len() - digit_run(s) - 1,
        forall|i: int| 0 <= i < k ==> is_decimal_digit(#[trigger] s.skip(digit_run(s) + 1 as int)[i]),
        decimal_value(fraction_digits(s, digit_run(s), k)) > u64::MAX,
    ensures
        number(s) == Err::<(Lexeme, nat), Reason>(Reason::NumberTooLarge),
{
    let whole = digit_run(s);
    let rest = s.skip(whole + 1 as int);
    let fraction = fraction_run(s, whole);
    lemma_run_len_at_least(rest, |c: char| is_decimal_digit(c), k);
    lemma_run_len(rest, |c: char| is_decimal_digit(c));
    assert(fraction_digits(s, whole, fraction) =~= fraction_digits(s, whole, k) + s.subrange(
        whole + 1 + k as int,
        whole + 1 + fraction as int,
    ));
    lemma_decimal_value_grows(
        fraction_digits(s, whole, k),
        s.subrange(whole + 1 + k as int, whole + 1 + fraction as int),
    );
}

} // verus!
