//! Decimal digit strings and the question whether the number they denote
//! exceeds one half.
//!
//! A number is given as a sequence of ASCII digits and a scale: it is the value
//! of the digits times ten to the power of the scale. The question is decided
//! on the digits alone, without ever computing the value.

use vstd::prelude::*;

verus! {

/// Ten to the power of `n`.
pub open spec fn pow10(n: nat) -> nat
    decreases n,
{
    if n == 0 {
        1
    } else {
        10 * pow10((n - 1) as nat)
    }
}

/// An ASCII decimal digit.
pub open spec fn is_digit(b: u8) -> bool {
    48 <= b <= 57
}

/// The number a digit stands for.
pub open spec fn digit_value(b: u8) -> nat {
    if is_digit(b) {
        (b - 48) as nat
    } else {
        0
    }
}

/// Every byte is a digit.
pub open spec fn all_digits(d: Seq<u8>) -> bool {
    forall|i: int| 0 <= i < d.len() ==> is_digit(#[trigger] d[i])
}

/// Every byte is the digit zero.
pub open spec fn all_zero(d: Seq<u8>) -> bool {
    forall|i: int| 0 <= i < d.len() ==> #[trigger] d[i] == 48
}

/// The number that a sequence of digits denotes, most significant digit first.
pub open spec fn digits_value(d: Seq<u8>) -> nat
    decreases d.len(),
{
    if d.len() == 0 {
        0
    } else {
        digits_value(d.drop_last()) * 10 + digit_value(d.last())
    }
}

/// The number of zeros that a sequence of digits begins with.
pub open spec fn leading_zeros(d: Seq<u8>) -> nat
    decreases d.len(),
{
    if d.len() > 0 && d[0] == 48 {
        1 + leading_zeros(d.skip(1))
    } else {
        0
    }
}

/// Whether `value` times ten to the power of `scale` is greater than one half.
pub open spec fn exceeds_half(value: nat, scale: int) -> bool {
    if scale >= 0 {
        2 * value * pow10(scale as nat) > 1
    } else {
        2 * value > pow10((-scale) as nat)
    }
}

/// Whether the fraction `0.sig` is greater than one half, for digits `sig`
/// that begin with a digit other than zero: the first digit is above five, or
/// it is five and some later digit is not zero.
pub open spec fn half_rule(sig: Seq<u8>) -> bool {
    sig[0] > 53 || (sig[0] == 53 && !all_zero(sig.skip(1)))
}

/// A power of ten is at least one.
pub proof fn lemma_pow10_positive(n: nat)
    ensures
        pow10(n) >= 1,
    decreases n,
{
    if n > 0 {
        lemma_pow10_positive((n - 1) as nat);
    }
}

/// Powers of ten grow with the exponent.
pub proof fn lemma_pow10_monotonic(a: nat, b: nat)
    requires
        a <= b,
    ensures
        pow10(a) <= pow10(b),
    decreases b,
{
    if a < b {
        lemma_pow10_monotonic(a, (b - 1) as nat);
        lemma_pow10_positive((b - 1) as nat);
    }
}

/// A sequence of `n` digits denotes a number below ten to the power of `n`.
pub proof fn lemma_value_bound(d: Seq<u8>)
    requires
        all_digits(d),
    ensures
        digits_value(d) < pow10(d.len()),
    decreases d.len(),
{
    if d.len() > 0 {
        let front = d.drop_last();
        assert forall|i: int| 0 <= i < front.len() implies is_digit(#[trigger] front[i]) by {
            assert(front[i] == d[i]);
        }
        lemma_value_bound(front);
        assert(is_digit(d[d.len() - 1]));
    }
}

/// The value of a sequence of digits, taken apart at its first digit.
pub proof fn lemma_value_front(d: Seq<u8>)
    requires
        d.len() > 0,
    ensures
        digits_value(d) == digit_value(d[0]) * pow10((d.len() - 1) as nat) + digits_value(
            d.skip(1),
        ),
    decreases d.len(),
{
    if d.len() == 1 {
        assert(d.drop_last().len() == 0);
        assert(d.skip(1).len() == 0);
        assert(digits_value(d.drop_last()) == 0);
        assert(digits_value(d.skip(1)) == 0);
        assert(d.last() == d[0]);
        let first = digit_value(d[0]) as int;
        let unit = pow10((d.len() - 1) as nat) as int;
        assert(first * unit == first) by (nonlinear_arith)
            requires
                unit == 1,
        ;
    } else {
        let front = d.drop_last();
        lemma_value_front(front);
        assert(front.skip(1) =~= d.skip(1).drop_last());
        assert(front[0] == d[0]);
        assert(d.skip(1).last() == d.last());
        let first = digit_value(d[0]) as int;
        let p = pow10((d.len() - 2) as nat) as int;
        let inner = digits_value(front.skip(1)) as int;
        assert(pow10((d.len() - 1) as nat) == 10 * p);
        assert(digits_value(front) == first * p + inner);
        assert(digits_value(d.skip(1)) == inner * 10 + digit_value(d.last()));
        assert(digits_value(d) == (first * p + inner) * 10 + digit_value(d.last()));
        let unit = pow10((d.len() - 1) as nat) as int;
        assert((first * p + inner) * 10 == first * unit + inner * 10) by (nonlinear_arith)
            requires
                unit == 10 * p,
        ;
    }
}

/// A leading zero adds nothing to the value.
pub proof fn lemma_value_skip_zeros(d: Seq<u8>)
    ensures
        leading_zeros(d) <= d.len(),
        digits_value(d) == digits_value(d.skip(leading_zeros(d) as int)),
        leading_zeros(d) < d.len() ==> d[leading_zeros(d) as int] != 48,
        all_zero(d) <==> leading_zeros(d) == d.len(),
    decreases d.len(),
{
    if d.len() > 0 && d[0] == 48 {
        let rest = d.skip(1);
        lemma_value_skip_zeros(rest);
        lemma_value_front(d);
        assert(digit_value(d[0]) * pow10((d.len() - 1) as nat) == 0) by (nonlinear_arith)
            requires
                digit_value(d[0]) == 0,
        ;
        assert(rest.skip(leading_zeros(rest) as int) =~= d.skip(leading_zeros(d) as int));
        if leading_zeros(d) < d.len() {
            assert(rest[leading_zeros(rest) as int] == d[leading_zeros(d) as int]);
        }
        if all_zero(d) {
            assert forall|i: int| 0 <= i < rest.len() implies #[trigger] rest[i] == 48 by {
                assert(rest[i] == d[i + 1]);
            }
        }
        if all_zero(rest) {
            assert forall|i: int| 0 <= i < d.len() implies #[trigger] d[i] == 48 by {
                if i > 0 {
                    assert(rest[i - 1] == d[i]);
                }
            }
        }
    } else {
        assert(d.skip(0) =~= d);
        if d.len() > 0 {
            assert(!all_zero(d));
        }
    }
}

/// Digits denote zero exactly when all of them are zero.
pub proof fn lemma_value_zero(d: Seq<u8>)
    requires
        all_digits(d),
    ensures
        digits_value(d) == 0 <==> all_zero(d),
    decreases d.len(),
{
    if d.len() > 0 {
        let front = d.drop_last();
        assert forall|i: int| 0 <= i < front.len() implies is_digit(#[trigger] front[i]) by {
            assert(front[i] == d[i]);
        }
        lemma_value_zero(front);
        assert(is_digit(d[d.len() - 1]));
        if all_zero(d) {
            assert forall|i: int| 0 <= i < front.len() implies #[trigger] front[i] == 48 by {
                assert(front[i] == d[i]);
            }
            assert(d[d.len() - 1] == 48);
        }
        if digits_value(d) == 0 {
            assert forall|i: int| 0 <= i < d.len() implies #[trigger] d[i] == 48 by {
                if i < front.len() {
                    assert(front[i] == d[i]);
                }
            }
        }
    }
}

/// Zero never exceeds one half, at any scale.
pub proof fn lemma_zero_never_exceeds(scale: int)
    ensures
        !exceeds_half(0, scale),
{
    if scale >= 0 {
        assert(2 * 0 * pow10(scale as nat) == 0) by (nonlinear_arith);
    } else {
        lemma_pow10_positive((-scale) as nat);
    }
}

/// Whether a number exceeds one half is decided by where its first
/// significant digit stands and, if that is right behind the decimal point, by
/// the digits themselves.
pub proof fn lemma_exceeds_half_by_digits(d: Seq<u8>, scale: int)
    requires
        all_digits(d),
        leading_zeros(d) < d.len(),
    ensures
        exceeds_half(digits_value(d), scale) <==> ({
            let sig = d.skip(leading_zeros(d) as int);
            let point = sig.len() + scale;
            point >= 1 || (point == 0 && half_rule(sig))
        }),
{
    lemma_value_skip_zeros(d);
    let sig = d.skip(leading_zeros(d) as int);
    let m = sig.len();
    let value = digits_value(sig) as int;
    assert forall|i: int| 0 <= i < sig.len() implies is_digit(#[trigger] sig[i]) by {
        assert(sig[i] == d[i + leading_zeros(d)]);
    }
    assert(is_digit(sig[0]));
    let tail = sig.skip(1);
    assert forall|i: int| 0 <= i < tail.len() implies is_digit(#[trigger] tail[i]) by {
        assert(tail[i] == sig[i + 1]);
    }
    lemma_value_front(sig);
    lemma_value_bound(tail);
    lemma_value_zero(tail);
    lemma_value_bound(sig);
    let first = digit_value(sig[0]) as int;
    let unit = pow10((m - 1) as nat) as int;
    let low = digits_value(tail) as int;
    lemma_pow10_positive((m - 1) as nat);
    assert(pow10(m) == 10 * unit);
    assert(value == first * unit + low);
    assert(1 <= first <= 9);
    assert(value >= unit) by (nonlinear_arith)
        requires
            value == first * unit + low,
            first >= 1,
            unit >= 1,
            low >= 0,
    ;
    let point = m + scale;
    if scale >= 0 {
        let p = pow10(scale as nat) as int;
        lemma_pow10_positive(scale as nat);
        assert(2 * value * p > 1) by (nonlinear_arith)
            requires
                value >= 1,
                p >= 1,
        ;
    } else {
        let b = (-scale) as nat;
        if point >= 1 {
            lemma_pow10_monotonic(b, (m - 1) as nat);
        } else if point <= -1 {
            lemma_pow10_monotonic(m + 1, b);
            assert(pow10(m + 1) == 10 * pow10(m));
        } else {
            assert(b == m);
            if first >= 6 {
                assert(2 * (first * unit + low) > 10 * unit) by (nonlinear_arith)
                    requires
                        first >= 6,
                        unit >= 1,
                        low >= 0,
                ;
            } else if first <= 4 {
                assert(2 * (first * unit + low) <= 10 * unit) by (nonlinear_arith)
                    requires
                        first <= 4,
                        unit >= 1,
                        low < unit,
                ;
            } else {
                assert(first * unit == 5 * unit) by (nonlinear_arith)
                    requires
                        first == 5,
                ;
            }
        }
    }
}

} // verus!
