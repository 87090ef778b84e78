//! Confidence lines of the wakeword engine.
//!
//! The engine answers each chunk with lines of ASCII text, each holding a
//! confidence as a decimal number. A line is a positive signal when the number
//! it holds is greater than one half. A line that holds no number is no error:
//! it is a negative signal.
//!
//! The text of a number, with white space around it removed, is
//!
//! ```text
//! Float  ::= Sign? ( 'inf' | 'infinity' | 'nan' | Number )
//! Number ::= ( Digit+ | Digit+ '.' Digit* | Digit* '.' Digit+ ) Exp?
//! Exp    ::= 'e' Sign? Digit+
//! Sign   ::= [+-]
//! Digit  ::= [0-9]
//! ```
//!
//! where letters match in either case. The number is compared exactly, as the
//! decimal that is written, not after rounding to a machine format.

use crate::buffer::append;
use crate::decimal::{
    all_digits, all_zero, digits_value, exceeds_half, half_rule, is_digit, leading_zeros,
    lemma_exceeds_half_by_digits, lemma_value_skip_zeros, lemma_value_zero,
    lemma_zero_never_exceeds,
};
use vstd::prelude::*;
use vstd::slice::slice_subrange;

verus! {

/// Exponents are counted up to this bound only: beyond it the sign of the
/// exponent alone decides.
pub const EXPONENT_CAP: u128 = 0x1_0000_0000_0000_0000_0000;

/// ASCII white space: tab, line feed, vertical tab, form feed, carriage
/// return and space.
pub open spec fn is_space(b: u8) -> bool {
    (9 <= b <= 13) || b == 32
}

/// The number of white space bytes that `s` begins with.
pub open spec fn leading_spaces(s: Seq<u8>) -> nat
    decreases s.len(),
{
    if s.len() > 0 && is_space(s[0]) {
        1 + leading_spaces(s.skip(1))
    } else {
        0
    }
}

/// The number of white space bytes that `s` ends with.
pub open spec fn trailing_spaces(s: Seq<u8>) -> nat
    decreases s.len(),
{
    if s.len() > 0 && is_space(s.last()) {
        1 + trailing_spaces(s.drop_last())
    } else {
        0
    }
}

/// `s` without the white space at its beginning and at its end.
pub open spec fn trimmed(s: Seq<u8>) -> Seq<u8> {
    let rest = s.skip(leading_spaces(s) as int);
    rest.take(rest.len() - trailing_spaces(rest))
}

/// The number of digits that `s` begins with.
pub open spec fn digit_run(s: Seq<u8>) -> nat
    decreases s.len(),
{
    if s.len() > 0 && is_digit(s[0]) {
        1 + digit_run(s.skip(1))
    } else {
        0
    }
}

/// One if `s` begins with a sign, else zero.
pub open spec fn sign_len(s: Seq<u8>) -> nat {
    if s.len() > 0 && (s[0] == 43 || s[0] == 45) {
        1
    } else {
        0
    }
}

/// Whether `s` begins with a minus sign.
pub open spec fn is_negative(s: Seq<u8>) -> bool {
    s.len() > 0 && s[0] == 45
}

/// An ASCII letter in lower case; any other byte as it is.
pub open spec fn lower(b: u8) -> u8 {
    if 65 <= b <= 90 {
        (b + 32) as u8
    } else {
        b
    }
}

/// The word `inf`, in either case.
pub open spec fn spells_inf(s: Seq<u8>) -> bool {
    s.len() == 3 && lower(s[0]) == 105 && lower(s[1]) == 110 && lower(s[2]) == 102
}

/// The word `infinity`, in either case.
pub open spec fn spells_infinity(s: Seq<u8>) -> bool {
    s.len() == 8 && lower(s[0]) == 105 && lower(s[1]) == 110 && lower(s[2]) == 102 && lower(s[3])
        == 105 && lower(s[4]) == 110 && lower(s[5]) == 105 && lower(s[6]) == 116 && lower(s[7])
        == 121
}

/// The word `nan`, in either case.
pub open spec fn spells_nan(s: Seq<u8>) -> bool {
    s.len() == 3 && lower(s[0]) == 110 && lower(s[1]) == 97 && lower(s[2]) == 110
}

/// A decimal number as it is written: its sign, its digits, and the power of
/// ten by which the value of the digits is scaled.
pub struct Decimal {
    pub negative: bool,
    pub digits: Seq<u8>,
    pub scale: int,
}

/// The digits of a `Number` and what follows them.
pub struct Mantissa {
    /// The digits before and after the decimal point, in order.
    pub digits: Seq<u8>,
    /// How many of the digits stand after the decimal point.
    pub frac_len: nat,
    /// The text behind the last digit.
    pub rest: Seq<u8>,
}

/// Reads digits, then a decimal point with more digits if there is one.
pub open spec fn parse_mantissa(body: Seq<u8>) -> Mantissa {
    let int_len = digit_run(body);
    let after_int = body.skip(int_len as int);
    if after_int.len() > 0 && after_int[0] == 46 {
        let frac_src = after_int.skip(1);
        let frac_len = digit_run(frac_src);
        Mantissa {
            digits: body.take(int_len as int) + frac_src.take(frac_len as int),
            frac_len,
            rest: frac_src.skip(frac_len as int),
        }
    } else {
        Mantissa { digits: body.take(int_len as int), frac_len: 0, rest: after_int }
    }
}

/// The exponent that the text behind the digits holds: none written is zero,
/// and anything but `Exp` is not accepted.
pub open spec fn parse_exponent(rest: Seq<u8>) -> Option<int> {
    if rest.len() == 0 {
        Some(0)
    } else if rest[0] == 101 || rest[0] == 69 {
        let exp_src = rest.skip(1);
        let exp_digits = exp_src.skip(sign_len(exp_src) as int);
        if exp_digits.len() > 0 && digit_run(exp_digits) == exp_digits.len() {
            if is_negative(exp_src) {
                Some(-(digits_value(exp_digits) as int))
            } else {
                Some(digits_value(exp_digits) as int)
            }
        } else {
            None
        }
    } else {
        None
    }
}

/// The number that the text `t` holds, if it is written as a `Number` with an
/// optional sign before it.
pub open spec fn parse_decimal(t: Seq<u8>) -> Option<Decimal> {
    let mantissa = parse_mantissa(t.skip(sign_len(t) as int));
    if mantissa.digits.len() == 0 {
        None
    } else {
        match parse_exponent(mantissa.rest) {
            Some(exponent) => Some(
                Decimal {
                    negative: is_negative(t),
                    digits: mantissa.digits,
                    scale: exponent - mantissa.frac_len,
                },
            ),
            None => None,
        }
    }
}

/// A number counted up to the exponent cap.
pub open spec fn capped(value: nat) -> nat {
    if value < EXPONENT_CAP {
        value
    } else {
        EXPONENT_CAP as nat
    }
}

/// Whether a decimal number is greater than one half.
pub open spec fn decimal_exceeds_half(d: Decimal) -> bool {
    !d.negative && exceeds_half(digits_value(d.digits), d.scale)
}

/// Whether the text `t` is an infinity without a minus sign.
pub open spec fn is_positive_infinity(t: Seq<u8>) -> bool {
    let body = t.skip(sign_len(t) as int);
    !is_negative(t) && (spells_inf(body) || spells_infinity(body))
}

/// Whether the text `t`, taken as it is, holds a number greater than one half.
pub open spec fn text_exceeds_half(t: Seq<u8>) -> bool {
    is_positive_infinity(t) || (parse_decimal(t) matches Some(d) && decimal_exceeds_half(d))
}

/// Whether the text `t`, taken as it is, is written as the grammar asks.
pub open spec fn is_float_text(t: Seq<u8>) -> bool {
    let body = t.skip(sign_len(t) as int);
    spells_inf(body) || spells_infinity(body) || spells_nan(body) || parse_decimal(t) is Some
}

/// Whether a line of the engine's output holds a number at all.
pub open spec fn is_well_formed(line: Seq<u8>) -> bool {
    is_float_text(trimmed(line))
}

/// Whether a line of the engine's output is a positive signal: with the white
/// space around it removed, it holds a number greater than one half.
pub open spec fn is_confident(line: Seq<u8>) -> bool {
    text_exceeds_half(trimmed(line))
}

/// Where the white space at the beginning of a text ends.
pub proof fn lemma_leading_spaces(s: Seq<u8>)
    ensures
        leading_spaces(s) <= s.len(),
        forall|i: int| 0 <= i < leading_spaces(s) ==> is_space(#[trigger] s[i]),
        leading_spaces(s) < s.len() ==> !is_space(s[leading_spaces(s) as int]),
    decreases s.len(),
{
    if s.len() > 0 && is_space(s[0]) {
        let rest = s.skip(1);
        lemma_leading_spaces(rest);
        assert forall|i: int| 0 <= i < leading_spaces(s) implies is_space(#[trigger] s[i]) by {
            if i > 0 {
                assert(s[i] == rest[i - 1]);
            }
        }
        if leading_spaces(s) < s.len() {
            assert(s[leading_spaces(s) as int] == rest[leading_spaces(rest) as int]);
        }
    }
}

/// Where the white space at the end of a text begins.
pub proof fn lemma_trailing_spaces(s: Seq<u8>)
    ensures
        trailing_spaces(s) <= s.len(),
        forall|i: int| s.len() - trailing_spaces(s) <= i < s.len() ==> is_space(#[trigger] s[i]),
        trailing_spaces(s) < s.len() ==> !is_space(s[s.len() - trailing_spaces(s) - 1]),
    decreases s.len(),
{
    if s.len() > 0 && is_space(s.last()) {
        let front = s.drop_last();
        lemma_trailing_spaces(front);
        assert forall|i: int| s.len() - trailing_spaces(s) <= i < s.len() implies is_space(
            #[trigger] s[i],
        ) by {
            if i < front.len() {
                assert(s[i] == front[i]);
            }
        }
        if trailing_spaces(s) < s.len() {
            assert(s[s.len() - trailing_spaces(s) - 1] == front[front.len() - trailing_spaces(
                front,
            ) - 1]);
        }
    }
}

/// Trimming takes away white space and nothing else: the text is white space,
/// then the trimmed text, then white space, and the trimmed text neither
/// begins nor ends with white space.
pub proof fn lemma_trimmed(s: Seq<u8>)
    ensures
        leading_spaces(s) + trimmed(s).len() <= s.len(),
        s == s.take(leading_spaces(s) as int) + trimmed(s) + s.skip(
            (leading_spaces(s) + trimmed(s).len()) as int,
        ),
        forall|i: int| 0 <= i < leading_spaces(s) ==> is_space(#[trigger] s[i]),
        forall|i: int|
            leading_spaces(s) + trimmed(s).len() <= i < s.len() ==> is_space(#[trigger] s[i]),
        trimmed(s).len() > 0 ==> !is_space(trimmed(s)[0]) && !is_space(trimmed(s).last()),
{
    let lead = leading_spaces(s) as int;
    lemma_leading_spaces(s);
    let rest = s.skip(lead);
    lemma_trailing_spaces(rest);
    let kept = trimmed(s);
    assert(s =~= s.take(lead) + kept + s.skip(lead + kept.len()));
    assert forall|i: int| lead + kept.len() <= i < s.len() implies is_space(#[trigger] s[i]) by {
        assert(s[i] == rest[i - lead]);
    }
    if kept.len() > 0 {
        assert(kept[0] == s[lead]);
        assert(kept.last() == rest[rest.len() - trailing_spaces(rest) - 1]);
    }
}

/// A line that holds no number is a negative signal.
pub proof fn lemma_malformed_is_negative(line: Seq<u8>)
    requires
        !is_well_formed(line),
    ensures
        !is_confident(line),
{
}

/// A sign as it may stand before digits: nothing, a plus or a minus.
pub open spec fn is_sign(s: Seq<u8>) -> bool {
    s.len() == 0 || (s.len() == 1 && (s[0] == 43 || s[0] == 45))
}

/// Whether a sign is a minus.
pub open spec fn is_minus(sign: Seq<u8>) -> bool {
    sign.len() == 1 && sign[0] == 45
}

/// The digits of a number as they are written: digits, and behind a decimal
/// point, if there is one, more digits.
pub struct MantissaText {
    pub int_digits: Seq<u8>,
    pub point: bool,
    pub frac_digits: Seq<u8>,
}

impl MantissaText {
    /// Digits are digits, and there are digits behind the point only where
    /// there is a point.
    pub open spec fn well_formed(self) -> bool {
        &&& all_digits(self.int_digits)
        &&& all_digits(self.frac_digits)
        &&& !self.point ==> self.frac_digits.len() == 0
    }

    /// The digits, as written.
    pub open spec fn text(self) -> Seq<u8> {
        if self.point {
            self.int_digits + seq![46u8] + self.frac_digits
        } else {
            self.int_digits
        }
    }
}

/// An exponent as it is written: the letter `e`, a sign, and digits.
pub struct ExponentText {
    pub marker: u8,
    pub sign: Seq<u8>,
    pub digits: Seq<u8>,
}

impl ExponentText {
    /// The letter is an `e` in either case, and there is at least one digit.
    pub open spec fn well_formed(self) -> bool {
        &&& self.marker == 101 || self.marker == 69
        &&& is_sign(self.sign)
        &&& all_digits(self.digits)
        &&& self.digits.len() > 0
    }

    /// The exponent, as written.
    pub open spec fn text(self) -> Seq<u8> {
        seq![self.marker] + self.sign + self.digits
    }

    /// The exponent that is written.
    pub open spec fn value(self) -> int {
        if is_minus(self.sign) {
            -(digits_value(self.digits) as int)
        } else {
            digits_value(self.digits) as int
        }
    }
}

/// The exponent part of a number, as written; it may be missing.
pub open spec fn exponent_text(exponent: Option<ExponentText>) -> Seq<u8> {
    match exponent {
        Some(e) => e.text(),
        None => Seq::empty(),
    }
}

/// The exponent that is written; none is zero.
pub open spec fn exponent_value(exponent: Option<ExponentText>) -> int {
    match exponent {
        Some(e) => e.value(),
        None => 0,
    }
}

/// A number as it is written, taken apart.
pub struct NumberText {
    pub sign: Seq<u8>,
    pub mantissa: MantissaText,
    pub exponent: Option<ExponentText>,
}

impl NumberText {
    /// The parts are what the grammar asks for, and the number has at least
    /// one digit before or behind its decimal point.
    pub open spec fn well_formed(self) -> bool {
        &&& is_sign(self.sign)
        &&& self.mantissa.well_formed()
        &&& self.mantissa.int_digits.len() + self.mantissa.frac_digits.len() > 0
        &&& self.exponent matches Some(e) ==> e.well_formed()
    }

    /// The number, as written.
    pub open spec fn text(self) -> Seq<u8> {
        self.sign + (self.mantissa.text() + exponent_text(self.exponent))
    }

    /// The decimal that is written.
    pub open spec fn denotes(self) -> Decimal {
        Decimal {
            negative: is_minus(self.sign),
            digits: self.mantissa.int_digits + self.mantissa.frac_digits,
            scale: exponent_value(self.exponent) - self.mantissa.frac_digits.len(),
        }
    }
}

/// What a run of digits is made of, and where it ends.
pub proof fn lemma_digit_run(s: Seq<u8>)
    ensures
        digit_run(s) <= s.len(),
        all_digits(s.take(digit_run(s) as int)),
        digit_run(s) < s.len() ==> !is_digit(s[digit_run(s) as int]),
    decreases s.len(),
{
    if s.len() > 0 && is_digit(s[0]) {
        let rest = s.skip(1);
        lemma_digit_run(rest);
        let run = s.take(digit_run(s) as int);
        assert forall|i: int| 0 <= i < run.len() implies is_digit(#[trigger] run[i]) by {
            if i > 0 {
                assert(run[i] == rest.take(digit_run(rest) as int)[i - 1]);
            }
        }
        if digit_run(s) < s.len() {
            assert(s[digit_run(s) as int] == rest[digit_run(rest) as int]);
        }
    }
}

/// Digits in front of something that is no digit are a run of their own.
pub proof fn lemma_digit_run_of(digits: Seq<u8>, rest: Seq<u8>)
    requires
        all_digits(digits),
        rest.len() == 0 || !is_digit(rest[0]),
    ensures
        digit_run(digits + rest) == digits.len(),
    decreases digits.len(),
{
    let whole = digits + rest;
    if digits.len() == 0 {
        assert(whole =~= rest);
    } else {
        assert(whole[0] == digits[0]);
        assert(is_digit(digits[0]));
        let tail = digits.skip(1);
        assert forall|i: int| 0 <= i < tail.len() implies is_digit(#[trigger] tail[i]) by {
            assert(tail[i] == digits[i + 1]);
        }
        assert(whole.skip(1) =~= tail + rest);
        lemma_digit_run_of(tail, rest);
    }
}

/// Digits that are written are read back, with what follows them, as long as
/// what follows cannot be taken for more of them.
pub proof fn lemma_written_mantissa_is_read(m: MantissaText, rest: Seq<u8>)
    requires
        m.well_formed(),
        rest.len() == 0 || (!is_digit(rest[0]) && (m.point || rest[0] != 46)),
    ensures
        parse_mantissa(m.text() + rest) == (Mantissa {
            digits: m.int_digits + m.frac_digits,
            frac_len: m.frac_digits.len(),
            rest,
        }),
{
    let body = m.text() + rest;
    let int_len = m.int_digits.len() as int;
    if m.point {
        let frac_src = m.frac_digits + rest;
        let after_int = seq![46u8] + frac_src;
        assert(body =~= m.int_digits + after_int);
        assert(after_int[0] == 46);
        lemma_digit_run_of(m.int_digits, after_int);
        assert(body.skip(int_len) =~= after_int);
        assert(body.take(int_len) =~= m.int_digits);
        assert(after_int.skip(1) =~= frac_src);
        lemma_digit_run_of(m.frac_digits, rest);
        assert(frac_src.take(m.frac_digits.len() as int) =~= m.frac_digits);
        assert(frac_src.skip(m.frac_digits.len() as int) =~= rest);
    } else {
        assert(body =~= m.int_digits + rest);
        lemma_digit_run_of(m.int_digits, rest);
        assert(body.skip(int_len) =~= rest);
        assert(body.take(int_len) =~= m.int_digits);
        assert(m.int_digits + m.frac_digits =~= m.int_digits);
    }
}

/// An exponent that is written is read as its value; one that is missing is
/// read as zero.
pub proof fn lemma_written_exponent_is_read(exponent: Option<ExponentText>)
    requires
        exponent matches Some(e) ==> e.well_formed(),
    ensures
        parse_exponent(exponent_text(exponent)) == Some(exponent_value(exponent)),
{
    if let Some(e) = exponent {
        let rest = e.text();
        let exp_src = e.sign + e.digits;
        assert(rest =~= seq![e.marker] + exp_src);
        assert(rest[0] == e.marker);
        assert(rest.skip(1) =~= exp_src);
        assert(is_digit(e.digits[0]));
        if e.sign.len() == 0 {
            assert(exp_src =~= e.digits);
        } else {
            assert(exp_src[0] == e.sign[0]);
        }
        assert(sign_len(exp_src) == e.sign.len());
        assert(exp_src.skip(sign_len(exp_src) as int) =~= e.digits);
        assert(e.digits + Seq::<u8>::empty() =~= e.digits);
        lemma_digit_run_of(e.digits, Seq::empty());
        assert(is_negative(exp_src) == is_minus(e.sign));
    }
}

/// Every number that is written as the grammar asks is read, and read as the
/// decimal that it denotes.
pub proof fn lemma_written_number_is_read(n: NumberText)
    requires
        n.well_formed(),
    ensures
        parse_decimal(n.text()) == Some(n.denotes()),
{
    let t = n.text();
    let rest = exponent_text(n.exponent);
    let body = n.mantissa.text() + rest;
    assert(rest.len() == 0 || (rest[0] == 101 || rest[0] == 69)) by {
        if let Some(e) = n.exponent {
            assert(rest[0] == e.marker);
        }
    }
    assert(body.len() > 0 && body[0] != 43 && body[0] != 45) by {
        if n.mantissa.int_digits.len() > 0 {
            assert(body[0] == n.mantissa.int_digits[0]);
            assert(is_digit(n.mantissa.int_digits[0]));
        } else {
            assert(body[0] == 46);
        }
    }
    if n.sign.len() == 0 {
        assert(t =~= body);
    } else {
        assert(t[0] == n.sign[0]);
    }
    assert(sign_len(t) == n.sign.len());
    assert(t.skip(sign_len(t) as int) =~= body);
    assert(is_negative(t) == is_minus(n.sign));
    lemma_written_mantissa_is_read(n.mantissa, rest);
    lemma_written_exponent_is_read(n.exponent);
}

/// Digits that are read are the digits that are written.
pub proof fn lemma_read_mantissa_is_written(body: Seq<u8>) -> (m: MantissaText)
    ensures
        m.well_formed(),
        m.text() + parse_mantissa(body).rest == body,
        m.int_digits + m.frac_digits == parse_mantissa(body).digits,
        m.frac_digits.len() == parse_mantissa(body).frac_len,
{
    let int_len = digit_run(body);
    lemma_digit_run(body);
    let int_digits = body.take(int_len as int);
    let after_int = body.skip(int_len as int);
    assert(int_digits + after_int =~= body);
    if after_int.len() > 0 && after_int[0] == 46 {
        let frac_src = after_int.skip(1);
        lemma_digit_run(frac_src);
        let frac_len = digit_run(frac_src);
        let frac_digits = frac_src.take(frac_len as int);
        let rest = frac_src.skip(frac_len as int);
        let m = MantissaText { int_digits, point: true, frac_digits };
        assert(frac_digits + rest =~= frac_src);
        assert(seq![46u8] + frac_src =~= after_int);
        assert(m.text() + rest =~= int_digits + (seq![46u8] + (frac_digits + rest)));
        m
    } else {
        let m = MantissaText { int_digits, point: false, frac_digits: Seq::empty() };
        assert(int_digits + Seq::<u8>::empty() =~= int_digits);
        m
    }
}

/// An exponent that is read is the exponent that is written.
pub proof fn lemma_read_exponent_is_written(rest: Seq<u8>) -> (exponent: Option<ExponentText>)
    requires
        parse_exponent(rest) is Some,
    ensures
        exponent matches Some(e) ==> e.well_formed(),
        exponent_text(exponent) == rest,
        exponent_value(exponent) == parse_exponent(rest)->Some_0,
{
    if rest.len() == 0 {
        assert(rest =~= Seq::<u8>::empty());
        None
    } else {
        let exp_src = rest.skip(1);
        let sign = exp_src.take(sign_len(exp_src) as int);
        let digits = exp_src.skip(sign_len(exp_src) as int);
        lemma_digit_run(digits);
        assert(digits.take(digits.len() as int) =~= digits);
        let e = ExponentText { marker: rest[0], sign, digits };
        assert(sign + digits =~= exp_src);
        assert(seq![rest[0]] + exp_src =~= rest);
        assert(e.text() =~= seq![rest[0]] + (sign + digits));
        assert(is_negative(exp_src) == is_minus(sign));
        Some(e)
    }
}

/// Every text that is read as a number is written as the grammar asks, and is
/// read as the decimal that it denotes: the parts are returned.
pub proof fn lemma_read_number_is_written(t: Seq<u8>) -> (n: NumberText)
    requires
        parse_decimal(t) is Some,
    ensures
        n.well_formed(),
        n.text() == t,
        n.denotes() == parse_decimal(t)->Some_0,
{
    let sign = t.take(sign_len(t) as int);
    let body = t.skip(sign_len(t) as int);
    assert(sign + body =~= t);
    let mantissa = lemma_read_mantissa_is_written(body);
    let exponent = lemma_read_exponent_is_written(parse_mantissa(body).rest);
    assert(is_negative(t) == is_minus(sign));
    NumberText { sign, mantissa, exponent }
}

fn is_space_byte(b: u8) -> (r: bool)
    ensures
        r == is_space(b),
{
    (9 <= b && b <= 13) || b == 32
}

fn is_digit_byte(b: u8) -> (r: bool)
    ensures
        r == is_digit(b),
{
    48 <= b && b <= 57
}

fn lower_byte(b: u8) -> (r: u8)
    ensures
        r == lower(b),
{
    if 65 <= b && b <= 90 {
        b + 32
    } else {
        b
    }
}

fn count_leading_spaces(s: &[u8]) -> (n: usize)
    ensures
        n == leading_spaces(s@),
        n <= s@.len(),
{
    let mut i: usize = 0;
    proof {
        assert(s@.skip(0) =~= s@);
    }
    while i < s.len() && is_space_byte(s[i])
        invariant
            i <= s@.len(),
            leading_spaces(s@) == i + leading_spaces(s@.skip(i as int)),
        decreases s@.len() - i,
    {
        proof {
            assert(s@.skip(i as int)[0] == s@[i as int]);
            assert(s@.skip(i as int).skip(1) =~= s@.skip(i + 1));
        }
        i = i + 1;
    }
    proof {
        if i < s@.len() {
            assert(s@.skip(i as int)[0] == s@[i as int]);
        }
    }
    i
}

fn count_trailing_spaces(s: &[u8]) -> (n: usize)
    ensures
        n == trailing_spaces(s@),
        n <= s@.len(),
{
    let len: usize = s.len();
    let mut n: usize = 0;
    proof {
        assert(s@.take(len as int) =~= s@);
    }
    while n < len && is_space_byte(s[len - 1 - n])
        invariant
            len == s@.len(),
            n <= len,
            trailing_spaces(s@) == n + trailing_spaces(s@.take(len - n)),
        decreases len - n,
    {
        proof {
            assert(s@.take(len - n).last() == s@[len - 1 - n]);
            assert(s@.take(len - n).drop_last() =~= s@.take(len - n - 1));
        }
        n = n + 1;
    }
    proof {
        if n < len {
            assert(s@.take(len - n).last() == s@[len - 1 - n]);
        } else {
            assert(s@.take(0).len() == 0);
        }
        assert(s@.take(len as int) =~= s@);
    }
    n
}

/// The slice without the white space at its beginning and at its end.
pub fn trim(s: &[u8]) -> (t: &[u8])
    ensures
        t@ == trimmed(s@),
{
    let lead: usize = count_leading_spaces(s);
    let rest = slice_subrange(s, lead, s.len());
    let trail: usize = count_trailing_spaces(rest);
    slice_subrange(rest, 0, rest.len() - trail)
}

fn count_digits(s: &[u8]) -> (n: usize)
    ensures
        n == digit_run(s@),
        n <= s@.len(),
        all_digits(s@.take(n as int)),
{
    let mut i: usize = 0;
    proof {
        assert(s@.skip(0) =~= s@);
    }
    while i < s.len() && is_digit_byte(s[i])
        invariant
            i <= s@.len(),
            digit_run(s@) == i + digit_run(s@.skip(i as int)),
        decreases s@.len() - i,
    {
        proof {
            assert(s@.skip(i as int)[0] == s@[i as int]);
            assert(s@.skip(i as int).skip(1) =~= s@.skip(i + 1));
        }
        i = i + 1;
    }
    proof {
        if i < s@.len() {
            assert(s@.skip(i as int)[0] == s@[i as int]);
        }
        lemma_digit_run(s@);
    }
    i
}

fn count_leading_zeros(d: &[u8]) -> (n: usize)
    ensures
        n == leading_zeros(d@),
        n <= d@.len(),
{
    let mut i: usize = 0;
    proof {
        assert(d@.skip(0) =~= d@);
    }
    while i < d.len() && d[i] == 48
        invariant
            i <= d@.len(),
            leading_zeros(d@) == i + leading_zeros(d@.skip(i as int)),
        decreases d@.len() - i,
    {
        proof {
            assert(d@.skip(i as int)[0] == d@[i as int]);
            assert(d@.skip(i as int).skip(1) =~= d@.skip(i + 1));
        }
        i = i + 1;
    }
    proof {
        if i < d@.len() {
            assert(d@.skip(i as int)[0] == d@[i as int]);
        }
    }
    i
}

fn is_all_zero(d: &[u8]) -> (r: bool)
    ensures
        r == all_zero(d@),
{
    let mut i: usize = 0;
    while i < d.len()
        invariant
            i <= d@.len(),
            forall|j: int| 0 <= j < i ==> #[trigger] d@[j] == 48,
        decreases d@.len() - i,
    {
        if d[i] != 48 {
            return false;
        }
        i = i + 1;
    }
    true
}

/// The value of a run of digits, counted up to the cap.
fn capped_value(d: &[u8]) -> (value: u128)
    requires
        all_digits(d@),
    ensures
        value == capped(digits_value(d@)),
{
    let mut value: u128 = 0;
    let mut i: usize = 0;
    while i < d.len()
        invariant
            i <= d@.len(),
            all_digits(d@),
            value <= EXPONENT_CAP,
            value == capped(digits_value(d@.take(i as int))),
        decreases d@.len() - i,
    {
        proof {
            assert(d@.take(i + 1).drop_last() =~= d@.take(i as int));
            assert(d@.take(i + 1).last() == d@[i as int]);
            assert(is_digit(d@[i as int]));
        }
        if value < EXPONENT_CAP {
            let digit: u128 = (d[i] - 48) as u128;
            let next: u128 = value * 10 + digit;
            value = if next < EXPONENT_CAP {
                next
            } else {
                EXPONENT_CAP
            };
        }
        i = i + 1;
    }
    proof {
        assert(d@.take(i as int) =~= d@);
    }
    value
}

fn sign_length(s: &[u8]) -> (n: usize)
    ensures
        n == sign_len(s@),
        n <= s@.len(),
{
    if s.len() > 0 && (s[0] == 43 || s[0] == 45) {
        1
    } else {
        0
    }
}

fn starts_with_minus(s: &[u8]) -> (r: bool)
    ensures
        r == is_negative(s@),
{
    s.len() > 0 && s[0] == 45
}

fn is_infinity_word(s: &[u8]) -> (r: bool)
    ensures
        r == (spells_inf(s@) || spells_infinity(s@)),
{
    if s.len() == 3 {
        lower_byte(s[0]) == 105 && lower_byte(s[1]) == 110 && lower_byte(s[2]) == 102
    } else if s.len() == 8 {
        lower_byte(s[0]) == 105 && lower_byte(s[1]) == 110 && lower_byte(s[2]) == 102
            && lower_byte(s[3]) == 105 && lower_byte(s[4]) == 110 && lower_byte(s[5]) == 105
            && lower_byte(s[6]) == 116 && lower_byte(s[7]) == 121
    } else {
        false
    }
}

/// Reads the digits of a number: the digits themselves, how many of them
/// stand behind the decimal point, and the text that follows them.
fn read_mantissa(body: &[u8]) -> (parts: (Vec<u8>, usize, &[u8]))
    ensures
        parts.0@ == parse_mantissa(body@).digits,
        parts.1 == parse_mantissa(body@).frac_len,
        parts.2@ == parse_mantissa(body@).rest,
        all_digits(parts.0@),
        parts.1 <= body@.len(),
        parts.0@.len() <= body@.len(),
{
    let int_len: usize = count_digits(body);
    let after_int = slice_subrange(body, int_len, body.len());
    let mut digits: Vec<u8> = Vec::new();
    append(&mut digits, slice_subrange(body, 0, int_len));
    if after_int.len() > 0 && after_int[0] == 46 {
        let frac_src = slice_subrange(after_int, 1, after_int.len());
        let frac_len: usize = count_digits(frac_src);
        append(&mut digits, slice_subrange(frac_src, 0, frac_len));
        proof {
            let int_part = body@.take(int_len as int);
            let frac_part = frac_src@.take(frac_len as int);
            assert(digits@ =~= int_part + frac_part);
            assert forall|i: int| 0 <= i < digits@.len() implies is_digit(
                #[trigger] digits@[i],
            ) by {
                if i < int_len {
                    assert(digits@[i] == int_part[i]);
                } else {
                    assert(digits@[i] == frac_part[i - int_len]);
                }
            }
        }
        (digits, frac_len, slice_subrange(frac_src, frac_len, frac_src.len()))
    } else {
        proof {
            assert(digits@ =~= body@.take(int_len as int));
        }
        (digits, 0, after_int)
    }
}

/// Reads the exponent behind the digits: whether it has a minus sign, and its
/// size counted up to the cap. `None` when the text is no exponent.
fn read_exponent(rest: &[u8]) -> (exponent: Option<(bool, u128)>)
    ensures
        exponent is None <==> parse_exponent(rest@) is None,
        exponent matches Some(e) ==> {
            let written = parse_exponent(rest@)->Some_0;
            &&& e.1 == capped(if written < 0 { (-written) as nat } else { written as nat })
            &&& e.0 ==> written <= 0
            &&& !e.0 ==> written >= 0
        },
{
    if rest.len() == 0 {
        return Some((false, 0));
    }
    if rest[0] != 101 && rest[0] != 69 {
        return None;
    }
    let exp_src = slice_subrange(rest, 1, rest.len());
    let exp_sign: usize = sign_length(exp_src);
    let exp_digits = slice_subrange(exp_src, exp_sign, exp_src.len());
    if exp_digits.len() == 0 {
        return None;
    }
    let exp_run: usize = count_digits(exp_digits);
    if exp_run != exp_digits.len() {
        return None;
    }
    proof {
        assert(exp_digits@.take(exp_run as int) =~= exp_digits@);
    }
    Some((starts_with_minus(exp_src), capped_value(exp_digits)))
}

/// Whether digits that are scaled by a power of ten denote more than one half.
/// The scale is the written exponent less the number of digits behind the
/// decimal point; the exponent is given by its sign and its capped size.
fn digits_exceed_half(
    digits: &[u8],
    frac_len: usize,
    exp_negative: bool,
    exp_magnitude: u128,
    Ghost(written): Ghost<int>,
) -> (r: bool)
    requires
        all_digits(digits@),
        exp_magnitude == capped(if written < 0 { (-written) as nat } else { written as nat }),
        exp_negative ==> written <= 0,
        !exp_negative ==> written >= 0,
    ensures
        r == exceeds_half(digits_value(digits@), written - frac_len),
{
    let ghost scale = written - frac_len;
    proof {
        lemma_value_skip_zeros(digits@);
        lemma_value_zero(digits@);
    }
    let zeros: usize = count_leading_zeros(digits);
    if zeros == digits.len() {
        proof {
            lemma_zero_never_exceeds(scale);
        }
        return false;
    }
    let sig_len: usize = digits.len() - zeros;
    let exponent: i128 = if exp_negative {
        -(exp_magnitude as i128)
    } else {
        exp_magnitude as i128
    };
    let point: i128 = (sig_len as i128) + exponent - (frac_len as i128);
    proof {
        lemma_exceeds_half_by_digits(digits@, scale);
        let true_point = sig_len + scale;
        assert(true_point >= 1 <==> point >= 1);
        assert(true_point == 0 <==> point == 0);
    }
    if point >= 1 {
        true
    } else if point < 0 {
        false
    } else {
        let first: u8 = digits[zeros];
        let tail = slice_subrange(digits, zeros + 1, digits.len());
        proof {
            let sig = digits@.skip(zeros as int);
            assert(sig[0] == first);
            assert(sig.skip(1) =~= tail@);
        }
        first > 53 || (first == 53 && !is_all_zero(tail))
    }
}

/// Whether the text holds a decimal number greater than one half.
fn number_exceeds_half(t: &[u8]) -> (r: bool)
    ensures
        r == (parse_decimal(t@) matches Some(d) && decimal_exceeds_half(d)),
{
    let sign: usize = sign_length(t);
    let body = slice_subrange(t, sign, t.len());
    let (digits, frac_len, rest) = read_mantissa(body);
    if digits.len() == 0 {
        return false;
    }
    match read_exponent(rest) {
        None => false,
        Some((exp_negative, exp_magnitude)) => {
            if starts_with_minus(t) {
                false
            } else {
                let ghost written = parse_exponent(rest@)->Some_0;
                digits_exceed_half(
                    digits.as_slice(),
                    frac_len,
                    exp_negative,
                    exp_magnitude,
                    Ghost(written),
                )
            }
        },
    }
}

/// Whether the text, taken as it is, holds a number greater than one half.
pub fn exceeds_half_text(t: &[u8]) -> (r: bool)
    ensures
        r == text_exceeds_half(t@),
{
    let sign: usize = sign_length(t);
    let body = slice_subrange(t, sign, t.len());
    if is_infinity_word(body) {
        proof {
            // A word of letters holds no digit and no point, so it is no number.
            if sign == 0 {
                assert(body@ =~= t@);
            }
            assert(!is_digit(body@[0]));
            assert(digit_run(body@) == 0);
            assert(body@.skip(0) =~= body@);
            assert(body@[0] != 46);
            assert(parse_mantissa(body@).digits.len() == 0);
        }
        !starts_with_minus(t)
    } else {
        number_exceeds_half(t)
    }
}

/// Reads one line of the engine's output: `true` when the line is a positive
/// signal, `false` when it is a negative one. A line that holds no number is a
/// negative signal, never an error.
pub fn parse_confidence_line(line: &[u8]) -> (confident: bool)
    ensures
        confident == is_confident(line@),
        !is_well_formed(line@) ==> !confident,
{
    exceeds_half_text(trim(line))
}

} // verus!
