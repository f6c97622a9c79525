//! Decimal numbers as text: reading and writing digits without rounding.
//!
//! Text is a sequence of ASCII codes. A number is an optional `+`, digits, and
//! optionally a point and more digits; at least one digit is needed.

use vstd::arithmetic::div_mod::{
    lemma_div_denominator, lemma_fundamental_div_mod, lemma_hoist_over_denominator,
    lemma_multiply_divide_lt,
};
use vstd::arithmetic::mul::lemma_mul_strict_inequality;
use vstd::prelude::*;

verus! {

/// ASCII code of the digit `0`.
pub const ZERO: u8 = 48;

/// ASCII code of the digit `9`.
pub const NINE: u8 = 57;

/// ASCII code of `+`.
pub const PLUS: u8 = 43;

/// ASCII code of `.`.
pub const POINT: u8 = 46;

/// Largest number of digits behind the point that a [`Decimal`] of this
/// library keeps.
pub const MAX_SCALE: u8 = 18;

/// Largest factor by which [`parse_scaled`] multiplies: 2 to the power of 40.
pub const MAX_FACTOR: u64 = 0x100_0000_0000;

/// `b` is the code of a digit.
pub open spec fn is_digit(b: u8) -> bool {
    ZERO <= b <= NINE
}

/// The value of the digit with code `b`.
pub open spec fn digit_value(b: u8) -> nat {
    (b - ZERO) as nat
}

/// All of `s` are digits.
pub open spec fn all_digits(s: Seq<u8>) -> bool {
    forall|i: int| 0 <= i < s.len() ==> is_digit(#[trigger] s[i])
}

/// The number that the digits `s` write; zero for no digits.
pub open spec fn digits_value(s: Seq<u8>) -> nat
    decreases s.len(),
{
    if s.len() == 0 {
        0
    } else {
        digits_value(s.drop_last()) * 10 + digit_value(s.last())
    }
}

/// Ten to the power of `n`.
pub open spec fn pow10(n: nat) -> nat
    decreases n,
{
    if n == 0 {
        1
    } else {
        10 * pow10((n - 1) as nat)
    }
}

/// `s` without a leading `+`.
pub open spec fn unsigned_part(s: Seq<u8>) -> Seq<u8> {
    if s.len() > 0 && s[0] == PLUS {
        s.drop_first()
    } else {
        s
    }
}

/// Index of the first point in `s`, or the length of `s` if it has none.
pub open spec fn point_index(s: Seq<u8>) -> int
    decreases s.len(),
{
    if s.len() == 0 || s[0] == POINT {
        0
    } else {
        1 + point_index(s.drop_first())
    }
}

/// The digits before the first point.
pub open spec fn integer_digits(s: Seq<u8>) -> Seq<u8> {
    s.take(point_index(s))
}

/// What follows the first point; nothing if there is no point.
pub open spec fn fraction_digits(s: Seq<u8>) -> Seq<u8> {
    if point_index(s) < s.len() {
        s.skip(point_index(s) + 1)
    } else {
        Seq::<u8>::empty()
    }
}

/// A decimal number: `mantissa` divided by ten to the power of `scale`.
pub struct Decimal {
    pub mantissa: nat,
    pub scale: nat,
}

impl Decimal {
    /// The same number with no zero at the end of its fraction.
    pub open spec fn normalized(self) -> Decimal
        decreases self.scale,
    {
        if self.scale > 0 && self.mantissa % 10 == 0 {
            Decimal { mantissa: self.mantissa / 10, scale: (self.scale - 1) as nat }.normalized()
        } else {
            self
        }
    }

    /// The fraction does not end in a zero.
    pub open spec fn is_normal(self) -> bool {
        self.scale == 0 || self.mantissa % 10 != 0
    }

    /// The number times `factor`, rounded down to a whole number.
    pub open spec fn scaled(self, factor: nat) -> nat {
        self.mantissa * factor / pow10(self.scale)
    }

    /// The given share of `total`, where the number counts hundredths:
    /// the number times `total` divided by 100, rounded down.
    pub open spec fn percent_of(self, total: nat) -> nat {
        self.mantissa * total / (100 * pow10(self.scale))
    }
}

/// The whole number that `s` writes: an optional `+` and at least one digit.
pub open spec fn spec_parse_integer(s: Seq<u8>) -> Option<nat> {
    let digits = unsigned_part(s);
    if digits.len() > 0 && all_digits(digits) {
        Some(digits_value(digits))
    } else {
        None
    }
}

/// The decimal number that `s` writes: an optional `+`, digits, and
/// optionally a point and more digits, with at least one digit in all.
pub open spec fn spec_parse_decimal(s: Seq<u8>) -> Option<Decimal> {
    let number = unsigned_part(s);
    let whole = integer_digits(number);
    let fraction = fraction_digits(number);
    if whole.len() + fraction.len() > 0 && all_digits(whole) && all_digits(fraction) {
        Some(Decimal { mantissa: digits_value(whole + fraction), scale: fraction.len() })
    } else {
        None
    }
}

/// Powers of ten are positive.
pub proof fn lemma_pow10_positive(n: nat)
    ensures
        pow10(n) > 0,
    decreases n,
{
    if n > 0 {
        lemma_pow10_positive((n - 1) as nat);
    }
}

/// Ten to a sum is the product of the powers.
pub proof fn lemma_pow10_add(m: nat, n: nat)
    ensures
        pow10(m + n) == pow10(m) * pow10(n),
    decreases n,
{
    if n > 0 {
        lemma_pow10_add(m, (n - 1) as nat);
        assert(pow10(m + n) == 10 * pow10((m + n - 1) as nat));
        assert(10 * (pow10(m) * pow10((n - 1) as nat)) == pow10(m) * (10 * pow10((n - 1) as nat)))
            by (nonlinear_arith);
    } else {
        assert(pow10(m) * 1 == pow10(m));
    }
}

/// A larger power of ten is not smaller.
pub proof fn lemma_pow10_monotonic(m: nat, n: nat)
    requires
        m <= n,
    ensures
        pow10(m) <= pow10(n),
    decreases n,
{
    if m < n {
        lemma_pow10_monotonic(m, (n - 1) as nat);
    }
}

/// The first powers of ten.
pub proof fn lemma_pow10_values()
    ensures
        pow10(0) == 1,
        pow10(1) == 10,
        pow10(2) == 100,
        pow10(3) == 1_000,
        pow10(6) == 1_000_000,
        pow10(9) == 1_000_000_000,
        pow10(12) == 1_000_000_000_000,
        pow10(18) == 1_000_000_000_000_000_000,
        pow10(19) == 10_000_000_000_000_000_000,
        pow10(20) == 100_000_000_000_000_000_000,
{
    reveal_with_fuel(pow10, 21);
}

/// Digits written one after the other: the value of the first part moves up
/// by as many places as the second part is long.
pub proof fn lemma_digits_value_concat(a: Seq<u8>, b: Seq<u8>)
    ensures
        digits_value(a + b) == digits_value(a) * pow10(b.len()) + digits_value(b),
    decreases b.len(),
{
    if b.len() == 0 {
        assert(a + b =~= a);
        assert(digits_value(a) * 1 == digits_value(a));
    } else {
        lemma_digits_value_concat(a, b.drop_last());
        assert((a + b).drop_last() =~= a + b.drop_last());
        assert((a + b).last() == b.last());
        let va = digits_value(a);
        let p = pow10((b.len() - 1) as nat);
        let vb = digits_value(b.drop_last());
        assert(pow10(b.len()) == 10 * p);
        assert(digits_value(a + b) == (va * p + vb) * 10 + digit_value(b.last()));
        assert(digits_value(b) == vb * 10 + digit_value(b.last()));
        assert((va * p + vb) * 10 == va * (10 * p) + vb * 10) by (nonlinear_arith);
    }
}

/// `n` digits write a number below ten to the power of `n`.
pub proof fn lemma_digits_value_bound(s: Seq<u8>)
    requires
        all_digits(s),
    ensures
        digits_value(s) < pow10(s.len()),
    decreases s.len(),
{
    if s.len() > 0 {
        assert(all_digits(s.drop_last())) by {
            assert forall|i: int| 0 <= i < s.drop_last().len() implies is_digit(
                #[trigger] s.drop_last()[i],
            ) by {
                assert(s.drop_last()[i] == s[i]);
            }
        }
        lemma_digits_value_bound(s.drop_last());
        assert(is_digit(s.last()));
    }
}

/// A number is no smaller than what a prefix of its digits writes.
pub proof fn lemma_digits_value_prefix(s: Seq<u8>, n: int)
    requires
        0 <= n <= s.len(),
    ensures
        digits_value(s.take(n)) <= digits_value(s),
    decreases s.len() - n,
{
    if n == s.len() {
        assert(s.take(n) =~= s);
    } else {
        lemma_digits_value_prefix(s, n + 1);
        assert(s.take(n + 1).drop_last() =~= s.take(n));
    }
}

/// The index `p` is that of the first point of `s`, or its length.
pub proof fn lemma_point_index(s: Seq<u8>, p: int)
    requires
        0 <= p <= s.len(),
        forall|i: int| 0 <= i < p ==> s[i] != POINT,
        p < s.len() ==> s[p] == POINT,
    ensures
        point_index(s) == p,
    decreases s.len(),
{
    if s.len() > 0 && s[0] != POINT {
        assert forall|i: int| 0 <= i < p - 1 implies s.drop_first()[i] != POINT by {
            assert(s.drop_first()[i] == s[i + 1]);
        }
        lemma_point_index(s.drop_first(), p - 1);
    }
}

/// The first point lies within the text or at its end, and no point comes
/// before it.
pub proof fn lemma_point_index_bounds(s: Seq<u8>)
    ensures
        0 <= point_index(s) <= s.len(),
        forall|i: int| 0 <= i < point_index(s) ==> s[i] != POINT,
        point_index(s) < s.len() ==> s[point_index(s)] == POINT,
    decreases s.len(),
{
    if s.len() > 0 && s[0] != POINT {
        lemma_point_index_bounds(s.drop_first());
        assert forall|i: int| 0 <= i < point_index(s) implies s[i] != POINT by {
            if i > 0 {
                assert(s.drop_first()[i - 1] == s[i]);
            }
        }
    }
}

/// A whole part and a fraction multiply separately.
pub proof fn lemma_scaled_split(whole: nat, fraction: nat, scale: nat, factor: nat)
    ensures
        (whole * pow10(scale) + fraction) * factor / pow10(scale) == whole * factor + fraction
            * factor / pow10(scale),
{
    let p = pow10(scale);
    lemma_pow10_positive(scale);
    assert((whole * p + fraction) * factor == fraction * factor + (whole * factor) * p)
        by (nonlinear_arith);
    lemma_hoist_over_denominator((fraction * factor) as int, (whole * factor) as int, p);
}

/// One step of multiplying a fraction from its last digit to its first.
pub proof fn lemma_fraction_step(digit: nat, rest: nat, places: nat, factor: nat)
    ensures
        (digit * pow10(places) + rest) * factor / pow10(places + 1) == (digit * factor + rest
            * factor / pow10(places)) / 10,
{
    let p = pow10(places);
    lemma_pow10_positive(places);
    lemma_scaled_split(digit, rest, places, factor);
    assert(pow10(places + 1) == 10 * p);
    assert(p * 10 == 10 * p);
    lemma_div_denominator(((digit * p + rest) * factor) as int, p as int, 10);
}

/// A fraction below one, multiplied, stays below the factor.
pub proof fn lemma_fraction_below_factor(fraction: nat, scale: nat, factor: nat)
    requires
        fraction < pow10(scale),
        factor > 0,
    ensures
        fraction * factor / pow10(scale) < factor,
{
    lemma_pow10_positive(scale);
    lemma_mul_strict_inequality(fraction as int, pow10(scale) as int, factor as int);
    lemma_multiply_divide_lt((fraction * factor) as int, pow10(scale) as int, factor as int);
}

/// Whether `b` is the code of a digit.
pub fn is_digit_code(b: u8) -> (r: bool)
    ensures
        r == is_digit(b),
{
    ZERO <= b && b <= NINE
}

/// The whole number that `bytes` write, if they write one that a `u64` holds.
pub fn parse_integer(bytes: &[u8]) -> (r: Option<u64>)
    ensures
        r == match spec_parse_integer(bytes@) {
            Some(n) => if n <= u64::MAX {
                Some(n as u64)
            } else {
                None
            },
            None => None::<u64>,
        },
{
    let start: usize = if bytes.len() > 0 && bytes[0] == PLUS {
        1
    } else {
        0
    };
    let ghost digits = unsigned_part(bytes@);
    assert(digits =~= bytes@.skip(start as int));
    if start == bytes.len() {
        return None;
    }
    let mut value: u64 = 0;
    let mut i: usize = start;
    while i < bytes.len()
        invariant
            start <= i <= bytes.len(),
            start < bytes.len(),
            digits == unsigned_part(bytes@),
            digits == bytes@.skip(start as int),
            all_digits(digits.take(i - start)),
            value == digits_value(digits.take(i - start)),
        decreases bytes.len() - i,
    {
        let b = bytes[i];
        let ghost seen = digits.take(i - start);
        let ghost next = digits.take(i - start + 1);
        proof {
            assert(next.drop_last() =~= seen);
            assert(next.last() == b);
        }
        if !is_digit_code(b) {
            assert(!is_digit(digits[i - start]));
            return None;
        }
        let shifted = match value.checked_mul(10) {
            Some(shifted) => shifted.checked_add((b - ZERO) as u64),
            None => None,
        };
        match shifted {
            Some(sum) => {
                value = sum;
            },
            None => {
                proof {
                    assert(digits_value(next) > u64::MAX);
                    lemma_digits_value_prefix(digits, i - start + 1);
                }
                return None;
            },
        }
        proof {
            assert forall|j: int| 0 <= j < next.len() implies is_digit(#[trigger] next[j]) by {
                if j < seen.len() {
                    assert(seen[j] == next[j]);
                }
            }
        }
        i = i + 1;
    }
    assert(digits.take(i - start) =~= digits);
    Some(value)
}

/// Where the number in `bytes` begins and where its point lies, or would
/// lie, if its parts are digits and at least one digit is there.
fn scan_decimal(bytes: &[u8]) -> (r: Option<(usize, usize)>)
    ensures
        match r {
            Some((start, point)) => {
                &&& spec_parse_decimal(bytes@) is Some
                &&& start <= point <= bytes.len()
                &&& unsigned_part(bytes@) == bytes@.skip(start as int)
                &&& point - start == point_index(unsigned_part(bytes@))
                &&& integer_digits(unsigned_part(bytes@)) == bytes@.subrange(
                    start as int,
                    point as int,
                )
                &&& fraction_digits(unsigned_part(bytes@)) == if point < bytes.len() {
                    bytes@.skip(point + 1)
                } else {
                    Seq::<u8>::empty()
                }
            },
            None => spec_parse_decimal(bytes@) is None,
        },
{
    let start: usize = if bytes.len() > 0 && bytes[0] == PLUS {
        1
    } else {
        0
    };
    let ghost number = unsigned_part(bytes@);
    assert(number =~= bytes@.skip(start as int));
    let mut point: usize = start;
    while point < bytes.len() && bytes[point] != POINT
        invariant
            start <= point <= bytes.len(),
            number == unsigned_part(bytes@),
            number == bytes@.skip(start as int),
            forall|i: int| 0 <= i < point - start ==> number[i] != POINT,
            all_digits(number.take(point - start)),
        decreases bytes.len() - point,
    {
        if !is_digit_code(bytes[point]) {
            proof {
                let rest = number.take(point - start + 1);
                assert forall|i: int| 0 <= i < point - start + 1 implies number[i] != POINT by {}
                assert(number[point - start] == bytes@[point as int]);
                lemma_point_index_bounds(number);
                assert(point_index(number) > point - start) by {
                    if point_index(number) <= point - start {
                        if point_index(number) < number.len() {
                            assert(number[point_index(number)] == POINT);
                        }
                    }
                }
                assert(integer_digits(number)[point - start] == number[point - start]);
            }
            return None;
        }
        proof {
            let seen = number.take(point - start);
            let next = number.take(point - start + 1);
            assert forall|j: int| 0 <= j < next.len() implies is_digit(#[trigger] next[j]) by {
                if j < seen.len() {
                    assert(seen[j] == next[j]);
                }
            }
        }
        point = point + 1;
    }
    proof {
        lemma_point_index(number, point - start);
        assert(integer_digits(number) =~= bytes@.subrange(start as int, point as int));
    }
    let ghost fraction = fraction_digits(number);
    if point == bytes.len() {
        if point == start {
            return None;
        }
        return Some((start, point));
    }
    assert(fraction =~= bytes@.skip(point + 1));
    let mut i: usize = point + 1;
    while i < bytes.len()
        invariant
            point < i <= bytes.len(),
            number == unsigned_part(bytes@),
            fraction == fraction_digits(number),
            fraction == bytes@.skip(point + 1),
            all_digits(fraction.take(i - point - 1)),
        decreases bytes.len() - i,
    {
        if !is_digit_code(bytes[i]) {
            assert(!is_digit(fraction[i - point - 1]));
            return None;
        }
        proof {
            let seen = fraction.take(i - point - 1);
            let next = fraction.take(i - point);
            assert forall|j: int| 0 <= j < next.len() implies is_digit(#[trigger] next[j]) by {
                if j < seen.len() {
                    assert(seen[j] == next[j]);
                }
            }
        }
        i = i + 1;
    }
    assert(fraction.take(i - point - 1) =~= fraction);
    if point == start && point + 1 == bytes.len() {
        return None;
    }
    Some((start, point))
}

/// The decimal number that `bytes` write, times `factor`, rounded down to a
/// whole number; `u64::MAX` if it lies above that.
pub fn parse_scaled(bytes: &[u8], factor: u64) -> (r: Option<u64>)
    requires
        0 < factor <= MAX_FACTOR,
    ensures
        r == match spec_parse_decimal(bytes@) {
            Some(d) => Some(
                if d.scaled(factor as nat) <= u64::MAX {
                    d.scaled(factor as nat) as u64
                } else {
                    u64::MAX
                },
            ),
            None => None::<u64>,
        },
{
    let (start, point) = match scan_decimal(bytes) {
        Some(found) => found,
        None => {
            return None;
        },
    };
    let ghost number = unsigned_part(bytes@);
    let ghost whole_digits = integer_digits(number);
    let ghost fraction = fraction_digits(number);
    let ghost d = spec_parse_decimal(bytes@)->Some_0;
    // The whole part, as long as a u64 holds it.
    let mut whole: u64 = 0;
    let mut saturated = false;
    let mut i: usize = start;
    while i < point
        invariant
            start <= i <= point <= bytes.len(),
            whole_digits == bytes@.subrange(start as int, point as int),
            all_digits(whole_digits),
            !saturated ==> whole == digits_value(whole_digits.take(i - start)),
            saturated ==> digits_value(whole_digits.take(i - start)) > u64::MAX,
        decreases point - i,
    {
        let b = bytes[i];
        let ghost seen = whole_digits.take(i - start);
        let ghost next = whole_digits.take(i - start + 1);
        proof {
            assert(next.drop_last() =~= seen);
            assert(next.last() == b);
            assert(is_digit(whole_digits[i - start]));
        }
        if !saturated {
            let shifted = match whole.checked_mul(10) {
                Some(shifted) => shifted.checked_add((b - ZERO) as u64),
                None => None,
            };
            match shifted {
                Some(sum) => {
                    whole = sum;
                },
                None => {
                    saturated = true;
                },
            }
        }
        i = i + 1;
    }
    assert(whole_digits.take(point - start) =~= whole_digits);
    // The fraction, from its last digit to its first.
    let mut part: u64 = 0;
    let mut j: usize = bytes.len();
    let first: usize = if point < bytes.len() {
        point + 1
    } else {
        point
    };
    proof {
        assert(fraction.skip(fraction.len() as int) =~= Seq::<u8>::empty());
        assert(0nat * (factor as nat) / pow10(0) == 0);
    }
    while j > first
        invariant
            first <= j <= bytes.len(),
            point <= bytes.len(),
            first == if point < bytes.len() {
                point + 1
            } else {
                point as int
            },
            fraction == if point < bytes.len() {
                bytes@.skip(point + 1)
            } else {
                Seq::<u8>::empty()
            },
            all_digits(fraction),
            0 < factor <= MAX_FACTOR,
            part == digits_value(fraction.skip(j - first)) * (factor as nat) / pow10(
                (bytes.len() - j) as nat,
            ),
            part < factor,
        decreases j,
    {
        let b = bytes[j - 1];
        let ghost rest = fraction.skip(j - first);
        let ghost next = fraction.skip(j - first - 1);
        proof {
            assert(is_digit(fraction[j - first - 1]));
            assert(fraction[j - first - 1] == b);
            assert(next =~= seq![b] + rest);
            lemma_digits_value_concat(seq![b], rest);
            assert(seq![b].drop_last() =~= Seq::<u8>::empty());
            assert(digits_value(Seq::<u8>::empty()) == 0);
            assert(digits_value(seq![b]) == digits_value(seq![b].drop_last()) * 10 + digit_value(
                seq![b].last(),
            ));
            assert(digits_value(seq![b]) == digit_value(b));
            lemma_fraction_step(
                digit_value(b),
                digits_value(rest),
                rest.len(),
                factor as nat,
            );
            assert(all_digits(next)) by {
                assert forall|k: int| 0 <= k < next.len() implies is_digit(#[trigger] next[k]) by {
                    assert(next[k] == fraction[k + j - first - 1]);
                }
            }
            lemma_digits_value_bound(next);
            lemma_fraction_below_factor(digits_value(next), next.len(), factor as nat);
        }
        part = ((b - ZERO) as u64 * factor + part) / 10;
        j = j - 1;
    }
    proof {
        assert(fraction.skip(0) =~= fraction);
        lemma_digits_value_concat(whole_digits, fraction);
        lemma_scaled_split(
            digits_value(whole_digits),
            digits_value(fraction),
            fraction.len(),
            factor as nat,
        );
        assert(d.scaled(factor as nat) == digits_value(whole_digits) * (factor as nat) + part);
        if saturated {
            let w = digits_value(whole_digits);
            let f = factor as nat;
            assert(w * f >= w) by (nonlinear_arith)
                requires
                    f >= 1,
            ;
        }
    }
    if saturated {
        return Some(u64::MAX);
    }
    assert(whole * factor <= 0xffff_ffff_ffff_ffff * 0x100_0000_0000) by (nonlinear_arith)
        requires
            whole <= 0xffff_ffff_ffff_ffff,
            factor <= 0x100_0000_0000,
    ;
    let total: u128 = whole as u128 * factor as u128 + part as u128;
    if total > u64::MAX as u128 {
        Some(u64::MAX)
    } else {
        Some(total as u64)
    }
}

/// The code of the digit with value `d`.
pub open spec fn digit_code(d: nat) -> u8 {
    (ZERO + d) as u8
}

/// The digits that write `n`, with no leading zero but for zero itself.
pub open spec fn digits_of(n: nat) -> Seq<u8>
    decreases n,
{
    if n < 10 {
        seq![digit_code(n)]
    } else {
        digits_of(n / 10).push(digit_code(n % 10))
    }
}

/// The last `width` digits of `n`, with leading zeros.
pub open spec fn padded_digits(n: nat, width: nat) -> Seq<u8>
    decreases width,
{
    if width == 0 {
        Seq::<u8>::empty()
    } else {
        padded_digits(n / 10, (width - 1) as nat).push(digit_code(n % 10))
    }
}

/// The text of a decimal number: the digits of its whole part and, where its
/// fraction is not zero, a point and the digits of the fraction without zeros
/// at the end.
pub open spec fn decimal_text(d: Decimal) -> Seq<u8> {
    let n = d.normalized();
    if n.scale == 0 {
        digits_of(n.mantissa)
    } else {
        digits_of(n.mantissa / pow10(n.scale)) + seq![POINT] + padded_digits(
            n.mantissa % pow10(n.scale),
            n.scale,
        )
    }
}

/// Normalizing keeps the number, does not lengthen the fraction, and leaves
/// no zero at its end.
pub proof fn lemma_normalized(d: Decimal)
    ensures
        d.normalized().is_normal(),
        d.normalized().scale <= d.scale,
        d.normalized().mantissa * pow10((d.scale - d.normalized().scale) as nat) == d.mantissa,
    decreases d.scale,
{
    if d.scale > 0 && d.mantissa % 10 == 0 {
        let next = Decimal { mantissa: d.mantissa / 10, scale: (d.scale - 1) as nat };
        lemma_normalized(next);
        let n = d.normalized();
        let k = (next.scale - n.scale) as nat;
        assert(pow10(k + 1) == 10 * pow10(k));
        assert(n.mantissa * (10 * pow10(k)) == (n.mantissa * pow10(k)) * 10) by (nonlinear_arith);
    } else {
        assert(d.mantissa * 1 == d.mantissa);
    }
}

/// A number whose fraction does not end in zero is its own normal form.
pub proof fn lemma_normal_is_normalized(d: Decimal)
    requires
        d.is_normal(),
    ensures
        d.normalized() == d,
{
}

/// The digits of a number are digits, there is at least one, and they write
/// the number.
pub proof fn lemma_digits_of(n: nat)
    ensures
        digits_of(n).len() > 0,
        all_digits(digits_of(n)),
        digits_value(digits_of(n)) == n,
    decreases n,
{
    if n < 10 {
        let s = seq![digit_code(n)];
        assert(s.drop_last() =~= Seq::<u8>::empty());
        assert(digits_value(Seq::<u8>::empty()) == 0);
        assert(digits_value(s) == digits_value(s.drop_last()) * 10 + digit_value(s.last()));
    } else {
        lemma_digits_of(n / 10);
        let s = digits_of(n);
        assert(s.drop_last() =~= digits_of(n / 10));
        assert forall|i: int| 0 <= i < s.len() implies is_digit(#[trigger] s[i]) by {
            if i < s.len() - 1 {
                assert(s[i] == digits_of(n / 10)[i]);
            }
        }
    }
}

/// Padded digits are digits, as many as asked for, and write the number as
/// far as it fits.
pub proof fn lemma_padded_digits(n: nat, width: nat)
    ensures
        padded_digits(n, width).len() == width,
        all_digits(padded_digits(n, width)),
        digits_value(padded_digits(n, width)) == n % pow10(width),
    decreases width,
{
    if width > 0 {
        let w = (width - 1) as nat;
        lemma_padded_digits(n / 10, w);
        let s = padded_digits(n, width);
        assert(s.drop_last() =~= padded_digits(n / 10, w));
        assert forall|i: int| 0 <= i < s.len() implies is_digit(#[trigger] s[i]) by {
            if i < s.len() - 1 {
                assert(s[i] == padded_digits(n / 10, w)[i]);
            }
        }
        lemma_pow10_positive(w);
        lemma_mod_breakdown(n, pow10(w));
    } else {
        assert(n % 1 == 0);
    }
}

/// The last places of a number, taken one digit at a time.
pub proof fn lemma_mod_breakdown(n: nat, p: nat)
    requires
        p > 0,
    ensures
        n % (10 * p) == (n / 10 % p) * 10 + n % 10,
{
    vstd::arithmetic::div_mod::lemma_breakdown(n as int, 10, p as int);
    assert(10 * p == 10 * (p as int));
    assert(10 * ((n as int / 10) % (p as int)) == ((n / 10) % p) * 10);
}

/// Reading the text of a decimal number gives the number in normal form.
pub proof fn lemma_parse_decimal_text(d: Decimal)
    ensures
        spec_parse_decimal(decimal_text(d)) == Some(d.normalized()),
{
    let n = d.normalized();
    let text = decimal_text(d);
    lemma_normalized(d);
    if n.scale == 0 {
        lemma_digits_of(n.mantissa);
        assert(is_digit(text[0]));
        assert(unsigned_part(text) == text);
        assert forall|i: int| 0 <= i < text.len() implies text[i] != POINT by {
            assert(is_digit(text[i]));
        }
        lemma_point_index(text, text.len() as int);
        assert(integer_digits(text) =~= text);
        assert(text + Seq::<u8>::empty() =~= text);
    } else {
        let p = pow10(n.scale);
        lemma_pow10_positive(n.scale);
        let whole = digits_of(n.mantissa / p);
        let fraction = padded_digits(n.mantissa % p, n.scale);
        lemma_digits_of(n.mantissa / p);
        lemma_padded_digits(n.mantissa % p, n.scale);
        assert(text[0] == whole[0]);
        assert(is_digit(whole[0]));
        assert(unsigned_part(text) == text);
        assert forall|i: int| 0 <= i < whole.len() implies text[i] != POINT by {
            assert(text[i] == whole[i]);
            assert(is_digit(whole[i]));
        }
        assert(text[whole.len() as int] == POINT);
        lemma_point_index(text, whole.len() as int);
        assert(integer_digits(text) =~= whole);
        assert(fraction_digits(text) =~= fraction);
        lemma_digits_value_concat(whole, fraction);
        vstd::arithmetic::div_mod::lemma_mod_twice(n.mantissa as int, p as int);
        lemma_fundamental_div_mod(n.mantissa as int, p as int);
        assert((n.mantissa / p) * p == p * (n.mantissa / p)) by (nonlinear_arith);
    }
}

/// A decimal number times the power of ten of its scale is its mantissa, in
/// normal form too.
pub proof fn lemma_normalized_scaled(d: Decimal)
    ensures
        d.normalized().scaled(pow10(d.scale)) == d.mantissa,
{
    let n = d.normalized();
    lemma_normalized(d);
    let k = (d.scale - n.scale) as nat;
    lemma_pow10_add(k, n.scale);
    lemma_pow10_positive(n.scale);
    assert(n.mantissa * (pow10(k) * pow10(n.scale)) == (n.mantissa * pow10(k)) * pow10(n.scale))
        by (nonlinear_arith);
    vstd::arithmetic::div_mod::lemma_div_by_multiple(d.mantissa as int, pow10(n.scale) as int);
}

/// Appends the digits of `n` to `out`.
pub fn push_digits(out: &mut Vec<u8>, n: u64)
    ensures
        final(out)@ == old(out)@ + digits_of(n as nat),
    decreases n,
{
    if n >= 10 {
        push_digits(out, n / 10);
    }
    out.push(ZERO + (n % 10) as u8);
    proof {
        if n >= 10 {
            assert(out@ =~= old(out)@ + digits_of(n as nat));
        } else {
            assert(out@ =~= old(out)@ + digits_of(n as nat));
        }
    }
}

/// Appends the last `width` digits of `n` to `out`, with leading zeros.
pub fn push_padded_digits(out: &mut Vec<u8>, n: u64, width: u8)
    ensures
        final(out)@ == old(out)@ + padded_digits(n as nat, width as nat),
    decreases width,
{
    if width > 0 {
        push_padded_digits(out, n / 10, width - 1);
        out.push(ZERO + (n % 10) as u8);
    }
    proof {
        assert(out@ =~= old(out)@ + padded_digits(n as nat, width as nat));
    }
}

/// Ten to the power of `n`.
pub fn power_of_ten(n: u8) -> (p: u64)
    requires
        n <= 19,
    ensures
        p == pow10(n as nat),
{
    let mut p: u64 = 1;
    let mut i: u8 = 0;
    while i < n
        invariant
            i <= n <= 19,
            p == pow10(i as nat),
        decreases n - i,
    {
        proof {
            lemma_pow10_monotonic((i + 1) as nat, 19);
            lemma_pow10_values();
        }
        p = p * 10;
        i = i + 1;
    }
    p
}

/// Appends the text of the decimal number `mantissa` divided by ten to the
/// power of `scale` to `out`.
pub fn push_decimal(out: &mut Vec<u8>, mantissa: u64, scale: u8)
    requires
        scale <= 19,
    ensures
        final(out)@ == old(out)@ + decimal_text(
            Decimal { mantissa: mantissa as nat, scale: scale as nat },
        ),
{
    let ghost d = Decimal { mantissa: mantissa as nat, scale: scale as nat };
    let mut mantissa = mantissa;
    let mut scale = scale;
    while scale > 0 && mantissa % 10 == 0
        invariant
            scale <= 19,
            (Decimal { mantissa: mantissa as nat, scale: scale as nat }).normalized()
                == d.normalized(),
        decreases scale,
    {
        mantissa = mantissa / 10;
        scale = scale - 1;
    }
    if scale == 0 {
        push_digits(out, mantissa);
    } else {
        let p = power_of_ten(scale);
        proof {
            lemma_pow10_positive(scale as nat);
        }
        push_digits(out, mantissa / p);
        out.push(POINT);
        push_padded_digits(out, mantissa % p, scale);
        proof {
            assert(out@ =~= old(out)@ + decimal_text(d));
        }
    }
}

/// The digits in `bytes` from `from` to `to`, written behind those of `init`,
/// if a `u64` holds the number.
fn accumulate(bytes: &[u8], from: usize, to: usize, init: u64) -> (r: Option<u64>)
    requires
        from <= to <= bytes.len(),
        all_digits(bytes@.subrange(from as int, to as int)),
    ensures
        r == if init * pow10((to - from) as nat) + digits_value(
            bytes@.subrange(from as int, to as int),
        ) <= u64::MAX {
            Some(
                (init * pow10((to - from) as nat) + digits_value(
                    bytes@.subrange(from as int, to as int),
                )) as u64,
            )
        } else {
            None::<u64>
        },
{
    let ghost digits = bytes@.subrange(from as int, to as int);
    let mut value: u64 = init;
    let mut i: usize = from;
    proof {
        assert(digits.take(0) =~= Seq::<u8>::empty());
        assert(init * 1 == init);
    }
    while i < to
        invariant
            from <= i <= to <= bytes.len(),
            digits == bytes@.subrange(from as int, to as int),
            all_digits(digits),
            value == init * pow10((i - from) as nat) + digits_value(digits.take(i - from)),
        decreases to - i,
    {
        let b = bytes[i];
        let ghost seen = digits.take(i - from);
        let ghost next = digits.take(i - from + 1);
        let ghost rest = digits.skip(i - from + 1);
        proof {
            assert(next.drop_last() =~= seen);
            assert(next.last() == b);
            assert(is_digit(digits[i - from]));
            assert(pow10((i - from + 1) as nat) == 10 * pow10((i - from) as nat));
            assert(init * (10 * pow10((i - from) as nat)) == (init * pow10((i - from) as nat))
                * 10) by (nonlinear_arith);
        }
        let shifted = match value.checked_mul(10) {
            Some(shifted) => shifted.checked_add((b - ZERO) as u64),
            None => None,
        };
        match shifted {
            Some(sum) => {
                value = sum;
            },
            None => {
                proof {
                    let reached = init * pow10((i - from + 1) as nat) + digits_value(next);
                    assert(reached > u64::MAX);
                    assert(digits =~= next + rest);
                    lemma_digits_value_concat(next, rest);
                    lemma_pow10_add((i - from + 1) as nat, rest.len());
                    lemma_pow10_positive(rest.len());
                    let q = pow10(rest.len());
                    let a = init * pow10((i - from + 1) as nat);
                    let x = pow10((i - from + 1) as nat);
                    assert(init * (x * q) == (init * x) * q) by (nonlinear_arith);
                    assert(a * q + digits_value(next) * q >= a + digits_value(next))
                        by (nonlinear_arith)
                        requires
                            q >= 1,
                            a >= 0,
                            digits_value(next) >= 0,
                    ;
                }
                return None;
            },
        }
        i = i + 1;
    }
    assert(digits.take(to - from) =~= digits);
    Some(value)
}

/// The decimal number that `bytes` write, as mantissa and scale in normal
/// form, if a `u64` holds the mantissa and the scale is at most
/// [`MAX_SCALE`].
pub fn parse_normalized(bytes: &[u8]) -> (r: Option<(u64, u8)>)
    ensures
        r == match spec_parse_decimal(bytes@) {
            Some(d) => if d.normalized().mantissa <= u64::MAX && d.normalized().scale
                <= MAX_SCALE {
                Some((d.normalized().mantissa as u64, d.normalized().scale as u8))
            } else {
                None
            },
            None => None::<(u64, u8)>,
        },
{
    let (start, point) = match scan_decimal(bytes) {
        Some(found) => found,
        None => {
            return None;
        },
    };
    let ghost number = unsigned_part(bytes@);
    let ghost whole = integer_digits(number);
    let ghost fraction = fraction_digits(number);
    let ghost d = spec_parse_decimal(bytes@)->Some_0;
    let first: usize = if point < bytes.len() {
        point + 1
    } else {
        point
    };
    let mut end: usize = bytes.len();
    proof {
        assert(fraction.take(fraction.len() as int) =~= fraction);
    }
    while end > first && bytes[end - 1] == ZERO
        invariant
            first <= end <= bytes.len(),
            point <= bytes.len(),
            first == if point < bytes.len() {
                point + 1
            } else {
                point as int
            },
            fraction == if point < bytes.len() {
                bytes@.skip(point + 1)
            } else {
                Seq::<u8>::empty()
            },
            (Decimal {
                mantissa: digits_value(whole + fraction.take(end - first)),
                scale: (end - first) as nat,
            }).normalized() == d.normalized(),
        decreases end,
    {
        proof {
            let longer = whole + fraction.take(end - first);
            let shorter = whole + fraction.take(end - first - 1);
            assert(longer.drop_last() =~= shorter);
            assert(longer.last() == ZERO);
        }
        end = end - 1;
    }
    let ghost significant = fraction.take(end - first);
    proof {
        let kept = whole + significant;
        if end > first {
            assert(kept.last() == bytes@[end - 1]);
            assert(is_digit(fraction[end - first - 1]));
            assert(digits_value(kept) == digits_value(kept.drop_last()) * 10 + digit_value(
                kept.last(),
            ));
        }
        assert(d.normalized() == (Decimal {
            mantissa: digits_value(kept),
            scale: (end - first) as nat,
        }));
        assert(significant =~= bytes@.subrange(first as int, end as int));
        assert(all_digits(significant)) by {
            assert forall|i: int| 0 <= i < significant.len() implies is_digit(
                #[trigger] significant[i],
            ) by {
                assert(significant[i] == fraction[i]);
            }
        }
        lemma_digits_value_concat(whole, significant);
    }
    if end - first > MAX_SCALE as usize {
        return None;
    }
    let scale: u8 = (end - first) as u8;
    let whole_value = match accumulate(bytes, start, point, 0) {
        Some(v) => v,
        None => {
            proof {
                lemma_pow10_positive(significant.len());
                let w = digits_value(whole);
                let q = pow10(significant.len());
                assert(w * q >= w) by (nonlinear_arith)
                    requires
                        q >= 1,
                ;
            }
            return None;
        },
    };
    match accumulate(bytes, first, end, whole_value) {
        Some(mantissa) => Some((mantissa, scale)),
        None => None,
    }
}

} // verus!
