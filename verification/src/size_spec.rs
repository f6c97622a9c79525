//! Size limits: an absolute number, or a share of a total in percent.
//!
//! All numbers are exact decimals; nothing is rounded but the final result,
//! which is rounded down to a whole number.

use crate::decimal::{
    decimal_text, digits_of, lemma_digits_of, lemma_normal_is_normalized, lemma_normalized,
    lemma_normalized_scaled, lemma_padded_digits, lemma_parse_decimal_text, lemma_pow10_positive,
    lemma_pow10_values, parse_integer, parse_normalized, parse_scaled, pow10, power_of_ten,
    push_decimal, push_digits, spec_parse_decimal, spec_parse_integer, Decimal, MAX_SCALE,
};
use vstd::prelude::*;
use vstd::slice::slice_subrange;
use vstd::string::{StrSliceExecFns, StringExecFns};

verus! {

/// A share in percent, as an exact decimal number. Its view is the number in
/// normal form, with at most [`MAX_SCALE`] digits behind the point.
#[derive(Debug, Clone, Copy, PartialEq, Eq)]
pub struct Percent {
    mantissa: u64,
    scale: u8,
}

impl View for Percent {
    type V = Decimal;

    closed spec fn view(&self) -> Decimal {
        Decimal { mantissa: self.mantissa as nat, scale: self.scale as nat }
    }
}

/// A decimal number that a [`Percent`] can hold.
pub open spec fn is_percent(d: Decimal) -> bool {
    &&& d.is_normal()
    &&& d.scale <= MAX_SCALE
    &&& d.mantissa <= u64::MAX
}

impl Percent {
    #[verifier::type_invariant]
    spec fn well_formed(self) -> bool {
        is_percent(self@)
    }

    /// The share of `mantissa` divided by ten to the power of `scale` percent,
    /// unless it has more than [`MAX_SCALE`] digits behind the point.
    pub fn new(mantissa: u64, scale: u8) -> (r: Option<Percent>)
        ensures
            match r {
                Some(p) => p@ == (Decimal {
                    mantissa: mantissa as nat,
                    scale: scale as nat,
                }).normalized() && is_percent(p@),
                None => (Decimal { mantissa: mantissa as nat, scale: scale as nat }).normalized().scale
                    > MAX_SCALE,
            },
    {
        let ghost d = Decimal { mantissa: mantissa as nat, scale: scale as nat };
        let mut mantissa = mantissa;
        let mut scale = scale;
        while scale > 0 && mantissa % 10 == 0
            invariant
                (Decimal { mantissa: mantissa as nat, scale: scale as nat }).normalized()
                    == d.normalized(),
            decreases scale,
        {
            mantissa = mantissa / 10;
            scale = scale - 1;
        }
        if scale > MAX_SCALE {
            None
        } else {
            Some(Percent { mantissa, scale })
        }
    }

    /// The share of `n` percent.
    pub fn whole(n: u64) -> (p: Percent)
        ensures
            p@ == (Decimal { mantissa: n as nat, scale: 0 }),
    {
        Percent { mantissa: n, scale: 0 }
    }

    /// This share of `total`, rounded down; `u64::MAX` if it lies above that.
    pub fn of(&self, total: u64) -> (r: u64)
        ensures
            is_percent(self@),
            r == if self@.percent_of(total as nat) <= u64::MAX {
                self@.percent_of(total as nat)
            } else {
                u64::MAX as nat
            },
    {
        proof {
            use_type_invariant(self);
            lemma_pow10_values();
            crate::decimal::lemma_pow10_monotonic(self.scale as nat, 18);
            lemma_pow10_positive(self.scale as nat);
        }
        let divisor: u128 = 100 * (power_of_ten(self.scale) as u128);
        assert(self.mantissa * total <= 0xffff_ffff_ffff_ffff * 0xffff_ffff_ffff_ffff)
            by (nonlinear_arith)
            requires
                self.mantissa <= 0xffff_ffff_ffff_ffff,
                total <= 0xffff_ffff_ffff_ffff,
        ;
        let share: u128 = (self.mantissa as u128 * total as u128) / divisor;
        if share > u64::MAX as u128 {
            u64::MAX
        } else {
            share as u64
        }
    }

    /// Appends the text of the share, without the percent sign, to `out`.
    fn push_text(&self, out: &mut Vec<u8>)
        ensures
            is_percent(self@),
            final(out)@ == old(out)@ + decimal_text(self@),
    {
        proof {
            use_type_invariant(self);
        }
        push_decimal(out, self.mantissa, self.scale);
    }
}

/// Representation for a user-specified size limit (percentage or absolute).
#[derive(Debug, Clone, Copy, PartialEq)]
pub enum SizeSpec {
    Percentage(Percent),
    Absolute(u64),
}

/// Mathematical value of a [`SizeSpec`].
pub enum Size {
    Percentage(Decimal),
    Absolute(nat),
}

impl Size {
    /// The limit when `total` is available: an absolute number as it is, a
    /// percentage as that share of `total`, rounded down.
    pub open spec fn value(self, total: nat) -> nat {
        match self {
            Size::Percentage(d) => d.percent_of(total),
            Size::Absolute(n) => n,
        }
    }

    /// A [`SizeSpec`] can hold this value.
    pub open spec fn is_representable(self) -> bool {
        match self {
            Size::Percentage(d) => is_percent(d),
            Size::Absolute(n) => n <= u64::MAX,
        }
    }
}

impl View for SizeSpec {
    type V = Size;

    open spec fn view(&self) -> Size {
        match self {
            SizeSpec::Percentage(p) => Size::Percentage(p@),
            SizeSpec::Absolute(n) => Size::Absolute(*n as nat),
        }
    }
}

/// Error type for parsing a `SizeSpec`.
#[derive(Debug, Clone, Copy, PartialEq, Eq, Structural)]
pub enum ParseSizeSpecError {
    /// The text is empty.
    EmptyString,
    /// The text ends in a digit and is not a whole number that fits, or
    /// starts with a minus sign.
    InvalidInt,
    /// What stands before the unit is not a decimal number that fits.
    InvalidDecimal,
    /// The text ends in something that is no unit.
    InvalidUnit(char),
}

/// What the end of a text says about the number before it.
#[derive(Debug, Clone, Copy, PartialEq, Eq, Structural)]
pub enum Unit {
    /// The text ends in a digit: a whole number with no unit.
    Plain,
    /// The last `suffix_len` characters are a unit that multiplies by
    /// `factor`.
    Scaled { suffix_len: usize, factor: u64 },
    /// The text ends in a percent sign.
    Percent,
    /// The text ends in something else.
    Unknown,
}

/// The unit that a text ends in, by its last character and the one before.
/// `Ki`, `ki`, `Mi`, `Gi`, `Ti` multiply by powers of 1024, `K`, `k`, `M`,
/// `G`, `T` by powers of 1000.
pub open spec fn unit_of(forelast: char, last: char) -> Unit {
    if '0' <= last <= '9' {
        Unit::Plain
    } else if last == 'i' && (forelast == 'K' || forelast == 'k') {
        Unit::Scaled { suffix_len: 2, factor: 1024 }
    } else if last == 'i' && forelast == 'M' {
        Unit::Scaled { suffix_len: 2, factor: 1_048_576 }
    } else if last == 'i' && forelast == 'G' {
        Unit::Scaled { suffix_len: 2, factor: 1_073_741_824 }
    } else if last == 'i' && forelast == 'T' {
        Unit::Scaled { suffix_len: 2, factor: 1_099_511_627_776 }
    } else if last == 'K' || last == 'k' {
        Unit::Scaled { suffix_len: 1, factor: 1_000 }
    } else if last == 'M' {
        Unit::Scaled { suffix_len: 1, factor: 1_000_000 }
    } else if last == 'G' {
        Unit::Scaled { suffix_len: 1, factor: 1_000_000_000 }
    } else if last == 'T' {
        Unit::Scaled { suffix_len: 1, factor: 1_000_000_000_000 }
    } else if last == '%' {
        Unit::Percent
    } else {
        Unit::Unknown
    }
}

/// The unit that a text ends in, see [`unit_of`].
pub fn classify_unit(forelast: char, last: char) -> (unit: Unit)
    ensures
        unit == unit_of(forelast, last),
{
    if '0' <= last && last <= '9' {
        Unit::Plain
    } else if last == 'i' && (forelast == 'K' || forelast == 'k') {
        Unit::Scaled { suffix_len: 2, factor: 1024 }
    } else if last == 'i' && forelast == 'M' {
        Unit::Scaled { suffix_len: 2, factor: 1_048_576 }
    } else if last == 'i' && forelast == 'G' {
        Unit::Scaled { suffix_len: 2, factor: 1_073_741_824 }
    } else if last == 'i' && forelast == 'T' {
        Unit::Scaled { suffix_len: 2, factor: 1_099_511_627_776 }
    } else if last == 'K' || last == 'k' {
        Unit::Scaled { suffix_len: 1, factor: 1_000 }
    } else if last == 'M' {
        Unit::Scaled { suffix_len: 1, factor: 1_000_000 }
    } else if last == 'G' {
        Unit::Scaled { suffix_len: 1, factor: 1_000_000_000 }
    } else if last == 'T' {
        Unit::Scaled { suffix_len: 1, factor: 1_000_000_000_000 }
    } else if last == '%' {
        Unit::Percent
    } else {
        Unit::Unknown
    }
}

/// The ASCII codes of `chars`, if all of them are ASCII.
pub open spec fn codes_of(chars: Seq<char>) -> Option<Seq<u8>> {
    if vstd::utf8::is_ascii_chars(chars) {
        Some(Seq::new(chars.len(), |i: int| chars[i] as u8))
    } else {
        None
    }
}

/// The characters with the given ASCII codes.
pub open spec fn chars_of(codes: Seq<u8>) -> Seq<char> {
    Seq::new(codes.len(), |i: int| codes[i] as char)
}

/// The whole number that `chars` write, see [`spec_parse_integer`].
pub open spec fn integer_in(chars: Seq<char>) -> Option<nat> {
    match codes_of(chars) {
        Some(codes) => spec_parse_integer(codes),
        None => None,
    }
}

/// The decimal number that `chars` write, see [`spec_parse_decimal`].
pub open spec fn decimal_in(chars: Seq<char>) -> Option<Decimal> {
    match codes_of(chars) {
        Some(codes) => spec_parse_decimal(codes),
        None => None,
    }
}

/// `n`, or the largest `u64` if `n` lies above it.
pub open spec fn saturated(n: nat) -> nat {
    if n <= u64::MAX {
        n
    } else {
        u64::MAX as nat
    }
}

/// The size limit that the text `s` denotes, or why it denotes none.
///
/// An empty text and a text that starts with a minus sign denote nothing. A
/// text that ends in a digit is a whole number. A text that ends in a unit is
/// a decimal number times the factor of the unit, rounded down and capped at
/// the largest `u64`. A text that ends in a percent sign is a percentage.
pub open spec fn spec_parse(s: Seq<char>) -> Result<Size, ParseSizeSpecError> {
    if s.len() == 0 {
        Err(ParseSizeSpecError::EmptyString)
    } else if s[0] == '-' {
        Err(ParseSizeSpecError::InvalidInt)
    } else {
        let forelast = if s.len() >= 2 {
            s[s.len() - 2]
        } else {
            ' '
        };
        match unit_of(forelast, s.last()) {
            Unit::Plain => match integer_in(s) {
                Some(n) => if n <= u64::MAX {
                    Ok(Size::Absolute(n))
                } else {
                    Err(ParseSizeSpecError::InvalidInt)
                },
                None => Err(ParseSizeSpecError::InvalidInt),
            },
            Unit::Scaled { suffix_len, factor } => match decimal_in(s.take(s.len() - suffix_len)) {
                Some(d) => Ok(Size::Absolute(saturated(d.scaled(factor as nat)))),
                None => Err(ParseSizeSpecError::InvalidDecimal),
            },
            Unit::Percent => match decimal_in(s.take(s.len() - 1)) {
                Some(d) => if is_percent(d.normalized()) {
                    Ok(Size::Percentage(d.normalized()))
                } else {
                    Err(ParseSizeSpecError::InvalidDecimal)
                },
                None => Err(ParseSizeSpecError::InvalidDecimal),
            },
            Unit::Unknown => Err(ParseSizeSpecError::InvalidUnit(s.last())),
        }
    }
}

/// ASCII code of `K`, the unit of thousands.
pub const KILO: u8 = 75;

/// ASCII code of `M`, the unit of millions.
pub const MEGA: u8 = 77;

/// ASCII code of `G`, the unit of billions.
pub const GIGA: u8 = 71;

/// ASCII code of `T`, the unit of trillions.
pub const TERA: u8 = 84;

/// ASCII code of the percent sign.
pub const PERCENT_SIGN: u8 = 37;

/// The number of decimal places of the unit in which an absolute number of at
/// least 1000 is displayed: the largest of `K`, `M`, `G`, `T` of which the
/// number holds at least one.
pub open spec fn display_scale(n: nat) -> nat {
    if n < 1_000_000 {
        3
    } else if n < 1_000_000_000 {
        6
    } else if n < 1_000_000_000_000 {
        9
    } else {
        12
    }
}

/// The code of the unit with the given number of decimal places.
pub open spec fn display_unit(scale: nat) -> u8 {
    if scale == 3 {
        KILO
    } else if scale == 6 {
        MEGA
    } else if scale == 9 {
        GIGA
    } else {
        TERA
    }
}

/// The canonical text of a size limit, as ASCII codes: a whole number below
/// 1000 plainly; a larger one as a decimal number of the largest unit of
/// which it holds at least one, followed by `K`, `M`, `G` or `T`; a
/// percentage as a decimal number followed by a percent sign.
pub open spec fn display_codes(v: Size) -> Seq<u8> {
    match v {
        Size::Percentage(d) => decimal_text(d).push(PERCENT_SIGN),
        Size::Absolute(n) => if n < 1000 {
            digits_of(n)
        } else {
            decimal_text(Decimal { mantissa: n, scale: display_scale(n) }).push(
                display_unit(display_scale(n)),
            )
        },
    }
}

/// The canonical text of a size limit, see [`display_codes`].
pub open spec fn spec_display(v: Size) -> Seq<char> {
    chars_of(display_codes(v))
}

/// `b` is the code of a character of a canonical text.
pub open spec fn is_display_code(b: u8) -> bool {
    crate::decimal::is_digit(b) || b == crate::decimal::POINT || b == KILO || b == MEGA || b
        == GIGA || b == TERA || b == PERCENT_SIGN
}

/// The text with the given codes, which are digits, points, units or percent
/// signs.
pub fn text_to_string(codes: &Vec<u8>) -> (text: String)
    requires
        forall|i: int| 0 <= i < codes.len() ==> is_display_code(#[trigger] codes@[i]),
    ensures
        text@ == chars_of(codes@),
{
    let mut text = String::new();
    let mut i: usize = 0;
    while i < codes.len()
        invariant
            i <= codes.len(),
            forall|i: int| 0 <= i < codes.len() ==> is_display_code(#[trigger] codes@[i]),
            text@ == chars_of(codes@.take(i as int)),
        decreases codes.len() - i,
    {
        let b = codes[i];
        assert(is_display_code(codes@[i as int]));
        proof {
            reveal_strlit("0");
            reveal_strlit("1");
            reveal_strlit("2");
            reveal_strlit("3");
            reveal_strlit("4");
            reveal_strlit("5");
            reveal_strlit("6");
            reveal_strlit("7");
            reveal_strlit("8");
            reveal_strlit("9");
            reveal_strlit(".");
            reveal_strlit("K");
            reveal_strlit("M");
            reveal_strlit("G");
            reveal_strlit("T");
            reveal_strlit("%");
        }
        let piece = if b == 48 {
            "0"
        } else if b == 49 {
            "1"
        } else if b == 50 {
            "2"
        } else if b == 51 {
            "3"
        } else if b == 52 {
            "4"
        } else if b == 53 {
            "5"
        } else if b == 54 {
            "6"
        } else if b == 55 {
            "7"
        } else if b == 56 {
            "8"
        } else if b == 57 {
            "9"
        } else if b == 46 {
            "."
        } else if b == KILO {
            "K"
        } else if b == MEGA {
            "M"
        } else if b == GIGA {
            "G"
        } else if b == TERA {
            "T"
        } else {
            "%"
        };
        assert(piece@ =~= seq![b as char]);
        text.append(piece);
        assert(text@ =~= chars_of(codes@.take(i + 1)));
        i = i + 1;
    }
    assert(codes@.take(codes.len() as int) =~= codes@);
    text
}

impl SizeSpec {
    /// Return the absolute value when given the available `total`: an
    /// absolute limit as it is, a percentage as that share of `total`, rounded
    /// down and capped at the largest `u64`.
    pub fn value(&self, total: u64) -> (r: u64)
        ensures
            r == saturated(self@.value(total as nat)),
            self matches SizeSpec::Absolute(n) ==> r == n,
    {
        match self {
            SizeSpec::Percentage(p) => p.of(total),
            SizeSpec::Absolute(n) => *n,
        }
    }

    /// Reads a size limit, see [`spec_parse`].
    pub fn parse(s: &str) -> (r: Result<SizeSpec, ParseSizeSpecError>)
        ensures
            match r {
                Ok(v) => spec_parse(s@) == Ok::<Size, ParseSizeSpecError>(v@) && v@.is_representable(),
                Err(e) => spec_parse(s@) == Err::<Size, ParseSizeSpecError>(e),
            },
            s@.len() > 0 && s@[0] == '-' ==> r is Err,
    {
        let len = s.unicode_len();
        if len == 0 {
            return Err(ParseSizeSpecError::EmptyString);
        }
        if s.get_char(0) == '-' {
            return Err(ParseSizeSpecError::InvalidInt);
        }
        let last = s.get_char(len - 1);
        let forelast = if len >= 2 {
            s.get_char(len - 2)
        } else {
            ' '
        };
        let unit = classify_unit(forelast, last);
        let suffix_len: usize = match unit {
            Unit::Plain => 0,
            Unit::Scaled { suffix_len, factor } => suffix_len,
            Unit::Percent => 1,
            Unit::Unknown => {
                return Err(ParseSizeSpecError::InvalidUnit(last));
            },
        };
        let ghost number = s@.take(len - suffix_len);
        if !s.is_ascii() {
            proof {
                if vstd::utf8::is_ascii_chars(number) {
                    assert forall|i: int| 0 <= i < s@.len() implies '\0' <= #[trigger] s@[i]
                        <= '\u{7f}' by {
                        if i < number.len() {
                            assert(number[i] == s@[i]);
                        }
                    }
                }
                assert(s@.take(len as int) =~= s@);
            }
            return match unit {
                Unit::Plain => Err(ParseSizeSpecError::InvalidInt),
                _ => Err(ParseSizeSpecError::InvalidDecimal),
            };
        }
        let bytes = s.as_bytes();
        proof {
            vstd::string::is_ascii_spec_bytes(s);
            assert(s@.take(len as int) =~= s@);
            assert forall|i: int| 0 <= i < number.len() implies '\0' <= #[trigger] number[i]
                <= '\u{7f}' by {
                assert(number[i] == s@[i]);
            }
            assert(codes_of(number)->Some_0 =~= bytes@.subrange(0, len - suffix_len));
        }
        let digits = slice_subrange(bytes, 0, len - suffix_len);
        match unit {
            Unit::Plain => match parse_integer(digits) {
                Some(n) => Ok(SizeSpec::Absolute(n)),
                None => Err(ParseSizeSpecError::InvalidInt),
            },
            Unit::Scaled { suffix_len, factor } => match parse_scaled(digits, factor) {
                Some(n) => Ok(SizeSpec::Absolute(n)),
                None => Err(ParseSizeSpecError::InvalidDecimal),
            },
            Unit::Percent => match parse_normalized(digits) {
                Some((mantissa, scale)) => {
                    proof {
                        lemma_normalized(spec_parse_decimal(digits@)->Some_0);
                    }
                    Ok(SizeSpec::Percentage(Percent { mantissa, scale }))
                },
                None => {
                    proof {
                        if spec_parse_decimal(digits@) is Some {
                            lemma_normalized(spec_parse_decimal(digits@)->Some_0);
                        }
                    }
                    Err(ParseSizeSpecError::InvalidDecimal)
                },
            },
            Unit::Unknown => Err(ParseSizeSpecError::InvalidUnit(last)),
        }
    }

    /// The canonical text of the limit, see [`display_codes`].
    pub fn to_string(&self) -> (text: String)
        ensures
            text@ == spec_display(self@),
    {
        let mut codes: Vec<u8> = Vec::new();
        match self {
            SizeSpec::Percentage(p) => {
                p.push_text(&mut codes);
                codes.push(PERCENT_SIGN);
                proof {
                    lemma_decimal_text_codes(p@);
                }
            },
            SizeSpec::Absolute(n) => {
                let n = *n;
                if n < 1000 {
                    push_digits(&mut codes, n);
                    proof {
                        lemma_digits_of(n as nat);
                    }
                } else {
                    let (scale, unit): (u8, u8) = if n < 1_000_000 {
                        (3, KILO)
                    } else if n < 1_000_000_000 {
                        (6, MEGA)
                    } else if n < 1_000_000_000_000 {
                        (9, GIGA)
                    } else {
                        (12, TERA)
                    };
                    push_decimal(&mut codes, n, scale);
                    codes.push(unit);
                    proof {
                        lemma_decimal_text_codes(
                            Decimal { mantissa: n as nat, scale: scale as nat },
                        );
                    }
                }
            },
        }
        assert(codes@ =~= display_codes(self@));
        text_to_string(&codes)
    }
}

impl core::str::FromStr for SizeSpec {
    type Err = ParseSizeSpecError;

    fn from_str(s: &str) -> (r: Result<SizeSpec, ParseSizeSpecError>)
        ensures
            match r {
                Ok(v) => spec_parse(s@) == Ok::<Size, ParseSizeSpecError>(v@),
                Err(e) => spec_parse(s@) == Err::<Size, ParseSizeSpecError>(e),
            },
    {
        SizeSpec::parse(s)
    }
}

/// The text of a decimal number is made of digits and at most one point, and
/// begins with a digit.
pub proof fn lemma_decimal_text_codes(d: Decimal)
    ensures
        decimal_text(d).len() > 0,
        crate::decimal::is_digit(decimal_text(d)[0]),
        crate::decimal::is_digit(decimal_text(d).last()),
        forall|i: int|
            0 <= i < decimal_text(d).len() ==> crate::decimal::is_digit(
                #[trigger] decimal_text(d)[i],
            ) || decimal_text(d)[i] == crate::decimal::POINT,
{
    let n = d.normalized();
    let text = decimal_text(d);
    if n.scale == 0 {
        lemma_digits_of(n.mantissa);
    } else {
        let whole = digits_of(n.mantissa / pow10(n.scale));
        let fraction = crate::decimal::padded_digits(n.mantissa % pow10(n.scale), n.scale);
        lemma_digits_of(n.mantissa / pow10(n.scale));
        lemma_padded_digits(n.mantissa % pow10(n.scale), n.scale);
        assert(text[0] == whole[0]);
        assert(text.last() == fraction.last());
        assert forall|i: int| 0 <= i < text.len() implies crate::decimal::is_digit(
            #[trigger] text[i],
        ) || text[i] == crate::decimal::POINT by {
            if i < whole.len() {
                assert(text[i] == whole[i]);
            } else if i > whole.len() {
                assert(text[i] == fraction[i - whole.len() - 1]);
            }
        }
    }
}

/// The codes of the characters of an ASCII text are the codes it was made
/// from.
pub proof fn lemma_codes_of_chars(codes: Seq<u8>)
    requires
        forall|i: int| 0 <= i < codes.len() ==> #[trigger] codes[i] < 128,
    ensures
        codes_of(chars_of(codes)) == Some(codes),
{
    let chars = chars_of(codes);
    assert forall|i: int| 0 <= i < chars.len() implies '\0' <= #[trigger] chars[i]
        <= '\u{7f}' by {
        assert(codes[i] < 128);
    }
    assert(Seq::new(chars.len(), |i: int| chars[i] as u8) =~= codes) by {
        assert forall|i: int| 0 <= i < codes.len() implies (chars[i] as u8) == codes[i] by {
            assert(codes[i] < 128);
        }
    }
}

/// What a text denotes can be held by a [`SizeSpec`].
pub proof fn lemma_parsed_is_representable(s: Seq<char>)
    requires
        spec_parse(s) is Ok,
    ensures
        spec_parse(s)->Ok_0.is_representable(),
{
}

/// A text that starts with a minus sign denotes no size limit.
pub proof fn lemma_minus_is_refused(s: Seq<char>)
    requires
        s.len() > 0,
        s[0] == '-',
    ensures
        spec_parse(s) is Err,
{
}

/// An absolute limit does not depend on the total.
pub proof fn lemma_absolute_value(n: nat, total: nat)
    ensures
        Size::Absolute(n).value(total) == n,
{
}

/// A percentage of `p` is the share `p * total / 100`, rounded down, where
/// `p` is the mantissa divided by ten to the power of the scale.
pub proof fn lemma_percentage_value(d: Decimal, total: nat)
    ensures
        Size::Percentage(d).value(total) == d.mantissa * total / (100 * pow10(d.scale)),
        d.scale == 0 ==> Size::Percentage(d).value(total) == d.mantissa * total / 100,
{
    assert(pow10(0) == 1);
}

/// Reading the canonical text of a size limit gives the limit back.
pub proof fn lemma_parse_of_display(v: Size)
    requires
        v.is_representable(),
    ensures
        spec_parse(spec_display(v)) == Ok::<Size, ParseSizeSpecError>(v),
{
    let codes = display_codes(v);
    let text = spec_display(v);
    match v {
        Size::Percentage(d) => {
            let number = decimal_text(d);
            lemma_decimal_text_codes(d);
            assert(text.last() == '%');
            assert(text[0] == number[0] as char);
            assert(unit_of(
                if text.len() >= 2 {
                    text[text.len() - 2]
                } else {
                    ' '
                },
                text.last(),
            ) == Unit::Percent);
            assert(text.take(text.len() - 1) =~= chars_of(number));
            lemma_codes_of_chars(number);
            lemma_parse_decimal_text(d);
            lemma_normal_is_normalized(d);
        },
        Size::Absolute(n) => {
            if n < 1000 {
                lemma_digits_of(n);
                assert(crate::decimal::is_digit(codes[0]));
                assert(crate::decimal::is_digit(codes.last()));
                assert(text.last() == codes.last() as char);
                assert(text[0] == codes[0] as char);
                lemma_codes_of_chars(codes);
                assert(crate::decimal::unsigned_part(codes) == codes);
            } else {
                let scale = display_scale(n);
                let d = Decimal { mantissa: n, scale };
                let number = decimal_text(d);
                lemma_decimal_text_codes(d);
                lemma_pow10_values();
                assert(text.last() == display_unit(scale) as char);
                assert(text[0] == number[0] as char);
                let forelast = if text.len() >= 2 {
                    text[text.len() - 2]
                } else {
                    ' '
                };
                assert(unit_of(forelast, text.last()) == (Unit::Scaled {
                    suffix_len: 1,
                    factor: pow10(scale) as u64,
                }));
                assert(text.take(text.len() - 1) =~= chars_of(number));
                lemma_codes_of_chars(number);
                lemma_parse_decimal_text(d);
                lemma_normalized_scaled(d);
            }
        },
    }
}

/// The canonical text of what a text denotes is a text for the same limit,
/// and displaying what it denotes gives the same text again.
pub proof fn lemma_display_of_parse_is_canonical(s: Seq<char>)
    requires
        spec_parse(s) is Ok,
    ensures
        spec_parse(spec_display(spec_parse(s)->Ok_0)) == spec_parse(s),
        spec_display(spec_parse(spec_display(spec_parse(s)->Ok_0))->Ok_0) == spec_display(
            spec_parse(s)->Ok_0,
        ),
{
    lemma_parsed_is_representable(s);
    lemma_parse_of_display(spec_parse(s)->Ok_0);
}

} // verus!
