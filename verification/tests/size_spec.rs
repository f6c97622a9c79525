use fasthtcacheclean::size_spec::{ParseSizeSpecError, Percent, SizeSpec};

/// Tests string -> `SizeSpec` -> string conversion
#[test]
fn test_roundtrip() {
    for string in ["0", "100", "50K", "1M", "42G", "1T", "0%", "1%", "99.5%", "101%"] {
        let value: SizeSpec = string.parse().unwrap();
        assert_eq!(string, value.to_string());
    }
    assert_eq!("512", "0.512K".parse::<SizeSpec>().unwrap().to_string());
    assert_eq!("5.124K", "5124".parse::<SizeSpec>().unwrap().to_string());
}

/// Tests `SizeSpec` parse failure on negative values
#[test]
fn test_negative_error() {
    for string in ["-0", "-1", "-50K", "-1M", "-42G", "-1T", "-0%", "-1%", "-99.5%", "-101%"] {
        assert!(string.parse::<SizeSpec>().is_err());
    }
}

/// Tests binary SI units
#[test]
fn test_binary_units() {
    for (string, result) in [
        ("0Mi", 0),
        ("0.5Ki", 512),
        ("100Ki", 1024 * 100),
        ("1Mi", 1024 * 1024),
        ("1Gi", 1024 * 1024 * 1024),
        ("1Ti", 1024 * 1024 * 1024 * 1024),
    ] {
        let value: SizeSpec = string.parse().unwrap();
        assert_eq!(SizeSpec::Absolute(result), value);
    }
}

/// Tests `SizeSpec` parse failure on empty string
#[test]
fn test_empty_error() {
    assert!(matches!("".parse::<SizeSpec>().unwrap_err(), ParseSizeSpecError::EmptyString));
}

/// Tests `SizeSpec` parse failure on invalid unit suffixes
#[test]
fn test_unit_error() {
    assert!(matches!("1x".parse::<SizeSpec>().unwrap_err(), ParseSizeSpecError::InvalidUnit('x')));
    assert!(matches!("5.5!".parse::<SizeSpec>().unwrap_err(), ParseSizeSpecError::InvalidUnit('!')));
}

// Tests `SizeSpec::value()` output
#[test]
fn test_value() {
    let a = SizeSpec::Absolute(1000);
    assert_eq!(a.value(0), 1000);
    assert_eq!(a.value(9999999), 1000);
    let b = SizeSpec::Percentage(Percent::whole(10));
    assert_eq!(b.value(10000), 1000);
    assert_eq!(b.value(10), 1);
    assert_eq!(b.value(1), 0);
    let c = SizeSpec::Percentage(Percent::whole(0));
    assert_eq!(b.value(1), 0);
    assert_eq!(c.value(10000000), 0);
}

/// Tests string -> `SizeSpec` -> string conversion
#[test]
fn test_sizespec_roundtrip() {
    for string in ["0", "100", "50K", "1M", "42G", "1T", "0%", "1%", "99.5%", "101%"] {
        let value: SizeSpec = string.parse().unwrap();
        assert_eq!(string, value.to_string());
    }
    assert_eq!("512", "0.512K".parse::<SizeSpec>().unwrap().to_string());
    assert_eq!("5.124K", "5124".parse::<SizeSpec>().unwrap().to_string());
}

/// Tests `SizeSpec` parse failure on negative values
#[test]
fn test_sizespec_negative_error() {
    for string in ["-0", "-1", "-50K", "-1M", "-42G", "-1T", "-0%", "-1%", "-99.5%", "-101%"] {
        assert!(string.parse::<SizeSpec>().is_err());
    }
}

/// Tests `SizeSpec` parse failure on empty string
#[test]
fn test_sizespec_empty_error() {
    assert!(matches!("".parse::<SizeSpec>().unwrap_err(), ParseSizeSpecError::EmptyString));
}

/// Tests `SizeSpec` parse failure on invalid unit suffixes
#[test]
fn test_sizespec_unit_error() {
    assert!(matches!("1x".parse::<SizeSpec>().unwrap_err(), ParseSizeSpecError::InvalidUnit('x')));
    assert!(matches!("5.5!".parse::<SizeSpec>().unwrap_err(), ParseSizeSpecError::InvalidUnit('!')));
}

// Tests `SizeSpec::value()` output
#[test]
fn test_sizespec_value() {
    let a = SizeSpec::Absolute(1000);
    assert_eq!(a.value(0), 1000);
    assert_eq!(a.value(9999999), 1000);
    let b = SizeSpec::Percentage(Percent::whole(10));
    assert_eq!(b.value(10000), 1000);
    assert_eq!(b.value(10), 1);
    assert_eq!(b.value(1), 0);
    let c = SizeSpec::Percentage(Percent::whole(0));
    assert_eq!(b.value(1), 0);
    assert_eq!(c.value(10000000), 0);
}

/// A text that starts with a minus sign is no whole number.
#[test]
fn minus_is_an_integer_error() {
    for string in ["-", "-5", "-5K", "-%", "-x", "--", "-\u{e9}"] {
        assert_eq!(SizeSpec::parse(string), Err(ParseSizeSpecError::InvalidInt));
    }
}

/// The units of one letter multiply by powers of 1000.
#[test]
fn decimal_units() {
    assert_eq!(SizeSpec::parse("1K"), Ok(SizeSpec::Absolute(1_000)));
    assert_eq!(SizeSpec::parse("1k"), Ok(SizeSpec::Absolute(1_000)));
    assert_eq!(SizeSpec::parse("1M"), Ok(SizeSpec::Absolute(1_000_000)));
    assert_eq!(SizeSpec::parse("1G"), Ok(SizeSpec::Absolute(1_000_000_000)));
    assert_eq!(SizeSpec::parse("1T"), Ok(SizeSpec::Absolute(1_000_000_000_000)));
    assert_eq!(SizeSpec::parse("2.5G"), Ok(SizeSpec::Absolute(2_500_000_000)));
    assert_eq!(SizeSpec::parse("0.0015K"), Ok(SizeSpec::Absolute(1)));
    assert_eq!(SizeSpec::parse("0.0009K"), Ok(SizeSpec::Absolute(0)));
}

/// The units of two letters multiply by powers of 1024.
#[test]
fn binary_units_exact() {
    assert_eq!(SizeSpec::parse("1Ki"), Ok(SizeSpec::Absolute(1024)));
    assert_eq!(SizeSpec::parse("1ki"), Ok(SizeSpec::Absolute(1024)));
    assert_eq!(SizeSpec::parse("1Mi"), Ok(SizeSpec::Absolute(1_048_576)));
    assert_eq!(SizeSpec::parse("1Gi"), Ok(SizeSpec::Absolute(1 << 30)));
    assert_eq!(SizeSpec::parse("1Ti"), Ok(SizeSpec::Absolute(1 << 40)));
    assert_eq!(SizeSpec::parse("1.5Ki"), Ok(SizeSpec::Absolute(1536)));
    assert_eq!(SizeSpec::parse("0.0009765625Ki"), Ok(SizeSpec::Absolute(1)));
    assert_eq!(SizeSpec::parse("0.0009765624Ki"), Ok(SizeSpec::Absolute(0)));
    assert_eq!(
        SizeSpec::parse("0.00000000000090949470177292823791503906249Ti"),
        Ok(SizeSpec::Absolute(0))
    );
    assert_eq!(
        SizeSpec::parse("0.000000000000909494701772928237915039062500Ti"),
        Ok(SizeSpec::Absolute(1))
    );
}

/// Only capital letters are units, but for `k`.
#[test]
fn units_are_case_sensitive() {
    assert_eq!(SizeSpec::parse("1m"), Err(ParseSizeSpecError::InvalidUnit('m')));
    assert_eq!(SizeSpec::parse("1g"), Err(ParseSizeSpecError::InvalidUnit('g')));
    assert_eq!(SizeSpec::parse("1t"), Err(ParseSizeSpecError::InvalidUnit('t')));
    assert_eq!(SizeSpec::parse("1mi"), Err(ParseSizeSpecError::InvalidUnit('i')));
    assert_eq!(SizeSpec::parse("1i"), Err(ParseSizeSpecError::InvalidUnit('i')));
    assert_eq!(SizeSpec::parse("i"), Err(ParseSizeSpecError::InvalidUnit('i')));
    assert_eq!(SizeSpec::parse("5\u{e9}"), Err(ParseSizeSpecError::InvalidUnit('\u{e9}')));
}

/// A whole number takes an optional plus sign and digits, and fits a `u64`.
#[test]
fn plain_numbers() {
    assert_eq!(SizeSpec::parse("+5"), Ok(SizeSpec::Absolute(5)));
    assert_eq!(SizeSpec::parse("007"), Ok(SizeSpec::Absolute(7)));
    assert_eq!(SizeSpec::parse("18446744073709551615"), Ok(SizeSpec::Absolute(u64::MAX)));
    assert_eq!(SizeSpec::parse("18446744073709551616"), Err(ParseSizeSpecError::InvalidInt));
    assert_eq!(SizeSpec::parse("5.5"), Err(ParseSizeSpecError::InvalidInt));
    assert_eq!(SizeSpec::parse("1_000"), Err(ParseSizeSpecError::InvalidInt));
    assert_eq!(SizeSpec::parse(" 5"), Err(ParseSizeSpecError::InvalidInt));
    assert_eq!(SizeSpec::parse("\u{130}5"), Err(ParseSizeSpecError::InvalidInt));
}

/// What stands before a unit is a decimal number with at least one digit.
#[test]
fn decimal_numbers() {
    assert_eq!(SizeSpec::parse("K"), Err(ParseSizeSpecError::InvalidDecimal));
    assert_eq!(SizeSpec::parse("Ki"), Err(ParseSizeSpecError::InvalidDecimal));
    assert_eq!(SizeSpec::parse("%"), Err(ParseSizeSpecError::InvalidDecimal));
    assert_eq!(SizeSpec::parse(".K"), Err(ParseSizeSpecError::InvalidDecimal));
    assert_eq!(SizeSpec::parse("+K"), Err(ParseSizeSpecError::InvalidDecimal));
    assert_eq!(SizeSpec::parse("1.2.3K"), Err(ParseSizeSpecError::InvalidDecimal));
    assert_eq!(SizeSpec::parse("1e3K"), Err(ParseSizeSpecError::InvalidDecimal));
    assert_eq!(SizeSpec::parse("\u{130}K"), Err(ParseSizeSpecError::InvalidDecimal));
    assert_eq!(SizeSpec::parse(".5K"), Ok(SizeSpec::Absolute(500)));
    assert_eq!(SizeSpec::parse("5.K"), Ok(SizeSpec::Absolute(5000)));
    assert_eq!(SizeSpec::parse("+1.5K"), Ok(SizeSpec::Absolute(1500)));
}

/// A number above the largest `u64` is capped where a unit multiplies it.
#[test]
fn scaled_numbers_are_capped() {
    assert_eq!(SizeSpec::parse("18446745T"), Ok(SizeSpec::Absolute(u64::MAX)));
    assert_eq!(SizeSpec::parse("18446744T"), Ok(SizeSpec::Absolute(18_446_744_000_000_000_000)));
    assert_eq!(
        SizeSpec::parse("99999999999999999999999999999999Ki"),
        Ok(SizeSpec::Absolute(u64::MAX))
    );
    assert_eq!(SizeSpec::parse("18446744073709551.615K"), Ok(SizeSpec::Absolute(u64::MAX)));
    assert_eq!(SizeSpec::parse("18446744073709551.614K"), Ok(SizeSpec::Absolute(u64::MAX - 1)));
}

/// Percentages are kept exactly, without zeros at the end of the fraction.
#[test]
fn percentages() {
    assert_eq!(SizeSpec::parse("10%"), Ok(SizeSpec::Percentage(Percent::whole(10))));
    assert_eq!(SizeSpec::parse("10.0%"), Ok(SizeSpec::Percentage(Percent::whole(10))));
    assert_eq!(SizeSpec::parse("99.5%"), Ok(SizeSpec::Percentage(Percent::new(995, 1).unwrap())));
    assert_eq!(SizeSpec::parse("99.50%"), Ok(SizeSpec::Percentage(Percent::new(9950, 2).unwrap())));
    assert_eq!(SizeSpec::parse("0.000%"), Ok(SizeSpec::Percentage(Percent::whole(0))));
    assert_eq!(SizeSpec::parse("0.000000000000000001%").unwrap().to_string(), "0.000000000000000001%");
    assert_eq!(SizeSpec::parse("0.0000000000000000001%"), Err(ParseSizeSpecError::InvalidDecimal));
    assert_eq!(SizeSpec::parse("18446744073709551616%"), Err(ParseSizeSpecError::InvalidDecimal));
    assert_eq!(SizeSpec::parse("1.00000000000000000000000000%"), Ok(SizeSpec::Percentage(Percent::whole(1))));
    assert!(Percent::new(1, 19).is_none());
    assert_eq!(Percent::new(100, 20), Some(Percent::whole(0)).filter(|_| false).or(Percent::new(1, 18)));
}

/// A percentage is that share of the total, rounded down.
#[test]
fn percentage_values() {
    let half = SizeSpec::parse("0.5%").unwrap();
    assert_eq!(half.value(1000), 5);
    assert_eq!(half.value(199), 0);
    assert_eq!(half.value(200), 1);
    let most = SizeSpec::parse("99.5%").unwrap();
    assert_eq!(most.value(1000), 995);
    assert_eq!(most.value(u64::MAX), 18_354_510_353_341_003_856);
    let all = SizeSpec::parse("100%").unwrap();
    assert_eq!(all.value(u64::MAX), u64::MAX);
    assert_eq!(all.value(0), 0);
    let twice = SizeSpec::parse("200%").unwrap();
    assert_eq!(twice.value(50), 100);
    assert_eq!(twice.value(u64::MAX), u64::MAX);
    let seven = SizeSpec::parse("7%").unwrap();
    assert_eq!(seven.value(100), 7);
    assert_eq!(Percent::whole(10).of(10_000), 1000);
}

/// An absolute limit does not depend on the total.
#[test]
fn absolute_values() {
    for total in [0, 1, 1000, u64::MAX] {
        assert_eq!(SizeSpec::Absolute(0).value(total), 0);
        assert_eq!(SizeSpec::Absolute(12345).value(total), 12345);
        assert_eq!(SizeSpec::Absolute(u64::MAX).value(total), u64::MAX);
    }
}

/// The canonical text uses the largest unit of which the number holds one.
#[test]
fn canonical_text() {
    assert_eq!(SizeSpec::Absolute(0).to_string(), "0");
    assert_eq!(SizeSpec::Absolute(999).to_string(), "999");
    assert_eq!(SizeSpec::Absolute(1000).to_string(), "1K");
    assert_eq!(SizeSpec::Absolute(1001).to_string(), "1.001K");
    assert_eq!(SizeSpec::Absolute(999_999).to_string(), "999.999K");
    assert_eq!(SizeSpec::Absolute(1_000_000).to_string(), "1M");
    assert_eq!(SizeSpec::Absolute(1_500_000).to_string(), "1.5M");
    assert_eq!(SizeSpec::Absolute(1_000_050).to_string(), "1.00005M");
    assert_eq!(SizeSpec::Absolute(999_999_999).to_string(), "999.999999M");
    assert_eq!(SizeSpec::Absolute(1_000_000_000).to_string(), "1G");
    assert_eq!(SizeSpec::Absolute(1_000_000_000_000).to_string(), "1T");
    assert_eq!(SizeSpec::Absolute(u64::MAX).to_string(), "18446744.073709551615T");
    assert_eq!(SizeSpec::Percentage(Percent::whole(10)).to_string(), "10%");
    assert_eq!(SizeSpec::Percentage(Percent::new(5, 3).unwrap()).to_string(), "0.005%");
    assert_eq!(SizeSpec::Percentage(Percent::new(12500, 3).unwrap()).to_string(), "12.5%");
}

/// Reading the canonical text gives the limit back.
#[test]
fn text_reads_back() {
    for n in [0, 1, 999, 1000, 1001, 5124, 123_456_789, 1_000_000_000_001, u64::MAX - 1, u64::MAX] {
        let limit = SizeSpec::Absolute(n);
        assert_eq!(SizeSpec::parse(&limit.to_string()), Ok(limit));
    }
    for (mantissa, scale) in [(0, 0), (1, 0), (995, 1), (1, 18), (u64::MAX, 18), (u64::MAX, 0)] {
        let limit = SizeSpec::Percentage(Percent::new(mantissa, scale).unwrap());
        assert_eq!(SizeSpec::parse(&limit.to_string()), Ok(limit));
    }
}
