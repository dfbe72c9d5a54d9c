use binary_conversions::{
    decrement, flip_bits, from_unsigned, increment, is_valid_8_bit_binary_string, pad,
    to_unsigned_unpadded, unpack, validate_number, CodecError,
};

#[test]
fn unpadded_digits_of_small_numbers() {
    assert_eq!(to_unsigned_unpadded(0), "0");
    assert_eq!(to_unsigned_unpadded(1), "1");
    assert_eq!(to_unsigned_unpadded(2), "10");
    assert_eq!(to_unsigned_unpadded(5), "101");
    assert_eq!(to_unsigned_unpadded(30), "11110");
    assert_eq!(to_unsigned_unpadded(255), "11111111");
    assert_eq!(to_unsigned_unpadded(256), "100000000");
}

#[test]
fn unpadded_digits_take_the_magnitude() {
    assert_eq!(to_unsigned_unpadded(-1), "1");
    assert_eq!(to_unsigned_unpadded(-30), "11110");
    assert_eq!(to_unsigned_unpadded(-128), "10000000");
}

#[test]
fn unpadded_digits_at_machine_limits() {
    assert_eq!(to_unsigned_unpadded(i32::MAX), "1".repeat(31));
    assert_eq!(to_unsigned_unpadded(i32::MIN), format!("1{}", "0".repeat(31)));
    assert_eq!(to_unsigned_unpadded(i32::MIN + 1), "1".repeat(31));
}

#[test]
fn unpadded_digits_have_no_leading_zero() {
    for n in 1..=1024 {
        let digits = to_unsigned_unpadded(n);
        assert!(digits.starts_with('1'));
        assert_eq!(i32::from_str_radix(&digits, 2), Ok(n));
    }
}

#[test]
fn pad_prepends_zeros() {
    assert_eq!(pad(8, "101"), "00000101");
    assert_eq!(pad(7, "11110"), "0011110");
    assert_eq!(pad(3, ""), "000");
    assert_eq!(pad(1, "0"), "0");
}

#[test]
fn pad_never_truncates() {
    assert_eq!(pad(8, "11111111"), "11111111");
    assert_eq!(pad(8, "101001000"), "101001000");
    assert_eq!(pad(0, "101"), "101");
    assert_eq!(pad(0, ""), "");
}

#[test]
fn flip_bits_swaps_each_bit() {
    assert_eq!(flip_bits("00100011"), "11011100");
    assert_eq!(flip_bits("0"), "1");
    assert_eq!(flip_bits("1"), "0");
    assert_eq!(flip_bits(""), "");
    assert_eq!(flip_bits("11111111"), "00000000");
}

#[test]
fn flip_bits_twice_is_identity() {
    for value in 0..256 {
        let bits = pad(8, &to_unsigned_unpadded(value));
        assert_eq!(flip_bits(&flip_bits(&bits)), bits);
    }
    assert_eq!(flip_bits(&flip_bits("")), "");
    assert_eq!(flip_bits(&flip_bits("010")), "010");
}

#[test]
fn flip_bits_reads_other_characters_as_one() {
    assert_eq!(flip_bits("0x1"), "100");
}

#[test]
fn increment_finds_rightmost_zero() {
    assert_eq!(increment("1011100"), "1011101");
    assert_eq!(increment("1011011"), "1011100");
    assert_eq!(increment("0000000"), "0000001");
    assert_eq!(increment("0111111"), "1000000");
    assert_eq!(increment("0"), "1");
}

#[test]
fn increment_overflows_by_one_bit() {
    assert_eq!(increment("1111111"), "10000000");
    assert_eq!(increment("1"), "10");
    assert_eq!(increment(""), "1");
}

#[test]
fn increment_adds_one_to_the_value() {
    for value in 0..255 {
        let bits = pad(8, &to_unsigned_unpadded(value));
        assert_eq!(from_unsigned(&increment(&bits)), Ok(value + 1));
        assert_eq!(increment(&bits).len(), 8);
    }
}

#[test]
fn decrement_finds_rightmost_one() {
    assert_eq!(decrement("1011011"), Some("1011010".to_string()));
    assert_eq!(decrement("1011000"), Some("1010111".to_string()));
    assert_eq!(decrement("1000000"), Some("0111111".to_string()));
    assert_eq!(decrement("1"), Some("0".to_string()));
}

#[test]
fn decrement_of_zero_underflows() {
    assert_eq!(decrement("0000000"), None);
    assert_eq!(decrement("0"), None);
    assert_eq!(decrement(""), None);
}

#[test]
fn decrement_takes_one_from_the_value() {
    for value in 1..256 {
        let bits = pad(8, &to_unsigned_unpadded(value));
        let less = decrement(&bits).unwrap();
        assert_eq!(from_unsigned(&less), Ok(value - 1));
        assert_eq!(less.len(), 8);
    }
}

#[test]
fn decrement_and_increment_undo_each_other() {
    for value in 0..255 {
        let bits = pad(8, &to_unsigned_unpadded(value));
        assert_eq!(decrement(&increment(&bits)), Some(bits));
    }
    for value in 1..256 {
        let bits = pad(8, &to_unsigned_unpadded(value));
        assert_eq!(increment(&decrement(&bits).unwrap()), bits);
    }
}

#[test]
fn from_unsigned_reads_short_strings() {
    assert_eq!(from_unsigned(""), Ok(0));
    assert_eq!(from_unsigned("1"), Ok(1));
    assert_eq!(from_unsigned("10"), Ok(2));
    assert_eq!(from_unsigned("10100011"), Ok(163));
}

#[test]
fn from_unsigned_inverts_unpadded_digits() {
    for value in 0..256 {
        assert_eq!(from_unsigned(&to_unsigned_unpadded(value)), Ok(value));
    }
}

#[test]
fn from_unsigned_rejects_long_strings() {
    assert_eq!(
        from_unsigned("000000001"),
        Err(CodecError::LengthError { max_bits: 8, actual_bits: 9 })
    );
    assert_eq!(
        from_unsigned("1111111111111111111111111111111111111111"),
        Err(CodecError::LengthError { max_bits: 8, actual_bits: 40 })
    );
}

#[test]
fn from_unsigned_rejects_other_characters() {
    assert_eq!(from_unsigned("102"), Err(CodecError::FormatError));
    assert_eq!(from_unsigned(" 1"), Err(CodecError::FormatError));
    assert_eq!(from_unsigned("-1"), Err(CodecError::FormatError));
    assert_eq!(from_unsigned("1é0"), Err(CodecError::FormatError));
}

#[test]
fn from_unsigned_checks_length_before_format() {
    assert_eq!(
        from_unsigned("00000000x"),
        Err(CodecError::LengthError { max_bits: 8, actual_bits: 9 })
    );
}

#[test]
fn length_counts_characters() {
    assert_eq!(from_unsigned("éééééééé"), Err(CodecError::FormatError));
    assert_eq!(
        from_unsigned("ééééééééé"),
        Err(CodecError::LengthError { max_bits: 8, actual_bits: 9 })
    );
}

#[test]
fn validate_number_accepts_inclusive_bounds() {
    assert_eq!(validate_number(-127, -127, 127), Ok(()));
    assert_eq!(validate_number(127, -127, 127), Ok(()));
    assert_eq!(validate_number(0, 0, 0), Ok(()));
}

#[test]
fn validate_number_reports_bounds() {
    assert_eq!(
        validate_number(-128, -127, 127),
        Err(CodecError::RangeError { min: -127, max: 127, actual: -128 })
    );
    assert_eq!(
        validate_number(256, -128, 255),
        Err(CodecError::RangeError { min: -128, max: 255, actual: 256 })
    );
    assert_eq!(
        validate_number(0, 1, 0),
        Err(CodecError::RangeError { min: 1, max: 0, actual: 0 })
    );
}

#[test]
fn valid_8_bit_binary_string() {
    assert!(is_valid_8_bit_binary_string("00000000"));
    assert!(is_valid_8_bit_binary_string("10100101"));
    assert!(!is_valid_8_bit_binary_string("1010010"));
    assert!(!is_valid_8_bit_binary_string("101001011"));
    assert!(!is_valid_8_bit_binary_string("1010010x"));
    assert!(!is_valid_8_bit_binary_string(""));
    assert!(!is_valid_8_bit_binary_string("10100101\n"));
}

#[test]
fn unpack_renders_either_side() {
    let ok: Result<i32, String> = Ok(-64);
    assert_eq!(unpack(ok), "-64");
    let err: Result<i32, String> = Err("too many bits".to_string());
    assert_eq!(unpack(err), "too many bits");
    let text: Result<String, i32> = Ok("10011110".to_string());
    assert_eq!(unpack(text), "10011110");
}

#[test]
fn long_strings_are_handled_in_one_pass() {
    let long = "10".repeat(100_000);
    let flipped = flip_bits(&long);
    assert_eq!(flipped, "01".repeat(100_000));
    assert_eq!(flip_bits(&flipped), long);
    assert_eq!(pad(200_001, &long), format!("0{long}"));
    assert_eq!(increment(&long), format!("{}1", &long[..199_999]));
    assert_eq!(decrement(&long), Some(format!("{}01", &long[..199_998])));
    assert_eq!(
        from_unsigned(&long),
        Err(CodecError::LengthError { max_bits: 8, actual_bits: 200_000 })
    );
    assert!(!is_valid_8_bit_binary_string(&long));
}

#[test]
fn steps_leave_other_characters_to_the_left_alone() {
    assert_eq!(increment("x01"), "x10");
    assert_eq!(decrement("x10"), Some("x01".to_string()));
    assert_eq!(increment("é011"), "é100");
}
