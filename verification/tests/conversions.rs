// 2s comp: https://www.exploringbinary.com/twos-complement-converter/

use binary_conversions::{
    from_excess_128, from_ones_complement, from_signed, from_twos_complement, from_unsigned,
    to_excess, to_ones_complement, to_signed, to_twos_complement,
};

#[test]
fn to_signed_negative() {
    assert_eq!(to_signed(-30), Ok("10011110".to_string()));
}

#[test]
fn to_signed_positive() {
    assert_eq!(to_signed(30), Ok("00011110".to_string()));
}

#[test]
fn to_signed_zero() {
    assert_eq!(to_signed(0), Ok("00000000".to_string()));
}

#[test]
fn to_ones_complement_zero() {
    assert_eq!(to_ones_complement(0), Ok("00000000".to_string()));
}

#[test]
fn to_ones_complement_positive() {
    assert_eq!(to_ones_complement(7), Ok("00000111".to_string()));
    assert_eq!(to_ones_complement(25), Ok("00011001".to_string()));
    assert_eq!(to_ones_complement(35), Ok("00100011".to_string()));
    assert_eq!(to_ones_complement(127), Ok("01111111".to_string()));
}

#[test]
fn to_ones_complement_negative() {
    assert_eq!(to_ones_complement(-35), Ok("11011100".to_string()));
    assert_eq!(to_ones_complement(-90), Ok("10100101".to_string()));
    assert_eq!(to_ones_complement(-22), Ok("11101001".to_string()));
    assert_eq!(to_ones_complement(-32), Ok("11011111".to_string()));
    assert_eq!(to_ones_complement(-42), Ok("11010101".to_string()));
    assert_eq!(to_ones_complement(-127), Ok("10000000".to_string()));
}

#[test]
fn to_twos_complement_positive() {
    assert_eq!(to_twos_complement(7), Ok("00000111".to_string()));
    assert_eq!(to_twos_complement(25), Ok("00011001".to_string()));
    assert_eq!(to_twos_complement(126), Ok("01111110".to_string()));
    assert_eq!(to_twos_complement(127), Ok("01111111".to_string()));
}

#[test]
fn to_twos_complement_zero() {
    assert_eq!(to_twos_complement(0), Ok("00000000".to_string()));
}

#[test]
fn to_twos_complement_negative() {
    assert_eq!(to_twos_complement(-2), Ok("11111110".to_string()));
    assert_eq!(to_twos_complement(-32), Ok("11100000".to_string()));
    assert_eq!(to_twos_complement(-42), Ok("11010110".to_string()));
    assert_eq!(to_twos_complement(-90), Ok("10100110".to_string()));
    assert_eq!(to_twos_complement(-128), Ok("10000000".to_string()));
    assert_eq!(to_twos_complement(-127), Ok("10000001".to_string()));
    assert_eq!(to_twos_complement(-126), Ok("10000010".to_string()));
}

#[test]
fn to_excess_128_positive() {
    assert_eq!(to_excess(128, 35), Ok("10100011".to_string()));
}

#[test]
fn to_excess_128_zero() {
    assert_eq!(to_excess(128, 0), Ok("10000000".to_string()));
}

#[test]
fn to_excess_128_negative() {
    assert_eq!(to_excess(128, -22), Ok("01101010".to_string()));
    assert_eq!(to_excess(128, -37), Ok("01011011".to_string()));
}

#[test]
fn from_signed_positive() {
    assert_eq!(from_signed("01000"), Ok(8));
}

#[test]
fn from_signed_zero() {
    assert_eq!(from_signed("0"), Ok(0));
}

#[test]
fn from_signed_negative() {
    assert_eq!(from_signed("11000000"), Ok(-64));
}

#[test]
fn from_twos_complement_positive() {
    assert_eq!(from_twos_complement("011000"), Ok(24));
    assert_eq!(from_twos_complement("01111110"), Ok(126));
    assert_eq!(from_twos_complement("01111111"), Ok(127));
}

#[test]
fn from_twos_complement_negative() {
    assert_eq!(from_twos_complement("11011011"), Ok(-37));
    assert_eq!(from_twos_complement("10000000"), Ok(-128));
    assert_eq!(from_twos_complement("10000010"), Ok(-126));
}

#[test]
fn from_twos_complement_zero() {
    assert_eq!(from_twos_complement("0"), Ok(0));
}

#[test]
fn from_ones_complement_positive() {
    assert_eq!(from_ones_complement("00000001"), Ok(1));
    assert_eq!(from_ones_complement("01111111"), Ok(127));
}

#[test]
fn from_ones_complement_negative() {
    assert_eq!(from_ones_complement("11111110"), Ok(-1));
    assert_eq!(from_ones_complement("11111101"), Ok(-2));
    assert_eq!(from_ones_complement("11111100"), Ok(-3));
    assert_eq!(from_ones_complement("10000000"), Ok(-127));
    assert_eq!(from_ones_complement("10000001"), Ok(-126));
}

#[test]
fn from_ones_complement_zero() {
    assert_eq!(from_ones_complement("00000000"), Ok(0));
}

#[test]
fn from_unsigned_positive() {
    assert_eq!(from_unsigned("110"), Ok(6));
    assert_eq!(from_unsigned("00000001"), Ok(1));
    assert_eq!(from_unsigned("11111111"), Ok(255));
}

#[test]
fn from_unsigned_zero() {
    assert_eq!(from_unsigned("00000000"), Ok(0));
}

#[test]
fn from_excess_128_zero() {
    assert_eq!(from_excess_128("00000000"), Ok(-128));
}

#[test]
fn from_excess_128_positive() {
    assert_eq!(from_excess_128("11111111"), Ok(127));
    assert_eq!(from_excess_128("11111110"), Ok(126));
}

#[test]
fn from_excess_128_negative() {
    assert_eq!(from_excess_128("00000000"), Ok(-128));
    assert_eq!(from_excess_128("00000001"), Ok(-127));
}
