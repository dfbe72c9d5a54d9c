//! The error values that encoders and decoders return.

use vstd::prelude::*;

verus! {

/// Why an encode or decode call was refused.
#[derive(Debug, Clone, Copy, PartialEq, Eq, Structural)]
pub enum CodecError {
    /// The integer `actual` lies outside the inclusive range `min..=max`
    /// that the notation can represent.
    RangeError { min: i32, max: i32, actual: i32 },
    /// The bit string has `actual_bits` characters, more than the
    /// `max_bits` that the width allows.
    LengthError { max_bits: usize, actual_bits: usize },
    /// The input is not a string of '0' and '1' characters that the
    /// notation can read.
    FormatError,
}

/// Whether `n` lies in the inclusive range `min..=max`.
pub open spec fn in_range(n: int, min: int, max: int) -> bool {
    min <= n <= max
}

/// Checks that `n` lies in the inclusive range `min..=max`, and reports the
/// permitted bounds together with `n` when it does not.
pub fn validate_number(n: i32, min: i32, max: i32) -> (r: Result<(), CodecError>)
    ensures
        in_range(n as int, min as int, max as int) ==> r == Ok::<(), CodecError>(()),
        !in_range(n as int, min as int, max as int) ==> r == Err::<(), CodecError>(
            CodecError::RangeError { min, max, actual: n },
        ),
{
    if n < min || n > max {
        return Err(CodecError::RangeError { min, max, actual: n });
    }
    Ok(())
}

} // verus!
