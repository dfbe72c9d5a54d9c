//! Turning results into text for display.

use vstd::prelude::*;
use vstd::string::*;

verus! {

/// Renders what a result holds, be it the value or the error, as the text
/// that its `Display` form gives.
pub fn unpack<T: core::fmt::Display, E: core::fmt::Display>(r: Result<T, E>) -> (s: String)
    ensures
        match r {
            Ok(value) => to_string_from_display_ensures::<T>(&value, s),
            Err(msg) => to_string_from_display_ensures::<E>(&msg, s),
        },
{
    match r {
        Ok(value) => value.to_string(),
        Err(msg) => msg.to_string(),
    }
}

} // verus!
