//! Fixed-width binary encodings of signed integers.
//!
//! Four classical notations are supported at a width of eight bits:
//! sign-magnitude, one's complement, two's complement and excess-K. Every
//! encoder and decoder is a pure function on plain values: an integer goes
//! in and a bit string comes out, or the other way round, or a
//! [`CodecError`] says why not.
//!
//! - [`bits`] holds the mathematical model of bit strings and the
//!   primitives that build, pad, flip and read them;
//! - [`step`] adds one to, and takes one from, a bit string;
//! - [`encode`] and [`decode`] hold the four encoders and decoders;
//! - [`notation`] dispatches on a [`Notation`];
//! - [`laws`] states what holds of all of them together, and
//!   [`bit_lemmas`] the facts about the model that the proofs rest on.

pub mod bit_lemmas;
pub mod bits;
pub mod decode;
pub mod encode;
pub mod error;
pub mod laws;
pub mod notation;
pub mod report;
pub mod step;

pub use bits::flip_bits;
pub use bits::from_unsigned;
pub use bits::is_valid_8_bit_binary_string;
pub use bits::pad;
pub use bits::to_unsigned_unpadded;
pub use decode::from_excess;
pub use decode::from_excess_128;
pub use decode::from_ones_complement;
pub use decode::from_signed;
pub use decode::from_twos_complement;
pub use encode::to_excess;
pub use encode::to_ones_complement;
pub use encode::to_signed;
pub use encode::to_twos_complement;
pub use error::validate_number;
pub use error::CodecError;
pub use notation::decode;
pub use notation::encode;
pub use notation::Notation;
pub use report::unpack;
pub use step::decrement;
pub use step::increment;
