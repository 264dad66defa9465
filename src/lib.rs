//! Unbiased sampling of small bounded integers from a source of uniform bytes.
//!
//! Two samplers are offered: Lemire's nearly-divisionless method, which
//! multiplies a byte by the bound and keeps the high byte of the product, and
//! the classical method that rejects bytes at or above a ceiling before
//! reducing them modulo the bound. Both consume bytes from a [`ByteSource`]
//! until one is accepted, and never fall back to a biased answer.
pub mod lemire;
pub mod readable;
pub mod rejection;
pub mod shortcuts;
pub mod source;

pub use shortcuts::{convert_an_m_to_a_roll_result, modulo_256, two_fifty_six_modulo};
pub use lemire::{
    lemire_from_seed, roll_using_lemire_fast, roll_using_lemire_only_one_trick, MAX_ATTEMPTS,
};
pub use readable::roll_using_readable_lemire;
pub use rejection::{rejection_ceiling, roll_using_traditional_rejection_method};
pub use source::{ByteSource, RandomBytes, ReplayBytes, SamplingError};
