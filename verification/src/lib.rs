//! Verified core of an astrology toolkit: Vedic dosha detection, the
//! sign-based parts of aspect classification, and aspect-pattern detection.

pub mod dosha;
pub mod aspects;
pub mod patterns;
pub mod named_patterns;
