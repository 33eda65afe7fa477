//! Validation of Venezuelan fiscal identifiers (RIF numbers).
//!
//! A RIF number is written `<CODE>-<payer id>-<check digit>`, for example
//! `J-07013380-5`: a one-letter kind code, a decimal payer identifier of up
//! to nine significant digits, and a single checksum digit computed from the
//! kind's weight and the zero-padded digits of the payer identifier.
//!
//! The library offers a closed [`Kind`] enumeration, the [`Rif`] value type
//! whose only constructors validate the check digit, and the checksum
//! algorithm itself. Every function carries a contract that pins down its
//! result, including the exact error reported for each malformed input.

pub mod digits;
pub mod error;
pub mod kind;
pub mod rif;

pub use error::Error;
pub use kind::Kind;
pub use rif::Rif;
