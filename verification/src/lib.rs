//! A compact unique-identifier generator.
//!
//! A [`HyperId`] holds a random 128-bit base value and an 8-bit counter.
//! Each call to [`HyperId::generate`] advances the counter and snapshots the
//! state as an [`Id`]; when the counter wraps from 255 back to 0 a fresh
//! random base is drawn, so identifiers stay distinct within a window and
//! distinct across windows with overwhelming probability.
//!
//! An [`Id`] is an immutable value that can be serialised as 17 bytes
//! (big-endian base, then the counter) or as a URL-safe text token
//! (unpadded base64 of the little-endian base, a `.` separator, and the
//! decimal counter).

pub mod b64;
pub mod dec;
pub mod generator;
pub mod id;
mod rand128;

pub use generator::HyperId;
pub use id::Id;
pub use id::ParseIdError;
