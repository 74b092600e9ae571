//! A general-purpose library for the Lawo Ember+ control protocol.
//!
//! The library holds the S101 byte framing (escaping, CRC-16-CCITT, the
//! streaming frame decoder), the Glow value and command model, the provider's
//! element tree and the provider session state machine, each with contracts
//! checked by Verus.
pub mod buffer;
pub mod error;
pub mod glow;
pub mod handler;
pub mod provider;
pub mod s101;
pub mod server;
pub mod tree;

pub use error::{Error, Result};
