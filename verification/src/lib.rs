//! Marshaling between typed Cairo values and the native calling convention of
//! compiled Sierra functions.
//!
//! The crate encodes a list of [`values::JitValue`] arguments into the 64-bit word
//! stream that the call trampoline loads into registers and stack, plans the
//! indirect return buffer, and decodes what the callee left in registers and
//! memory back into typed values.
use vstd::prelude::*;

pub mod arch;
pub mod decode;
pub mod elision;
pub mod error;
pub mod executor;
pub mod felt;
pub mod image;
pub mod invoke;
pub mod laws;
pub mod layout;
pub mod mapper;
pub mod memory;
pub mod roundtrip;
pub mod scalar;
pub mod types;
pub mod utility;
pub mod values;
