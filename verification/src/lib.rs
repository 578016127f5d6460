//! Table-driven decoder and partial execution engine for an 8-bit CPU
//! modeled on the Intel 8080.
//!
//! An opcode table maps each opcode byte to a mnemonic and an encoded size.
//! The decoder walks a code buffer and reports, for each position, the
//! instruction occupying it; the execution engine applies the semantic
//! effect of a small arithmetic subset of the instruction set to a
//! simulated CPU state.

pub mod decode;
pub mod exec;
pub mod flags;
pub mod loader;
pub mod state;
pub mod table;
