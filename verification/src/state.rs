//! The CPU state: seven 8-bit general registers, stack pointer, program
//! counter, byte-addressable memory, the condition flags, and the
//! interrupt-enable bit. Single-owner, single-writer: one execution
//! engine mutates a given state in place.

use vstd::prelude::*;
use crate::flags::ConditionCodes;

verus! {

/// The full simulated CPU state.
pub struct State8080 {
    pub a: u8,
    pub b: u8,
    pub c: u8,
    pub d: u8,
    pub e: u8,
    pub h: u8,
    pub l: u8,
    pub sp: u16,
    pub pc: usize,
    pub memory: Vec<u8>,
    pub cc: ConditionCodes,
    pub int_enable: bool,
}

} // verus!
