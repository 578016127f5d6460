//! The execute engine: applies one opcode's semantic effect to the CPU
//! state and advances the program counter by the descriptor's size. Only
//! a small subset has coded semantics — the no-op, one immediate load,
//! and the add-to-accumulator family; everything else is reported as
//! unimplemented. A byte can have a descriptor but no coded behavior, or
//! coded behavior but no descriptor: the two conditions are distinct.

use vstd::prelude::*;
use crate::flags::{ConditionCodes, parity, spec_parity};
use crate::state::State8080;
use crate::table::{Instruction, spec_lookup, lemma_lookup_props};

verus! {

/// Why an execution step failed. An unimplemented instruction has a
/// known descriptor but no coded semantics; an unknown opcode has coded
/// semantics or none but no descriptor to advance by; out of bounds
/// means an operand byte would be read past the end of memory.
#[derive(Clone, Copy, Debug, PartialEq, Eq, Structural)]
pub enum ExecError {
    UnknownOpcode { opcode: u8, offset: usize },
    UnimplementedInstruction { opcode: u8 },
    OutOfBounds { offset: usize },
}

/// The accumulator after adding `v`: the low byte of the wide sum.
pub open spec fn spec_add_result(a: u8, v: u8) -> u8 {
    ((a + v) % 256) as u8
}

/// The flags after an add whose wide (carry-detecting) sum is `sum`.
/// Auxiliary-carry is not computed by this subset and keeps its prior
/// value, as does the padding field.
pub open spec fn spec_flags_after_add(pre: ConditionCodes, sum: int) -> ConditionCodes {
    ConditionCodes {
        z: sum % 256 == 0,
        s: sum % 256 >= 128,
        p: spec_parity((sum % 256) as u16),
        cy: sum > 255,
        ac: pre.ac,
        pad: pre.pad,
    }
}

/// The opcodes this engine has coded semantics for.
pub open spec fn is_implemented(opcode: u8) -> bool {
    ||| opcode == 0x00
    ||| opcode == 0x01
    ||| (0x80 <= opcode <= 0x85)
    ||| opcode == 0x87
    ||| opcode == 0xC6
}

/// How many bytes past the opcode the semantic effect itself reads.
pub open spec fn operand_span(opcode: u8) -> int {
    if opcode == 0x01 {
        2
    } else if opcode == 0xC6 {
        1
    } else {
        0
    }
}

/// The operand an add-family opcode feeds to the accumulator.
pub open spec fn spec_add_operand(s: State8080, opcode: u8) -> u8 {
    if opcode == 0x80 {
        s.b
    } else if opcode == 0x81 {
        s.c
    } else if opcode == 0x82 {
        s.d
    } else if opcode == 0x83 {
        s.e
    } else if opcode == 0x84 {
        s.h
    } else if opcode == 0x85 {
        s.l
    } else if opcode == 0x87 {
        s.a
    } else {
        s.memory@[s.pc + 1]
    }
}

/// Everything but the program counter is unchanged.
pub open spec fn same_core(pre: State8080, post: State8080) -> bool {
    &&& post.a == pre.a
    &&& post.b == pre.b
    &&& post.c == pre.c
    &&& post.d == pre.d
    &&& post.e == pre.e
    &&& post.h == pre.h
    &&& post.l == pre.l
    &&& post.sp == pre.sp
    &&& post.memory == pre.memory
    &&& post.cc == pre.cc
    &&& post.int_enable == pre.int_enable
}

/// The semantic effect of an implemented opcode on everything but the
/// program counter.
pub open spec fn effect_ok(pre: State8080, post: State8080, opcode: u8) -> bool {
    if opcode == 0x00 {
        same_core(pre, post)
    } else if opcode == 0x01 {
        &&& post.c == pre.memory@[pre.pc + 1]
        &&& post.b == pre.memory@[pre.pc + 2]
        &&& post.a == pre.a
        &&& post.d == pre.d
        &&& post.e == pre.e
        &&& post.h == pre.h
        &&& post.l == pre.l
        &&& post.sp == pre.sp
        &&& post.memory == pre.memory
        &&& post.cc == pre.cc
        &&& post.int_enable == pre.int_enable
    } else {
        let v = spec_add_operand(pre, opcode);
        &&& post.a == spec_add_result(pre.a, v)
        &&& post.cc == spec_flags_after_add(pre.cc, pre.a + v)
        &&& post.b == pre.b
        &&& post.c == pre.c
        &&& post.d == pre.d
        &&& post.e == pre.e
        &&& post.h == pre.h
        &&& post.l == pre.l
        &&& post.sp == pre.sp
        &&& post.memory == pre.memory
        &&& post.int_enable == pre.int_enable
    }
}

/// Adds `register_value` to the accumulator through a wide intermediate,
/// recomputing Zero, Sign, Carry and Parity from the result in full.
/// Auxiliary-carry is left at its prior value: a deliberate gap of this
/// subset, kept as the modeled hardware's handler keeps it.
pub fn add_operation(state: &mut State8080, register_value: u8)
    ensures
        final(state).a == spec_add_result(old(state).a, register_value),
        final(state).cc == spec_flags_after_add(
            old(state).cc,
            old(state).a + register_value,
        ),
        final(state).b == old(state).b,
        final(state).c == old(state).c,
        final(state).d == old(state).d,
        final(state).e == old(state).e,
        final(state).h == old(state).h,
        final(state).l == old(state).l,
        final(state).sp == old(state).sp,
        final(state).pc == old(state).pc,
        final(state).memory == old(state).memory,
        final(state).int_enable == old(state).int_enable,
{
    let answer: u16 = state.a as u16 + register_value as u16;
    proof {
        assert(answer & 0xff == answer % 256) by (bit_vector);
        assert((answer & 0x80 != 0) == (answer % 256 >= 128)) by (bit_vector);
    }
    state.cc.z = (answer & 0xff) == 0;
    state.cc.s = (answer & 0x80) != 0;
    state.cc.cy = answer > 0xff;
    state.cc.p = parity(answer & 0xff);
    state.a = (answer & 0xff) as u8;
}

/// Performs one execution step: fetches the opcode at the program
/// counter, applies its semantic effect (or fails on an unimplemented
/// one, or on an operand read past the end of memory), then advances the
/// program counter by the matching descriptor's size (or fails on an
/// opcode with no descriptor, leaving the counter in place — the effect,
/// applied first, is kept).
pub fn run_emulation(state: &mut State8080, instructions: &Vec<Instruction>) -> (r: Result<
    (),
    ExecError,
>)
    requires
        old(state).pc < old(state).memory@.len(),
        forall|i: int| 0 <= i < instructions@.len() ==> old(state).pc
            + #[trigger] instructions@[i].size <= usize::MAX,
    ensures
        ({
            let pre = *old(state);
            let post = *final(state);
            let opcode = pre.memory@[pre.pc as int];
            &&& !is_implemented(opcode) ==> r == Err::<(), ExecError>(
                ExecError::UnimplementedInstruction { opcode },
            ) && post == pre
            &&& is_implemented(opcode) && pre.pc + operand_span(opcode) >= pre.memory@.len()
                ==> r == Err::<(), ExecError>(ExecError::OutOfBounds { offset: pre.pc }) && post
                == pre
            &&& is_implemented(opcode) && pre.pc + operand_span(opcode) < pre.memory@.len() ==> {
                &&& effect_ok(pre, post, opcode)
                &&& match spec_lookup(instructions@, opcode) {
                    Some(i) => r == Ok::<(), ExecError>(()) && post.pc == pre.pc
                        + instructions@[i].size,
                    None => r == Err::<(), ExecError>(
                        ExecError::UnknownOpcode { opcode, offset: pre.pc },
                    ) && post.pc == pre.pc,
                }
            }
        }),
{
    let opcode = state.memory[state.pc];
    match opcode {
        0x00 => {},
        0x01 => {
            if state.memory.len() - state.pc < 3 {
                return Err(ExecError::OutOfBounds { offset: state.pc });
            }
            state.c = state.memory[state.pc + 1];
            state.b = state.memory[state.pc + 2];
        },
        0x80 => {
            let v = state.b;
            add_operation(state, v);
        },
        0x81 => {
            let v = state.c;
            add_operation(state, v);
        },
        0x82 => {
            let v = state.d;
            add_operation(state, v);
        },
        0x83 => {
            let v = state.e;
            add_operation(state, v);
        },
        0x84 => {
            let v = state.h;
            add_operation(state, v);
        },
        0x85 => {
            let v = state.l;
            add_operation(state, v);
        },
        0x87 => {
            let v = state.a;
            add_operation(state, v);
        },
        0xC6 => {
            if state.memory.len() - state.pc < 2 {
                return Err(ExecError::OutOfBounds { offset: state.pc });
            }
            let v = state.memory[state.pc + 1];
            add_operation(state, v);
        },
        _ => {
            return Err(ExecError::UnimplementedInstruction { opcode });
        },
    }
    proof {
        lemma_lookup_props(instructions@, opcode);
    }
    match crate::table::lookup(instructions, opcode) {
        Some(i) => {
            state.pc = state.pc + instructions[i].size;
            Ok(())
        },
        None => Err(ExecError::UnknownOpcode { opcode, offset: state.pc }),
    }
}

} // verus!
