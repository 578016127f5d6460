use emu8080::exec::{add_operation, run_emulation, ExecError};
use emu8080::flags::{default_codes, parity};
use emu8080::state::State8080;
use emu8080::table::Instruction;

fn instr(opcode: u8, name: &str, size: usize) -> Instruction {
    Instruction { opcode, name: name.to_string(), size }
}

fn fresh_state(memory: Vec<u8>) -> State8080 {
    State8080 {
        a: 0,
        b: 0,
        c: 0,
        d: 0,
        e: 0,
        h: 0,
        l: 0,
        sp: 0,
        pc: 0,
        memory,
        cc: default_codes(),
        int_enable: false,
    }
}

#[test]
fn default_codes_sets_every_flag_and_the_pad() {
    let cc = default_codes();
    assert!(cc.z);
    assert!(cc.s);
    assert!(cc.p);
    assert!(cc.cy);
    assert!(cc.ac);
    assert_eq!(cc.pad, 3);
}

#[test]
fn parity_counts_set_bits_of_the_low_byte() {
    assert!(parity(0x00));
    assert!(!parity(0x01));
    assert!(parity(0x03));
    assert!(!parity(0x40));
    assert!(parity(0xFF));
    // only the low 8 bits count
    assert!(parity(0x0100));
}

#[test]
fn add_wrapping_to_zero_sets_zero_and_carry() {
    let mut state = fresh_state(Vec::new());
    state.a = 0xFF;
    state.cc.ac = false;
    add_operation(&mut state, 0x01);
    assert_eq!(state.a, 0x00);
    assert!(state.cc.z);
    assert!(state.cc.cy);
    assert!(!state.cc.s);
    assert!(state.cc.p);
    assert!(!state.cc.ac);
}

#[test]
fn add_without_carry_clears_every_computed_flag() {
    let mut state = fresh_state(Vec::new());
    state.a = 0x3E;
    add_operation(&mut state, 0x02);
    assert_eq!(state.a, 0x40);
    assert!(!state.cc.z);
    assert!(!state.cc.s);
    assert!(!state.cc.cy);
    assert!(!state.cc.p);
}

#[test]
fn add_keeps_auxiliary_carry_at_its_prior_value() {
    let mut state = fresh_state(Vec::new());
    state.a = 0x08;
    state.cc.ac = true;
    add_operation(&mut state, 0x08);
    assert_eq!(state.a, 0x10);
    assert!(state.cc.ac);
    assert_eq!(state.cc.pad, 3);
}

#[test]
fn immediate_load_fills_the_bc_pair_little_endian() {
    let table = vec![instr(0x01, "LXI B,D16", 3)];
    let mut state = fresh_state(vec![0x01, 0x34, 0x12]);
    let r = run_emulation(&mut state, &table);
    assert_eq!(r, Ok(()));
    assert_eq!(state.c, 0x34);
    assert_eq!(state.b, 0x12);
    assert_eq!(state.pc, 3);
}

#[test]
fn add_register_step_advances_by_table_size() {
    let table = vec![instr(0x80, "ADD B", 1)];
    let mut state = fresh_state(vec![0x80]);
    state.a = 0xFF;
    state.b = 0x01;
    let r = run_emulation(&mut state, &table);
    assert_eq!(r, Ok(()));
    assert_eq!(state.a, 0x00);
    assert!(state.cc.z);
    assert!(state.cc.cy);
    assert_eq!(state.pc, 1);
}

#[test]
fn add_immediate_reads_the_next_byte() {
    let table = vec![instr(0xC6, "ADI D8", 2)];
    let mut state = fresh_state(vec![0xC6, 0x02]);
    state.a = 0x3E;
    let r = run_emulation(&mut state, &table);
    assert_eq!(r, Ok(()));
    assert_eq!(state.a, 0x40);
    assert_eq!(state.pc, 2);
}

#[test]
fn unimplemented_semantics_is_a_distinct_fatal_error() {
    let table = vec![instr(0x05, "DCR B", 1)];
    let mut state = fresh_state(vec![0x05]);
    let r = run_emulation(&mut state, &table);
    assert_eq!(r, Err(ExecError::UnimplementedInstruction { opcode: 0x05 }));
    assert_eq!(state.pc, 0);
}

#[test]
fn known_semantics_without_descriptor_is_unknown_opcode() {
    let table: Vec<Instruction> = Vec::new();
    let mut state = fresh_state(vec![0x00]);
    let r = run_emulation(&mut state, &table);
    assert_eq!(r, Err(ExecError::UnknownOpcode { opcode: 0x00, offset: 0 }));
    assert_eq!(state.pc, 0);
}

#[test]
fn effect_is_kept_when_the_descriptor_is_missing() {
    let table: Vec<Instruction> = Vec::new();
    let mut state = fresh_state(vec![0x80]);
    state.a = 0x01;
    state.b = 0x02;
    let r = run_emulation(&mut state, &table);
    assert_eq!(r, Err(ExecError::UnknownOpcode { opcode: 0x80, offset: 0 }));
    assert_eq!(state.a, 0x03);
    assert_eq!(state.pc, 0);
}

#[test]
fn immediate_load_past_end_of_memory_is_out_of_bounds() {
    let table = vec![instr(0x01, "LXI B,D16", 3)];
    let mut state = fresh_state(vec![0x01, 0x34]);
    let r = run_emulation(&mut state, &table);
    assert_eq!(r, Err(ExecError::OutOfBounds { offset: 0 }));
    assert_eq!(state.pc, 0);
    assert_eq!(state.b, 0);
    assert_eq!(state.c, 0);
}

#[test]
fn add_immediate_past_end_of_memory_is_out_of_bounds() {
    let table = vec![instr(0xC6, "ADI D8", 2)];
    let mut state = fresh_state(vec![0xC6]);
    state.a = 0x3E;
    let r = run_emulation(&mut state, &table);
    assert_eq!(r, Err(ExecError::OutOfBounds { offset: 0 }));
    assert_eq!(state.a, 0x3E);
}
