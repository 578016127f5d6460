use emu8080::decode::{disassemble_code, DecodeStatus};
use emu8080::table::{lookup, Instruction};

fn instr(opcode: u8, name: &str, size: usize) -> Instruction {
    Instruction { opcode, name: name.to_string(), size }
}

fn small_table() -> Vec<Instruction> {
    vec![instr(0x00, "NOP", 1), instr(0x01, "LXI B,D16", 3), instr(0x80, "ADD B", 1), instr(
        0xC6,
        "ADI D8",
        2,
    )]
}

#[test]
fn lookup_finds_each_present_opcode() {
    let table = small_table();
    assert_eq!(lookup(&table, 0x00), Some(0));
    assert_eq!(lookup(&table, 0x01), Some(1));
    assert_eq!(lookup(&table, 0x80), Some(2));
    assert_eq!(lookup(&table, 0xC6), Some(3));
}

#[test]
fn lookup_signals_absent_opcode() {
    let table = small_table();
    assert_eq!(lookup(&table, 0x02), None);
    assert_eq!(lookup(&table, 0xFF), None);
    assert_eq!(lookup(&Vec::new(), 0x00), None);
}

#[test]
fn lookup_returns_first_match_in_load_order() {
    let table = vec![instr(0x05, "FIRST", 1), instr(0x05, "SECOND", 2)];
    assert_eq!(lookup(&table, 0x05), Some(0));
    let out = disassemble_code(&table, &vec![0x05]);
    assert_eq!(out.records.len(), 1);
    assert_eq!(out.records[0].mnemonic, "FIRST");
    assert_eq!(out.status, DecodeStatus::Complete);
}

#[test]
fn decode_tiled_image_covers_every_offset() {
    let table = small_table();
    let code = vec![0x01, 0x34, 0x12, 0x00, 0x80, 0xC6, 0x2A];
    let out = disassemble_code(&table, &code);
    assert_eq!(out.status, DecodeStatus::Complete);
    assert_eq!(out.records.len(), 4);
    assert_eq!(out.records[0].offset, 0);
    assert_eq!(out.records[0].bytes, vec![0x01, 0x34, 0x12]);
    assert_eq!(out.records[0].mnemonic, "LXI B,D16");
    assert_eq!(out.records[1].offset, 3);
    assert_eq!(out.records[1].bytes, vec![0x00]);
    assert_eq!(out.records[1].mnemonic, "NOP");
    assert_eq!(out.records[2].offset, 4);
    assert_eq!(out.records[2].bytes, vec![0x80]);
    assert_eq!(out.records[2].mnemonic, "ADD B");
    assert_eq!(out.records[3].offset, 5);
    assert_eq!(out.records[3].bytes, vec![0xC6, 0x2A]);
    assert_eq!(out.records[3].mnemonic, "ADI D8");
}

#[test]
fn decode_empty_image_is_complete_with_no_records() {
    let table = small_table();
    let out = disassemble_code(&table, &Vec::new());
    assert_eq!(out.status, DecodeStatus::Complete);
    assert_eq!(out.records.len(), 0);
}

#[test]
fn decode_final_instruction_past_end_is_out_of_bounds() {
    let table = small_table();
    let code = vec![0x00, 0x01, 0x34];
    let out = disassemble_code(&table, &code);
    assert_eq!(out.records.len(), 1);
    assert_eq!(out.records[0].offset, 0);
    assert_eq!(out.status, DecodeStatus::OutOfBounds { opcode: 0x01, offset: 1, size: 3 });
}

#[test]
fn decode_unknown_opcode_stops_with_one_error_record() {
    let table = small_table();
    let code = vec![0x00, 0xFF, 0x00, 0x00];
    let out = disassemble_code(&table, &code);
    assert_eq!(out.records.len(), 1);
    assert_eq!(out.records[0].offset, 0);
    assert_eq!(out.status, DecodeStatus::UnknownOpcode { opcode: 0xFF, offset: 1 });
}

#[test]
fn decode_unknown_opcode_at_start_emits_no_records() {
    let table = small_table();
    let code = vec![0xFF, 0x00, 0x80];
    let out = disassemble_code(&table, &code);
    assert_eq!(out.records.len(), 0);
    assert_eq!(out.status, DecodeStatus::UnknownOpcode { opcode: 0xFF, offset: 0 });
}
