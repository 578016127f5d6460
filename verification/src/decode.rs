//! The decode (disassembly) engine: pure analysis over an opcode table
//! and a byte buffer. It walks the buffer from offset 0, resolves each
//! opcode to a descriptor, and emits one record per instruction until the
//! buffer is exhausted, an opcode has no descriptor, or a descriptor
//! claims bytes past the end of the buffer. No CPU state is touched.

use vstd::prelude::*;
use crate::table::{Instruction, spec_lookup, wf_table, lemma_lookup_props};

verus! {

/// One decoded instruction: its offset in the buffer, the raw bytes it
/// occupies, and its mnemonic. Textual rendering is the caller's concern.
pub struct DecodeRecord {
    pub offset: usize,
    pub bytes: Vec<u8>,
    pub mnemonic: String,
}

/// How a decode run ended. An unresolvable opcode and a descriptor
/// reaching past the buffer end are reported with their position; no
/// records follow either condition.
#[derive(Clone, Copy, Debug, PartialEq, Eq, Structural)]
pub enum DecodeStatus {
    Complete,
    UnknownOpcode { opcode: u8, offset: usize },
    OutOfBounds { opcode: u8, offset: usize, size: usize },
}

/// Everything a decode run produced: the records emitted before
/// termination, and how it terminated.
pub struct DecodeOutput {
    pub records: Vec<DecodeRecord>,
    pub status: DecodeStatus,
}

/// The mathematical model of one decode record.
pub ghost struct RecordModel {
    pub offset: int,
    pub bytes: Seq<u8>,
    pub mnemonic: Seq<char>,
}

/// The mathematical model of a termination status.
pub ghost enum StatusModel {
    Complete,
    UnknownOpcode { opcode: u8, offset: int },
    OutOfBounds { opcode: u8, offset: int, size: int },
}

/// The mathematical model of a whole decode run.
pub ghost struct DecodeModel {
    pub records: Seq<RecordModel>,
    pub status: StatusModel,
}

impl View for DecodeRecord {
    type V = RecordModel;

    open spec fn view(&self) -> RecordModel {
        RecordModel { offset: self.offset as int, bytes: self.bytes@, mnemonic: self.mnemonic@ }
    }
}

impl View for DecodeStatus {
    type V = StatusModel;

    open spec fn view(&self) -> StatusModel {
        match self {
            DecodeStatus::Complete => StatusModel::Complete,
            DecodeStatus::UnknownOpcode { opcode, offset } => StatusModel::UnknownOpcode {
                opcode: *opcode,
                offset: *offset as int,
            },
            DecodeStatus::OutOfBounds { opcode, offset, size } => StatusModel::OutOfBounds {
                opcode: *opcode,
                offset: *offset as int,
                size: *size as int,
            },
        }
    }
}

impl View for DecodeOutput {
    type V = DecodeModel;

    open spec fn view(&self) -> DecodeModel {
        DecodeModel {
            records: self.records@.map_values(|r: DecodeRecord| r@),
            status: self.status@,
        }
    }
}

/// The encoded size of the instruction at offset `o`, read from the first
/// matching descriptor. Meaningful only when the lookup succeeds.
pub open spec fn size_at(table: Seq<Instruction>, code: Seq<u8>, o: int) -> int {
    table[spec_lookup(table, code[o]).unwrap()].size as int
}

/// The record the decoder emits for the instruction at offset `o`.
/// Meaningful only when the lookup succeeds and the bytes are in range.
pub open spec fn record_at(table: Seq<Instruction>, code: Seq<u8>, o: int) -> RecordModel {
    RecordModel {
        offset: o,
        bytes: code.subrange(o, o + size_at(table, code, o)),
        mnemonic: table[spec_lookup(table, code[o]).unwrap()].name@,
    }
}

/// The instruction starting at offset `o` resolves to a descriptor and
/// lies wholly inside the buffer.
pub open spec fn spec_step_ok(table: Seq<Instruction>, code: Seq<u8>, o: int) -> bool {
    &&& 0 <= o < code.len()
    &&& spec_lookup(table, code[o]) is Some
    &&& o + size_at(table, code, o) <= code.len()
}

/// A model with `recs` prepended to the records of `m`.
pub open spec fn prepend_records(recs: Seq<RecordModel>, m: DecodeModel) -> DecodeModel {
    DecodeModel { records: recs + m.records, status: m.status }
}

/// What decoding from offset `offset` to the end of the buffer produces:
/// a record per resolved instruction, then the terminating status.
pub open spec fn spec_decode(table: Seq<Instruction>, code: Seq<u8>, offset: int) -> DecodeModel
    decreases code.len() - offset
        when wf_table(table) && 0 <= offset
        via spec_decode_decreases
{
    if offset >= code.len() {
        DecodeModel { records: Seq::empty(), status: StatusModel::Complete }
    } else {
        let opcode = code[offset];
        match spec_lookup(table, opcode) {
            None => DecodeModel {
                records: Seq::empty(),
                status: StatusModel::UnknownOpcode { opcode, offset },
            },
            Some(i) => {
                let size = table[i].size as int;
                if offset + size > code.len() {
                    DecodeModel {
                        records: Seq::empty(),
                        status: StatusModel::OutOfBounds { opcode, offset, size },
                    }
                } else {
                    prepend_records(
                        seq![record_at(table, code, offset)],
                        spec_decode(table, code, offset + size),
                    )
                }
            },
        }
    }
}

#[via_fn]
proof fn spec_decode_decreases(table: Seq<Instruction>, code: Seq<u8>, offset: int) {
    if 0 <= offset < code.len() {
        lemma_lookup_props(table, code[offset]);
    }
}

/// The offsets in `offs` are the starts of a chain of resolvable
/// instructions laid end to end, the last one ending exactly at `hi`.
pub open spec fn tiles_chain(table: Seq<Instruction>, code: Seq<u8>, offs: Seq<int>, hi: int) -> bool {
    &&& forall|k: int| 0 <= k < offs.len() ==> spec_step_ok(table, code, #[trigger] offs[k])
    &&& forall|k: int| 0 <= k < offs.len() - 1 ==> #[trigger] offs[k] + size_at(table, code, offs[k])
        == offs[k + 1]
    &&& offs.len() > 0 ==> offs.last() + size_at(table, code, offs.last()) == hi
}

/// Where a chain begins: at its first offset, or at `hi` when it is empty.
pub open spec fn chain_start(offs: Seq<int>, hi: int) -> int {
    if offs.len() == 0 {
        hi
    } else {
        offs[0]
    }
}

/// Decoding from the start of an instruction chain yields one record per
/// chain element, then whatever decoding from the chain's end yields.
pub proof fn lemma_decode_chain(table: Seq<Instruction>, code: Seq<u8>, offs: Seq<int>, hi: int)
    requires
        wf_table(table),
        0 <= hi <= code.len(),
        tiles_chain(table, code, offs, hi),
    ensures
        ({
            let m0 = spec_decode(table, code, chain_start(offs, hi));
            let m1 = spec_decode(table, code, hi);
            &&& m0.status == m1.status
            &&& m0.records.len() == offs.len() + m1.records.len()
            &&& forall|k: int| 0 <= k < offs.len() ==> #[trigger] m0.records[k] == record_at(
                table,
                code,
                offs[k],
            )
            &&& forall|k: int| 0 <= k < m1.records.len() ==> m0.records[offs.len() + k]
                == #[trigger] m1.records[k]
        }),
    decreases offs.len(),
{
    if offs.len() > 0 {
        let o = offs[0];
        let rest = offs.drop_first();
        let size = size_at(table, code, o);
        assert(spec_step_ok(table, code, o));
        assert forall|k: int| 0 <= k < rest.len() implies spec_step_ok(
            table,
            code,
            #[trigger] rest[k],
        ) by {
            assert(rest[k] == offs[k + 1]);
        }
        assert forall|k: int| 0 <= k < rest.len() - 1 implies #[trigger] rest[k] + size_at(
            table,
            code,
            rest[k],
        ) == rest[k + 1] by {
            assert(rest[k] == offs[k + 1] && rest[k + 1] == offs[k + 2]);
        }
        if rest.len() > 0 {
            assert(rest.last() == offs.last());
        }
        lemma_decode_chain(table, code, rest, hi);
        assert(chain_start(rest, hi) == o + size);
        lemma_lookup_props(table, code[o]);
        let m0 = spec_decode(table, code, o);
        let mn = spec_decode(table, code, o + size);
        assert(m0 == prepend_records(seq![record_at(table, code, o)], mn));
        assert forall|k: int| 0 <= k < offs.len() implies #[trigger] m0.records[k] == record_at(
            table,
            code,
            offs[k],
        ) by {
            if k > 0 {
                assert(m0.records[k] == mn.records[k - 1]);
                assert(rest[k - 1] == offs[k]);
            }
        }
    }
}

/// Law: an image that instructions from the table exactly tile decodes
/// completely, with one record per instruction, in order, each starting
/// where the previous one ended — no gaps, no overlaps — and together
/// covering the whole buffer.
pub proof fn lemma_decode_tiling(table: Seq<Instruction>, code: Seq<u8>, offs: Seq<int>)
    requires
        wf_table(table),
        tiles_chain(table, code, offs, code.len() as int),
        chain_start(offs, code.len() as int) == 0,
    ensures
        ({
            let m = spec_decode(table, code, 0);
            &&& m.status == StatusModel::Complete
            &&& m.records.len() == offs.len()
            &&& forall|k: int| 0 <= k < offs.len() ==> #[trigger] m.records[k] == record_at(
                table,
                code,
                offs[k],
            )
            &&& forall|k: int| 0 <= k < offs.len() ==> (#[trigger] m.records[k]).offset == offs[k]
                && m.records[k].bytes.len() == size_at(table, code, offs[k])
            &&& forall|k: int| 0 <= k < offs.len() - 1 ==> (#[trigger] m.records[k]).offset
                + m.records[k].bytes.len() == m.records[k + 1].offset
            &&& offs.len() > 0 ==> m.records[0].offset == 0 && m.records.last().offset
                + m.records.last().bytes.len() == code.len()
        }),
{
    lemma_decode_chain(table, code, offs, code.len() as int);
}

/// Law: when decoding goes cleanly until an offset whose descriptor
/// claims bytes past the buffer end, the run reports that out-of-bounds
/// condition — it does not truncate silently — and emits no record for
/// the overlong instruction, nor any after it.
pub proof fn lemma_decode_out_of_bounds(
    table: Seq<Instruction>,
    code: Seq<u8>,
    offs: Seq<int>,
    o: int,
)
    requires
        wf_table(table),
        0 <= o < code.len(),
        tiles_chain(table, code, offs, o),
        chain_start(offs, o) == 0,
        spec_lookup(table, code[o]) is Some,
        o + size_at(table, code, o) > code.len(),
    ensures
        ({
            let m = spec_decode(table, code, 0);
            &&& m.status == StatusModel::OutOfBounds {
                opcode: code[o],
                offset: o,
                size: size_at(table, code, o),
            }
            &&& m.records.len() == offs.len()
            &&& forall|k: int| 0 <= k < offs.len() ==> #[trigger] m.records[k] == record_at(
                table,
                code,
                offs[k],
            )
        }),
{
    lemma_decode_chain(table, code, offs, o);
    lemma_lookup_props(table, code[o]);
}

/// Law: an opcode byte with no table entry ends the run with exactly one
/// unknown-opcode report carrying that opcode and offset, and no further
/// records, whatever the remaining buffer holds.
pub proof fn lemma_decode_unknown_opcode(
    table: Seq<Instruction>,
    code: Seq<u8>,
    offs: Seq<int>,
    o: int,
)
    requires
        wf_table(table),
        0 <= o < code.len(),
        tiles_chain(table, code, offs, o),
        chain_start(offs, o) == 0,
        spec_lookup(table, code[o]) is None,
    ensures
        ({
            let m = spec_decode(table, code, 0);
            &&& m.status == StatusModel::UnknownOpcode { opcode: code[o], offset: o }
            &&& m.records.len() == offs.len()
            &&& forall|k: int| 0 <= k < offs.len() ==> #[trigger] m.records[k] == record_at(
                table,
                code,
                offs[k],
            )
        }),
{
    lemma_decode_chain(table, code, offs, o);
}

/// Decodes the whole buffer: emits one record per resolved instruction
/// from offset 0 on, and stops at the end of the buffer, at an opcode
/// with no descriptor, or at a descriptor that claims bytes past the
/// buffer end, exactly as `spec_decode` says.
pub fn disassemble_code(instructions: &Vec<Instruction>, code: &Vec<u8>) -> (out: DecodeOutput)
    requires
        wf_table(instructions@),
    ensures
        out@ == spec_decode(instructions@, code@, 0),
{
    let ghost whole = spec_decode(instructions@, code@, 0);
    let mut records: Vec<DecodeRecord> = Vec::new();
    let mut offset: usize = 0;
    proof {
        assert(records@.map_values(|r: DecodeRecord| r@) + whole.records =~= whole.records);
    }
    loop
        invariant
            wf_table(instructions@),
            offset <= code@.len(),
            whole == spec_decode(instructions@, code@, 0),
            whole == prepend_records(
                records@.map_values(|r: DecodeRecord| r@),
                spec_decode(instructions@, code@, offset as int),
            ),
        decreases code@.len() - offset,
    {
        let ghost done = records@.map_values(|r: DecodeRecord| r@);
        if offset >= code.len() {
            proof {
                assert(done + Seq::<RecordModel>::empty() =~= done);
            }
            return DecodeOutput { records, status: DecodeStatus::Complete };
        }
        let opcode = code[offset];
        match crate::table::lookup(instructions, opcode) {
            None => {
                proof {
                    assert(done + Seq::<RecordModel>::empty() =~= done);
                }
                return DecodeOutput {
                    records,
                    status: DecodeStatus::UnknownOpcode { opcode, offset },
                };
            },
            Some(i) => {
                proof {
                    lemma_lookup_props(instructions@, opcode);
                }
                let size = instructions[i].size;
                if size > code.len() - offset {
                    proof {
                        assert(done + Seq::<RecordModel>::empty() =~= done);
                    }
                    return DecodeOutput {
                        records,
                        status: DecodeStatus::OutOfBounds { opcode, offset, size },
                    };
                }
                let mut bytes: Vec<u8> = Vec::new();
                let mut j: usize = 0;
                while j < size
                    invariant
                        j <= size,
                        offset + size <= code@.len(),
                        code@.len() <= usize::MAX,
                        bytes@ == code@.subrange(offset as int, offset + j),
                    decreases size - j,
                {
                    bytes.push(code[offset + j]);
                    j = j + 1;
                    proof {
                        assert(bytes@ =~= code@.subrange(offset as int, offset + j));
                    }
                }
                let mnemonic = instructions[i].name.clone();
                let rec = DecodeRecord { offset, bytes, mnemonic };
                proof {
                    assert(rec@ == record_at(instructions@, code@, offset as int));
                }
                records.push(rec);
                proof {
                    assert(records@.map_values(|r: DecodeRecord| r@) =~= done + seq![rec@]);
                    assert((done + seq![rec@]) + spec_decode(
                        instructions@,
                        code@,
                        offset + size,
                    ).records =~= done + (seq![rec@] + spec_decode(
                        instructions@,
                        code@,
                        offset + size,
                    ).records));
                }
                offset = offset + size;
            },
        }
    }
}

} // verus!
