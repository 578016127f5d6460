//! The opcode table: an ordered collection of instruction descriptors,
//! looked up by exact opcode equality. On duplicate opcodes the first
//! descriptor in load order wins; this is the fixed policy, stated by
//! `spec_lookup` and proved of `lookup`.

use vstd::prelude::*;

verus! {

/// An instruction descriptor: the opcode byte, its mnemonic, and the
/// total encoded size of the instruction in bytes.
#[derive(Debug, PartialEq, Eq)]
pub struct Instruction {
    pub opcode: u8,
    pub name: String,
    pub size: usize,
}

/// A well-formed table: every descriptor occupies at least its opcode
/// byte, so decoding always advances.
pub open spec fn wf_table(t: Seq<Instruction>) -> bool {
    forall|i: int| 0 <= i < t.len() ==> #[trigger] t[i].size >= 1
}

/// The index of the first descriptor at or after position `i` whose
/// opcode equals `opcode`, if any.
pub open spec fn spec_lookup_from(t: Seq<Instruction>, opcode: u8, i: int) -> Option<int>
    decreases t.len() - i,
{
    if i < 0 || i >= t.len() {
        None
    } else if t[i].opcode == opcode {
        Some(i)
    } else {
        spec_lookup_from(t, opcode, i + 1)
    }
}

/// The index of the first descriptor matching `opcode`, scan order =
/// table load order.
pub open spec fn spec_lookup(t: Seq<Instruction>, opcode: u8) -> Option<int> {
    spec_lookup_from(t, opcode, 0)
}

/// What `spec_lookup_from` returns: the first match at or after `i`, or
/// nothing when no descriptor from `i` on matches.
pub proof fn lemma_lookup_from_props(t: Seq<Instruction>, opcode: u8, i: int)
    requires
        0 <= i,
    ensures
        match spec_lookup_from(t, opcode, i) {
            Some(j) => i <= j < t.len() && t[j].opcode == opcode && forall|k: int|
                i <= k < j ==> #[trigger] t[k].opcode != opcode,
            None => forall|k: int| i <= k < t.len() ==> #[trigger] t[k].opcode != opcode,
        },
    decreases t.len() - i,
{
    if i < t.len() && t[i].opcode != opcode {
        lemma_lookup_from_props(t, opcode, i + 1);
    }
}

/// What `spec_lookup` returns: the first match, or nothing.
pub proof fn lemma_lookup_props(t: Seq<Instruction>, opcode: u8)
    ensures
        match spec_lookup(t, opcode) {
            Some(j) => 0 <= j < t.len() && t[j].opcode == opcode && forall|k: int|
                0 <= k < j ==> #[trigger] t[k].opcode != opcode,
            None => forall|k: int| 0 <= k < t.len() ==> #[trigger] t[k].opcode != opcode,
        },
{
    lemma_lookup_from_props(t, opcode, 0);
}

/// Law: an opcode present in the table exactly once is found, at its one
/// position.
pub proof fn lemma_lookup_unique(t: Seq<Instruction>, opcode: u8, i: int)
    requires
        0 <= i < t.len(),
        t[i].opcode == opcode,
        forall|j: int| 0 <= j < t.len() && j != i ==> #[trigger] t[j].opcode != opcode,
    ensures
        spec_lookup(t, opcode) == Some(i),
{
    lemma_lookup_props(t, opcode);
}

/// Law: an opcode absent from the table is reported as not found.
pub proof fn lemma_lookup_absent(t: Seq<Instruction>, opcode: u8)
    requires
        forall|j: int| 0 <= j < t.len() ==> #[trigger] t[j].opcode != opcode,
    ensures
        spec_lookup(t, opcode) is None,
{
    lemma_lookup_props(t, opcode);
}

/// Finds the first descriptor matching `opcode`, returning its index.
pub fn lookup(table: &Vec<Instruction>, opcode: u8) -> (r: Option<usize>)
    ensures
        match r {
            Some(i) => spec_lookup(table@, opcode) == Some(i as int),
            None => spec_lookup(table@, opcode) is None,
        },
{
    let n = table.len();
    let mut i: usize = 0;
    while i < n
        invariant
            i <= n,
            n == table@.len(),
            spec_lookup(table@, opcode) == spec_lookup_from(table@, opcode, i as int),
        decreases n - i,
    {
        if table[i].opcode == opcode {
            return Some(i);
        }
        i = i + 1;
    }
    None
}

} // verus!
