//! The condition-flag model: five independent booleans recomputed in full
//! by every arithmetic handler, plus a fixed padding field kept only for
//! bit-layout fidelity with the hardware status byte.

use vstd::prelude::*;

verus! {

/// The five condition flags of the CPU, plus the padding field of the
/// hardware status byte (never used in computation).
#[derive(Clone, Copy, Debug, PartialEq, Eq, Structural)]
pub struct ConditionCodes {
    pub z: bool,
    pub s: bool,
    pub p: bool,
    pub cy: bool,
    pub ac: bool,
    pub pad: u8,
}

/// The flag values a CPU state starts a run with.
pub fn default_codes() -> (cc: ConditionCodes)
    ensures
        cc == (ConditionCodes { z: true, s: true, p: true, cy: true, ac: true, pad: 3u8 }),
{
    ConditionCodes { z: true, s: true, p: true, cy: true, ac: true, pad: 3 }
}

/// The number of set bits among the `n` lowest bits of `x`.
pub open spec fn count_low_bits(x: u16, n: nat) -> nat
    decreases n,
{
    if n == 0 {
        0
    } else {
        count_low_bits(x, (n - 1) as nat) + (if (x >> ((n - 1) as u16)) & 1 == 1 {
            1nat
        } else {
            0nat
        })
    }
}

/// Parity of a value: the count of set bits in its low 8 bits is even.
pub open spec fn spec_parity(x: u16) -> bool {
    count_low_bits(x, 8) % 2 == 0
}

/// Computes the parity flag: true iff the number of set bits in the low
/// 8 bits of `value` is even.
pub fn parity(value: u16) -> (r: bool)
    ensures
        r == spec_parity(value),
{
    let mut count: u16 = 0;
    let mut i: u16 = 0;
    while i < 8
        invariant
            i <= 8,
            count as nat == count_low_bits(value, i as nat),
            count <= i,
        decreases 8 - i,
    {
        assert((value >> i) & 1 <= 1) by (bit_vector);
        count = count + ((value >> i) & 1);
        i = i + 1;
    }
    count % 2 == 0
}

} // verus!
