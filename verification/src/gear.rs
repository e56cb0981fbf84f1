//! [`GearHash`] — the rolling gear hash that places content-defined
//! cuts. Each byte shifts the state left by one bit and adds a
//! per-byte table entry, so the top bits depend only on the last 64
//! bytes and cut decisions re-synchronize after an edit.

use vstd::prelude::*;

verus! {

/// Table seed of the `zip-v1` profile.
pub const ZIP_GEAR_SEED: u64 = 0x7A69_7076_3100_0001;
/// Table seed of the `ooxml-ber-v1` profile.
pub const OOXML_BER_GEAR_SEED: u64 = 0x6F6F_786D_6C62_6572;
/// Table seed of the `pdf-v1` profile.
pub const PDF_GEAR_SEED: u64 = 0x7064_6676_3100_0001;
/// Table seed of the `structured-text-v1` profile.
pub const STRUCTURED_TEXT_GEAR_SEED: u64 = 0x7374_7874_7631_0001;

/// The SplitMix64 increment.
pub const GOLDEN_GAMMA: u64 = 0x9E37_79B9_7F4A_7C15;

/// The SplitMix64 output function.
pub open spec fn mix64(z0: u64) -> u64 {
    let z1 = (z0 ^ (z0 >> 30u64)).wrapping_mul(0xBF58_476D_1CE4_E5B9u64);
    let z2 = (z1 ^ (z1 >> 27u64)).wrapping_mul(0x94D0_49BB_1331_11EBu64);
    z2 ^ (z2 >> 31u64)
}

/// The `i`-th table entry drawn from `seed`: the SplitMix64 stream.
pub open spec fn gear_entry(seed: u64, i: int) -> u64 {
    mix64(((seed as int + (i + 1) * (GOLDEN_GAMMA as int)) % 0x1_0000_0000_0000_0000) as u64)
}

/// The 256-entry table drawn from `seed`.
pub open spec fn gear_table(seed: u64) -> Seq<u64> {
    Seq::new(256, |i: int| gear_entry(seed, i))
}

/// One gear step: shift left by one bit, add the byte's entry.
pub open spec fn gear_step(table: Seq<u64>, value: u64, byte: u8) -> u64 {
    ((value << 1u64) as u64).wrapping_add(table[byte as int])
}

/// The gear state after hashing `bytes` from `value`.
pub open spec fn gear_fold(table: Seq<u64>, value: u64, bytes: Seq<u8>) -> u64
    decreases bytes.len(),
{
    if bytes.len() == 0 {
        value
    } else {
        gear_step(table, gear_fold(table, value, bytes.drop_last()), bytes.last())
    }
}

/// The rolling gear hash.
pub struct GearHash {
    table: Vec<u64>,
    value: u64,
}

impl GearHash {
    /// The table.
    pub closed spec fn table(&self) -> Seq<u64> {
        self.table@
    }

    /// The current state.
    pub closed spec fn value(&self) -> u64 {
        self.value
    }

    /// The table has one entry per byte value.
    pub closed spec fn wf(&self) -> bool {
        self.table@.len() == 256
    }

    /// A fresh hash over the table drawn from `seed`.
    pub fn new(seed: u64) -> (hash: Self)
        ensures
            hash.wf(),
            hash.table() == gear_table(seed),
            hash.value() == 0,
    {
        let mut table: Vec<u64> = Vec::with_capacity(256);
        let mut state: u64 = seed;
        let mut i: usize = 0;
        while i < 256
            invariant
                i <= 256,
                table@.len() == i,
                state as int == (seed as int + (i as int) * (GOLDEN_GAMMA as int)) % 0x1_0000_0000_0000_0000,
                forall|j: int| 0 <= j < i ==> table@[j] == gear_entry(seed, j),
            decreases 256 - i,
        {
            state = state.wrapping_add(GOLDEN_GAMMA);
            let z1 = (state ^ (state >> 30u64)).wrapping_mul(0xBF58_476D_1CE4_E5B9u64);
            let z2 = (z1 ^ (z1 >> 27u64)).wrapping_mul(0x94D0_49BB_1331_11EBu64);
            table.push(z2 ^ (z2 >> 31u64));
            proof {
                let m: int = 0x1_0000_0000_0000_0000;
                assert((seed as int + (i as int) * (GOLDEN_GAMMA as int)) % m + GOLDEN_GAMMA as int
                    == (seed as int + (i as int) * (GOLDEN_GAMMA as int)) % m + GOLDEN_GAMMA as int);
                vstd::arithmetic::div_mod::lemma_add_mod_noop(
                    seed as int + (i as int) * (GOLDEN_GAMMA as int), GOLDEN_GAMMA as int, m);
                vstd::arithmetic::div_mod::lemma_mod_twice(GOLDEN_GAMMA as int, m);
                vstd::arithmetic::div_mod::lemma_small_mod(GOLDEN_GAMMA as nat, m as nat);
                assert(seed as int + (i as int) * (GOLDEN_GAMMA as int) + GOLDEN_GAMMA as int
                    == seed as int + (i as int + 1) * (GOLDEN_GAMMA as int)) by (nonlinear_arith);
            }
            i = i + 1;
        }
        assert(table@ =~= gear_table(seed));
        GearHash { table, value: 0 }
    }

    /// Hash one byte.
    pub fn update(&mut self, byte: u8)
        requires
            old(self).wf(),
        ensures
            final(self).wf(),
            final(self).table() == old(self).table(),
            final(self).value() == gear_step(old(self).table(), old(self).value(), byte),
    {
        self.value = (self.value << 1u64).wrapping_add(self.table[byte as usize]);
    }

    /// Whether the state selects a cut under `mask`.
    pub fn cuts(&self, mask: u64) -> (cut: bool)
        ensures
            cut == (self.value() & mask == 0),
    {
        self.value & mask == 0
    }

    /// Restart the state.
    pub fn reset(&mut self)
        requires
            old(self).wf(),
        ensures
            final(self).wf(),
            final(self).table() == old(self).table(),
            final(self).value() == 0,
    {
        self.value = 0;
    }
}

} // verus!
