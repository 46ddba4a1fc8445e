//! 32-bit FNV-1a hashing.
use vstd::prelude::*;

verus! {

/// Initial state of a 32-bit FNV-1a hash.
pub const FNV1_32A_INIT: u32 = 0x811c_9dc5;

/// Multiplier of a 32-bit FNV-1a round.
pub const FNV_32_PRIME: u32 = 0x0100_0193;

/// One FNV-1a round: xor the byte in, then multiply modulo 2^32.
pub open spec fn fnv1a_round(state: u32, byte: u8) -> u32 {
    (state ^ (byte as u32)).wrapping_mul(FNV_32_PRIME)
}

/// The state reached from `state` after feeding `bytes` in order.
pub open spec fn fnv1a(state: u32, bytes: Seq<u8>) -> u32
    decreases bytes.len(),
{
    if bytes.len() == 0 {
        state
    } else {
        fnv1a_round(fnv1a(state, bytes.drop_last()), bytes.last())
    }
}

/// A 32-bit FNV-1a hasher.
pub struct Fnv1a32(u32);

impl Fnv1a32 {
    /// The current hash state.
    pub closed spec fn state(&self) -> u32 {
        self.0
    }

    /// A hasher in the standard initial state.
    pub fn new() -> (r: Self)
        ensures
            r.state() == FNV1_32A_INIT,
    {
        Fnv1a32(FNV1_32A_INIT)
    }

    /// A hasher whose state starts at `seed`.
    pub fn with_seed(seed: u32) -> (r: Self)
        ensures
            r.state() == seed,
    {
        Fnv1a32(seed)
    }

    /// Feeds `bytes` into the hash, one round per byte.
    pub fn write(&mut self, bytes: &[u8])
        ensures
            final(self).state() == fnv1a(old(self).state(), bytes@),
    {
        let ghost start = self.0;
        let mut i: usize = 0;
        while i < bytes.len()
            invariant
                0 <= i <= bytes@.len(),
                self.0 == fnv1a(start, bytes@.subrange(0, i as int)),
            decreases bytes@.len() - i,
        {
            let ghost before = bytes@.subrange(0, i as int);
            self.0 = (self.0 ^ (bytes[i] as u32)).wrapping_mul(FNV_32_PRIME);
            proof {
                let after = bytes@.subrange(0, i + 1);
                assert(after.drop_last() =~= before);
            }
            i = i + 1;
        }
        proof {
            assert(bytes@.subrange(0, bytes@.len() as int) =~= bytes@);
        }
    }

    /// The hash of everything written so far, widened to 64 bits.
    pub fn finish(&self) -> (r: u64)
        ensures
            r == self.state() as u64,
    {
        self.0 as u64
    }
}

/// FNV-1a hash of `data` from the standard initial state.
pub fn hash(data: &[u8]) -> (r: u64)
    ensures
        r == fnv1a(FNV1_32A_INIT, data@) as u64,
{
    let mut hasher = Fnv1a32::new();
    hasher.write(data);
    hasher.finish()
}

} // verus!
