//! The integer core of the noise bank: a xorshift64* pseudo-random
//! generator and the seeded permutation table every noise layer samples
//! through. The table is built once per layer by a Fisher–Yates shuffle
//! driven by the generator, duplicated to 512 entries for wrap-free lookup.
//! The floating-point octave summation that samples against the table lives
//! with the caller; everything that feeds it from a seed is exact integer
//! work and is verified here.

use vstd::pervasive::VecAdditionalExecFns;
use vstd::prelude::*;

verus! {

/// One xorshift64* state step.
pub open spec fn xs_step(x: u64) -> u64 {
    let a = x ^ (x >> 12);
    let b = a ^ (a << 25);
    b ^ (b >> 27)
}

/// The output word derived from a stepped state.
pub open spec fn xs_output(state: u64) -> u64 {
    state.wrapping_mul(0x2545F4914F6CDD1D)
}

/// A xorshift64* generator; the state is forced odd at seeding so it never
/// reaches the all-zero fixed point.
#[derive(Debug, Clone, Copy)]
pub struct XorShift64Star(u64);

impl XorShift64Star {
    /// The generator's current state.
    pub closed spec fn state(&self) -> u64 {
        self.0
    }

    pub fn new(seed: u64) -> (r: Self)
        ensures
            r.state() == seed | 1,
    {
        Self(seed | 1)
    }

    /// Advance the state and produce the next output word.
    pub fn next_u64(&mut self) -> (r: u64)
        ensures
            final(self).state() == xs_step(old(self).state()),
            r == xs_output(xs_step(old(self).state())),
    {
        let mut x = self.0;
        x = x ^ (x >> 12);
        x = x ^ (x << 25);
        x = x ^ (x >> 27);
        self.0 = x;
        x.wrapping_mul(0x2545F4914F6CDD1D)
    }
}

/// The identity table the shuffle starts from: entry `i` holds `i`.
pub open spec fn init_table() -> Seq<u8> {
    Seq::new(256, |i: int| i as u8)
}

/// The Fisher–Yates shuffle, rolled down from position `i`: each step swaps
/// position `i` with a generator-chosen position at or below it.
pub open spec fn shuffle_from(base: Seq<u8>, rng: u64, i: int) -> (Seq<u8>, u64)
    decreases i,
{
    if i <= 0 {
        (base, rng)
    } else {
        let ns = xs_step(rng);
        let out = xs_output(ns);
        let j = (out as int) % (i + 1);
        shuffle_from(base.update(i, base[j]).update(j, base[i]), ns, i - 1)
    }
}

/// Seed mixed into the shuffle generator.
pub const SEED_MIX: u64 = 0x9E3779B97F4A7C15;

/// The shuffled 256-entry permutation a seed determines.
pub open spec fn permutation_of(seed: u64) -> Seq<u8> {
    shuffle_from(init_table(), (seed ^ SEED_MIX) | 1, 255).0
}

/// The full 512-entry lookup table: the permutation duplicated.
pub open spec fn perm_table(seed: u64) -> Seq<u8> {
    Seq::new(512, |i: int| permutation_of(seed)[i % 256])
}

/// Build the permutation table of a noise layer from its seed.
///
/// Law (determinism, integer core): the result equals `perm_table(seed)`, a
/// function of the seed alone, so two calls on the same seed are
/// bit-identical on every machine.
pub fn permutation_table(seed: u64) -> (p: Vec<u8>)
    ensures
        p@ == perm_table(seed),
        p@.len() == 512,
{
    let mut base: Vec<u8> = Vec::new();
    let mut k: usize = 0;
    while k < 256
        invariant
            k <= 256,
            base@.len() == k,
            forall|m: int| 0 <= m < k ==> base@[m] == m as u8,
        decreases 256 - k,
    {
        base.push(k as u8);
        k = k + 1;
    }
    proof {
        assert(base@ =~= init_table());
    }
    let ghost st0 = (seed ^ SEED_MIX) | 1;
    let mut rng = XorShift64Star::new(seed ^ SEED_MIX);
    let mut i: usize = 255;
    while i >= 1
        invariant
            0 <= i <= 255,
            base@.len() == 256,
            shuffle_from(base@, rng.state(), i as int) == shuffle_from(init_table(), st0, 255),
        decreases i,
    {
        let ghost pre = base@;
        let ghost prs = rng.state();
        let r = rng.next_u64();
        let j = (r % (i as u64 + 1)) as usize;
        let bi = base[i];
        let bj = base[j];
        base.set(i, bj);
        base.set(j, bi);
        proof {
            assert(base@ == pre.update(i as int, pre[j as int]).update(j as int, pre[i as int]));
            assert(shuffle_from(pre, prs, i as int) == shuffle_from(
                base@,
                rng.state(),
                i as int - 1,
            ));
        }
        i = i - 1;
    }
    proof {
        assert(base@ == permutation_of(seed));
    }
    let mut p: Vec<u8> = Vec::new();
    let mut k: usize = 0;
    while k < 512
        invariant
            k <= 512,
            base@.len() == 256,
            base@ == permutation_of(seed),
            p@.len() == k,
            forall|m: int| 0 <= m < k ==> p@[m] == base@[m % 256],
        decreases 512 - k,
    {
        proof {
            assert(k & 255 == k % 256) by (bit_vector);
        }
        p.push(base[k & 255]);
        k = k + 1;
    }
    proof {
        assert(p@ =~= perm_table(seed));
    }
    p
}

} // verus!
