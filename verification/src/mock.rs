//! Deterministic mock data generators.
//!
//! Generators are seeded by a `u64`: the same seed and the same
//! configuration give byte-identical output. The generator is splitmix64.
use vstd::prelude::*;

pub mod bytes;
pub mod csv;
pub mod json_array;
pub mod json_laws;
pub mod json_grammar;

verus! {

/// The increment splitmix64 adds to its state at every step.
pub const GAMMA: u64 = 0x9E37_79B9_7F4A_7C15;

/// First multiplier of the splitmix64 output function.
pub const MIX1: u64 = 0xBF58_476D_1CE4_E5B9;

/// Second multiplier of the splitmix64 output function.
pub const MIX2: u64 = 0x94D0_49BB_1331_11EB;

/// The state after one step.
pub open spec fn advance(state: u64) -> u64 {
    vstd::wrapping::u64_specs::wrapping_add(state, GAMMA)
}

/// The splitmix64 output function applied to a (new) state.
pub open spec fn mix(z: u64) -> u64 {
    let z1 = vstd::wrapping::u64_specs::wrapping_mul(z ^ (z >> 30u64), MIX1);
    let z2 = vstd::wrapping::u64_specs::wrapping_mul(z1 ^ (z1 >> 27u64), MIX2);
    z2 ^ (z2 >> 31u64)
}

/// The state of a generator seeded with `seed` after `k` steps.
pub open spec fn state_after(seed: u64, k: nat) -> u64
    decreases k,
{
    if k == 0 {
        seed
    } else {
        advance(state_after(seed, (k - 1) as nat))
    }
}

/// The `k`-th value (counting from 0) drawn from a generator seeded with `seed`.
pub open spec fn nth_output(seed: u64, k: nat) -> u64 {
    mix(state_after(seed, k + 1))
}

/// A deterministic pseudo-random number generator (splitmix64).
///
/// Its view is the 64-bit state.
pub struct Rng {
    state: u64,
}

impl View for Rng {
    type V = u64;

    closed spec fn view(&self) -> u64 {
        self.state
    }
}

impl Rng {
    /// Build a new generator from a seed.
    pub fn seeded(seed: u64) -> (r: Rng)
        ensures
            r@ == seed,
    {
        Rng { state: seed }
    }

    /// Step and return the next 64-bit value.
    pub fn next_u64(&mut self) -> (v: u64)
        ensures
            final(self)@ == advance(old(self)@),
            v == mix(final(self)@),
    {
        self.state = self.state.wrapping_add(GAMMA);
        let mut z = self.state;
        z = (z ^ (z >> 30)).wrapping_mul(MIX1);
        z = (z ^ (z >> 27)).wrapping_mul(MIX2);
        z = z ^ (z >> 31);
        z
    }

    /// A value in `[0, n)`: the next value reduced modulo `n`; `0` when `n` is `0`,
    /// in which case the generator does not step.
    pub fn range(&mut self, n: u64) -> (v: u64)
        ensures
            n == 0 ==> v == 0 && final(self)@ == old(self)@,
            n > 0 ==> final(self)@ == advance(old(self)@) && v == mix(final(self)@) % n
                && v < n,
    {
        if n == 0 {
            return 0;
        }
        self.next_u64() % n
    }
}

/// Stepping a generator `k + 1` times from `seed` reaches the state `state_after(seed, k + 1)`;
/// the values drawn along the way are `nth_output(seed, 0..=k)`: two generators built from
/// the same seed draw the same values in the same order.
pub proof fn lemma_stream_is_function_of_seed(seed: u64, k: nat)
    ensures
        advance(state_after(seed, k)) == state_after(seed, k + 1),
        mix(advance(state_after(seed, k))) == nth_output(seed, k),
{
}

} // verus!

verus! {

/// Inverse of `MIX1` modulo 2^64.
const MIX1_INV: u64 = 0x96de_1b17_3f11_9089;

/// Inverse of `MIX2` modulo 2^64.
const MIX2_INV: u64 = 0x3196_42b2_d24d_8ec3;

proof fn lemma_wrapping_mul_cancel(x: u64, c: u64, c_inv: u64, k: int)
    requires
        (c as int) * (c_inv as int) == 1 + k * 0x1_0000_0000_0000_0000,
        k >= 0,
    ensures
        vstd::wrapping::u64_specs::wrapping_mul(vstd::wrapping::u64_specs::wrapping_mul(x, c), c_inv)
            == x,
{
    let m: int = 0x1_0000_0000_0000_0000;
    let a: int = (x as int) * (c as int);
    vstd::arithmetic::div_mod::lemma_mul_mod_noop_left(a, c_inv as int, m);
    assert(a * (c_inv as int) == (x as int) * ((c as int) * (c_inv as int))) by (nonlinear_arith)
        requires
            a == (x as int) * (c as int),
    ;
    assert((x as int) * (1 + k * m) == m * ((x as int) * k) + (x as int)) by (nonlinear_arith);
    vstd::arithmetic::div_mod::lemma_mod_multiples_vanish((x as int) * k, x as int, m);
    vstd::arithmetic::div_mod::lemma_small_mod(x as nat, m as nat);
    assert(vstd::wrapping::u64_specs::wrapping_mul(x, c) as int == a % m);
}

/// The splitmix64 output function is one-to-one.
pub proof fn lemma_mix_injective(x: u64, y: u64)
    requires
        mix(x) == mix(y),
    ensures
        x == y,
{
    let x1 = vstd::wrapping::u64_specs::wrapping_mul(x ^ (x >> 30u64), MIX1);
    let y1 = vstd::wrapping::u64_specs::wrapping_mul(y ^ (y >> 30u64), MIX1);
    let x2 = vstd::wrapping::u64_specs::wrapping_mul(x1 ^ (x1 >> 27u64), MIX2);
    let y2 = vstd::wrapping::u64_specs::wrapping_mul(y1 ^ (y1 >> 27u64), MIX2);
    assert(x2 ^ (x2 >> 31u64) == y2 ^ (y2 >> 31u64) ==> x2 == y2) by (bit_vector);
    lemma_wrapping_mul_cancel(x1 ^ (x1 >> 27u64), MIX2, MIX2_INV, 2077064247507883091);
    lemma_wrapping_mul_cancel(y1 ^ (y1 >> 27u64), MIX2, MIX2_INV, 2077064247507883091);
    assert(x1 ^ (x1 >> 27u64) == y1 ^ (y1 >> 27u64) ==> x1 == y1) by (bit_vector);
    lemma_wrapping_mul_cancel(x ^ (x >> 30u64), MIX1, MIX1_INV, 8125545580553827436);
    lemma_wrapping_mul_cancel(y ^ (y >> 30u64), MIX1, MIX1_INV, 8125545580553827436);
    assert(x ^ (x >> 30u64) == y ^ (y >> 30u64) ==> x == y) by (bit_vector);
}

/// Generators built from different seeds draw different first values.
pub proof fn lemma_different_seeds_differ(a: u64, b: u64)
    requires
        a != b,
    ensures
        nth_output(a, 0) != nth_output(b, 0),
{
    assert(state_after(a, 0) == a);
    assert(state_after(b, 0) == b);
    assert(state_after(a, 1) == advance(a));
    assert(state_after(b, 1) == advance(b));
    if mix(advance(a)) == mix(advance(b)) {
        lemma_mix_injective(advance(a), advance(b));
    }
}

} // verus!
