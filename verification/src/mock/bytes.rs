//! Raw-byte generation.
use vstd::prelude::*;
use super::{Rng, nth_output, state_after, advance, mix};

verus! {

/// Byte `j` (0 = least significant) of `v` in little-endian order.
pub open spec fn le_byte(v: u64, j: int) -> u8 {
    ((v >> ((8 * j) as u64)) % 256) as u8
}

/// The first `n` bytes of the little-endian stream of values drawn from `seed`.
pub open spec fn random_stream(seed: u64, n: nat) -> Seq<u8> {
    Seq::new(n, |i: int| le_byte(nth_output(seed, (i / 8) as nat), i % 8))
}

/// `n` bytes of a repeating pattern (zeros for an empty pattern).
pub open spec fn pattern_stream(pattern: Seq<u8>, n: nat) -> Seq<u8> {
    if pattern.len() == 0 {
        Seq::new(n, |i: int| 0u8)
    } else {
        Seq::new(n, |i: int| pattern[i % (pattern.len() as int)])
    }
}

/// A non-empty pattern is laid out from its first byte in its own order and repeats
/// with its own length as period; an empty pattern gives zeros. Either way the stream
/// has exactly the length asked for.
pub proof fn lemma_pattern_repeats_in_order(pattern: Seq<u8>, n: nat)
    ensures
        pattern_stream(pattern, n).len() == n,
        pattern.len() > 0 ==> forall|i: int|
            0 <= i < n && i < pattern.len() ==> #[trigger] pattern_stream(pattern, n)[i] == pattern[i],
        pattern.len() > 0 ==> forall|i: int|
            0 <= i && i + pattern.len() < n ==> #[trigger] pattern_stream(pattern, n)[i
                + pattern.len()] == pattern_stream(pattern, n)[i],
        pattern.len() > 0 ==> forall|i: int|
            0 <= i < n ==> #[trigger] pattern_stream(pattern, n)[i] == pattern[i % (pattern.len() as int)],
        pattern.len() == 0 ==> forall|i: int| 0 <= i < n ==> #[trigger] pattern_stream(pattern, n)[i] == 0u8,
{
    if pattern.len() > 0 {
        let p = pattern.len() as int;
        assert forall|i: int| 0 <= i < n && i < p implies #[trigger] pattern_stream(pattern, n)[i]
            == pattern[i] by {
            vstd::arithmetic::div_mod::lemma_small_mod(i as nat, p as nat);
        }
        assert forall|i: int| 0 <= i && i + p < n implies #[trigger] pattern_stream(pattern, n)[i + p]
            == pattern_stream(pattern, n)[i] by {
            vstd::arithmetic::div_mod::lemma_mod_add_multiples_vanish(i, p);
        }
    }
}

/// `n` bytes of zeros.
pub fn zeros(n: usize) -> (out: Vec<u8>)
    ensures
        out@ == Seq::new(n as nat, |i: int| 0u8),
{
    let mut out: Vec<u8> = Vec::new();
    while out.len() < n
        invariant
            out.len() <= n,
            forall|i: int| 0 <= i < out.len() ==> out@[i] == 0u8,
        decreases n - out.len(),
    {
        out.push(0u8);
    }
    assert(out@ =~= Seq::new(n as nat, |i: int| 0u8));
    out
}

/// `n` bytes of a repeating pattern; zeros when the pattern is empty.
pub fn patterned(n: usize, pattern: &[u8]) -> (out: Vec<u8>)
    ensures
        out@ == pattern_stream(pattern@, n as nat),
{
    if pattern.len() == 0 {
        return zeros(n);
    }
    let mut out: Vec<u8> = Vec::new();
    while out.len() < n
        invariant
            pattern.len() > 0,
            out.len() <= n,
            forall|i: int| 0 <= i < out.len() ==> out@[i] == pattern@[i % (pattern.len() as int)],
        decreases n - out.len(),
    {
        let b = pattern[out.len() % pattern.len()];
        out.push(b);
    }
    assert(out@ =~= pattern_stream(pattern@, n as nat));
    out
}

/// Byte `j` of `v` in little-endian order.
fn le_byte_of(v: u64, j: usize) -> (b: u8)
    requires
        j < 8,
    ensures
        b == le_byte(v, j as int),
{
    ((v >> ((8 * j) as u64)) % 256) as u8
}

/// `n` deterministic random bytes from `seed`: the little-endian bytes of the
/// values drawn from `Rng::seeded(seed)`, cut to length `n`.
pub fn random(n: usize, seed: u64) -> (out: Vec<u8>)
    ensures
        out@ == random_stream(seed, n as nat),
{
    let mut rng = Rng::seeded(seed);
    let mut out: Vec<u8> = Vec::new();
    let ghost mut k: nat = 0;
    while out.len() < n
        invariant
            out.len() <= n,
            out.len() < n ==> out.len() % 8 == 0 && k == out.len() / 8,
            rng@ == state_after(seed, k),
            forall|i: int| 0 <= i < out.len() ==> out@[i] == le_byte(
                nth_output(seed, (i / 8) as nat),
                i % 8,
            ),
        decreases n - out.len(),
    {
        let v = rng.next_u64();
        assert(v == nth_output(seed, k));
        let base = out.len();
        let mut j: usize = 0;
        while j < 8
            invariant
                j <= 8,
                base % 8 == 0,
                base < n,
                k == base / 8,
                v == nth_output(seed, k),
                out.len() == if base + j <= n { base + j } else { n as int },
                forall|i: int| 0 <= i < out.len() ==> out@[i] == le_byte(
                    nth_output(seed, (i / 8) as nat),
                    i % 8,
                ),
            decreases 8 - j,
        {
            if out.len() < n {
                let b = le_byte_of(v, j);
                proof {
                    let i = out.len() as int;
                    assert(i / 8 == k && i % 8 == j) by (nonlinear_arith)
                        requires i == base + j, base % 8 == 0, k == base / 8, 0 <= j < 8;
                }
                out.push(b);
            }
            j = j + 1;
        }
        proof {
            k = k + 1;
        }
        if out.len() < n {
            assert(out.len() == base + 8);
            assert((base + 8) % 8 == 0 && (base + 8) / 8 == k) by (nonlinear_arith)
                requires base % 8 == 0, k == base / 8 + 1;
        }
    }
    assert(out@ =~= random_stream(seed, n as nat));
    out
}

/// The bytes drawn for a shorter length are a prefix of those drawn for a longer one.
pub proof fn lemma_random_prefix(seed: u64, n: nat, m: nat)
    requires
        n <= m,
    ensures
        random_stream(seed, n) == random_stream(seed, m).take(n as int),
{
    assert(random_stream(seed, n) =~= random_stream(seed, m).take(n as int));
}

} // verus!

verus! {

proof fn lemma_le_bytes_determine(v: u64, w: u64)
    requires
        forall|j: int| 0 <= j < 8 ==> #[trigger] le_byte(v, j) == le_byte(w, j),
    ensures
        v == w,
{
    assert(le_byte(v, 0) == le_byte(w, 0));
    assert(le_byte(v, 1) == le_byte(w, 1));
    assert(le_byte(v, 2) == le_byte(w, 2));
    assert(le_byte(v, 3) == le_byte(w, 3));
    assert(le_byte(v, 4) == le_byte(w, 4));
    assert(le_byte(v, 5) == le_byte(w, 5));
    assert(le_byte(v, 6) == le_byte(w, 6));
    assert(le_byte(v, 7) == le_byte(w, 7));
    assert(((v >> 0u64) % 256 == (w >> 0u64) % 256 && (v >> 8u64) % 256 == (w >> 8u64) % 256 && (v
        >> 16u64) % 256 == (w >> 16u64) % 256 && (v >> 24u64) % 256 == (w >> 24u64) % 256 && (v
        >> 32u64) % 256 == (w >> 32u64) % 256 && (v >> 40u64) % 256 == (w >> 40u64) % 256 && (v
        >> 48u64) % 256 == (w >> 48u64) % 256 && (v >> 56u64) % 256 == (w >> 56u64) % 256) ==> v
        == w) by (bit_vector);
}

/// Random byte streams of at least 8 bytes from different seeds differ.
pub proof fn lemma_random_differs_with_seed(a: u64, b: u64, n: nat)
    requires
        a != b,
        n >= 8,
    ensures
        random_stream(a, n) != random_stream(b, n),
{
    super::lemma_different_seeds_differ(a, b);
    if random_stream(a, n) == random_stream(b, n) {
        assert forall|j: int| 0 <= j < 8 implies #[trigger] le_byte(nth_output(a, 0), j) == le_byte(
            nth_output(b, 0),
            j,
        ) by {
            assert(random_stream(a, n)[j] == random_stream(b, n)[j]);
            assert(j / 8 == 0 && j % 8 == j);
        }
        lemma_le_bytes_determine(nth_output(a, 0), nth_output(b, 0));
    }
}

} // verus!
