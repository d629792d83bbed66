//! A tiny xorshift64* generator for noise and dither.

use vstd::prelude::*;

verus! {

/// Multiplier of the xorshift64* output stage.
pub const SCRAMBLE: u64 = 0x2545_F491_4F6C_DD1D;

/// One xorshift64 state transition: shifts 12 right, 25 left, 27 right.
pub open spec fn xorshift(x: u64) -> u64 {
    let a = x ^ (x >> 12u64);
    let b = a ^ (a << 25u64);
    b ^ (b >> 27u64)
}

/// The value `next_u64` hands out for the state it moved to.
pub open spec fn scramble(x: u64) -> u64 {
    vstd::wrapping::u64_specs::wrapping_mul(x, SCRAMBLE)
}

/// A pseudo-random generator. `new` never yields the zero state, and a nonzero
/// state stays nonzero (zero is the one fixed point of xorshift).
#[derive(Debug, Clone)]
pub struct Rng(u64);

impl View for Rng {
    type V = u64;

    closed spec fn view(&self) -> u64 {
        self.0
    }
}

impl Rng {
    /// Seed the generator; the lowest bit is forced on so the state is nonzero.
    pub fn new(seed: u64) -> (r: Rng)
        ensures
            r@ == seed | 1u64,
            r@ != 0,
    {
        proof {
            assert(seed | 1u64 != 0u64) by (bit_vector);
        }
        Rng(seed | 1)
    }

    /// Advance the state and return the scrambled new state.
    pub fn next_u64(&mut self) -> (r: u64)
        ensures
            final(self)@ == xorshift(old(self)@),
            old(self)@ != 0 ==> final(self)@ != 0,
            old(self)@ != 0 ==> r != 0,
            r == scramble(xorshift(old(self)@)),
    {
        proof {
            if self.0 != 0 {
                lemma_xorshift_nonzero(self.0);
                lemma_scramble_nonzero(xorshift(self.0));
            }
        }
        let mut x = self.0;
        x ^= x >> 12;
        x ^= x << 25;
        x ^= x >> 27;
        self.0 = x;
        x.wrapping_mul(SCRAMBLE)
    }

    /// The top 53 bits of the next output: a uniform integer in `[0, 2^53)`,
    /// which divided by `2^53` is the uniform value in `[0, 1)`.
    pub fn next_u53(&mut self) -> (r: u64)
        ensures
            final(self)@ == xorshift(old(self)@),
            r == scramble(xorshift(old(self)@)) >> 11u64,
            r < 0x20_0000_0000_0000u64,
    {
        let v = self.next_u64();
        proof {
            assert(v >> 11u64 < 0x20_0000_0000_0000u64) by (bit_vector);
        }
        v >> 11
    }
}

/// The xorshift transition maps a nonzero state to a nonzero state.
pub proof fn lemma_xorshift_nonzero(x: u64)
    requires
        x != 0,
    ensures
        xorshift(x) != 0,
{
    let a = x ^ (x >> 12u64);
    let b = a ^ (a << 25u64);
    assert(x != 0 ==> x ^ (x >> 12u64) != 0) by (bit_vector);
    assert(a != 0 ==> a ^ (a << 25u64) != 0) by (bit_vector);
    assert(b != 0 ==> b ^ (b >> 27u64) != 0) by (bit_vector);
}

/// Multiplying a nonzero word by the odd multiplier, modulo 2^64, never
/// gives zero.
pub proof fn lemma_scramble_nonzero(x: u64)
    requires
        x != 0,
    ensures
        scramble(x) != 0,
{
    assert(x != 0 ==> (x * 0x2545_F491_4F6C_DD1Du64) % 0x1_0000_0000_0000_0000 != 0) by (bit_vector);
}

/// The first `k` values `next_u64` hands out, in order, starting from `state`.
pub open spec fn outputs(state: u64, k: nat) -> Seq<u64>
    decreases k,
{
    if k == 0 {
        Seq::empty()
    } else {
        seq![scramble(xorshift(state))] + outputs(xorshift(state), (k - 1) as nat)
    }
}

/// Law: the stream is a function of the seed with its lowest bit forced on:
/// `Rng::new(s)` and `Rng::new(s | 1)` start in the same state and so hand out
/// the same values for any number of draws (`Rng::new(0)` behaves exactly as
/// `Rng::new(1)`).
pub proof fn law_seed_stream(s: u64, k: nat)
    ensures
        s | 1u64 == (s | 1u64) | 1u64,
        outputs(s | 1u64, k) == outputs((s | 1u64) | 1u64, k),
{
    assert(s | 1u64 == (s | 1u64) | 1u64) by (bit_vector);
}

/// Law: from a nonzero state, which is every state `Rng::new` gives, no value
/// of the stream is zero, however many are drawn: noise and dither never lock
/// up at zero.
pub proof fn law_outputs_nonzero(state: u64, k: nat)
    requires
        state != 0,
    ensures
        outputs(state, k).len() == k,
        forall|i: int| 0 <= i < k ==> #[trigger] outputs(state, k)[i] != 0,
    decreases k,
{
    if k > 0 {
        lemma_xorshift_nonzero(state);
        lemma_scramble_nonzero(xorshift(state));
        law_outputs_nonzero(xorshift(state), (k - 1) as nat);
        let rest = outputs(xorshift(state), (k - 1) as nat);
        assert forall|i: int| 0 <= i < k implies #[trigger] outputs(state, k)[i] != 0 by {
            if i > 0 {
                assert(outputs(state, k)[i] == rest[i - 1]);
            }
        }
    }
}

} // verus!
