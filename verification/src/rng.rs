//! The xorshift64* pseudo-random generator that drives the fire.
use vstd::prelude::*;
use std::time::{Duration, SystemTime, UNIX_EPOCH};

verus! {

/// One xorshift64 step: `x ^= x << 13; x ^= x >> 7; x ^= x << 17`, with the
/// left shifts dropping the bits that leave the 64-bit word.
pub open spec fn xorshift(x: u64) -> u64 {
    let a = x ^ (x << 13u64);
    let b = a ^ (a >> 7u64);
    b ^ (b << 17u64)
}

/// The state reached from `s` after `n` steps.
pub open spec fn xorshift_iter(s: u64, n: nat) -> u64
    decreases n,
{
    if n == 0 {
        s
    } else {
        xorshift(xorshift_iter(s, (n - 1) as nat))
    }
}

/// The xorshift64* output for a new state: the state times
/// 0x2545F4914F6CDD1D, wrapping at 64 bits.
pub open spec fn scramble(x: u64) -> u64 {
    ((x as nat * 0x2545F4914F6CDD1Dnat) % 0x1_0000_0000_0000_0000nat) as u64
}

/// The value `range(lo, hi)` draws from a generator whose next output is `out`.
pub open spec fn range_value(out: u64, lo: int, hi: int) -> int {
    lo + (out % ((hi - lo + 1) as u64)) as int
}

/// A small, fast pseudo-random generator; its state is never zero.
pub struct Rng(u64);

impl View for Rng {
    type V = u64;

    closed spec fn view(&self) -> u64 {
        self.0
    }
}

impl Rng {
    #[verifier::type_invariant]
    closed spec fn nonzero(self) -> bool {
        self.0 != 0
    }

    /// A generator seeded from the sub-second nanoseconds of the clock,
    /// with the low bit forced on so that the seed is never zero.
    pub fn from_nanos(nanos: u32) -> (r: Rng)
        ensures
            r@ == (nanos as u64 | 1u64),
    {
        let seed: u64 = nanos as u64 | 1u64;
        assert(seed != 0) by (bit_vector)
            requires
                seed == (nanos as u64 | 1u64),
        ;
        Rng(seed)
    }

    /// A generator seeded off the system clock. `None` when the clock reads
    /// before the Unix epoch.
    pub fn new() -> (r: Option<Rng>)
        ensures
            r matches Some(g) ==> g@ % 2 == 1 && g@ <= 999_999_999,
    {
        match elapsed_since_epoch(system_now()) {
            Some(d) => {
                let n = subsec_nanos_of(&d);
                let g = Rng::from_nanos(n);
                assert((n as u64 | 1u64) % 2 == 1 && (n as u64 | 1u64) <= 999_999_999u64) by (bit_vector)
                    requires
                        n < 1_000_000_000u32,
                ;
                Some(g)
            },
            None => None,
        }
    }

    /// Advances the generator one xorshift64 step and returns the new state
    /// scrambled (xorshift64*).
    pub fn next_u64(&mut self) -> (r: u64)
        ensures
            final(self)@ == xorshift(old(self)@),
            r == scramble(xorshift(old(self)@)),
            r != 0,
    {
        proof {
            use_type_invariant(&*self);
        }
        let mut x = self.0;
        proof {
            lemma_xorshift_nonzero(x);
        }
        x = x ^ (x << 13u64);
        x = x ^ (x >> 7u64);
        x = x ^ (x << 17u64);
        self.0 = x;
        proof {
            lemma_scramble_nonzero(x);
        }
        x.wrapping_mul(0x2545F4914F6CDD1D)
    }

    /// A value in `lo..=hi`: `lo` plus the next output modulo the span.
    pub fn range(&mut self, lo: i32, hi: i32) -> (r: i32)
        requires
            lo <= hi,
            hi - lo + 1 <= i32::MAX,
        ensures
            final(self)@ == xorshift(old(self)@),
            r == range_value(scramble(xorshift(old(self)@)), lo as int, hi as int),
            lo <= r <= hi,
    {
        let span = (hi - lo + 1) as u64;
        let out = self.next_u64();
        let m = out % span;
        lo + m as i32
    }
}

/// Scrambling is a bijection on 64-bit words (the multiplier is odd), so a
/// nonzero state gives a nonzero output.
pub proof fn lemma_scramble_nonzero(x: u64)
    ensures
        x != 0 ==> scramble(x) != 0,
{
    assert(x != 0u64 ==> ((x as nat * 0x2545F4914F6CDD1Dnat) % 0x1_0000_0000_0000_0000nat) as u64
        != 0u64) by (bit_vector);
}

/// A nonzero state stays nonzero under a step.
pub proof fn lemma_xorshift_nonzero(x: u64)
    ensures
        x != 0 ==> xorshift(x) != 0,
{
    let a = x ^ (x << 13u64);
    let b = a ^ (a >> 7u64);
    let c = b ^ (b << 17u64);
    assert(x != 0 ==> a != 0) by (bit_vector)
        requires
            a == x ^ (x << 13u64),
    ;
    assert(a != 0 ==> b != 0) by (bit_vector)
        requires
            b == a ^ (a >> 7u64),
    ;
    assert(b != 0 ==> c != 0) by (bit_vector)
        requires
            c == b ^ (b << 17u64),
    ;
}

/// Distinct states step to distinct states: the generator never merges two
/// sequences into one.
pub proof fn lemma_xorshift_injective(x: u64, y: u64)
    ensures
        xorshift(x) == xorshift(y) ==> x == y,
{
    let ax = x ^ (x << 13u64);
    let ay = y ^ (y << 13u64);
    let bx = ax ^ (ax >> 7u64);
    let by = ay ^ (ay >> 7u64);
    assert((bx ^ (bx << 17u64)) == (by ^ (by << 17u64)) ==> bx == by) by (bit_vector);
    assert(bx == by ==> ax == ay) by (bit_vector)
        requires
            bx == ax ^ (ax >> 7u64),
            by == ay ^ (ay >> 7u64),
    ;
    assert(ax == ay ==> x == y) by (bit_vector)
        requires
            ax == x ^ (x << 13u64),
            ay == y ^ (y << 13u64),
    ;
}

#[verifier::external_type_specification]
#[verifier::external_body]
pub struct ExSystemTime(SystemTime);

/// Calls `SystemTime::now`; nothing is promised of the reading.
#[verifier::external_body]
fn system_now() -> SystemTime {
    SystemTime::now()
}

/// Calls `SystemTime::duration_since(UNIX_EPOCH)`, keeping the `Ok` value;
/// whether the clock reads before the epoch is not stated.
#[verifier::external_body]
fn elapsed_since_epoch(t: SystemTime) -> Option<Duration> {
    t.duration_since(UNIX_EPOCH).ok()
}

/// Calls `Duration::subsec_nanos`, which std documents as the fractional
/// part of the duration in nanoseconds, always below one billion.
#[verifier::external_body]
fn subsec_nanos_of(d: &Duration) -> (n: u32)
    ensures
        n < 1_000_000_000,
{
    d.subsec_nanos()
}

} // verus!
