//! Deterministic generation of round constants.
//!
//! An 80-bit linear feedback shift register, with the feedback taps of the Grain
//! stream cipher, is seeded with the parameters of the hash (field kind, S-box kind,
//! modulus bit length, width, full rounds and partial rounds) and run for
//! `WARMUP_STEPS` steps. After that each step yields one bit. A candidate is
//! `modulus_bits` consecutive bits read most significant first; candidates not below
//! the modulus are rejected.

use vstd::prelude::*;
use crate::field::{fe, Fp, MODULUS};

verus! {

/// Number of bits in the register.
pub const LFSR_BITS: usize = 80;

/// Steps run, and discarded, before the first output bit.
pub const WARMUP_STEPS: u64 = 160;

/// Candidates drawn per constant asked for, at most.
pub const DRAW_FACTOR: usize = 2;

/// `k` bits of `v`, most significant first (higher bits of `v` are dropped).
pub open spec fn bits_msb(v: nat, k: nat) -> Seq<bool>
    decreases k,
{
    if k == 0 {
        Seq::empty()
    } else {
        bits_msb(v / 2, (k - 1) as nat).push(v % 2 == 1)
    }
}

/// Initial register contents: field kind 1 (prime field) in 2 bits, S-box kind 0
/// (power map) in 4 bits, then `n` in 12 bits, `t` in 12 bits, `rf` in 10 bits,
/// `rp` in 10 bits, and 30 set bits.
pub open spec fn lfsr_seed(n: nat, t: nat, rf: nat, rp: nat) -> Seq<bool> {
    bits_msb(1, 2) + bits_msb(0, 4) + bits_msb(n, 12) + bits_msb(t, 12) + bits_msb(rf, 10)
        + bits_msb(rp, 10) + Seq::new(30, |i: int| true)
}

/// The feedback bit of register contents `s`.
pub open spec fn feedback(s: Seq<bool>) -> bool {
    ((((s[62] != s[51]) != s[38]) != s[23]) != s[13]) != s[0]
}

/// Register contents after one step.
pub open spec fn lfsr_step(s: Seq<bool>) -> Seq<bool> {
    s.subrange(1, s.len() as int).push(feedback(s))
}

/// Register contents after `k` steps from `seed`.
pub open spec fn lfsr_state(seed: Seq<bool>, k: nat) -> Seq<bool>
    decreases k,
{
    if k == 0 {
        seed
    } else {
        lfsr_step(lfsr_state(seed, (k - 1) as nat))
    }
}

/// Output bit `i`, counted from the end of the warm-up.
pub open spec fn stream_bit(seed: Seq<bool>, i: nat) -> bool {
    feedback(lfsr_state(seed, (WARMUP_STEPS + i) as nat))
}

/// The integer read from `k` output bits starting at `start`, most significant first.
pub open spec fn read_bits(seed: Seq<bool>, start: nat, k: nat) -> nat
    decreases k,
{
    if k == 0 {
        0
    } else {
        2 * read_bits(seed, start, (k - 1) as nat) + if stream_bit(
            seed,
            start + (k - 1) as nat,
        ) {
            1nat
        } else {
            0nat
        }
    }
}

/// Candidate `j`, made of output bits `n * j .. n * (j + 1)`.
pub open spec fn candidate(seed: Seq<bool>, n: nat, j: nat) -> nat {
    read_bits(seed, n * j, n)
}

/// The field elements accepted among the first `c` candidates, in order.
pub open spec fn accepted(seed: Seq<bool>, n: nat, c: nat) -> Seq<Fp>
    decreases c,
{
    if c == 0 {
        Seq::empty()
    } else {
        let prev = accepted(seed, n, (c - 1) as nat);
        let v = candidate(seed, n, (c - 1) as nat);
        if v < MODULUS {
            prev.push(fe(v as int))
        } else {
            prev
        }
    }
}

pub open spec fn pow2(k: nat) -> nat
    decreases k,
{
    if k == 0 {
        1
    } else {
        2 * pow2((k - 1) as nat)
    }
}

proof fn lemma_bits_msb_len(v: nat, k: nat)
    ensures
        bits_msb(v, k).len() == k,
    decreases k,
{
    if k > 0 {
        lemma_bits_msb_len(v / 2, (k - 1) as nat);
    }
}

proof fn lemma_pow2_mono(a: nat, b: nat)
    requires
        a <= b,
    ensures
        pow2(a) <= pow2(b),
    decreases b,
{
    if a < b {
        lemma_pow2_mono(a, (b - 1) as nat);
    }
}

proof fn lemma_read_bits_bound(seed: Seq<bool>, start: nat, k: nat)
    ensures
        read_bits(seed, start, k) < pow2(k),
    decreases k,
{
    if k > 0 {
        lemma_read_bits_bound(seed, start, (k - 1) as nat);
    }
}

fn push_bits(out: &mut Vec<bool>, v: u64, k: u64)
    ensures
        final(out)@ == old(out)@ + bits_msb(v as nat, k as nat),
    decreases k,
{
    if k == 0 {
        assert(old(out)@ + bits_msb(v as nat, 0) =~= old(out)@);
    } else {
        push_bits(out, v / 2, k - 1);
        out.push(v % 2 == 1);
        assert(final(out)@ =~= old(out)@ + bits_msb(v as nat, k as nat));
    }
}

/// The register, with the number of steps run so far.
pub struct Lfsr {
    pub state: Vec<bool>,
    pub seed: Ghost<Seq<bool>>,
    pub steps: Ghost<nat>,
}

impl Lfsr {
    pub open spec fn wf(&self) -> bool {
        self.seed@.len() == LFSR_BITS && self.state@ == lfsr_state(self.seed@, self.steps@)
    }

    /// A register seeded with the given parameters, warmed up.
    pub fn new(n: u64, t: u64, rf: u64, rp: u64) -> (r: Lfsr)
        ensures
            r.wf(),
            r.seed@ == lfsr_seed(n as nat, t as nat, rf as nat, rp as nat),
            r.steps@ == WARMUP_STEPS,
    {
        let mut state: Vec<bool> = Vec::new();
        push_bits(&mut state, 1, 2);
        push_bits(&mut state, 0, 4);
        push_bits(&mut state, n, 12);
        push_bits(&mut state, t, 12);
        push_bits(&mut state, rf, 10);
        push_bits(&mut state, rp, 10);
        let ghost prefix = state@;
        let mut i: usize = 0;
        while i < 30
            invariant
                i <= 30,
                state@ == prefix + Seq::new(i as nat, |k: int| true),
            decreases 30 - i,
        {
            state.push(true);
            i = i + 1;
            assert(state@ =~= prefix + Seq::new(i as nat, |k: int| true));
        }
        let ghost seed = state@;
        proof {
            lemma_bits_msb_len(1, 2);
            lemma_bits_msb_len(0, 4);
            lemma_bits_msb_len(n as nat, 12);
            lemma_bits_msb_len(t as nat, 12);
            lemma_bits_msb_len(rf as nat, 10);
            lemma_bits_msb_len(rp as nat, 10);
        }
        assert(seed =~= lfsr_seed(n as nat, t as nat, rf as nat, rp as nat));
        let mut r = Lfsr { state, seed: Ghost(seed), steps: Ghost(0) };
        let mut w: u64 = 0;
        while w < WARMUP_STEPS
            invariant
                w <= WARMUP_STEPS,
                r.wf(),
                r.seed@ == seed,
                r.steps@ == w,
            decreases WARMUP_STEPS - w,
        {
            r.next_bit();
            w = w + 1;
        }
        r
    }

    /// Runs one step and returns the bit shifted in.
    pub fn next_bit(&mut self) -> (b: bool)
        requires
            old(self).wf(),
        ensures
            final(self).wf(),
            final(self).seed@ == old(self).seed@,
            final(self).steps@ == old(self).steps@ + 1,
            b == feedback(lfsr_state(old(self).seed@, old(self).steps@)),
    {
        proof {
            lemma_lfsr_len(self.seed@, self.steps@);
        }
        let s = &self.state;
        let b = ((((s[62] != s[51]) != s[38]) != s[23]) != s[13]) != s[0];
        self.state.remove(0);
        self.state.push(b);
        self.steps = Ghost(self.steps@ + 1);
        proof {
            assert(self.state@ =~= lfsr_step(old(self).state@));
        }
        b
    }
}

proof fn lemma_lfsr_len(seed: Seq<bool>, k: nat)
    requires
        seed.len() == LFSR_BITS,
    ensures
        lfsr_state(seed, k).len() == LFSR_BITS,
    decreases k,
{
    if k > 0 {
        lemma_lfsr_len(seed, (k - 1) as nat);
    }
}

/// The constants generated for these parameters: the accepted candidates among
/// the first `drawn` ones, where drawing stops once `count` are accepted or
/// `max_draws` are drawn.
pub open spec fn is_generation(seed: Seq<bool>, n: nat, count: nat, max_draws: nat, r: Seq<Fp>, drawn: nat) -> bool {
    &&& drawn <= max_draws
    &&& r == accepted(seed, n, drawn)
    &&& r.len() == count || drawn == max_draws
    &&& r.len() <= count
}

/// Generates `width * (full_rounds + partial_rounds)` round constants, drawing at
/// most `DRAW_FACTOR` candidates per constant. Returns them with the number of
/// candidates drawn.
pub fn generate_round_constants(
    modulus_bits: u64,
    width: usize,
    full_rounds: usize,
    partial_rounds: usize,
) -> (r: (Vec<Fp>, usize))
    requires
        1 <= modulus_bits <= 63,
        full_rounds + partial_rounds <= usize::MAX,
        width * (full_rounds + partial_rounds) * DRAW_FACTOR <= usize::MAX,
    ensures
        is_generation(
            lfsr_seed(modulus_bits as nat, width as nat, full_rounds as nat, partial_rounds as nat),
            modulus_bits as nat,
            (width * (full_rounds + partial_rounds)) as nat,
            (width * (full_rounds + partial_rounds) * DRAW_FACTOR) as nat,
            r.0@,
            r.1 as nat,
        ),
        forall|i: int| 0 <= i < r.0@.len() ==> (#[trigger] r.0@[i]).wf(),
{
    let count = width * (full_rounds + partial_rounds);
    let max_draws = count * DRAW_FACTOR;
    let mut lfsr = Lfsr::new(modulus_bits, width as u64, full_rounds as u64, partial_rounds as u64);
    let ghost seed = lfsr.seed@;
    let ghost n = modulus_bits as nat;
    let mut out: Vec<Fp> = Vec::new();
    let mut drawn: usize = 0;
    proof {
        reveal_with_fuel(pow2, 64);
        assert(pow2(63) == 0x8000_0000_0000_0000);
        lemma_pow2_mono(n, 63);
    }
    while out.len() < count && drawn < max_draws
        invariant
            1 <= n <= 63,
            n == modulus_bits,
            pow2(n) <= 0x8000_0000_0000_0000,
            count == width * (full_rounds + partial_rounds),
            max_draws == count * DRAW_FACTOR,
            drawn <= max_draws,
            lfsr.wf(),
            lfsr.seed@ == seed,
            lfsr.steps@ == WARMUP_STEPS + n * drawn,
            out@ == accepted(seed, n, drawn as nat),
            out@.len() <= count,
            forall|i: int| 0 <= i < out@.len() ==> (#[trigger] out@[i]).wf(),
        decreases max_draws - drawn,
    {
        let mut v: u64 = 0;
        let mut k: u64 = 0;
        while k < modulus_bits
            invariant
                1 <= n <= 63,
                n == modulus_bits,
                pow2(n) <= 0x8000_0000_0000_0000,
                k <= n,
                lfsr.wf(),
                lfsr.seed@ == seed,
                lfsr.steps@ == WARMUP_STEPS + n * drawn + k,
                v == read_bits(seed, (n * drawn) as nat, k as nat),
            decreases modulus_bits - k,
        {
            proof {
                lemma_read_bits_bound(seed, (n * drawn) as nat, k as nat);
                lemma_pow2_mono(k as nat, n);
            }
            let b = lfsr.next_bit();
            v = 2 * v + if b {
                1u64
            } else {
                0u64
            };
            k = k + 1;
        }
        proof {
            assert(n * (drawn + 1) == n * drawn + n) by (nonlinear_arith);
        }
        if v < MODULUS {
            out.push(Fp { val: v });
        }
        drawn = drawn + 1;
        proof {
            assert(candidate(seed, n, (drawn - 1) as nat) == v);
        }
    }
    (out, drawn)
}

/// The constants accepted among fewer candidates are a prefix of those accepted
/// among more.
pub proof fn lemma_accepted_prefix(seed: Seq<bool>, n: nat, c1: nat, c2: nat)
    requires
        c1 <= c2,
    ensures
        accepted(seed, n, c1).len() <= accepted(seed, n, c2).len(),
        accepted(seed, n, c2).subrange(0, accepted(seed, n, c1).len() as int) == accepted(seed, n, c1),
    decreases c2,
{
    if c1 < c2 {
        lemma_accepted_prefix(seed, n, c1, (c2 - 1) as nat);
        let a1 = accepted(seed, n, c1);
        let p = accepted(seed, n, (c2 - 1) as nat);
        assert(accepted(seed, n, c2).subrange(0, a1.len() as int) =~= p.subrange(0, a1.len() as int));
    } else {
        assert(accepted(seed, n, c2).subrange(0, accepted(seed, n, c1).len() as int) =~= accepted(seed, n, c1));
    }
}

/// Generation is deterministic: for given parameters, one sequence of constants
/// meets `is_generation`.
pub proof fn lemma_generation_unique(
    seed: Seq<bool>,
    n: nat,
    count: nat,
    max_draws: nat,
    r1: Seq<Fp>,
    d1: nat,
    r2: Seq<Fp>,
    d2: nat,
)
    requires
        is_generation(seed, n, count, max_draws, r1, d1),
        is_generation(seed, n, count, max_draws, r2, d2),
    ensures
        r1 == r2,
{
    if d1 <= d2 {
        lemma_accepted_prefix(seed, n, d1, d2);
        if r1.len() == count {
            assert(r2 =~= r2.subrange(0, r1.len() as int));
        }
    } else {
        lemma_accepted_prefix(seed, n, d2, d1);
        if r2.len() == count {
            assert(r1 =~= r1.subrange(0, r2.len() as int));
        }
    }
}

} // verus!
