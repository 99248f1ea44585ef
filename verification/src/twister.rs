//! The twister engine: a 624-word state vector seeded from a single integer,
//! advanced in place by a `twist` pass, and read out one tempered 32-bit word
//! per draw.

use vstd::prelude::*;

verus! {

use vstd::arithmetic::power2::{pow2, lemma2_to64};
use vstd::bits::{
    lemma_u64_low_bits_mask_is_mod, lemma_u64_pow2_no_overflow, lemma_u64_shl_is_mul,
    low_bits_mask,
};

/// Word size of the generator, in bits.
pub const W: u64 = 32;

/// Number of words in the state vector.
pub const N: usize = 624;

/// Offset of the "middle word" combined into each twisted word.
pub const M: usize = 397;

/// Separation point of each word: the low `R` bits are taken from the
/// successor word during a twist.
pub const R: u32 = 31;

/// Coefficient of the rational normal form twist matrix.
pub const A: u32 = 0x990F_B0DF;

/// Tempering shift for the first (right) shift.
pub const U: u32 = 11;

/// Tempering mask applied with the first shift.
pub const D: u32 = 0xFFFF_FFFF;

/// Tempering shift for the second (left) shift.
pub const S: u32 = 7;

/// Tempering mask applied with the second shift.
pub const B: u32 = 0x9D2C_5680;

/// Tempering shift for the third (left) shift.
pub const T: u32 = 15;

/// Tempering mask applied with the third shift.
pub const C: u32 = 0xEFC6_0000;

/// Multiplier of the seed-spreading recurrence.
pub const F: u32 = 1_812_433_253;

/// Value of the mask selecting the low `R` bits of a word.
pub const LOWER_MASK_VALUE: u32 = 0x7FFF_FFFF;

/// Value of the mask selecting the remaining high bits of a word.
pub const UPPER_MASK_VALUE: u32 = 0x8000_0000;

/// Word `i` of a freshly seeded state vector: word 0 is the seed itself and
/// every later word is the low 32 bits of
/// `F * (previous ^ (previous >> 30)) + i`.
pub open spec fn seed_word(seed: u32, i: nat) -> u32
    decreases i,
{
    if i == 0 {
        seed
    } else {
        let prev = seed_word(seed, (i - 1) as nat);
        ((F * ((prev ^ (prev >> 30u32)) as int) + i) % 0x1_0000_0000) as u32
    }
}

/// The full freshly seeded state vector for `seed`.
pub open spec fn fresh_state(seed: u32) -> Seq<u32> {
    Seq::new(N as nat, |i: int| seed_word(seed, i as nat))
}

/// The replacement for word `i` during a twist pass, read from the partially
/// rewritten state `s`: the high bit of word `i` joined with the low 31 bits
/// of its successor, shifted down once, conditionally folded with `A` when
/// odd, and combined with the middle word.
pub open spec fn twist_word(s: Seq<u32>, i: int) -> u32 {
    let x = (s[i] & UPPER_MASK_VALUE) | (s[(i + 1) % (N as int)] & LOWER_MASK_VALUE);
    let xa = if x & 1u32 == 1u32 {
        (x >> 1u32) ^ A
    } else {
        x >> 1u32
    };
    s[(i + M as int) % (N as int)] ^ xa
}

/// The state vector after the first `k` positions of a twist pass have been
/// rewritten in place, each new word reading the words already rewritten
/// before it.
pub open spec fn twist_prefix(s: Seq<u32>, k: nat) -> Seq<u32>
    decreases k,
{
    if k == 0 {
        s
    } else {
        let p = twist_prefix(s, (k - 1) as nat);
        p.update(k - 1, twist_word(p, k - 1))
    }
}

/// The state vector after one complete twist pass.
pub open spec fn twist_state(s: Seq<u32>) -> Seq<u32> {
    twist_prefix(s, N as nat)
}

/// The tempering transform applied to a raw state word before it is returned.
pub open spec fn temper(y: u32) -> u32 {
    let y1 = y ^ ((y >> U) & D);
    let y2 = y1 ^ ((y1 << S) & B);
    let y3 = y2 ^ ((y2 << T) & C);
    y3 ^ (y3 >> 18u32)
}

/// The state vector after one draw taken at draw index `i` from state `s`:
/// a draw at the sentinel index first twists, otherwise it leaves the words
/// untouched.
pub open spec fn step_state(s: Seq<u32>, i: int) -> Seq<u32> {
    if i == N as int {
        twist_state(s)
    } else {
        s
    }
}

/// The draw index after one draw taken at draw index `i`.
pub open spec fn step_index(i: int) -> int {
    if i == N as int {
        1
    } else {
        i + 1
    }
}

/// The value produced by one draw taken at draw index `i` from state `s`.
pub open spec fn step_output(s: Seq<u32>, i: int) -> u32 {
    if i == N as int {
        temper(twist_state(s)[0])
    } else {
        temper(s[i])
    }
}

/// The draw index after `k` draws from a freshly seeded engine; it does not
/// depend on the seed.
pub open spec fn index_after(k: nat) -> int
    decreases k,
{
    if k == 0 {
        N as int
    } else {
        step_index(index_after((k - 1) as nat))
    }
}

/// The state vector after `k` draws from an engine freshly seeded with
/// `seed`.
pub open spec fn state_after(seed: u32, k: nat) -> Seq<u32>
    decreases k,
{
    if k == 0 {
        fresh_state(seed)
    } else {
        step_state(state_after(seed, (k - 1) as nat), index_after((k - 1) as nat))
    }
}

/// The `k`-th value (counting from 0) drawn from an engine freshly seeded
/// with `seed`: a pure function of the seed alone.
pub open spec fn nth_draw(seed: u32, k: nat) -> u32 {
    step_output(state_after(seed, k), index_after(k))
}

/// The generator: a state vector of exactly `N` words, the index of the next
/// word to draw, and the two masks fixed at construction.
pub struct Twister {
    /// The `N`-word state vector.
    pub mt: Vec<u32>,
    /// How many words of the current state have been consumed; `N` is the
    /// sentinel meaning the state is exhausted and the next draw must twist.
    pub index: usize,
    /// Mask selecting the low `R` bits of a word, fixed at construction.
    pub lower_mask: u32,
    /// Mask selecting the high `W - R` bits of a word, fixed at construction.
    pub upper_mask: u32,
}

impl Twister {
    /// Structural invariant: the state vector always holds exactly `N` words,
    /// the draw index never passes the sentinel `N`, and the masks hold the
    /// values derived from the separation point `R`.
    pub open spec fn wf(self) -> bool {
        &&& self.mt@.len() == N
        &&& self.index <= N
        &&& self.lower_mask == LOWER_MASK_VALUE
        &&& self.upper_mask == UPPER_MASK_VALUE
    }

    /// Builds an engine from a seed: word 0 is the seed, each later word
    /// follows the spreading recurrence in order, and the draw index starts
    /// at the sentinel so that the first draw twists.
    pub fn new(seed: u32) -> (t: Twister)
        ensures
            t.wf(),
            t.mt@ == fresh_state(seed),
            t.index == N,
    {
        proof {
            assert(1u32 << 31u32 == 0x8000_0000u32) by (bit_vector);
            assert(!0x7FFF_FFFFu32 == 0x8000_0000u32) by (bit_vector);
        }
        let lower_mask: u32 = (1u32 << R) - 1;
        let upper_mask: u32 = !lower_mask;
        let mut mt: Vec<u32> = vec![0u32; N];
        mt[0] = seed;
        let mut i: usize = 1;
        while i < N
            invariant
                mt@.len() == N,
                1 <= i <= N,
                forall|j: int| 0 <= j < i ==> mt@[j] == seed_word(seed, j as nat),
            decreases N - i,
        {
            let prev: u32 = mt[i - 1];
            let mixed: u32 = prev ^ (prev >> 30u32);
            proof {
                assert((F as u64) * (mixed as u64) <= (F as u64) * 0xFFFF_FFFFu64)
                    by (nonlinear_arith)
                    requires
                        mixed as u64 <= 0xFFFF_FFFFu64,
                ;
            }
            let wide: u64 = (F as u64) * (mixed as u64) + (i as u64);
            proof {
                assert(wide & 0xFFFF_FFFFu64 == wide % 0x1_0000_0000u64) by (bit_vector);
            }
            let word: u32 = (wide & 0xFFFF_FFFF) as u32;
            proof {
                assert(word == seed_word(seed, i as nat));
            }
            mt[i] = word;
            i += 1;
        }
        proof {
            assert(mt@ =~= fresh_state(seed));
        }
        Twister { mt, index: N, lower_mask, upper_mask }
    }

    /// One full state transition: every word of the state vector is rewritten
    /// in place, in order, and the draw index is reset to the start of the
    /// freshly twisted vector.
    pub fn twist(&mut self)
        requires
            old(self).wf(),
        ensures
            final(self).wf(),
            final(self).mt@ == twist_state(old(self).mt@),
            final(self).index == 0,
    {
        let ghost s0: Seq<u32> = self.mt@;
        let mut i: usize = 0;
        while i < N
            invariant
                self.mt@.len() == N,
                i <= N,
                self.lower_mask == LOWER_MASK_VALUE,
                self.upper_mask == UPPER_MASK_VALUE,
                self.mt@ == twist_prefix(s0, i as nat),
            decreases N - i,
        {
            let x: u32 = (self.mt[i] & self.upper_mask) | (self.mt[(i + 1) % N] & self.lower_mask);
            let mut xa: u32 = x >> 1u32;
            if x & 1 == 1 {
                xa = xa ^ A;
            }
            let word: u32 = self.mt[(i + M) % N] ^ xa;
            proof {
                assert(word == twist_word(self.mt@, i as int));
            }
            self.mt[i] = word;
            proof {
                assert(self.mt@ == twist_prefix(s0, (i + 1) as nat));
            }
            i += 1;
        }
        self.index = 0;
    }

    /// One draw: twists first when the state is exhausted, then returns the
    /// low `W` bits of the tempered word at the current draw index and
    /// advances the index.
    pub fn extract_number(&mut self) -> (r: u32)
        requires
            old(self).wf(),
        ensures
            final(self).wf(),
            final(self).mt@ == step_state(old(self).mt@, old(self).index as int),
            final(self).index as int == step_index(old(self).index as int),
            r == step_output(old(self).mt@, old(self).index as int),
            r <= 0xFFFF_FFFFu32,
    {
        if self.index == N {
            self.twist();
        }
        let mut y: u32 = self.mt[self.index];
        y = y ^ ((y >> U) & D);
        y = y ^ ((y << S) & B);
        y = y ^ ((y << T) & C);
        y = y ^ (y >> 18u32);
        self.index = self.index + 1;
        proof {
            lemma2_to64();
        }
        lowest(W, y as u64) as u32
    }
}

/// The lowest `shift` bits of `x`, as a value: `x` reduced modulo
/// two to the `shift`.
pub fn lowest(shift: u64, x: u64) -> (r: u64)
    requires
        shift < 64,
    ensures
        r as nat == (x as nat) % pow2(shift as nat),
{
    proof {
        lemma_u64_pow2_no_overflow(shift as nat);
        lemma_u64_shl_is_mul(1u64, shift);
        lemma_u64_low_bits_mask_is_mod(x, shift as nat);
        assert((1u64 << shift) - 1 == low_bits_mask(shift as nat) as u64);
        assert(x & (low_bits_mask(shift as nat) as u64) == x % (pow2(shift as nat) as u64));
        assert((x % (pow2(shift as nat) as u64)) as nat == (x as nat) % pow2(shift as nat));
    }
    x & ((1u64 << shift) - 1)
}

/// Seeds a fresh engine and draws `count` values: the result is exactly the
/// first `count` entries of the seed's draw stream, so any two calls with
/// equal seeds return equal sequences.
pub fn draw_sequence(seed: u32, count: usize) -> (r: Vec<u32>)
    ensures
        r@.len() == count,
        forall|j: int| 0 <= j < count ==> r@[j] == nth_draw(seed, j as nat),
{
    let mut t = Twister::new(seed);
    let mut out: Vec<u32> = Vec::new();
    let mut k: usize = 0;
    while k < count
        invariant
            t.wf(),
            t.mt@ == state_after(seed, k as nat),
            t.index as int == index_after(k as nat),
            out@.len() == k,
            k <= count,
            forall|j: int| 0 <= j < k ==> out@[j] == nth_draw(seed, j as nat),
        decreases count - k,
    {
        let v: u32 = t.extract_number();
        proof {
            assert(state_after(seed, (k + 1) as nat) == step_state(
                state_after(seed, k as nat),
                index_after(k as nat),
            ));
            assert(index_after((k + 1) as nat) == step_index(index_after(k as nat)));
            assert(v == nth_draw(seed, k as nat));
        }
        out.push(v);
        k += 1;
    }
    out
}

/// The number of twists performed during the first `k` draws of a run: a
/// draw twists exactly when it is taken at the sentinel index.
pub open spec fn twist_count(k: nat) -> nat
    decreases k,
{
    if k == 0 {
        0
    } else {
        twist_count((k - 1) as nat) + if index_after((k - 1) as nat) == N as int {
            1nat
        } else {
            0nat
        }
    }
}

/// The draw index cycles with period `N`: it sits at the sentinel exactly
/// before draw positions that are multiples of `N` — so the engine twists
/// exactly before producing word 0 of each new `N`-word generation —
/// and otherwise equals the draw position taken modulo `N`.
pub proof fn lemma_index_cycle(k: nat)
    ensures
        0 < index_after(k) <= N as int,
        index_after(k) == N as int <==> k % (N as nat) == 0,
        k % (N as nat) != 0 ==> index_after(k) == (k % (N as nat)) as int,
    decreases k,
{
    if k == 0 {
        assert(index_after(0) == N as int);
    } else {
        lemma_index_cycle((k - 1) as nat);
        let r = ((k - 1) as nat) % (N as nat);
        vstd::arithmetic::div_mod::lemma_add_mod_noop((k - 1) as int, 1, N as int);
        if r + 1 < N as nat {
            vstd::arithmetic::div_mod::lemma_small_mod(r + 1, N as nat);
        } else {
            vstd::arithmetic::div_mod::lemma_mod_self_0(N as int);
        }
    }
}

/// Within one `N`-draw generation that starts at a twist, exactly one twist
/// happens, at its first draw.
proof fn lemma_twist_count_block(base: nat, j: nat)
    requires
        base % (N as nat) == 0,
        j <= N as nat,
    ensures
        twist_count(base + j) == twist_count(base) + if j >= 1 {
            1nat
        } else {
            0nat
        },
    decreases j,
{
    if j >= 1 {
        lemma_twist_count_block(base, (j - 1) as nat);
        lemma_index_cycle((base + j - 1) as nat);
        vstd::arithmetic::div_mod::lemma_add_mod_noop(base as int, (j - 1) as int, N as int);
        vstd::arithmetic::div_mod::lemma_small_mod((j - 1) as nat, N as nat);
    }
}

/// Twist cadence: across the first `N * g` draws of any run, exactly `g`
/// twists occur.
pub proof fn lemma_twist_cadence(g: nat)
    ensures
        twist_count((N as nat) * g) == g,
    decreases g,
{
    if g > 0 {
        lemma_twist_cadence((g - 1) as nat);
        vstd::arithmetic::div_mod::lemma_mod_multiples_basic((g - 1) as int, N as int);
        assert((N as nat) * g == (N as nat) * ((g - 1) as nat) + (N as nat));
        lemma_twist_count_block((N as nat) * ((g - 1) as nat), N as nat);
    }
}

/// Determinism: the whole draw stream is a pure function of the seed, so two
/// independently constructed engines seeded with the same value produce the
/// same value at every draw position.  (That each engine really follows
/// `nth_draw` is what the contracts of `new`, `extract_number` and
/// `draw_sequence` state.)
pub proof fn lemma_determinism(seed_a: u32, seed_b: u32, k: nat)
    requires
        seed_a == seed_b,
    ensures
        nth_draw(seed_a, k) == nth_draw(seed_b, k),
{
}

/// Seeding is a pure function of the seed value: any two engines whose state
/// is freshly seeded from the same value are field-for-field equal, so
/// re-seeding and redrawing reproduces the original sequence exactly.
pub proof fn lemma_reseed_identical(t1: Twister, t2: Twister, seed: u32)
    requires
        t1.wf(),
        t2.wf(),
        t1.mt@ == fresh_state(seed),
        t2.mt@ == fresh_state(seed),
        t1.index == N,
        t2.index == N,
    ensures
        t1.mt@ == t2.mt@,
        t1.index == t2.index,
        t1.lower_mask == t2.lower_mask,
        t1.upper_mask == t2.upper_mask,
{
}

} // verus!
