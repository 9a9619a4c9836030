//! A linear-congruential keystream and the XOR stream cipher built on it.

use vstd::prelude::*;

verus! {

use vstd::arithmetic::div_mod::{lemma_add_mod_noop, lemma_mod_mod, lemma_small_mod};
use vstd::wrapping::u64_specs;

/// Multiplier of the generator.
pub const LCG_A: u64 = 1103515245;

/// Increment of the generator.
pub const LCG_C: u64 = 12345;

/// Modulus of the generator: states live in 32 bits.
pub const LCG_M: u64 = 0x1_0000_0000;

/// One step of the generator.
pub open spec fn lcg_next(s: int) -> int {
    (LCG_A * s + LCG_C) % (LCG_M as int)
}

/// The state after `k` steps from `seed`.
pub open spec fn lcg_state(seed: int, k: nat) -> int
    decreases k,
{
    if k == 0 {
        seed
    } else {
        lcg_next(lcg_state(seed, (k - 1) as nat))
    }
}

/// The byte a state yields: bits 31..24.
pub open spec fn top_byte(s: int) -> u8 {
    (s / 0x100_0000) as u8
}

/// The `i`-th keystream byte (from 0) of a generator started at `seed`.
pub open spec fn keystream_byte(seed: int, i: nat) -> u8 {
    top_byte(lcg_state(seed, i + 1))
}

/// The first `n` keystream bytes of a generator started at `seed`.
pub open spec fn keystream(seed: int, n: nat) -> Seq<u8> {
    Seq::new(n, |i: int| keystream_byte(seed, i as nat))
}

/// `data` combined byte by byte with the keystream started at `seed`.
pub open spec fn xor_keystream(data: Seq<u8>, seed: int) -> Seq<u8> {
    Seq::new(data.len(), |i: int| data[i] ^ keystream_byte(seed, i as nat))
}

/// A keystream generator: one 64-bit register.
pub struct LcgCipher {
    state: u64,
}

impl View for LcgCipher {
    type V = int;

    closed spec fn view(&self) -> int {
        self.state as int
    }
}

proof fn lemma_wrapping_step(s: u64)
    ensures
        u64_specs::wrapping_add(u64_specs::wrapping_mul(LCG_A, s), LCG_C)
            % LCG_M == lcg_next(s as int),
{
    let x = LCG_A * s;
    let r64: int = 0x1_0000_0000_0000_0000;
    let w = u64_specs::wrapping_mul(LCG_A, s);
    assert(w as int == x % r64);
    lemma_add_mod_noop(x, LCG_C as int, r64);
    lemma_small_mod(LCG_C as nat, r64 as nat);
    let t = u64_specs::wrapping_add(w, LCG_C);
    assert(t as int == (w + LCG_C) % r64);
    lemma_mod_mod(x + LCG_C, LCG_M as int, LCG_M as int);
}

impl LcgCipher {
    /// A generator whose register holds `seed`.
    pub fn new(seed: u64) -> (r: Self)
        ensures
            r@ == seed as int,
    {
        LcgCipher { state: seed }
    }

    /// Advances the register one step and yields the top byte of the new
    /// 32-bit state.
    pub fn next_byte(&mut self) -> (r: u8)
        ensures
            final(self)@ == lcg_next(old(self)@),
            r == top_byte(final(self)@),
    {
        proof {
            lemma_wrapping_step(self.state);
        }
        self.state = (LCG_A.wrapping_mul(self.state).wrapping_add(LCG_C)) % LCG_M;
        let s = self.state;
        assert((s >> 24) as u8 == (s / 0x100_0000) as u8) by (bit_vector);
        (self.state >> 24) as u8
    }

    /// XORs `data` with the next `data.len()` keystream bytes, consuming
    /// exactly that many.
    pub fn process(&mut self, data: &[u8]) -> (r: Vec<u8>)
        ensures
            r@ == xor_keystream(data@, old(self)@),
            final(self)@ == lcg_state(old(self)@, data@.len()),
    {
        let ghost seed = self@;
        let mut out: Vec<u8> = Vec::new();
        let mut i: usize = 0;
        while i < data.len()
            invariant
                i <= data@.len(),
                out@.len() == i,
                self@ == lcg_state(seed, i as nat),
                forall|j: int| 0 <= j < i ==> out@[j] == data@[j] ^ keystream_byte(seed, j as nat),
            decreases data@.len() - i,
        {
            let k = self.next_byte();
            out.push(data[i] ^ k);
            i += 1;
        }
        assert(out@ =~= xor_keystream(data@, seed));
        out
    }

    /// The next `n` keystream bytes, without advancing this generator.
    pub fn preview(&self, n: usize) -> (r: Vec<u8>)
        ensures
            r@ == keystream(self@, n as nat),
    {
        let mut probe = LcgCipher { state: self.state };
        let mut out: Vec<u8> = Vec::new();
        let mut i: usize = 0;
        while i < n
            invariant
                i <= n,
                out@.len() == i,
                probe@ == lcg_state(self@, i as nat),
                forall|j: int| 0 <= j < i ==> out@[j] == keystream_byte(self@, j as nat),
            decreases n - i,
        {
            let k = probe.next_byte();
            out.push(k);
            i += 1;
        }
        assert(out@ =~= keystream(self@, n as nat));
        out
    }

    /// Encrypts `data`, after first checking from a saved copy of the
    /// register that decrypting the ciphertext restores `data`. The check
    /// does not disturb the stream: the register advances exactly as one
    /// `process` call would. The flag reports the check.
    pub fn encrypt_and_verify(&mut self, data: &[u8]) -> (r: (Vec<u8>, bool))
        ensures
            r.0@ == xor_keystream(data@, old(self)@),
            r.1,
            final(self)@ == lcg_state(old(self)@, data@.len()),
    {
        let saved = self.state;
        let trial = self.process(data);
        self.state = saved;
        let back = self.process(trial.as_slice());
        self.state = saved;
        proof {
            lemma_xor_round_trip(data@, self@);
        }
        let verified = bytes_equal(back.as_slice(), data);
        let cipher = self.process(data);
        (cipher, verified)
    }
}

/// Whether two byte slices hold the same bytes.
fn bytes_equal(a: &[u8], b: &[u8]) -> (r: bool)
    ensures
        r == (a@ == b@),
{
    if a.len() != b.len() {
        return false;
    }
    let mut i: usize = 0;
    while i < a.len()
        invariant
            a@.len() == b@.len(),
            i <= a@.len(),
            forall|j: int| 0 <= j < i ==> a@[j] == b@[j],
        decreases a@.len() - i,
    {
        if a[i] != b[i] {
            return false;
        }
        i += 1;
    }
    assert(a@ =~= b@);
    true
}

/// Running the generator `n` steps and then `k` more is running it `n + k`
/// steps.
pub proof fn lemma_lcg_state_adds(seed: int, n: nat, k: nat)
    ensures
        lcg_state(lcg_state(seed, n), k) == lcg_state(seed, n + k),
    decreases k,
{
    if k > 0 {
        lemma_lcg_state_adds(seed, n, (k - 1) as nat);
    }
}

/// The keystream depends on the seed and the number of bytes drawn alone:
/// drawing `n` bytes and then `k` more from where that left off yields the
/// first `n + k` bytes of the stream, however the draws are split into calls.
pub proof fn lemma_keystream_split(seed: int, n: nat, k: nat)
    ensures
        keystream(seed, n + k) == keystream(seed, n) + keystream(lcg_state(seed, n), k),
{
    assert forall|j: int| 0 <= j < k implies #[trigger] keystream_byte(lcg_state(seed, n), j as nat)
        == keystream_byte(seed, (n + j) as nat) by {
        lemma_lcg_state_adds(seed, n, (j + 1) as nat);
    }
    assert(keystream(seed, n + k) =~= keystream(seed, n) + keystream(lcg_state(seed, n), k));
}

/// Two generators holding the same register value produce the same bytes.
pub proof fn lemma_keystream_deterministic(a: LcgCipher, b: LcgCipher, n: nat)
    requires
        a@ == b@,
    ensures
        keystream(a@, n) == keystream(b@, n),
{
}

/// Encryption and decryption are one operation: processing twice from the
/// same seed gives `m` back.
pub proof fn lemma_xor_round_trip(m: Seq<u8>, seed: int)
    ensures
        xor_keystream(xor_keystream(m, seed), seed) == m,
{
    assert forall|i: int| 0 <= i < m.len() implies (m[i] ^ keystream_byte(seed, i as nat))
        ^ keystream_byte(seed, i as nat) == m[i] by {
        let x = m[i];
        let k = keystream_byte(seed, i as nat);
        assert((x ^ k) ^ k == x) by (bit_vector);
    }
    assert(xor_keystream(xor_keystream(m, seed), seed) =~= m);
}

} // verus!
