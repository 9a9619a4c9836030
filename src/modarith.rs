//! Modular exponentiation over 64-bit moduli.

use vstd::prelude::*;

verus! {

use vstd::arithmetic::power::{pow, lemma_pow0, lemma_pow_adds, lemma_pow_multiplies, lemma_pow_mod_noop, lemma_pow1, lemma0_pow, lemma1_pow};
use vstd::arithmetic::div_mod::lemma_mul_mod_noop;

/// `base^exp mod modulus`, except that an exponent of zero always yields 1.
pub open spec fn mod_pow_spec(base: int, exp: nat, modulus: int) -> int {
    if exp == 0 {
        1
    } else {
        pow(base, exp) % modulus
    }
}

/// Splits an exponent into its lowest bit and the square of the base.
proof fn lemma_pow_halves(b: int, e: nat)
    ensures
        pow(b, e) == pow(b, (e % 2) as nat) * pow(b * b, e / 2),
{
    let h = e / 2;
    lemma_pow_multiplies(b, 2, h);
    lemma_pow_adds(b, 2 * h, (e % 2) as nat);
    lemma_pow_adds(b, 1, 1);
    lemma_pow1(b);
    assert(pow(b, 2) == b * b);
}

/// Products of congruent factors are congruent.
proof fn lemma_mul_mod_congruent(a: int, a2: int, y: int, y2: int, m: int)
    requires
        m > 0,
        a % m == a2 % m,
        y % m == y2 % m,
    ensures
        (a * y) % m == (a2 * y2) % m,
{
    lemma_mul_mod_noop(a, y, m);
    lemma_mul_mod_noop(a2, y2, m);
}

/// Square-and-multiply exponentiation; every product is carried in 128 bits
/// before it is reduced, so any 64-bit modulus is handled.
pub fn mod_pow(base: u64, exp: u64, modulus: u64) -> (r: u64)
    requires
        modulus > 0,
    ensures
        r == mod_pow_spec(base as int, exp as nat, modulus as int),
{
    let m: u128 = modulus as u128;
    let mut result: u128 = 1;
    let mut b: u128 = base as u128;
    let mut e: u64 = exp;
    while e > 0
        invariant
            m == modulus,
            m > 0,
            result == 1 || result < m,
            b < 0x1_0000_0000_0000_0000,
            (result * pow(b as int, e as nat)) % (m as int) == pow(base as int, exp as nat) % (m as int),
            exp > 0 ==> (e > 0 || result < m),
            exp == 0 ==> result == 1,
            e <= exp,
        decreases e,
    {
        let ghost b0 = b as int;
        let ghost e0 = e as nat;
        let ghost r0 = result as int;
        if e % 2 == 1 {
            assert(result * b < 0x1_0000_0000_0000_0000_0000_0000_0000_0000) by (nonlinear_arith)
                requires
                    result < 0x1_0000_0000_0000_0000,
                    b < 0x1_0000_0000_0000_0000,
            ;
            result = (result * b) % m;
        }
        assert(b * b < 0x1_0000_0000_0000_0000_0000_0000_0000_0000) by (nonlinear_arith)
            requires
                b < 0x1_0000_0000_0000_0000,
        ;
        b = (b * b) % m;
        e = e / 2;
        proof {
            let m0 = m as int;
            let h = e as nat;
            let odd: nat = (e0 % 2) as nat;
            let x = r0 * pow(b0, odd);
            let y = pow(b0 * b0, h);
            lemma_pow_halves(b0, e0);
            lemma_pow_mod_noop(b0 * b0, h, m0);
            lemma_pow0(b0);
            lemma_pow1(b0);
            if odd == 1 {
                vstd::arithmetic::div_mod::lemma_mod_twice(x, m0);
            }
            lemma_mul_mod_congruent(result as int, x, pow(b as int, h), y, m0);
            assert(x * y == r0 * pow(b0, e0)) by (nonlinear_arith)
                requires
                    x == r0 * pow(b0, odd),
                    pow(b0, e0) == pow(b0, odd) * y,
            ;
        }
    }
    proof {
        lemma_pow0(b as int);
        if exp > 0 {
            vstd::arithmetic::div_mod::lemma_small_mod(result as nat, m as nat);
            assert(result * pow(b as int, 0) == result);
        }
    }
    result as u64
}

/// An exponent of zero yields 1 for every base, and a base of zero yields 0
/// for every positive exponent.
pub proof fn lemma_mod_pow_boundaries(x: int, y: nat, modulus: int)
    requires
        modulus > 0,
    ensures
        mod_pow_spec(x, 0, modulus) == 1,
        y > 0 ==> mod_pow_spec(0, y, modulus) == 0,
{
    if y > 0 {
        lemma0_pow(y);
    }
}

/// Raising `g^a mod m` to the power `b` gives `g^(a*b) mod m`.
pub proof fn lemma_mod_pow_of_mod_pow(g: int, a: nat, b: nat, modulus: int)
    requires
        modulus > 1,
    ensures
        mod_pow_spec(mod_pow_spec(g, a, modulus), b, modulus) == mod_pow_spec(g, a * b, modulus),
{
    if a == 0 {
        assert(a * b == 0);
        if b > 0 {
            lemma1_pow(b);
            vstd::arithmetic::div_mod::lemma_small_mod(1, modulus as nat);
        }
    } else if b == 0 {
        assert(a * b == 0);
    } else {
        lemma_pow_mod_noop(pow(g, a), b, modulus);
        lemma_pow_multiplies(g, a, b);
        assert(a * b > 0) by (nonlinear_arith)
            requires
                a > 0,
                b > 0,
        ;
    }
}

} // verus!
