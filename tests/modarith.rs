use dh_chat::key_exchange::MODULUS;
use dh_chat::modarith::mod_pow;

#[test]
fn mod_pow_small_values() {
    assert_eq!(mod_pow(2, 10, 1000), 24);
    assert_eq!(mod_pow(3, 200, 1_000_000_007), 136318165);
    assert_eq!(mod_pow(5, 1, 3), 2);
}

#[test]
fn mod_pow_zero_exponent_is_one() {
    assert_eq!(mod_pow(0, 0, MODULUS), 1);
    assert_eq!(mod_pow(12345, 0, MODULUS), 1);
    assert_eq!(mod_pow(u64::MAX, 0, MODULUS), 1);
    assert_eq!(mod_pow(7, 0, 1), 1);
}

#[test]
fn mod_pow_zero_base_is_zero() {
    assert_eq!(mod_pow(0, 1, MODULUS), 0);
    assert_eq!(mod_pow(0, 99, MODULUS), 0);
    assert_eq!(mod_pow(0, u64::MAX, MODULUS), 0);
}

#[test]
fn mod_pow_full_width_modulus() {
    // (p - 1)^2 = 1 (mod p): the square needs 128 bits before reduction.
    assert_eq!(mod_pow(MODULUS - 1, 2, MODULUS), 1);
    assert_eq!(mod_pow(u64::MAX, 1, MODULUS), u64::MAX % MODULUS);
    assert_eq!(mod_pow(2, 0x1234567890ABCDEF, MODULUS), 0xc7b7cd2a231bd641);
}
