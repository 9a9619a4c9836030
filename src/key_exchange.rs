//! Diffie-Hellman key agreement and the framing of public keys on the wire.

use vstd::prelude::*;

verus! {

use crate::modarith::{mod_pow, mod_pow_spec, lemma_mod_pow_of_mod_pow};

/// The public 64-bit prime modulus of the standard parameter set.
pub const MODULUS: u64 = 0xD87FA3E291B4C7F3;

/// The public generator of the standard parameter set.
pub const GENERATOR: u64 = 2;

/// The public group parameters both endpoints agree on.
pub struct ProtocolParameters {
    pub modulus: u64,
    pub generator: u64,
}

impl ProtocolParameters {
    /// A usable parameter set: reducing by the modulus is meaningful.
    pub open spec fn wf(&self) -> bool {
        self.modulus > 1
    }

    /// The fixed parameters both endpoints of a session use.
    pub fn standard() -> (r: Self)
        ensures
            r.modulus == MODULUS,
            r.generator == GENERATOR,
            r.wf(),
    {
        ProtocolParameters { modulus: MODULUS, generator: GENERATOR }
    }

    /// The public key that belongs to a private key: `g^private mod p`.
    pub open spec fn public_key_of(&self, private_key: u64) -> int {
        mod_pow_spec(self.generator as int, private_key as nat, self.modulus as int)
    }

    /// The secret derived from the peer's public key: `peer^private mod p`.
    pub open spec fn secret_of(&self, peer_public: u64, private_key: u64) -> int {
        mod_pow_spec(peer_public as int, private_key as nat, self.modulus as int)
    }
}

/// A local private key and the public key computed from it.
pub struct KeyPair {
    pub private_key: u64,
    pub public_key: u64,
}

/// Relies on rand::random: a uniformly drawn `u64` from the thread-local
/// generator. Nothing is known of the value.
#[verifier::external_body]
fn random_u64() -> (r: u64) {
    rand::random::<u64>()
}

/// The key pair that a given private key determines.
pub fn keypair_from_private(params: &ProtocolParameters, private_key: u64) -> (r: KeyPair)
    requires
        params.wf(),
    ensures
        r.private_key == private_key,
        r.public_key == params.public_key_of(private_key),
{
    let public_key = mod_pow(params.generator, private_key, params.modulus);
    KeyPair { private_key, public_key }
}

/// Draws a fresh private key at random and computes its public key.
pub fn generate_keypair(params: &ProtocolParameters) -> (r: KeyPair)
    requires
        params.wf(),
    ensures
        r.public_key == params.public_key_of(r.private_key),
{
    let private_key = random_u64();
    keypair_from_private(params, private_key)
}

/// The shared secret: the peer's public key raised to the local private key.
pub fn derive_secret(params: &ProtocolParameters, peer_public: u64, local_private: u64) -> (r: u64)
    requires
        params.wf(),
    ensures
        r == params.secret_of(peer_public, local_private),
{
    mod_pow(peer_public, local_private, params.modulus)
}

/// Both endpoints derive the same secret: `(g^a)^b mod p == (g^b)^a mod p`.
pub proof fn lemma_shared_secret_agreement(params: ProtocolParameters, a: u64, b: u64)
    requires
        params.wf(),
    ensures
        mod_pow_spec(params.public_key_of(a), b as nat, params.modulus as int)
            == mod_pow_spec(params.public_key_of(b), a as nat, params.modulus as int),
{
    let g = params.generator as int;
    let m = params.modulus as int;
    lemma_mod_pow_of_mod_pow(g, a as nat, b as nat, m);
    lemma_mod_pow_of_mod_pow(g, b as nat, a as nat, m);
    assert((a as nat) * (b as nat) == (b as nat) * (a as nat)) by (nonlinear_arith);
}

/// The eight bytes of `k`, most significant first.
pub open spec fn be_bytes(k: u64) -> Seq<u8> {
    seq![
        (k >> 56) as u8,
        (k >> 48) as u8,
        (k >> 40) as u8,
        (k >> 32) as u8,
        (k >> 24) as u8,
        (k >> 16) as u8,
        (k >> 8) as u8,
        k as u8,
    ]
}

/// The integer that eight bytes spell, most significant first.
pub open spec fn be_value(b: Seq<u8>) -> u64
    recommends
        b.len() == 8,
{
    (b[0] as u64) << 56 | (b[1] as u64) << 48 | (b[2] as u64) << 40 | (b[3] as u64) << 32
        | (b[4] as u64) << 24 | (b[5] as u64) << 16 | (b[6] as u64) << 8 | (b[7] as u64)
}

/// Frames a public key for the wire: eight bytes, big-endian.
pub fn encode_public_key(key: u64) -> (r: [u8; 8])
    ensures
        r@ == be_bytes(key),
{
    let r = [
        (key >> 56) as u8,
        (key >> 48) as u8,
        (key >> 40) as u8,
        (key >> 32) as u8,
        (key >> 24) as u8,
        (key >> 16) as u8,
        (key >> 8) as u8,
        key as u8,
    ];
    assert(r@ =~= be_bytes(key));
    r
}

/// Reads a public key from its eight big-endian bytes.
pub fn decode_public_key(bytes: &[u8; 8]) -> (r: u64)
    ensures
        r == be_value(bytes@),
{
    (bytes[0] as u64) << 56 | (bytes[1] as u64) << 48 | (bytes[2] as u64) << 40
        | (bytes[3] as u64) << 32 | (bytes[4] as u64) << 24 | (bytes[5] as u64) << 16
        | (bytes[6] as u64) << 8 | (bytes[7] as u64)
}

/// Decoding an encoded key gives the key back, and encoding the value of
/// eight bytes gives the bytes back.
pub proof fn lemma_key_framing_round_trip(k: u64, b: Seq<u8>)
    requires
        b.len() == 8,
    ensures
        be_value(be_bytes(k)) == k,
        be_bytes(be_value(b)) == b,
{
    let e = be_bytes(k);
    assert(((k >> 56) as u8 as u64) << 56 | ((k >> 48) as u8 as u64) << 48
        | ((k >> 40) as u8 as u64) << 40 | ((k >> 32) as u8 as u64) << 32
        | ((k >> 24) as u8 as u64) << 24 | ((k >> 16) as u8 as u64) << 16
        | ((k >> 8) as u8 as u64) << 8 | (k as u8 as u64) == k) by (bit_vector);
    let (b0, b1, b2, b3, b4, b5, b6, b7) = (b[0], b[1], b[2], b[3], b[4], b[5], b[6], b[7]);
    let v = be_value(b);
    assert(v == (b0 as u64) << 56 | (b1 as u64) << 48 | (b2 as u64) << 40 | (b3 as u64) << 32
        | (b4 as u64) << 24 | (b5 as u64) << 16 | (b6 as u64) << 8 | (b7 as u64));
    assert((v >> 56) as u8 == b0 && (v >> 48) as u8 == b1 && (v >> 40) as u8 == b2
        && (v >> 32) as u8 == b3 && (v >> 24) as u8 == b4 && (v >> 16) as u8 == b5
        && (v >> 8) as u8 == b6 && v as u8 == b7) by (bit_vector)
        requires
            v == (b0 as u64) << 56 | (b1 as u64) << 48 | (b2 as u64) << 40 | (b3 as u64) << 32
                | (b4 as u64) << 24 | (b5 as u64) << 16 | (b6 as u64) << 8 | (b7 as u64),
    ;
    assert(be_bytes(v) =~= b);
}

} // verus!
