//! The decisions of a duplex session. Each direction owns its own keystream:
//! the sending half encrypts local lines, the receiving half decrypts what
//! arrives. The connection and the terminal stay with the caller, which
//! performs the I/O and hands each event to the matching half.

use vstd::prelude::*;

verus! {

use vstd::string::*;
use vstd::utf8::{encode_utf8, valid_utf8, decode_utf8};
use crate::key_exchange::{ProtocolParameters, KeyPair, derive_secret, decode_public_key, be_value};
use crate::keystream::{LcgCipher, lcg_state, xor_keystream};
use crate::text::{trim, trim_chars};

/// The outbound half of a session: the encrypt-direction keystream.
pub struct Sender {
    cipher: LcgCipher,
}

/// The inbound half of a session: the decrypt-direction keystream.
pub struct Receiver {
    cipher: LcgCipher,
}

impl View for Sender {
    type V = int;

    closed spec fn view(&self) -> int {
        self.cipher@
    }
}

impl View for Receiver {
    type V = int;

    closed spec fn view(&self) -> int {
        self.cipher@
    }
}

/// A session whose handshake has completed: the peer's key, the derived
/// secret, and the two halves, both seeded with the secret.
pub struct Established {
    pub peer_public: u64,
    pub secret: u64,
    pub sender: Sender,
    pub receiver: Receiver,
}

/// One line ready to go out: the trimmed plaintext bytes, their ciphertext,
/// and whether the ciphertext was checked to decrypt back to them.
pub struct Outgoing {
    pub plain: Vec<u8>,
    pub cipher: Vec<u8>,
    pub verified: bool,
}

/// What the receiving half makes of one read from the connection.
pub enum Inbound {
    /// The read returned no bytes: the peer closed the connection.
    Closed,
    /// The decrypted bytes of the chunk that arrived.
    Message(Vec<u8>),
}

/// Completes the handshake from the local key pair and the eight bytes the
/// peer sent: reads the peer's public key, derives the secret and seeds both
/// halves with it.
pub fn establish(params: &ProtocolParameters, keys: &KeyPair, peer_frame: &[u8; 8]) -> (r:
    Established)
    requires
        params.wf(),
    ensures
        r.peer_public == be_value(peer_frame@),
        r.secret == params.secret_of(r.peer_public, keys.private_key),
        r.sender@ == r.secret as int,
        r.receiver@ == r.secret as int,
{
    let peer_public = decode_public_key(peer_frame);
    let secret = derive_secret(params, peer_public, keys.private_key);
    Established {
        peer_public,
        secret,
        sender: Sender { cipher: LcgCipher::new(secret) },
        receiver: Receiver { cipher: LcgCipher::new(secret) },
    }
}

impl Sender {
    /// A sending half whose keystream starts at `seed`.
    pub fn new(seed: u64) -> (r: Self)
        ensures
            r@ == seed as int,
    {
        Sender { cipher: LcgCipher::new(seed) }
    }

    /// Handles one line of local input. A line that is empty once trimmed
    /// sends nothing and leaves the keystream where it was; any other line
    /// is encrypted, its bytes consuming as many keystream bytes.
    pub fn send_line(&mut self, line: &str) -> (r: Option<Outgoing>)
        ensures
            ({
                let t = encode_utf8(trim_chars(line@));
                if t.len() == 0 {
                    r is None && final(self)@ == old(self)@
                } else {
                    r matches Some(out) && out.plain@ == t && out.cipher@ == xor_keystream(
                        t,
                        old(self)@,
                    ) && out.verified && final(self)@ == lcg_state(old(self)@, t.len())
                }
            }),
    {
        let trimmed = trim(line);
        let bytes = trimmed.as_bytes();
        if bytes.len() == 0 {
            return None;
        }
        let (cipher, verified) = self.cipher.encrypt_and_verify(bytes);
        let plain = vstd::slice::slice_to_vec(bytes);
        Some(Outgoing { plain, cipher, verified })
    }
}

impl Receiver {
    /// A receiving half whose keystream starts at `seed`.
    pub fn new(seed: u64) -> (r: Self)
        ensures
            r@ == seed as int,
    {
        Receiver { cipher: LcgCipher::new(seed) }
    }

    /// Handles the bytes of one read. No bytes means the peer closed the
    /// connection, and the keystream is left alone; otherwise the chunk is
    /// decrypted, consuming one keystream byte per byte.
    pub fn on_read(&mut self, chunk: &[u8]) -> (r: Inbound)
        ensures
            chunk@.len() == 0 ==> r is Closed && final(self)@ == old(self)@,
            chunk@.len() > 0 ==> (r matches Inbound::Message(m) && m@ == xor_keystream(
                chunk@,
                old(self)@,
            )),
            chunk@.len() > 0 ==> final(self)@ == lcg_state(old(self)@, chunk@.len()),
    {
        if chunk.len() == 0 {
            return Inbound::Closed;
        }
        Inbound::Message(self.cipher.process(chunk))
    }
}

/// Relies on std::str::from_utf8: succeeds exactly on valid UTF-8, and then
/// the text is the decoded characters.
#[verifier::external_body]
fn utf8_text(b: &[u8]) -> (r: Option<&str>)
    ensures
        r is Some <==> valid_utf8(b@),
        r matches Some(s) ==> s@ == decode_utf8(b@),
{
    std::str::from_utf8(b).ok()
}

/// The text to show for decrypted bytes: the trimmed text when they are
/// valid UTF-8, nothing otherwise.
pub fn message_text(plain: &[u8]) -> (r: Option<String>)
    ensures
        r is Some <==> valid_utf8(plain@),
        r matches Some(t) ==> t@ == trim_chars(decode_utf8(plain@)),
{
    match utf8_text(plain) {
        Some(s) => Some(String::from_str(trim(s))),
        None => None,
    }
}

} // verus!
