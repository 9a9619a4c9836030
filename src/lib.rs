//! A small Diffie-Hellman secure-channel core: modular exponentiation, key
//! agreement, a linear-congruential keystream cipher and the per-direction
//! decisions of a duplex chat session, together with the parsing of offsets
//! and hexadecimal byte strings.

pub mod modarith;
pub mod key_exchange;
pub mod keystream;
pub mod text;
pub mod parse;
pub mod session;
