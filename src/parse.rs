//! Parsing of offsets and hexadecimal byte strings.

use vstd::prelude::*;

verus! {

use vstd::string::*;
use vstd::utf8::encode_utf8;
use crate::text::{trim, trim_chars};

/// The value of an ASCII digit in bases up to 36 (letters in either case),
/// or 36 for any other byte.
pub open spec fn digit_of(c: u8) -> nat {
    if 0x30 <= c <= 0x39 {
        (c - 0x30) as nat
    } else if 0x61 <= c <= 0x7a {
        (c - 0x61 + 10) as nat
    } else if 0x41 <= c <= 0x5a {
        (c - 0x41 + 10) as nat
    } else {
        36
    }
}

/// Every byte of `s` is a digit of the given base.
pub open spec fn all_digits(s: Seq<u8>, radix: nat) -> bool {
    forall|i: int| 0 <= i < s.len() ==> digit_of(#[trigger] s[i]) < radix
}

/// The number that the digits of `s` spell in the given base, most
/// significant first.
pub open spec fn digits_value(s: Seq<u8>, radix: nat) -> nat
    decreases s.len(),
{
    if s.len() == 0 {
        0
    } else {
        digits_value(s.drop_last(), radix) * radix + digit_of(s.last())
    }
}

/// What a base-`radix` parse of an unsigned 64-bit integer gives: an
/// optional leading `+`, then at least one digit, and a value that fits.
pub open spec fn parse_unsigned(s: Seq<u8>, radix: nat) -> Option<u64> {
    let digits = if s.len() > 0 && s[0] == 0x2b {
        s.drop_first()
    } else {
        s
    };
    if digits.len() == 0 || !all_digits(digits, radix) || digits_value(digits, radix)
        > u64::MAX {
        None
    } else {
        Some(digits_value(digits, radix) as u64)
    }
}

/// `s` begins with `0x`.
pub open spec fn has_hex_prefix(s: Seq<u8>) -> bool {
    s.len() >= 2 && s[0] == 0x30 && s[1] == 0x78
}

/// The offset that trimmed text spells: hexadecimal after a `0x` prefix,
/// decimal otherwise.
pub open spec fn offset_value(s: Seq<u8>) -> Option<u64> {
    if has_hex_prefix(s) {
        parse_unsigned(s.subrange(2, s.len() as int), 16)
    } else {
        parse_unsigned(s, 10)
    }
}

proof fn lemma_digits_value_prefix(s: Seq<u8>, k: int, radix: nat)
    requires
        0 <= k <= s.len(),
        radix >= 1,
    ensures
        digits_value(s.subrange(0, k), radix) <= digits_value(s, radix),
    decreases s.len(),
{
    if k < s.len() {
        lemma_digits_value_prefix(s.drop_last(), k, radix);
        assert(s.drop_last().subrange(0, k) =~= s.subrange(0, k));
        let d = digits_value(s.drop_last(), radix);
        assert(d <= d * radix) by (nonlinear_arith)
            requires
                radix >= 1,
        ;
    } else {
        assert(s.subrange(0, k) =~= s);
    }
}

/// The value of a single byte as a digit of the given base.
fn digit(c: u8, radix: u64) -> (r: Option<u64>)
    requires
        radix <= 36,
    ensures
        r == (if digit_of(c) < radix {
            Some(digit_of(c) as u64)
        } else {
            None
        }),
{
    let d: u64 = if 0x30 <= c && c <= 0x39 {
        (c - 0x30) as u64
    } else if 0x61 <= c && c <= 0x7a {
        (c - 0x61 + 10) as u64
    } else if 0x41 <= c && c <= 0x5a {
        (c - 0x41 + 10) as u64
    } else {
        36
    };
    if d < radix {
        Some(d)
    } else {
        None
    }
}

/// Parses `b[start..end]` as an unsigned integer in the given base.
fn parse_unsigned_range(b: &[u8], start: usize, end: usize, radix: u64) -> (r: Option<u64>)
    requires
        start <= end <= b@.len(),
        2 <= radix <= 36,
    ensures
        r == parse_unsigned(b@.subrange(start as int, end as int), radix as nat),
{
    let ghost s = b@.subrange(start as int, end as int);
    if start == end {
        return None;
    }
    let mut i: usize = start;
    if b[i] == 0x2b {
        i += 1;
        if i == end {
            return None;
        }
    }
    let first: usize = i;
    let ghost digits = b@.subrange(first as int, end as int);
    assert(digits =~= (if s.len() > 0 && s[0] == 0x2b { s.drop_first() } else { s }));
    let mut acc: u64 = 0;
    while i < end
        invariant
            start <= first <= i <= end <= b@.len(),
            first < end,
            2 <= radix <= 36,
            digits == b@.subrange(first as int, end as int),
            s == b@.subrange(start as int, end as int),
            parse_unsigned(s, radix as nat) == (if digits.len() == 0 || !all_digits(digits, radix as nat)
                || digits_value(digits, radix as nat) > u64::MAX {
                None
            } else {
                Some(digits_value(digits, radix as nat) as u64)
            }),
            all_digits(b@.subrange(first as int, i as int), radix as nat),
            acc == digits_value(b@.subrange(first as int, i as int), radix as nat),
        decreases end - i,
    {
        let ghost pre = b@.subrange(first as int, i as int);
        let ghost next = b@.subrange(first as int, i + 1);
        assert(next.drop_last() =~= pre);
        let d = match digit(b[i], radix) {
            Some(d) => d,
            None => {
                assert(digits[i - first] == b@[i as int]);
                assert(!all_digits(digits, radix as nat));
                return None;
            },
        };
        let scaled = acc.checked_mul(radix);
        let sum = match scaled {
            Some(m) => m.checked_add(d),
            None => None,
        };
        match sum {
            Some(v) => {
                acc = v;
            },
            None => {
                proof {
                    if all_digits(digits, radix as nat) {
                        lemma_digits_value_prefix(digits, i + 1 - first, radix as nat);
                        assert(digits.subrange(0, i + 1 - first) =~= next);
                        assert(next.last() == b@[i as int]);
                        assert(digits_value(next, radix as nat) == acc * radix + d);
                        assert(acc * radix + d > u64::MAX);
                    }
                }
                return None;
            },
        }
        i += 1;
        assert(all_digits(next, radix as nat)) by {
            assert forall|j: int| 0 <= j < next.len() implies digit_of(#[trigger] next[j]) < radix by {
                if j < pre.len() {
                    assert(next[j] == pre[j]);
                }
            }
        }
    }
    assert(b@.subrange(first as int, i as int) =~= digits);
    Some(acc)
}

/// Parses an offset: surrounding whitespace is ignored, a `0x` prefix
/// selects hexadecimal, and decimal is read otherwise. The error names the
/// base that failed.
pub fn parse_offset(input: &str) -> (r: Result<u64, String>)
    ensures
        ({
            let t = encode_utf8(trim_chars(input@));
            match offset_value(t) {
                Some(v) => r == Ok::<u64, String>(v),
                None => r matches Err(e) && e@ == (if has_hex_prefix(t) {
                    "Hex invalide"@
                } else {
                    "Nombre invalide"@
                }),
            }
        }),
{
    let t = trim(input);
    let b = t.as_bytes();
    let n = b.len();
    if n >= 2 && b[0] == 0x30 && b[1] == 0x78 {
        match parse_unsigned_range(b, 2, n, 16) {
            Some(v) => Ok(v),
            None => Err(String::from_str("Hex invalide")),
        }
    } else {
        proof {
            assert(b@.subrange(0, n as int) =~= b@);
        }
        match parse_unsigned_range(b, 0, n, 10) {
            Some(v) => Ok(v),
            None => Err(String::from_str("Nombre invalide")),
        }
    }
}

/// Why a hexadecimal byte string could not be decoded.
#[derive(Debug, Clone, Copy, PartialEq, Eq, Structural)]
pub enum HexError {
    /// The text has an odd number of bytes.
    OddLength,
    /// The two bytes at `index` are not a hexadecimal byte.
    InvalidChar { index: usize },
}

/// The byte that the two bytes of `b` at `i` spell in hexadecimal, if any.
pub open spec fn pair_value(b: Seq<u8>, i: int) -> Option<u64> {
    parse_unsigned(b.subrange(i, i + 2), 16)
}

proof fn lemma_pair_fits(s: Seq<u8>)
    requires
        s.len() == 2,
        parse_unsigned(s, 16) is Some,
    ensures
        parse_unsigned(s, 16)->Some_0 < 256,
{
    let digits = if s[0] == 0x2b {
        s.drop_first()
    } else {
        s
    };
    assert(digit_of(digits[0]) < 16);
    reveal_with_fuel(digits_value, 3);
    if digits.len() == 2 {
        assert(digit_of(digits[1]) < 16);
        assert(digits.drop_last().drop_last().len() == 0);
        assert(digits.drop_last().last() == digits[0]);
        assert(digits_value(digits.drop_last(), 16) == digit_of(digits[0]));
        assert(digits_value(digits, 16) == digit_of(digits[0]) * 16 + digit_of(digits[1]));
    } else {
        assert(digits.drop_last().len() == 0);
        assert(digits_value(digits, 16) == digit_of(digits[0]));
    }
}

/// Decodes a string of hexadecimal byte pairs. Each pair is read as a
/// base-16 integer that fits a byte; the first pair that is not one is
/// reported by its byte index.
pub fn decode_hex(s: &str) -> (r: Result<Vec<u8>, HexError>)
    ensures
        ({
            let b = s.spec_bytes();
            &&& (b.len() % 2 == 1 <==> r == Err::<Vec<u8>, HexError>(HexError::OddLength))
            &&& (b.len() % 2 == 0 ==> (r is Ok <==> forall|k: int|
                0 <= k < b.len() / 2 ==> (#[trigger] pair_value(b, 2 * k)) is Some))
            &&& (r matches Ok(v) ==> v@.len() * 2 == b.len() && forall|k: int|
                0 <= k < v@.len() ==> pair_value(b, 2 * k) == Some(v@[k] as u64))
            &&& (r matches Err(HexError::InvalidChar { index }) ==> {
                &&& index % 2 == 0
                &&& index + 2 <= b.len()
                &&& pair_value(b, index as int) is None
                &&& forall|k: int| 0 <= k < index / 2 ==> (#[trigger] pair_value(b, 2 * k)) is Some
            })
        }),
{
    let b = s.as_bytes();
    let n = b.len();
    if n % 2 != 0 {
        return Err(HexError::OddLength);
    }
    let mut out: Vec<u8> = Vec::new();
    let mut i: usize = 0;
    while i < n
        invariant
            b@ == s.spec_bytes(),
            n == b@.len(),
            n % 2 == 0,
            i % 2 == 0,
            i <= n,
            out@.len() * 2 == i,
            forall|k: int|
                0 <= k < out@.len() ==> #[trigger] pair_value(b@, 2 * k) == Some(out@[k] as u64),
        decreases n - i,
    {
        match parse_unsigned_range(b, i, i + 2, 16) {
            Some(v) => {
                proof {
                    lemma_pair_fits(b@.subrange(i as int, i + 2));
                }
                out.push(v as u8);
            },
            None => {
                assert(forall|k: int| 0 <= k < i / 2 ==> (#[trigger] pair_value(b@, 2 * k)) is Some);
                assert(2 * (i as int / 2) == i);
                assert(pair_value(b@, 2 * (i as int / 2)) is None);
                return Err(HexError::InvalidChar { index: i });
            },
        }
        i += 2;
    }
    assert(forall|k: int| 0 <= k < n / 2 ==> (#[trigger] pair_value(b@, 2 * k)) is Some);
    Ok(out)
}

} // verus!
