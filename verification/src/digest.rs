//! Hashes and random identifiers, and their text forms.
use vstd::prelude::*;
use vstd::string::StringSliceAdditionalSpecFns;
use crate::text::{trim_ws, trimmed};

verus! {

/// The SHA-256 digest of `data`.
pub uninterp spec fn sha256(data: Seq<u8>) -> Seq<u8>;

/// Calls `ring::digest::digest` with `SHA256`; claims the result is the SHA-256 digest
/// of `data`, 32 bytes long (the algorithm's output length).
#[verifier::external_body]
fn sha256_digest(data: &[u8]) -> (r: Vec<u8>)
    requires
        data@.len() < 0x1fff_ffff_ffff_ffff,
    ensures
        r@ == sha256(data@),
        r@.len() == 32,
{
    ring::digest::digest(&ring::digest::SHA256, data).as_ref().to_vec()
}

/// Lower-case hexadecimal digit of `d < 16`.
pub open spec fn hex_digit(d: int) -> char {
    if d < 10 {
        (d + 48) as char
    } else {
        (d + 87) as char
    }
}

/// Two lower-case hexadecimal digits of a byte.
pub open spec fn hex2(b: u8) -> Seq<char> {
    seq![hex_digit(b as int / 16), hex_digit(b as int % 16)]
}

/// Lower-case hexadecimal text of `bytes`, two digits per byte.
pub open spec fn hex(bytes: Seq<u8>) -> Seq<char>
    decreases bytes.len(),
{
    if bytes.len() == 0 {
        Seq::empty()
    } else {
        hex(bytes.drop_last()) + hex2(bytes.last())
    }
}

fn hex_digit_exec(d: u8) -> (c: char)
    requires
        d < 16,
    ensures
        c == hex_digit(d as int),
{
    if d < 10 {
        (d + 48) as char
    } else {
        (d + 87) as char
    }
}

pub fn push_hex2(s: &mut String, b: u8)
    ensures
        final(s)@ == old(s)@ + hex2(b),
{
    let ghost s0 = s@;
    s.push(hex_digit_exec(b / 16));
    s.push(hex_digit_exec(b % 16));
    proof {
        assert(s@ =~= s0 + hex2(b));
    }
}

/// The lower-case hexadecimal text of `bytes`.
pub fn hex_string(bytes: &[u8]) -> (s: String)
    ensures
        s@ == hex(bytes@),
{
    let mut s = String::new();
    let mut i: usize = 0;
    while i < bytes.len()
        invariant
            i <= bytes@.len(),
            s@ == hex(bytes@.take(i as int)),
        decreases bytes.len() - i,
    {
        proof {
            assert(bytes@.take(i + 1).drop_last() =~= bytes@.take(i as int));
        }
        push_hex2(&mut s, bytes[i]);
        i = i + 1;
    }
    proof {
        assert(bytes@.take(bytes@.len() as int) =~= bytes@);
    }
    s
}

/// The SHA-256 digest of `bytes` in lower-case hexadecimal.
pub fn sha256_hex(bytes: &[u8]) -> (s: String)
    requires
        bytes@.len() < 0x1fff_ffff_ffff_ffff,
    ensures
        s@ == hex(sha256(bytes@)),
{
    let d = sha256_digest(bytes);
    hex_string(d.as_slice())
}

/// A character takes at most four bytes in UTF-8.
pub proof fn lemma_encode_len(s: Seq<char>)
    ensures
        vstd::utf8::encode_utf8(s).len() <= 4 * s.len(),
    decreases s.len(),
{
    if s.len() > 0 {
        lemma_encode_len(s.drop_first());
    }
}

/// Whether a submitted flag is the one whose hash was recorded: it counts only once the
/// recorded flag was confirmed present, and the submission is compared without its
/// surrounding whitespace.
pub fn flag_hash_matches(content: &str, value_hash: &str, verified: bool) -> (b: bool)
    requires
        content@.len() < 0x0400_0000_0000_0000,
    ensures
        b == (verified && value_hash@ == hex(sha256(vstd::utf8::encode_utf8(trim_ws(content@))))),
{
    if !verified {
        return false;
    }
    let t = trimmed(content);
    proof {
        crate::text::lemma_trim_len(content@, crate::text::CharClass::Whitespace);
        lemma_encode_len(t@);
    }
    let h = sha256_hex(t.as_str().as_bytes());
    crate::text::str_eq(h.as_str(), value_hash)
}

} // verus!
