//! Random identifiers: flags, labels and the instance id.
use vstd::prelude::*;
use crate::digest::hex2;
use crate::text::push_str;

verus! {

/// Whether every character of `a` is ASCII.
pub open spec fn ascii_chars(a: Seq<char>) -> bool {
    forall|i: int| 0 <= i < a.len() ==> (#[trigger] a[i] as u32) < 128
}

/// Calls `nanoid::format` with `nanoid::rngs::default`: `size` characters drawn at
/// random from `alphabet`. Claims only that: the length and that every character comes
/// from the alphabet (which characters come is chance).
#[verifier::external_body]
fn random_id(alphabet: &[char], size: usize) -> (id: String)
    requires
        1 <= alphabet@.len() <= 255,
        ascii_chars(alphabet@),
        1 <= size <= usize::MAX / 8,
    ensures
        id@.len() == size,
        forall|i: int| 0 <= i < id@.len() ==> alphabet@.contains(#[trigger] id@[i]),
{
    nanoid::format(nanoid::rngs::default, alphabet, size)
}

/// Lower-case letters and digits.
pub const LOWER_ALNUM: [char; 36] = [
    '0', '1', '2', '3', '4', '5', '6', '7', '8', '9', 'a', 'b', 'c', 'd', 'e', 'f', 'g', 'h', 'i',
    'j', 'k', 'l', 'm', 'n', 'o', 'p', 'q', 'r', 's', 't', 'u', 'v', 'w', 'x', 'y', 'z',
];

/// Letters of both cases and digits.
pub const ALNUM: [char; 62] = [
    '0', '1', '2', '3', '4', '5', '6', '7', '8', '9', 'a', 'b', 'c', 'd', 'e', 'f', 'g', 'h', 'i',
    'j', 'k', 'l', 'm', 'n', 'o', 'p', 'q', 'r', 's', 't', 'u', 'v', 'w', 'x', 'y', 'z', 'A', 'B',
    'C', 'D', 'E', 'F', 'G', 'H', 'I', 'J', 'K', 'L', 'M', 'N', 'O', 'P', 'Q', 'R', 'S', 'T', 'U',
    'V', 'W', 'X', 'Y', 'Z',
];

/// The URL-safe alphabet of identifiers: `_`, `-`, digits and letters.
pub const SAFE: [char; 64] = [
    '_', '-', '0', '1', '2', '3', '4', '5', '6', '7', '8', '9', 'a', 'b', 'c', 'd', 'e', 'f', 'g',
    'h', 'i', 'j', 'k', 'l', 'm', 'n', 'o', 'p', 'q', 'r', 's', 't', 'u', 'v', 'w', 'x', 'y', 'z',
    'A', 'B', 'C', 'D', 'E', 'F', 'G', 'H', 'I', 'J', 'K', 'L', 'M', 'N', 'O', 'P', 'Q', 'R', 'S',
    'T', 'U', 'V', 'W', 'X', 'Y', 'Z',
];

pub open spec fn is_lower_alnum(c: char) -> bool {
    ('0' <= c && c <= '9') || ('a' <= c && c <= 'z')
}

pub open spec fn is_alnum(c: char) -> bool {
    ('0' <= c && c <= '9') || ('a' <= c && c <= 'z') || ('A' <= c && c <= 'Z')
}

/// `size` random lower-case letters and digits.
pub fn random_lower_alnum(size: usize) -> (id: String)
    requires
        1 <= size <= usize::MAX / 8,
    ensures
        id@.len() == size,
        forall|i: int| 0 <= i < id@.len() ==> is_lower_alnum(#[trigger] id@[i]),
{
    let a = LOWER_ALNUM;
    proof {
        assert(ascii_chars(a@));
    }
    let id = random_id(&a, size);
    proof {
        assert forall|i: int| 0 <= i < id@.len() implies is_lower_alnum(#[trigger] id@[i]) by {
            let c = id@[i];
            assert(a@.contains(c));
            let k = choose|k: int| 0 <= k < a@.len() && a@[k] == c;
        }
    }
    id
}

/// `size` random letters and digits.
pub fn random_alnum(size: usize) -> (id: String)
    requires
        1 <= size <= usize::MAX / 8,
    ensures
        id@.len() == size,
        forall|i: int| 0 <= i < id@.len() ==> is_alnum(#[trigger] id@[i]),
{
    let a = ALNUM;
    proof {
        assert(ascii_chars(a@));
    }
    let id = random_id(&a, size);
    proof {
        assert forall|i: int| 0 <= i < id@.len() implies is_alnum(#[trigger] id@[i]) by {
            let c = id@[i];
            assert(a@.contains(c));
            let k = choose|k: int| 0 <= k < a@.len() && a@[k] == c;
        }
    }
    id
}

/// `size` random characters of the URL-safe alphabet.
pub fn random_safe(size: usize) -> (id: String)
    requires
        1 <= size <= usize::MAX / 8,
    ensures
        id@.len() == size,
        forall|i: int| 0 <= i < id@.len() ==> SAFE@.contains(#[trigger] id@[i]),
{
    let a = SAFE;
    proof {
        assert(ascii_chars(a@));
    }
    random_id(&a, size)
}

/// A fresh flag: `flag{` and 32 random lower-case letters and digits, then `}`.
pub fn mint_flag() -> (f: String)
    ensures
        f@.len() == 38,
        f@.take(5) == "flag{"@,
        f@[37] == '}',
        forall|i: int| 5 <= i < 37 ==> is_lower_alnum(#[trigger] f@[i]),
{
    let body = random_lower_alnum(32);
    let mut f = "flag{".to_owned();
    push_str(&mut f, body.as_str());
    f.push('}');
    proof {
        reveal_strlit("flag{");
        assert(f@.take(5) =~= "flag{"@);
        assert forall|i: int| 5 <= i < 37 implies is_lower_alnum(#[trigger] f@[i]) by {
            assert(f@[i] == body@[i - 5]);
        }
    }
    f
}

/// Calls `rand::rng()` and `RngCore::fill_bytes`: sixteen random bytes; nothing is
/// claimed of their values.
#[verifier::external_body]
fn random_bytes16() -> (b: [u8; 16]) {
    let mut bytes = [0u8; 16];
    rand::RngCore::fill_bytes(&mut rand::rng(), &mut bytes);
    bytes
}

/// The version-4 UUID text of sixteen bytes: the version nibble set to 4 and the variant
/// bits to `10`, in the `8-4-4-4-12` grouping of lower-case hexadecimal digits.
pub open spec fn uuid_v4_text(b: Seq<u8>) -> Seq<char> {
    let b6 = ((b[6] & 0x0F) | 0x40) as u8;
    let b8 = ((b[8] & 0x3F) | 0x80) as u8;
    hex2(b[0]) + hex2(b[1]) + hex2(b[2]) + hex2(b[3]) + seq!['-'] + hex2(b[4]) + hex2(b[5])
        + seq!['-'] + hex2(b6) + hex2(b[7]) + seq!['-'] + hex2(b8) + hex2(b[9]) + seq!['-']
        + hex2(b[10]) + hex2(b[11]) + hex2(b[12]) + hex2(b[13]) + hex2(b[14]) + hex2(b[15])
}

fn push_byte(s: &mut String, b: u8)
    ensures
        final(s)@ == old(s)@ + hex2(b),
{
    crate::digest::push_hex2(s, b);
}

proof fn lemma_version_nibbles(x6: u8, x8: u8)
    ensures
        ((x6 & 0x0F) | 0x40) / 16 == 4,
        8 <= ((x8 & 0x3F) | 0x80) / 16 <= 11,
{
    assert(((x6 & 0x0F) | 0x40) / 16 == 4) by (bit_vector);
    assert(8 <= ((x8 & 0x3F) | 0x80) / 16 <= 11) by (bit_vector);
}

/// Formats sixteen bytes as a version-4 UUID.
pub fn format_uuid_v4(bytes: [u8; 16]) -> (s: String)
    ensures
        s@ == uuid_v4_text(bytes@),
        s@.len() == 36,
        s@[8] == '-' && s@[13] == '-' && s@[18] == '-' && s@[23] == '-',
        s@[14] == '4',
        s@[19] == '8' || s@[19] == '9' || s@[19] == 'a' || s@[19] == 'b',
{
    let x6 = bytes[6];
    let x8 = bytes[8];
    let b6: u8 = (x6 & 0x0F) | 0x40;
    let b8: u8 = (x8 & 0x3F) | 0x80;
    let mut s = String::new();
    push_byte(&mut s, bytes[0]);
    push_byte(&mut s, bytes[1]);
    push_byte(&mut s, bytes[2]);
    push_byte(&mut s, bytes[3]);
    s.push('-');
    push_byte(&mut s, bytes[4]);
    push_byte(&mut s, bytes[5]);
    s.push('-');
    push_byte(&mut s, b6);
    push_byte(&mut s, bytes[7]);
    s.push('-');
    push_byte(&mut s, b8);
    push_byte(&mut s, bytes[9]);
    s.push('-');
    push_byte(&mut s, bytes[10]);
    push_byte(&mut s, bytes[11]);
    push_byte(&mut s, bytes[12]);
    push_byte(&mut s, bytes[13]);
    push_byte(&mut s, bytes[14]);
    push_byte(&mut s, bytes[15]);
    proof {
        lemma_version_nibbles(x6, x8);
        assert(s@ =~= uuid_v4_text(bytes@));
    }
    s
}

/// A fresh instance id: a random version-4 UUID.
pub fn generate_instance_id() -> (id: String)
    ensures
        id@.len() == 36,
        id@[8] == '-' && id@[13] == '-' && id@[18] == '-' && id@[23] == '-',
        id@[14] == '4',
        id@[19] == '8' || id@[19] == '9' || id@[19] == 'a' || id@[19] == 'b',
        exists|b: Seq<u8>| b.len() == 16 && id@ == uuid_v4_text(b),
{
    let b = random_bytes16();
    format_uuid_v4(b)
}

} // verus!
