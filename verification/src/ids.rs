//! Identifiers as text: lowercase hexadecimal, UUIDs and SHA-256 digests.
use vstd::prelude::*;
use vstd::arithmetic::power::pow;
use sha2::Digest;

verus! {

/// The sixteen lowercase hexadecimal digits.
pub open spec fn hex_digits() -> Seq<char> {
    seq!['0', '1', '2', '3', '4', '5', '6', '7', '8', '9', 'a', 'b', 'c', 'd', 'e', 'f']
}

/// The two lowercase hexadecimal digits of a byte, high nibble first.
pub open spec fn byte_hex(b: u8) -> Seq<char> {
    seq![hex_digits()[b as int / 16], hex_digits()[b as int % 16]]
}

/// Each byte as two lowercase hexadecimal digits, in order.
pub open spec fn hex_text(bytes: Seq<u8>) -> Seq<char>
    decreases bytes.len(),
{
    if bytes.len() == 0 {
        Seq::empty()
    } else {
        hex_text(bytes.drop_last()) + byte_hex(bytes.last())
    }
}

/// The sixteen bytes of a 128-bit value, most significant first.
pub open spec fn be_bytes(v: u128) -> Seq<u8> {
    Seq::new(16, |j: int| ((v as int / pow(256, (15 - j) as nat)) % 256) as u8)
}

/// The hyphenated lowercase text of a UUID: 8-4-4-4-12 hexadecimal digits.
pub open spec fn uuid_text_of(v: u128) -> Seq<char> {
    let b = be_bytes(v);
    hex_text(b.subrange(0, 4)) + seq!['-'] + hex_text(b.subrange(4, 6)) + seq!['-']
        + hex_text(b.subrange(6, 8)) + seq!['-'] + hex_text(b.subrange(8, 10)) + seq!['-']
        + hex_text(b.subrange(10, 16))
}

/// The value of a hexadecimal digit of either case.
pub open spec fn nibble_of(c: char) -> Option<int> {
    if '0' <= c && c <= '9' {
        Some(c as int - '0' as int)
    } else if 'a' <= c && c <= 'f' {
        Some(c as int - 'a' as int + 10)
    } else if 'A' <= c && c <= 'F' {
        Some(c as int - 'A' as int + 10)
    } else {
        None
    }
}

/// The number the hexadecimal digits of `s` write, most significant first.
pub open spec fn hex_number(s: Seq<char>) -> Option<int>
    decreases s.len(),
{
    if s.len() == 0 {
        Some(0)
    } else {
        match (hex_number(s.drop_last()), nibble_of(s.last())) {
            (Some(h), Some(n)) => Some(h * 16 + n),
            _ => None,
        }
    }
}

/// The 32 digits of a hyphenated UUID text (8-4-4-4-12 digits), when its
/// 36 characters have hyphens at the places between the groups.
pub open spec fn hyphenated_digits(s: Seq<char>) -> Option<Seq<char>> {
    if s.len() == 36 && s[8] == '-' && s[13] == '-' && s[18] == '-' && s[23] == '-' {
        Some(s.subrange(0, 8) + s.subrange(9, 13) + s.subrange(14, 18) + s.subrange(19, 23) + s.subrange(24, 36))
    } else {
        None
    }
}

/// `urn:uuid:` in any mix of letter case.
pub open spec fn is_urn_prefix(p: Seq<char>) -> bool {
    &&& p.len() == 9
    &&& (p[0] == 'u' || p[0] == 'U') && (p[1] == 'r' || p[1] == 'R') && (p[2] == 'n' || p[2] == 'N')
    &&& p[3] == ':'
    &&& (p[4] == 'u' || p[4] == 'U') && (p[5] == 'u' || p[5] == 'U') && (p[6] == 'i' || p[6] == 'I')
    &&& (p[7] == 'd' || p[7] == 'D')
    &&& p[8] == ':'
}

/// `text` parsed as a UUID as `uuid::Uuid::parse_str` parses it, as its
/// 128-bit value: 32 hexadecimal digits; the hyphenated 8-4-4-4-12 form;
/// that form in braces; or that form after `urn:uuid:` in any case. Digits
/// may be of either case; anything else is refused.
#[verifier::opaque]
pub open spec fn uuid_parsed(text: Seq<char>) -> Option<u128> {
    let digits = if text.len() == 32 {
        Some(text)
    } else if text.len() == 36 {
        hyphenated_digits(text)
    } else if text.len() == 38 && text[0] == '{' && text[37] == '}' {
        hyphenated_digits(text.subrange(1, 37))
    } else if text.len() == 45 && is_urn_prefix(text.subrange(0, 9)) {
        hyphenated_digits(text.subrange(9, 45))
    } else {
        None
    };
    match digits {
        Some(d) => match hex_number(d) {
            Some(v) => Some(v as u128),
            None => None,
        },
        None => None,
    }
}

/// The 32-byte SHA-256 digest of `bytes`, as `sha2::Sha256` computes it.
pub uninterp spec fn sha256_of(bytes: Seq<u8>) -> Seq<u8>;

/// The name-based UUID that `uuid::Uuid::new_v5` makes from the namespace
/// `namespace` and the UTF-8 bytes of `name`, as its 128-bit value.
pub uninterp spec fn uuid_v5_of(namespace: u128, name: Seq<char>) -> u128;

/// Text of a UUID by `uuid::Uuid::from_u128` and its `Display` impl.
/// Claimed: the text is the hyphenated lowercase form of the value's
/// big-endian bytes (the crate's `fmt` module writes `as_hyphenated`).
#[verifier::external_body]
pub(crate) fn uuid_text(id: u128) -> (s: String)
    ensures
        s@ == uuid_text_of(id),
{
    uuid::Uuid::from_u128(id).to_string()
}

/// A UUID parsed by `uuid::Uuid::parse_str`, as its 128-bit value.
/// Claimed: the result is `uuid_parsed` of the text (the forms the crate's
/// `try_parse` accepts; a text with a character outside ASCII never parses,
/// so its byte lengths are its character counts), and the hyphenated
/// lowercase text of any UUID parses back to that UUID.
#[verifier::external_body]
pub(crate) fn parse_uuid(text: &str) -> (r: Option<u128>)
    ensures
        r == uuid_parsed(text@),
        forall|id: u128| text@ == uuid_text_of(id) ==> r == Some(id),
{
    match uuid::Uuid::parse_str(text) {
        Ok(id) => Some(id.as_u128()),
        Err(_) => None,
    }
}

/// A name-based UUID by `uuid::Uuid::new_v5` on the namespace and the UTF-8
/// bytes of `name`, as its 128-bit value. Claimed: the result is named
/// `uuid_v5_of` of the namespace and the name's text (the SHA-1 digest the
/// crate computes is not restated).
#[verifier::external_body]
pub(crate) fn uuid_v5(namespace: u128, name: &str) -> (r: u128)
    ensures
        r == uuid_v5_of(namespace, name@),
{
    uuid::Uuid::new_v5(&uuid::Uuid::from_u128(namespace), name.as_bytes()).as_u128()
}

/// The SHA-256 digest of `bytes` by `sha2::Sha256::digest`.
/// Claimed: the digest is named `sha256_of` of the bytes and has 32 bytes.
#[verifier::external_body]
fn sha256_digest(bytes: &[u8]) -> (d: Vec<u8>)
    ensures
        d@ == sha256_of(bytes@),
        d@.len() == 32,
{
    sha2::Sha256::digest(bytes).to_vec()
}

/// The lowercase hexadecimal digit of `n`.
pub fn hex_digit(n: u8) -> (c: char)
    requires
        n < 16,
    ensures
        c == hex_digits()[n as int],
{
    let digits = ['0', '1', '2', '3', '4', '5', '6', '7', '8', '9', 'a', 'b', 'c', 'd', 'e', 'f'];
    assert(digits@ == hex_digits());
    digits[n as usize]
}

/// Each byte as two lowercase hexadecimal digits.
pub fn hex_of_bytes(bytes: &[u8]) -> (s: String)
    ensures
        s@ == hex_text(bytes@),
{
    let mut out: Vec<char> = Vec::new();
    let mut i: usize = 0;
    while i < bytes.len()
        invariant
            i <= bytes.len(),
            out@ == hex_text(bytes@.subrange(0, i as int)),
        decreases bytes.len() - i,
    {
        let b = bytes[i];
        out.push(hex_digit(b / 16));
        out.push(hex_digit(b % 16));
        proof {
            let next = bytes@.subrange(0, i + 1);
            assert(next.drop_last() == bytes@.subrange(0, i as int));
            assert(next.last() == b);
        }
        i = i + 1;
    }
    assert(bytes@.subrange(0, bytes.len() as int) == bytes@);
    crate::text::string_from_chars(&out)
}

/// The SHA-256 digest of `bytes` as 64 lowercase hexadecimal digits.
pub fn sha256_hex(bytes: &[u8]) -> (s: String)
    ensures
        s@ == hex_text(sha256_of(bytes@)),
{
    let d = sha256_digest(bytes);
    hex_of_bytes(d.as_slice())
}

/// A lowercase hexadecimal digit.
pub open spec fn is_lower_hex(c: char) -> bool {
    ('0' <= c && c <= '9') || ('a' <= c && c <= 'f')
}

proof fn lemma_hex_digits_are_hex()
    ensures
        forall|k: int| 0 <= k < 16 ==> is_lower_hex(#[trigger] hex_digits()[k]),
{
    let h = hex_digits();
    assert forall|k: int| 0 <= k < 16 implies is_lower_hex(#[trigger] hex_digits()[k]) by {
        if k == 0 {
            assert(h[0] == '0');
        }
        if k == 1 {
            assert(h[1] == '1');
        }
        if k == 2 {
            assert(h[2] == '2');
        }
        if k == 3 {
            assert(h[3] == '3');
        }
        if k == 4 {
            assert(h[4] == '4');
        }
        if k == 5 {
            assert(h[5] == '5');
        }
        if k == 6 {
            assert(h[6] == '6');
        }
        if k == 7 {
            assert(h[7] == '7');
        }
        if k == 8 {
            assert(h[8] == '8');
        }
        if k == 9 {
            assert(h[9] == '9');
        }
        if k == 10 {
            assert(h[10] == 'a');
        }
        if k == 11 {
            assert(h[11] == 'b');
        }
        if k == 12 {
            assert(h[12] == 'c');
        }
        if k == 13 {
            assert(h[13] == 'd');
        }
        if k == 14 {
            assert(h[14] == 'e');
        }
        if k == 15 {
            assert(h[15] == 'f');
        }
    }
}

/// Hexadecimal text has two lowercase digits per byte.
pub proof fn lemma_hex_text_chars(bytes: Seq<u8>)
    ensures
        hex_text(bytes).len() == 2 * bytes.len(),
        forall|i: int| 0 <= i < hex_text(bytes).len() ==> is_lower_hex(#[trigger] hex_text(bytes)[i]),
    decreases bytes.len(),
{
    if bytes.len() > 0 {
        lemma_hex_text_chars(bytes.drop_last());
        lemma_hex_digits_are_hex();
        let b = bytes.last();
        assert(0 <= b as int / 16 < 16);
        assert(is_lower_hex(byte_hex(b)[0]));
        assert(is_lower_hex(byte_hex(b)[1]));
        let prev = hex_text(bytes.drop_last());
        assert forall|i: int| 0 <= i < hex_text(bytes).len() implies is_lower_hex(#[trigger] hex_text(bytes)[i]) by {
            if i < prev.len() {
                assert(hex_text(bytes)[i] == prev[i]);
            } else {
                assert(hex_text(bytes)[i] == byte_hex(b)[i - prev.len()]);
            }
        }
    }
}

/// The text of a UUID is lowercase hexadecimal digits and `-`, and starts
/// with a digit.
pub proof fn lemma_uuid_text_chars(v: u128)
    ensures
        uuid_text_of(v).len() > 0,
        is_lower_hex(uuid_text_of(v)[0]),
        forall|i: int|
            0 <= i < uuid_text_of(v).len() ==> is_lower_hex(#[trigger] uuid_text_of(v)[i]) || uuid_text_of(v)[i]
                == '-',
{
    let b = be_bytes(v);
    let p0 = hex_text(b.subrange(0, 4));
    let p1 = hex_text(b.subrange(4, 6));
    let p2 = hex_text(b.subrange(6, 8));
    let p3 = hex_text(b.subrange(8, 10));
    let p4 = hex_text(b.subrange(10, 16));
    lemma_hex_text_chars(b.subrange(0, 4));
    lemma_hex_text_chars(b.subrange(4, 6));
    lemma_hex_text_chars(b.subrange(6, 8));
    lemma_hex_text_chars(b.subrange(8, 10));
    lemma_hex_text_chars(b.subrange(10, 16));
    let d = seq!['-'];
    let s = p0 + d + p1 + d + p2 + d + p3 + d + p4;
    assert(uuid_text_of(v) == s);
    assert(s[0] == p0[0]);
    assert forall|i: int| 0 <= i < s.len() implies is_lower_hex(#[trigger] s[i]) || s[i] == '-' by {
        let a1 = p0 + d;
        let a2 = a1 + p1;
        let a3 = a2 + d;
        let a4 = a3 + p2;
        let a5 = a4 + d;
        let a6 = a5 + p3;
        let a7 = a6 + d;
        if i >= a7.len() {
            assert(s[i] == p4[i - a7.len()]);
        } else if i >= a6.len() {
            assert(s[i] == a7[i]);
        } else if i >= a5.len() {
            assert(s[i] == a6[i]);
            assert(a6[i] == p3[i - a5.len()]);
        } else if i >= a4.len() {
            assert(s[i] == a5[i]);
        } else if i >= a3.len() {
            assert(s[i] == a4[i]);
            assert(a4[i] == p2[i - a3.len()]);
        } else if i >= a2.len() {
            assert(s[i] == a3[i]);
        } else if i >= a1.len() {
            assert(s[i] == a2[i]);
            assert(a2[i] == p1[i - a1.len()]);
        } else if i >= p0.len() {
            assert(s[i] == a1[i]);
        } else {
            assert(s[i] == a1[i]);
            assert(a1[i] == p0[i]);
        }
    }
}

} // verus!
