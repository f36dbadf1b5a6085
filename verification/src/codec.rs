//! Encodings and the MAC that the library takes from outside crates:
//! URL-safe base64 without padding (`base64`), HMAC-SHA256 (`hmac`, `sha2`)
//! and hexadecimal text (`hex`).
use vstd::prelude::*;

use base64::Engine;
use hmac::Mac;

verus! {

/// `base64::DecodeError`.
#[verifier::external_type_specification]
#[verifier::external_body]
pub struct ExBase64DecodeError(base64::DecodeError);

/// `hex::FromHexError`.
#[verifier::external_type_specification]
#[verifier::external_body]
pub struct ExFromHexError(hex::FromHexError);

/// The character of the URL-safe base64 alphabet for a 6-bit value.
pub open spec fn base64_url_char(v: int) -> char {
    if v < 26 {
        (65 + v) as char
    } else if v < 52 {
        (97 + v - 26) as char
    } else if v < 62 {
        (48 + v - 52) as char
    } else if v == 62 {
        '-'
    } else {
        '_'
    }
}

/// The URL-safe base64 text of `b` without padding: each group of three
/// bytes, first bits first, as four characters of six bits each; a last
/// group of one or two bytes as two or three characters, its bits padded
/// with zeros.
pub open spec fn base64_url_encode(b: Seq<u8>) -> Seq<char>
    decreases b.len(),
{
    if b.len() == 0 {
        Seq::empty()
    } else if b.len() == 1 {
        seq![base64_url_char((b[0] / 4) as int), base64_url_char((b[0] % 4) * 16)]
    } else if b.len() == 2 {
        seq![
            base64_url_char((b[0] / 4) as int),
            base64_url_char((b[0] % 4) * 16 + b[1] / 16),
            base64_url_char((b[1] % 16) * 4),
        ]
    } else {
        seq![
            base64_url_char((b[0] / 4) as int),
            base64_url_char((b[0] % 4) * 16 + b[1] / 16),
            base64_url_char((b[1] % 16) * 4 + b[2] / 64),
            base64_url_char((b[2] % 64) as int),
        ] + base64_url_encode(b.skip(3))
    }
}

/// The bytes that `URL_SAFE_NO_PAD.decode` gives for some text, if any.
pub uninterp spec fn base64_url_decode(s: Seq<char>) -> Option<Seq<u8>>;

/// The HMAC-SHA256 tag of `msg` under `key`.
pub uninterp spec fn hmac_sha256_tag(key: Seq<u8>, msg: Seq<u8>) -> Seq<u8>;

/// True for the characters of the URL-safe base64 alphabet.
pub open spec fn is_url_safe_char(c: char) -> bool {
    ('A' <= c <= 'Z') || ('a' <= c <= 'z') || ('0' <= c <= '9') || c == '-' || c == '_'
}

/// `URL_SAFE_NO_PAD.encode`: the base64 text of `b` in the URL-safe
/// alphabet, without padding: four characters for each three bytes, and two
/// or three for a last one or two. Decoding it gives `b` back.
#[verifier::external_body]
pub(crate) fn base64_encode(b: &[u8]) -> (r: String)
    ensures
        r@ == base64_url_encode(b@),
        r@.len() == (4 * b@.len() + 2) / 3,
        base64_url_decode(r@) == Some(b@),
        forall|i: int| 0 <= i < r@.len() ==> is_url_safe_char(#[trigger] r@[i]),
{
    base64::engine::general_purpose::URL_SAFE_NO_PAD.encode(b)
}

/// `URL_SAFE_NO_PAD.decode` on the UTF-8 bytes of `s`.
#[verifier::external_body]
pub(crate) fn base64_decode(s: &str) -> (r: Result<Vec<u8>, base64::DecodeError>)
    ensures
        r is Ok <==> base64_url_decode(s@) is Some,
        r matches Ok(v) ==> base64_url_decode(s@) == Some(v@),
{
    base64::engine::general_purpose::URL_SAFE_NO_PAD.decode(s)
}

/// Decodes URL-safe base64 text without padding.
pub fn decode_base64(s: &str) -> (r: Option<Vec<u8>>)
    ensures
        match base64_url_decode(s@) {
            Some(b) => r matches Some(v) && v@ == b,
            None => r is None,
        },
{
    match base64_decode(s) {
        Ok(v) => Some(v),
        Err(_) => None,
    }
}

/// `Hmac<Sha256>`: `new_from_slice(key)`, `update(msg)`, `finalize`. HMAC
/// takes keys of any length (`new_from_slice` never fails for it); the tag
/// has the 32 bytes of a SHA-256 digest.
#[verifier::external_body]
pub(crate) fn hmac_sha256(key: &[u8], msg: &[u8]) -> (r: Vec<u8>)
    ensures
        r@ == hmac_sha256_tag(key@, msg@),
        r@.len() == 32,
{
    let mut mac = <hmac::Hmac<sha2::Sha256> as Mac>::new_from_slice(key).expect(
        "HMAC takes a key of any length",
    );
    mac.update(msg);
    mac.finalize().into_bytes().to_vec()
}

/// `Hmac<Sha256>::verify_slice`: true exactly when `tag` is the tag of `msg`
/// under `key` (compared in constant time; a tag of another length fails).
#[verifier::external_body]
pub(crate) fn hmac_sha256_verify(key: &[u8], msg: &[u8], tag: &[u8]) -> (r: bool)
    ensures
        r == (tag@ == hmac_sha256_tag(key@, msg@)),
{
    let mut mac = <hmac::Hmac<sha2::Sha256> as Mac>::new_from_slice(key).expect(
        "HMAC takes a key of any length",
    );
    mac.update(msg);
    mac.verify_slice(tag).is_ok()
}

/// Value of an ASCII hexadecimal digit (either case).
pub open spec fn hex_digit(c: u8) -> Option<u8> {
    if 48 <= c <= 57 {
        Some((c - 48) as u8)
    } else if 65 <= c <= 70 {
        Some((c - 55) as u8)
    } else if 97 <= c <= 102 {
        Some((c - 87) as u8)
    } else {
        None
    }
}

/// True when every byte of `s` is a hexadecimal digit.
pub open spec fn all_hex(s: Seq<u8>) -> bool {
    forall|i: int| 0 <= i < s.len() ==> #[trigger] hex_digit(s[i]) is Some
}

/// The bytes that the pairs of hexadecimal digits of `s` denote, first digit
/// high; `None` for an odd length or a byte that is no hexadecimal digit.
pub open spec fn hex_decoded(s: Seq<u8>) -> Option<Seq<u8>> {
    if s.len() % 2 == 0 && all_hex(s) {
        Some(
            Seq::new(
                s.len() / 2,
                |i: int| (hex_digit(s[2 * i])->Some_0 * 16 + hex_digit(s[2 * i + 1])->Some_0) as u8,
            ),
        )
    } else {
        None
    }
}

/// `hex::decode`.
#[verifier::external_body]
pub(crate) fn hex_decode(s: &[u8]) -> (r: Result<Vec<u8>, hex::FromHexError>)
    ensures
        r is Ok <==> hex_decoded(s@) is Some,
        r matches Ok(v) ==> hex_decoded(s@) == Some(v@),
{
    hex::decode(s)
}

/// Two lowercase hexadecimal digits of a byte.
pub open spec fn hex_pair(b: u8) -> Seq<u8> {
    seq![lower_hex_digit(b / 16), lower_hex_digit(b % 16)]
}

/// Lowercase hexadecimal digit of a value below 16.
pub open spec fn lower_hex_digit(v: u8) -> u8 {
    if v < 10 {
        (v + 48) as u8
    } else {
        (v + 87) as u8
    }
}

/// Lowercase hexadecimal text of bytes, two digits each.
pub open spec fn hex_text(b: Seq<u8>) -> Seq<u8>
    decreases b.len(),
{
    if b.len() == 0 {
        Seq::empty()
    } else {
        hex_text(b.drop_last()) + hex_pair(b.last())
    }
}

/// Appends the lowercase hexadecimal text of `data` to `out`.
pub fn push_hex(out: &mut Vec<u8>, data: &[u8])
    ensures
        final(out)@ == old(out)@ + hex_text(data@),
{
    let mut i: usize = 0;
    while i < data.len()
        invariant
            i <= data.len(),
            out@ == old(out)@ + hex_text(data@.take(i as int)),
        decreases data.len() - i,
    {
        let b = data[i];
        let hi = b / 16;
        let lo = b % 16;
        out.push(if hi < 10 { hi + 48 } else { hi + 87 });
        out.push(if lo < 10 { lo + 48 } else { lo + 87 });
        proof {
            assert(data@.take(i + 1).drop_last() =~= data@.take(i as int));
            assert(out@ =~= old(out)@ + hex_text(data@.take(i + 1)));
        }
        i = i + 1;
    }
    assert(data@.take(data@.len() as int) =~= data@);
}

/// Decoding the lowercase hexadecimal text of bytes gives them back.
pub proof fn lemma_hex_roundtrip(b: Seq<u8>)
    ensures
        hex_text(b).len() == 2 * b.len(),
        hex_decoded(hex_text(b)) == Some(b),
    decreases b.len(),
{
    if b.len() > 0 {
        lemma_hex_roundtrip(b.drop_last());
        let t = hex_text(b);
        let p = hex_text(b.drop_last());
        assert(t == p + hex_pair(b.last()));
        assert(all_hex(t)) by {
            assert forall|i: int| 0 <= i < t.len() implies #[trigger] hex_digit(t[i]) is Some by {
                if i < p.len() {
                    assert(t[i] == p[i]);
                    assert(all_hex(p));
                }
            }
        }
        let d = hex_decoded(t)->Some_0;
        assert(d =~= b) by {
            assert forall|i: int| 0 <= i < b.len() implies d[i] == b[i] by {
                if i < b.len() - 1 {
                    assert(t[2 * i] == p[2 * i]);
                    assert(t[2 * i + 1] == p[2 * i + 1]);
                    assert(hex_decoded(p)->Some_0[i] == b.drop_last()[i]);
                } else {
                    let x = b.last();
                    assert(t[2 * i] == lower_hex_digit(x / 16));
                    assert(t[2 * i + 1] == lower_hex_digit(x % 16));
                }
            }
        }
    } else {
        assert(hex_decoded(hex_text(b))->Some_0 =~= b);
    }
}

} // verus!
