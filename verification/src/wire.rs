//! The field encodings of the control protocol's wire format: variable-length
//! unsigned integers, length-prefixed byte strings and UTF-8 strings,
//! optional strings and fixed three-byte message headers.
//!
//! Integers use the compact form: values up to 250 take one byte; larger
//! values take a marker byte (251, 252 or 253) followed by 2, 4 or 8
//! little-endian bytes. Decoding also accepts a wider form than necessary.
use vstd::prelude::*;
use vstd::utf8::*;

use crate::text::utf8_to_string;

verus! {

/// `256` raised to the power `k`.
pub open spec fn pow256(k: nat) -> nat
    decreases k,
{
    if k == 0 {
        1
    } else {
        256 * pow256((k - 1) as nat)
    }
}

/// The `k` least significant bytes of `n`, least significant first.
pub open spec fn le_bytes(n: nat, k: nat) -> Seq<u8>
    decreases k,
{
    if k == 0 {
        seq![]
    } else {
        seq![(n % 256) as u8] + le_bytes(n / 256, (k - 1) as nat)
    }
}

/// The number whose little-endian bytes are `b`.
pub open spec fn le_value(b: Seq<u8>) -> nat
    decreases b.len(),
{
    if b.len() == 0 {
        0
    } else {
        b[0] as nat + 256 * le_value(b.drop_first())
    }
}

/// The compact encoding of an unsigned integer below 2^64.
pub open spec fn varint_bytes(n: nat) -> Seq<u8> {
    if n <= 250 {
        seq![n as u8]
    } else if n <= 0xffff {
        seq![251u8] + le_bytes(n, 2)
    } else if n <= 0xffff_ffff {
        seq![252u8] + le_bytes(n, 4)
    } else {
        seq![253u8] + le_bytes(n, 8)
    }
}

/// Reads an unsigned 64-bit integer in compact form; yields the value and
/// the bytes that follow it.
pub open spec fn read_varint(b: Seq<u8>) -> Option<(nat, Seq<u8>)> {
    if b.len() == 0 {
        None
    } else if b[0] <= 250 {
        Some((b[0] as nat, b.skip(1)))
    } else if b[0] == 251 {
        if b.len() >= 3 {
            Some((le_value(b.subrange(1, 3)), b.skip(3)))
        } else {
            None
        }
    } else if b[0] == 252 {
        if b.len() >= 5 {
            Some((le_value(b.subrange(1, 5)), b.skip(5)))
        } else {
            None
        }
    } else if b[0] == 253 {
        if b.len() >= 9 {
            Some((le_value(b.subrange(1, 9)), b.skip(9)))
        } else {
            None
        }
    } else {
        None
    }
}

/// Reads an unsigned 32-bit integer in compact form (the eight-byte form is
/// refused).
pub open spec fn read_varint32(b: Seq<u8>) -> Option<(nat, Seq<u8>)> {
    if b.len() > 0 && b[0] == 253 {
        None
    } else {
        read_varint(b)
    }
}

/// A byte string: its length in compact form, then its bytes.
pub open spec fn bytes_field(s: Seq<u8>) -> Seq<u8> {
    varint_bytes(s.len()) + s
}

/// Reads a byte string.
pub open spec fn read_bytes_field(b: Seq<u8>) -> Option<(Seq<u8>, Seq<u8>)> {
    match read_varint(b) {
        None => None,
        Some((n, r)) => if n <= r.len() {
            Some((r.take(n as int), r.skip(n as int)))
        } else {
            None
        },
    }
}

/// A text string: the byte string of its UTF-8 encoding.
pub open spec fn str_field(c: Seq<char>) -> Seq<u8> {
    bytes_field(encode_utf8(c))
}

/// Reads a text string; its bytes must be valid UTF-8.
pub open spec fn read_str_field(b: Seq<u8>) -> Option<(Seq<char>, Seq<u8>)> {
    match read_bytes_field(b) {
        None => None,
        Some((s, r)) => if valid_utf8(s) {
            Some((decode_utf8(s), r))
        } else {
            None
        },
    }
}

/// An optional text string: a tag byte 0 for none, or 1 followed by the string.
pub open spec fn opt_str_field(o: Option<Seq<char>>) -> Seq<u8> {
    match o {
        None => seq![0u8],
        Some(c) => seq![1u8] + str_field(c),
    }
}

/// Reads an optional text string.
pub open spec fn read_opt_str_field(b: Seq<u8>) -> Option<(Option<Seq<char>>, Seq<u8>)> {
    if b.len() == 0 {
        None
    } else if b[0] == 0 {
        Some((None, b.skip(1)))
    } else if b[0] == 1 {
        match read_str_field(b.skip(1)) {
            None => None,
            Some((c, r)) => Some((Some(c), r)),
        }
    } else {
        None
    }
}

/// Reads a three-byte message header.
pub open spec fn read_header(b: Seq<u8>) -> Option<(Seq<u8>, Seq<u8>)> {
    if b.len() >= 3 {
        Some((b.take(3), b.skip(3)))
    } else {
        None
    }
}

/// The size bound under which a length can be written in compact form.
pub open spec fn fits_u64(n: nat) -> bool {
    n < 0x1_0000_0000_0000_0000
}

// ---------------------------------------------------------------------------
// Lemmas

proof fn lemma_pow256_values()
    ensures
        pow256(2) == 0x1_0000,
        pow256(4) == 0x1_0000_0000,
        pow256(8) == 0x1_0000_0000_0000_0000,
{
    reveal_with_fuel(pow256, 9);
}

proof fn lemma_pow256_grows(j: nat, k: nat)
    requires
        j <= k,
    ensures
        pow256(j) <= pow256(k),
        pow256(j) >= 1,
    decreases k,
{
    if j < k {
        lemma_pow256_grows(j, (k - 1) as nat);
    } else if k > 0 {
        lemma_pow256_grows((k - 1) as nat, (k - 1) as nat);
    }
}

/// The value of `k` little-endian bytes is below `256^k`.
proof fn lemma_le_value_bound(b: Seq<u8>)
    ensures
        le_value(b) < pow256(b.len()),
    decreases b.len(),
{
    if b.len() > 0 {
        lemma_le_value_bound(b.drop_first());
    }
}

/// Little-endian bytes give back the number they were taken from.
proof fn lemma_le_roundtrip(n: nat, k: nat)
    requires
        n < pow256(k),
    ensures
        le_bytes(n, k).len() == k,
        le_value(le_bytes(n, k)) == n,
    decreases k,
{
    if k > 0 {
        let q = n / 256;
        vstd::arithmetic::div_mod::lemma_fundamental_div_mod(n as int, 256);
        assert(q < pow256((k - 1) as nat));
        lemma_le_roundtrip(q, (k - 1) as nat);
        let s = le_bytes(n, k);
        assert(s.drop_first() =~= le_bytes(q, (k - 1) as nat));
    } else {
        assert(n == 0);
    }
}

/// The compact form of `n` reads back as `n`, leaving what follows it.
pub proof fn lemma_varint_roundtrip(n: nat, rest: Seq<u8>)
    requires
        fits_u64(n),
    ensures
        read_varint(varint_bytes(n) + rest) == Some((n, rest)),
        n < 0x1_0000_0000 ==> read_varint32(varint_bytes(n) + rest) == Some((n, rest)),
{
    lemma_pow256_values();
    let b = varint_bytes(n) + rest;
    if n <= 250 {
        assert(b.skip(1) =~= rest);
    } else if n <= 0xffff {
        lemma_le_roundtrip(n, 2);
        assert(b.subrange(1, 3) =~= le_bytes(n, 2));
        assert(b.skip(3) =~= rest);
    } else if n <= 0xffff_ffff {
        lemma_le_roundtrip(n, 4);
        assert(b.subrange(1, 5) =~= le_bytes(n, 4));
        assert(b.skip(5) =~= rest);
    } else {
        lemma_le_roundtrip(n, 8);
        assert(b.subrange(1, 9) =~= le_bytes(n, 8));
        assert(b.skip(9) =~= rest);
    }
}

/// A byte string reads back, leaving what follows it.
pub proof fn lemma_bytes_field_roundtrip(s: Seq<u8>, rest: Seq<u8>)
    requires
        fits_u64(s.len()),
    ensures
        read_bytes_field(bytes_field(s) + rest) == Some((s, rest)),
{
    lemma_varint_roundtrip(s.len(), s + rest);
    assert(bytes_field(s) + rest =~= varint_bytes(s.len()) + (s + rest));
    assert((s + rest).take(s.len() as int) =~= s);
    assert((s + rest).skip(s.len() as int) =~= rest);
}

/// A text string reads back, leaving what follows it.
pub proof fn lemma_str_field_roundtrip(c: Seq<char>, rest: Seq<u8>)
    requires
        fits_u64(encode_utf8(c).len()),
    ensures
        read_str_field(str_field(c) + rest) == Some((c, rest)),
{
    lemma_bytes_field_roundtrip(encode_utf8(c), rest);
    encode_utf8_valid_utf8(c);
    encode_utf8_decode_utf8(c);
}

/// An optional text string reads back, leaving what follows it.
pub proof fn lemma_opt_str_field_roundtrip(o: Option<Seq<char>>, rest: Seq<u8>)
    requires
        o matches Some(c) ==> fits_u64(encode_utf8(c).len()),
    ensures
        read_opt_str_field(opt_str_field(o) + rest) == Some((o, rest)),
{
    let b = opt_str_field(o) + rest;
    match o {
        None => {
            assert(b.skip(1) =~= rest);
        },
        Some(c) => {
            lemma_str_field_roundtrip(c, rest);
            assert(b.skip(1) =~= str_field(c) + rest);
        },
    }
}

/// A header reads back, leaving what follows it.
pub proof fn lemma_header_roundtrip(h: Seq<u8>, rest: Seq<u8>)
    requires
        h.len() == 3,
    ensures
        read_header(h + rest) == Some((h, rest)),
{
    assert((h + rest).take(3) =~= h);
    assert((h + rest).skip(3) =~= rest);
}

// ---------------------------------------------------------------------------
// Executable encoders and decoders

fn push_le(out: &mut Vec<u8>, n: u64, k: usize)
    requires
        k <= 8,
    ensures
        final(out)@ == old(out)@ + le_bytes(n as nat, k as nat),
    decreases k,
{
    if k > 0 {
        out.push((n % 256) as u8);
        push_le(out, n / 256, k - 1);
        assert(le_bytes(n as nat, k as nat) =~= seq![(n % 256) as u8] + le_bytes(
            (n / 256) as nat,
            (k - 1) as nat,
        ));
        assert(final(out)@ =~= old(out)@ + le_bytes(n as nat, k as nat));
    } else {
        assert(final(out)@ =~= old(out)@ + le_bytes(n as nat, k as nat));
    }
}

/// Appends the compact form of `n`.
pub fn write_varint(out: &mut Vec<u8>, n: u64)
    ensures
        final(out)@ == old(out)@ + varint_bytes(n as nat),
{
    if n <= 250 {
        out.push(n as u8);
        assert(final(out)@ =~= old(out)@ + varint_bytes(n as nat));
    } else if n <= 0xffff {
        out.push(251u8);
        push_le(out, n, 2);
        assert(final(out)@ =~= old(out)@ + varint_bytes(n as nat));
    } else if n <= 0xffff_ffff {
        out.push(252u8);
        push_le(out, n, 4);
        assert(final(out)@ =~= old(out)@ + varint_bytes(n as nat));
    } else {
        out.push(253u8);
        push_le(out, n, 8);
        assert(final(out)@ =~= old(out)@ + varint_bytes(n as nat));
    }
}

/// Reads `k` little-endian bytes at `pos`.
fn read_le(b: &[u8], pos: usize, k: usize) -> (v: u64)
    requires
        1 <= k <= 8,
        pos + k <= b.len(),
    ensures
        v == le_value(b@.subrange(pos as int, pos + k)),
{
    let mut v: u64 = 0;
    let mut i: usize = k;
    proof {
        lemma_pow256_values();
        assert(b@.subrange(pos + i, pos + k) =~= Seq::<u8>::empty());
    }
    while i > 0
        invariant
            i <= k <= 8,
            pos + k <= b.len(),
            v == le_value(b@.subrange(pos + i, pos + k)),
            pow256(8) == 0x1_0000_0000_0000_0000,
        decreases i,
    {
        let ghost old_sub = b@.subrange(pos + i, pos + k);
        i = i - 1;
        proof {
            let sub = b@.subrange(pos + i, pos + k);
            assert(sub.drop_first() =~= old_sub);
            assert(sub[0] == b@[pos + i]);
            lemma_le_value_bound(old_sub);
            lemma_pow256_grows((k - i - 1) as nat, 7);
            reveal_with_fuel(pow256, 8);
            assert(pow256(7) == 0x100_0000_0000_0000);
        }
        v = (b[pos + i] as u64) + 256 * v;
    }
    v
}

/// Reads a compact unsigned integer at `pos`: the value and the position
/// just past it, as `read_varint` gives them.
pub fn read_varint_at(b: &[u8], pos: usize) -> (r: Option<(u64, usize)>)
    requires
        pos <= b.len(),
    ensures
        match read_varint(b@.skip(pos as int)) {
            None => r is None,
            Some((v, rest)) => r matches Some((x, p)) && x as nat == v && pos < p <= b.len()
                && rest == b@.skip(p as int),
        },
{
    let ghost s = b@.skip(pos as int);
    if pos >= b.len() {
        return None;
    }
    let tag = b[pos];
    assert(s[0] == tag);
    if tag <= 250 {
        assert(s.skip(1) =~= b@.skip(pos + 1));
        Some((tag as u64, pos + 1))
    } else if tag == 251 {
        if b.len() - pos >= 3 {
            let v = read_le(b, pos + 1, 2);
            assert(s.subrange(1, 3) =~= b@.subrange(pos + 1, pos + 3));
            assert(s.skip(3) =~= b@.skip(pos + 3));
            Some((v, pos + 3))
        } else {
            None
        }
    } else if tag == 252 {
        if b.len() - pos >= 5 {
            let v = read_le(b, pos + 1, 4);
            assert(s.subrange(1, 5) =~= b@.subrange(pos + 1, pos + 5));
            assert(s.skip(5) =~= b@.skip(pos + 5));
            Some((v, pos + 5))
        } else {
            None
        }
    } else if tag == 253 {
        if b.len() - pos >= 9 {
            let v = read_le(b, pos + 1, 8);
            assert(s.subrange(1, 9) =~= b@.subrange(pos + 1, pos + 9));
            assert(s.skip(9) =~= b@.skip(pos + 9));
            Some((v, pos + 9))
        } else {
            None
        }
    } else {
        None
    }
}

/// Reads a compact unsigned 32-bit integer at `pos`.
pub fn read_varint32_at(b: &[u8], pos: usize) -> (r: Option<(u64, usize)>)
    requires
        pos <= b.len(),
    ensures
        match read_varint32(b@.skip(pos as int)) {
            None => r is None,
            Some((v, rest)) => r matches Some((x, p)) && x as nat == v && pos < p <= b.len()
                && rest == b@.skip(p as int),
        },
{
    if pos < b.len() && b[pos] == 253 {
        None
    } else {
        read_varint_at(b, pos)
    }
}

/// Appends a byte string.
pub fn write_bytes_field(out: &mut Vec<u8>, s: &[u8])
    ensures
        final(out)@ == old(out)@ + bytes_field(s@),
        fits_u64(s@.len()),
{
    write_varint(out, s.len() as u64);
    out.extend_from_slice(s);
    assert(final(out)@ =~= old(out)@ + bytes_field(s@));
}

/// Copies `b[start..end]` into a new vector.
pub fn copy_range(b: &[u8], start: usize, end: usize) -> (v: Vec<u8>)
    requires
        start <= end <= b.len(),
    ensures
        v@ == b@.subrange(start as int, end as int),
{
    let mut v: Vec<u8> = Vec::new();
    let mut i = start;
    while i < end
        invariant
            start <= i <= end <= b.len(),
            v@ == b@.subrange(start as int, i as int),
        decreases end - i,
    {
        v.push(b[i]);
        i = i + 1;
        assert(v@ =~= b@.subrange(start as int, i as int));
    }
    v
}

/// Reads a byte string at `pos`.
pub fn read_bytes_field_at(b: &[u8], pos: usize) -> (r: Option<(Vec<u8>, usize)>)
    requires
        pos <= b.len(),
    ensures
        match read_bytes_field(b@.skip(pos as int)) {
            None => r is None,
            Some((s, rest)) => r matches Some((v, p)) && v@ == s && pos < p <= b.len() && rest
                == b@.skip(p as int),
        },
{
    let (n, p) = match read_varint_at(b, pos) {
        Some(x) => x,
        None => return None,
    };
    if n > (b.len() - p) as u64 {
        return None;
    }
    let end = p + n as usize;
    let v = copy_range(b, p, end);
    proof {
        let r = b@.skip(p as int);
        assert(r.take(n as int) =~= b@.subrange(p as int, end as int));
        assert(r.skip(n as int) =~= b@.skip(end as int));
    }
    Some((v, end))
}

/// Appends a text string.
pub fn write_str_field(out: &mut Vec<u8>, s: &str)
    ensures
        final(out)@ == old(out)@ + str_field(s@),
        fits_u64(encode_utf8(s@).len()),
{
    let bytes = s.as_bytes();
    write_bytes_field(out, bytes);
}

/// Reads a text string at `pos`.
pub fn read_str_field_at(b: &[u8], pos: usize) -> (r: Option<(String, usize)>)
    requires
        pos <= b.len(),
    ensures
        match read_str_field(b@.skip(pos as int)) {
            None => r is None,
            Some((c, rest)) => r matches Some((s, p)) && s@ == c && pos < p <= b.len() && rest
                == b@.skip(p as int),
        },
{
    let (v, p) = match read_bytes_field_at(b, pos) {
        Some(x) => x,
        None => return None,
    };
    match utf8_to_string(v) {
        Some(s) => Some((s, p)),
        None => None,
    }
}

/// Appends an optional text string.
pub fn write_opt_str_field(out: &mut Vec<u8>, o: &Option<String>)
    ensures
        final(out)@ == old(out)@ + opt_str_field(opt_view(o)),
        opt_view(o) matches Some(c) ==> fits_u64(encode_utf8(c).len()),
{
    match o {
        None => {
            out.push(0u8);
            assert(final(out)@ =~= old(out)@ + opt_str_field(opt_view(o)));
        },
        Some(s) => {
            out.push(1u8);
            write_str_field(out, s.as_str());
            assert(final(out)@ =~= old(out)@ + opt_str_field(opt_view(o)));
        },
    }
}

/// The characters of an optional string.
pub open spec fn opt_view(o: &Option<String>) -> Option<Seq<char>> {
    match o {
        None => None,
        Some(s) => Some(s@),
    }
}

/// Reads an optional text string at `pos`.
pub fn read_opt_str_field_at(b: &[u8], pos: usize) -> (r: Option<(Option<String>, usize)>)
    requires
        pos <= b.len(),
    ensures
        match read_opt_str_field(b@.skip(pos as int)) {
            None => r is None,
            Some((o, rest)) => r matches Some((x, p)) && opt_view(&x) == o && pos < p <= b.len()
                && rest == b@.skip(p as int),
        },
{
    let ghost s = b@.skip(pos as int);
    if pos >= b.len() {
        return None;
    }
    let tag = b[pos];
    assert(s[0] == tag);
    assert(s.skip(1) =~= b@.skip(pos + 1));
    if tag == 0 {
        Some((None, pos + 1))
    } else if tag == 1 {
        match read_str_field_at(b, pos + 1) {
            Some((st, p)) => Some((Some(st), p)),
            None => None,
        }
    } else {
        None
    }
}

/// Reads a three-byte header at `pos`.
pub fn read_header_at(b: &[u8], pos: usize) -> (r: Option<([u8; 3], usize)>)
    requires
        pos <= b.len(),
    ensures
        match read_header(b@.skip(pos as int)) {
            None => r is None,
            Some((h, rest)) => r matches Some((x, p)) && x@ == h && p == pos + 3 && p <= b.len()
                && rest == b@.skip(p as int),
        },
{
    if b.len() - pos < 3 {
        return None;
    }
    let h = [b[pos], b[pos + 1], b[pos + 2]];
    assert(h@ =~= b@.skip(pos as int).take(3));
    assert(b@.skip(pos as int).skip(3) =~= b@.skip(pos + 3));
    Some((h, pos + 3))
}

/// Appends a three-byte header.
pub fn write_header(out: &mut Vec<u8>, h: &[u8; 3])
    ensures
        final(out)@ == old(out)@ + h@,
{
    out.push(h[0]);
    out.push(h[1]);
    out.push(h[2]);
    assert(final(out)@ =~= old(out)@ + h@);
}

} // verus!
