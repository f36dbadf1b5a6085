//! The text of the client's structured log lines: `key=value` fields
//! (logfmt) and JSON string fields.
use vstd::prelude::*;
use vstd::string::StrSliceExecFns;

use crate::text::{ascii_chars, ascii_to_string, concat_strs};

verus! {

/// `s` without surrounding double quotes, when it has both (the way `Debug`
/// renders strings).
pub open spec fn unquoted(s: Seq<char>) -> Seq<char> {
    if s.len() >= 2 && s[0] == '"' && s.last() == '"' {
        s.subrange(1, s.len() - 1)
    } else {
        s
    }
}

/// Removes the double quotes around a value rendered with `Debug`.
pub fn strip_debug_quotes(s: &str) -> (r: &str)
    ensures
        r@ == unquoted(s@),
{
    let n = s.unicode_len();
    if n >= 2 && s.get_char(0) == '"' && s.get_char(n - 1) == '"' {
        s.substring_char(1, n - 1)
    } else {
        s
    }
}

/// True for control characters (Unicode category Cc), as
/// `char::is_control` decides.
pub open spec fn is_control_char(c: char) -> bool {
    ('\u{0}' <= c <= '\u{1f}') || ('\u{7f}' <= c <= '\u{9f}')
}

/// True when a logfmt value must be quoted: it is empty or holds a space,
/// a double quote, an equals sign or a control character.
pub open spec fn needs_quote(v: Seq<char>) -> bool {
    v.len() == 0 || exists|i: int|
        0 <= i < v.len() && (v[i] == ' ' || v[i] == '"' || v[i] == '=' || is_control_char(
            #[trigger] v[i],
        ))
}

/// The logfmt escape of one character.
pub open spec fn kv_escape_char(c: char) -> Seq<char> {
    if c == '"' {
        seq!['\\', '"']
    } else if c == '\\' {
        seq!['\\', '\\']
    } else if c == '\n' {
        seq!['\\', 'n']
    } else if c == '\r' {
        seq!['\\', 'r']
    } else if c == '\t' {
        seq!['\\', 't']
    } else {
        seq![c]
    }
}

/// The logfmt escape of a text.
pub open spec fn kv_escape(s: Seq<char>) -> Seq<char>
    decreases s.len(),
{
    if s.len() == 0 {
        Seq::empty()
    } else {
        kv_escape(s.drop_last()) + kv_escape_char(s.last())
    }
}

/// The logfmt field for `key` and `value`: a space, the key (`msg` for the
/// message), `=`, and the value, quoted and escaped where it must be.
pub open spec fn kv_text(key: Seq<char>, value: Seq<char>) -> Seq<char> {
    let k = if key == "message"@ {
        "msg"@
    } else {
        key
    };
    if needs_quote(value) {
        " "@ + k + "=\""@ + kv_escape(value) + "\""@
    } else {
        " "@ + k + "="@ + value
    }
}

/// The JSON escape of one character.
pub open spec fn json_escape_char(c: char) -> Seq<char> {
    if c == '"' {
        seq!['\\', '"']
    } else if c == '\\' {
        seq!['\\', '\\']
    } else if c == '\n' {
        seq!['\\', 'n']
    } else if c == '\r' {
        seq!['\\', 'r']
    } else if c == '\t' {
        seq!['\\', 't']
    } else if c == '\u{8}' {
        seq!['\\', 'b']
    } else if c == '\u{c}' {
        seq!['\\', 'f']
    } else if (c as u32) < 0x20 {
        seq!['\\', 'u', '0', '0', hex_char((c as u32 / 16) as u8), hex_char((c as u32 % 16) as u8)]
    } else {
        seq![c]
    }
}

/// Lowercase hexadecimal digit of a value below 16.
pub open spec fn hex_char(v: u8) -> char {
    if v < 10 {
        ((v + 48) as u8) as char
    } else {
        ((v + 87) as u8) as char
    }
}

/// The JSON escape of a text.
pub open spec fn json_escape(s: Seq<char>) -> Seq<char>
    decreases s.len(),
{
    if s.len() == 0 {
        Seq::empty()
    } else {
        json_escape(s.drop_last()) + json_escape_char(s.last())
    }
}

/// True for a control character.
fn is_control(c: char) -> (r: bool)
    ensures
        r == is_control_char(c),
{
    ('\u{0}' <= c && c <= '\u{1f}') || ('\u{7f}' <= c && c <= '\u{9f}')
}

/// The logfmt escape of `c`, as text.
fn kv_escape_str(s: &str, i: usize) -> (r: String)
    requires
        i < s@.len() <= usize::MAX,
    ensures
        r@ == kv_escape_char(s@[i as int]),
{
    let c = s.get_char(i);
    let r = if c == '"' {
        "\\\"".to_owned()
    } else if c == '\\' {
        "\\\\".to_owned()
    } else if c == '\n' {
        "\\n".to_owned()
    } else if c == '\r' {
        "\\r".to_owned()
    } else if c == '\t' {
        "\\t".to_owned()
    } else {
        s.substring_char(i, i + 1).to_owned()
    };
    proof {
        reveal_strlit("\\\"");
        reveal_strlit("\\\\");
        reveal_strlit("\\n");
        reveal_strlit("\\r");
        reveal_strlit("\\t");
        assert(s@.subrange(i as int, i + 1) =~= seq![c]);
    }
    r
}

/// The logfmt field for `key` and `value`, as the log line holds it.
pub fn write_kv(key: &str, value: &str) -> (r: String)
    ensures
        r@ == kv_text(key@, value@),
{
    let is_message = crate::text::bytes_eq(
        crate::text::str_bytes(key).as_slice(),
        crate::text::str_bytes("message").as_slice(),
    );
    proof {
        vstd::utf8::encode_utf8_decode_utf8(key@);
        vstd::utf8::encode_utf8_decode_utf8("message"@);
    }
    let k: &str = if is_message {
        "msg"
    } else {
        key
    };
    let n = value.unicode_len();
    let mut quote = n == 0;
    let mut i: usize = 0;
    while i < n
        invariant
            n == value@.len(),
            i <= n,
            quote == (n == 0 || exists|j: int|
                0 <= j < i && (value@[j] == ' ' || value@[j] == '"' || value@[j] == '='
                    || is_control_char(#[trigger] value@[j]))),
        decreases n - i,
    {
        let c = value.get_char(i);
        if c == ' ' || c == '"' || c == '=' || is_control(c) {
            quote = true;
        }
        i = i + 1;
    }
    let head = concat_strs(" ", k);
    if quote {
        let mut acc = concat_strs(head.as_str(), "=\"");
        let ghost base = acc@;
        let mut j: usize = 0;
        proof {
            assert(value@.take(0) =~= Seq::<char>::empty());
        }
        while j < n
            invariant
                n == value@.len(),
                j <= n,
                acc@ == base + kv_escape(value@.take(j as int)),
            decreases n - j,
        {
            let e = kv_escape_str(value, j);
            acc = concat_strs(acc.as_str(), e.as_str());
            proof {
                assert(value@.take(j + 1).drop_last() =~= value@.take(j as int));
                assert(value@.take(j + 1).last() == value@[j as int]);
                assert(acc@ =~= base + kv_escape(value@.take(j + 1)));
            }
            j = j + 1;
        }
        assert(value@.take(n as int) =~= value@);
        let r = concat_strs(acc.as_str(), "\"");
        assert(r@ =~= kv_text(key@, value@));
        r
    } else {
        let with_eq = concat_strs(head.as_str(), "=");
        let r = concat_strs(with_eq.as_str(), value);
        assert(r@ =~= kv_text(key@, value@));
        r
    }
}

/// The JSON escape of `s[i]`, as text.
fn json_escape_str(s: &str, i: usize) -> (r: String)
    requires
        i < s@.len() <= usize::MAX,
    ensures
        r@ == json_escape_char(s@[i as int]),
{
    let c = s.get_char(i);
    let code = c as u32;
    if c == '"' {
        proof {
            reveal_strlit("\\\"");
        }
        "\\\"".to_owned()
    } else if c == '\\' {
        proof {
            reveal_strlit("\\\\");
        }
        "\\\\".to_owned()
    } else if c == '\n' {
        proof {
            reveal_strlit("\\n");
        }
        "\\n".to_owned()
    } else if c == '\r' {
        proof {
            reveal_strlit("\\r");
        }
        "\\r".to_owned()
    } else if c == '\t' {
        proof {
            reveal_strlit("\\t");
        }
        "\\t".to_owned()
    } else if c == '\u{8}' {
        proof {
            reveal_strlit("\\b");
        }
        "\\b".to_owned()
    } else if c == '\u{c}' {
        proof {
            reveal_strlit("\\f");
        }
        "\\f".to_owned()
    } else if code < 0x20 {
        let hi = (code / 16) as u8;
        let lo = (code % 16) as u8;
        let mut b: Vec<u8> = Vec::new();
        b.push(92);
        b.push(117);
        b.push(48);
        b.push(48);
        b.push(if hi < 10 { hi + 48 } else { hi + 87 });
        b.push(if lo < 10 { lo + 48 } else { lo + 87 });
        let r = ascii_to_string(b);
        assert(r@ =~= json_escape_char(c));
        r
    } else {
        let r = s.substring_char(i, i + 1).to_owned();
        assert(r@ =~= seq![c]);
        r
    }
}

/// A JSON string literal holding `s`.
pub fn write_json_string(s: &str) -> (r: String)
    ensures
        r@ == "\""@ + json_escape(s@) + "\""@,
{
    let n = s.unicode_len();
    let mut acc = "\"".to_owned();
    let ghost base = acc@;
    let mut j: usize = 0;
    proof {
        assert(s@.take(0) =~= Seq::<char>::empty());
    }
    while j < n
        invariant
            n == s@.len(),
            j <= n,
            acc@ == base + json_escape(s@.take(j as int)),
        decreases n - j,
    {
        let e = json_escape_str(s, j);
        acc = concat_strs(acc.as_str(), e.as_str());
        proof {
            assert(s@.take(j + 1).drop_last() =~= s@.take(j as int));
            assert(s@.take(j + 1).last() == s@[j as int]);
            assert(acc@ =~= base + json_escape(s@.take(j + 1)));
        }
        j = j + 1;
    }
    assert(s@.take(n as int) =~= s@);
    concat_strs(acc.as_str(), "\"")
}

/// A JSON field with a raw value: a comma, the quoted key, a colon, the
/// value as it is.
pub fn write_raw(key: &str, raw: &str) -> (r: String)
    ensures
        r@ == ","@ + "\""@ + json_escape(key@) + "\""@ + ":"@ + raw@,
{
    let k = write_json_string(key);
    let a = concat_strs(",", k.as_str());
    let b = concat_strs(a.as_str(), ":");
    let r = concat_strs(b.as_str(), raw);
    assert(r@ =~= ","@ + "\""@ + json_escape(key@) + "\""@ + ":"@ + raw@);
    r
}

/// A JSON field with a string value.
pub fn write_string(key: &str, value: &str) -> (r: String)
    ensures
        r@ == ","@ + "\""@ + json_escape(key@) + "\""@ + ":"@ + "\""@ + json_escape(value@) + "\""@,
{
    let v = write_json_string(value);
    let r = write_raw(key, v.as_str());
    assert(r@ =~= ","@ + "\""@ + json_escape(key@) + "\""@ + ":"@ + "\""@ + json_escape(value@) + "\""@);
    r
}

} // verus!
