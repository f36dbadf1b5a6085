//! The traffic log of the relay server and its replay: one line per
//! datagram, fields separated by white space, the datagram in hexadecimal.
use vstd::prelude::*;
use vstd::string::StrSliceExecFns;

use crate::codec::{hex_decode, hex_decoded, hex_text, push_hex};
use crate::server::is_white_space;
use crate::text::{all_ascii, ascii_chars, ascii_to_string, is_digit_byte, str_bytes};

verus! {

/// The words of `s` read so far and the word being read.
pub open spec fn words_acc(s: Seq<char>) -> (Seq<Seq<char>>, Seq<char>)
    decreases s.len(),
{
    if s.len() == 0 {
        (Seq::empty(), Seq::empty())
    } else {
        let (ws, cur) = words_acc(s.drop_last());
        let c = s.last();
        if is_white_space(c) {
            if cur.len() > 0 {
                (ws.push(cur), Seq::empty())
            } else {
                (ws, Seq::empty())
            }
        } else {
            (ws, cur.push(c))
        }
    }
}

/// The maximal runs of non-white-space characters of `s`, in order (what
/// `str::split_whitespace` gives).
pub open spec fn words(s: Seq<char>) -> Seq<Seq<char>> {
    let (ws, cur) = words_acc(s);
    if cur.len() > 0 {
        ws.push(cur)
    } else {
        ws
    }
}

/// The texts of a sequence of strings.
pub open spec fn string_views(v: Seq<String>) -> Seq<Seq<char>> {
    v.map_values(|s: String| s@)
}

/// True for white space (`char::is_whitespace`).
pub fn is_whitespace(c: char) -> (r: bool)
    ensures
        r == is_white_space(c),
{
    ('\u{9}' <= c && c <= '\u{d}') || c == ' ' || c == '\u{85}' || c == '\u{a0}' || c == '\u{1680}'
        || ('\u{2000}' <= c && c <= '\u{200a}') || c == '\u{2028}' || c == '\u{2029}' || c
        == '\u{202f}' || c == '\u{205f}' || c == '\u{3000}'
}

proof fn lemma_cur_suffix(s: Seq<char>, k: int)
    requires
        0 <= k <= s.len(),
    ensures
        words_acc(s.take(k)).1.len() <= k,
        words_acc(s.take(k)).1 == s.subrange(k - words_acc(s.take(k)).1.len(), k),
    decreases k,
{
    if k > 0 {
        lemma_cur_suffix(s, k - 1);
        assert(s.take(k).drop_last() =~= s.take(k - 1));
        let cur = words_acc(s.take(k - 1)).1;
        if !is_white_space(s[k - 1]) {
            assert(cur.push(s[k - 1]) =~= s.subrange(k - cur.len() - 1, k));
        }
    } else {
        assert(s.take(0) =~= Seq::<char>::empty());
    }
}

/// Splits `s` into its words, as `str::split_whitespace` does.
pub fn split_whitespace(s: &str) -> (r: Vec<String>)
    ensures
        string_views(r@) == words(s@),
{
    let ghost full = s@;
    let mut out: Vec<String> = Vec::new();
    let mut start: usize = 0;
    let mut in_word = false;
    let n = s.unicode_len();
    let mut i: usize = 0;
    proof {
        assert(s@.take(0) =~= Seq::<char>::empty());
    }
    while i < n
        invariant
            full == s@,
            n == full.len(),
            i <= n,
            string_views(out@) == words_acc(full.take(i as int)).0,
            in_word == (words_acc(full.take(i as int)).1.len() > 0),
            in_word ==> start < i && words_acc(full.take(i as int)).1 == full.subrange(start as int, i as int),
        decreases n - i,
    {
        let c = s.get_char(i);
        proof {
            assert(full.take(i + 1).drop_last() =~= full.take(i as int));
            assert(full.take(i + 1).last() == c);
        }
        if is_whitespace(c) {
            if in_word {
                let w = s.substring_char(start, i).to_owned();
                let ghost before = out@;
                out.push(w);
                assert(string_views(out@) =~= string_views(before).push(w@));
            }
            in_word = false;
        } else {
            if !in_word {
                start = i;
                proof {
                    assert(words_acc(full.take(i as int)).1 =~= Seq::<char>::empty());
                    assert(Seq::<char>::empty().push(c) =~= full.subrange(i as int, i + 1));
                }
            } else {
                proof {
                    assert(full.subrange(start as int, i as int).push(c) =~= full.subrange(start as int, i + 1));
                }
            }
            in_word = true;
        }
        i = i + 1;
    }
    proof {
        assert(full.take(i as int) =~= full);
    }
    if in_word {
        let w = s.substring_char(start, i).to_owned();
        let ghost before = out@;
        out.push(w);
        assert(string_views(out@) =~= string_views(before).push(w@));
    }
    out
}

/// Why a log line could not be read.
#[derive(Debug, Clone, Copy, PartialEq, Eq, Structural)]
pub enum LogLineError {
    /// Too few fields.
    InvalidFormat,
    /// The length field lacks its `len=` prefix.
    MissingLen,
    /// The length is no decimal number that fits a `usize`.
    InvalidLen,
    /// The data field lacks its `data=` prefix.
    MissingData,
    /// The data is no even run of hexadecimal digits.
    InvalidHex,
}

/// A line of the server's traffic log: time stamp, overlay address, data.
#[derive(Debug)]
pub struct ReplayEntry {
    pub _timestamp: String,
    pub sdn_addr: String,
    pub data: Vec<u8>,
}

/// What reading a traffic log line gives: the first three words, the third
/// decoded from hexadecimal.
pub open spec fn replay_entry_of(line: Seq<char>) -> Result<(Seq<char>, Seq<char>, Seq<u8>), LogLineError> {
    let ws = words(line);
    if ws.len() < 3 {
        Err(LogLineError::InvalidFormat)
    } else {
        match hex_decoded(vstd::utf8::encode_utf8(ws[2])) {
            None => Err(LogLineError::InvalidHex),
            Some(d) => Ok((ws[0], ws[1], d)),
        }
    }
}

impl ReplayEntry {
    /// Reads a line of the traffic log.
    pub fn parse(line: &str) -> (r: Result<ReplayEntry, LogLineError>)
        ensures
            match replay_entry_of(line@) {
                Ok((t, a, d)) => r matches Ok(e) && e._timestamp@ == t && e.sdn_addr@ == a && e.data@ == d,
                Err(x) => r matches Err(y) && x == y,
            },
    {
        let parts = split_whitespace(line);
        if parts.len() < 3 {
            return Err(LogLineError::InvalidFormat);
        }
        proof {
            assert(string_views(parts@)[2] == parts@[2]@);
        }
        let data = match hex_decode(str_bytes(parts[2].as_str()).as_slice()) {
            Ok(d) => d,
            Err(_) => return Err(LogLineError::InvalidHex),
        };
        proof {
            assert(string_views(parts@)[0] == parts@[0]@);
            assert(string_views(parts@)[1] == parts@[1]@);
        }
        Ok(ReplayEntry { _timestamp: parts[0].clone(), sdn_addr: parts[1].clone(), data })
    }
}

/// The line that the traffic log holds for a datagram: time stamp, overlay
/// address and the data in lowercase hexadecimal, separated by spaces.
pub open spec fn log_line(timestamp: Seq<char>, sdn_addr: Seq<char>, data: Seq<u8>) -> Seq<char> {
    timestamp + " "@ + sdn_addr + " "@ + ascii_chars(hex_text(data)) + "\n"@
}

/// The traffic log line of a datagram.
pub fn traffic_log_line(timestamp: &str, sdn_addr: &str, data: &[u8]) -> (r: String)
    ensures
        r@ == log_line(timestamp@, sdn_addr@, data@),
{
    let mut hex: Vec<u8> = Vec::new();
    push_hex(&mut hex, data);
    proof {
        lemma_hex_ascii(data@);
        assert(hex@ =~= hex_text(data@));
    }
    let hex_str = ascii_to_string(hex);
    let a = crate::text::concat_strs(timestamp, " ");
    let b = crate::text::concat_strs(a.as_str(), sdn_addr);
    let c = crate::text::concat_strs(b.as_str(), " ");
    let d = crate::text::concat_strs(c.as_str(), hex_str.as_str());
    let r = crate::text::concat_strs(d.as_str(), "\n");
    assert(r@ =~= log_line(timestamp@, sdn_addr@, data@));
    r
}

proof fn lemma_hex_ascii(b: Seq<u8>)
    ensures
        all_ascii(hex_text(b)),
    decreases b.len(),
{
    if b.len() > 0 {
        lemma_hex_ascii(b.drop_last());
        let p = hex_text(b.drop_last());
        let t = hex_text(b);
        assert forall|i: int| 0 <= i < t.len() implies #[trigger] t[i] < 128 by {
            if i < p.len() {
                assert(t[i] == p[i]);
            }
        }
    }
}

/// True when `s` holds no white space.
pub open spec fn no_white_space(s: Seq<char>) -> bool {
    forall|i: int| 0 <= i < s.len() ==> !is_white_space(#[trigger] s[i])
}

proof fn lemma_words_append_word(s: Seq<char>, w: Seq<char>)
    requires
        no_white_space(w),
    ensures
        words_acc(s + w) == (words_acc(s).0, words_acc(s).1 + w),
    decreases w.len(),
{
    if w.len() == 0 {
        assert(s + w =~= s);
        assert(words_acc(s).1 + w =~= words_acc(s).1);
    } else {
        let w0 = w.drop_last();
        assert(no_white_space(w0)) by {
            assert forall|i: int| 0 <= i < w0.len() implies !is_white_space(#[trigger] w0[i]) by {
                assert(w0[i] == w[i]);
            }
        }
        lemma_words_append_word(s, w0);
        assert((s + w).drop_last() =~= s + w0);
        assert((s + w).last() == w.last());
        assert(!is_white_space(w[w.len() - 1]));
        assert(words_acc(s).1 + w0 + seq![w.last()] =~= words_acc(s).1 + w);
        assert((words_acc(s).1 + w0).push(w.last()) =~= words_acc(s).1 + w);
    }
}

proof fn lemma_words_append_space(s: Seq<char>, c: char)
    requires
        is_white_space(c),
    ensures
        words_acc(s + seq![c]) == if words_acc(s).1.len() > 0 {
            (words_acc(s).0.push(words_acc(s).1), Seq::<char>::empty())
        } else {
            (words_acc(s).0, Seq::<char>::empty())
        },
{
    assert((s + seq![c]).drop_last() =~= s);
    assert((s + seq![c]).last() == c);
}

proof fn lemma_hex_text_digits(d: Seq<u8>)
    ensures
        forall|i: int|
            0 <= i < hex_text(d).len() ==> (48 <= #[trigger] hex_text(d)[i] <= 57) || (97
                <= hex_text(d)[i] <= 102),
    decreases d.len(),
{
    if d.len() > 0 {
        lemma_hex_text_digits(d.drop_last());
        let p = hex_text(d.drop_last());
        let t = hex_text(d);
        assert forall|i: int| 0 <= i < t.len() implies (48 <= #[trigger] t[i] <= 57) || (97 <= t[i]
            <= 102) by {
            if i < p.len() {
                assert(t[i] == p[i]);
            }
        }
    }
}

/// A line that the traffic log writes reads back as what was logged, with
/// its line end or without it (as a reader of lines hands it over), when
/// the time stamp and the address are single words and data was logged.
pub proof fn lemma_log_line_roundtrip(t: Seq<char>, a: Seq<char>, d: Seq<u8>)
    requires
        t.len() > 0,
        a.len() > 0,
        d.len() > 0,
        no_white_space(t),
        no_white_space(a),
    ensures
        replay_entry_of(log_line(t, a, d)) == Ok::<(Seq<char>, Seq<char>, Seq<u8>), LogLineError>(
            (t, a, d),
        ),
        replay_entry_of(log_line(t, a, d).drop_last()) == Ok::<(Seq<char>, Seq<char>, Seq<u8>), LogLineError>(
            (t, a, d),
        ),
{
    reveal_strlit(" ");
    reveal_strlit("\n");
    crate::codec::lemma_hex_roundtrip(d);
    lemma_hex_text_digits(d);
    lemma_hex_ascii(d);
    let hb = hex_text(d);
    let h = ascii_chars(hb);
    assert(no_white_space(h)) by {
        assert forall|i: int| 0 <= i < h.len() implies !is_white_space(#[trigger] h[i]) by {
            assert(h[i] == hb[i] as char);
            assert((48 <= hb[i] <= 57) || (97 <= hb[i] <= 102));
        }
    }
    let e = Seq::<char>::empty();
    assert(" "@ =~= seq![' ']);
    assert("\n"@ =~= seq!['\n']);
    lemma_words_append_word(e, t);
    assert(e + t =~= t);
    let s1 = t + seq![' '];
    lemma_words_append_space(t, ' ');
    lemma_words_append_word(s1, a);
    let s2 = s1 + a + seq![' '];
    lemma_words_append_space(s1 + a, ' ');
    lemma_words_append_word(s2, h);
    let s3 = s2 + h + seq!['\n'];
    lemma_words_append_space(s2 + h, '\n');
    assert(log_line(t, a, d) =~= s3);
    assert(words_acc(e) == (Seq::<Seq<char>>::empty(), e));
    assert(words(log_line(t, a, d)) =~= seq![t, a, h]);
    assert(log_line(t, a, d).drop_last() =~= s2 + h);
    assert(words(s2 + h) =~= seq![t, a, h]);
    crate::text::lemma_ascii_utf8(hb);
}

/// A line of a replay file: time stamp, direction, address, length, data.
#[derive(Debug)]
pub struct TrafficEntry {
    pub _timestamp: String,
    pub direction: String,
    pub addr: String,
    pub _len: usize,
    pub data: Vec<u8>,
}

/// `s` with the prefix `p` removed, when it starts with it.
pub open spec fn strip_prefix(s: Seq<char>, p: Seq<char>) -> Option<Seq<char>> {
    if s.len() >= p.len() && s.take(p.len() as int) == p {
        Some(s.skip(p.len() as int))
    } else {
        None
    }
}

/// `s` without one leading `+` sign.
pub open spec fn sign_stripped(s: Seq<char>) -> Seq<char> {
    if s.len() > 0 && s[0] == '+' {
        s.skip(1)
    } else {
        s
    }
}

/// True when every byte is an ASCII decimal digit.
pub open spec fn all_digits(b: Seq<u8>) -> bool {
    forall|i: int| 0 <= i < b.len() ==> is_digit_byte(#[trigger] b[i])
}

/// The value of a `usize` in decimal (an optional `+` sign, then at least
/// one digit), as `usize::from_str` reads it.
pub open spec fn usize_of_text(s: Seq<char>) -> Option<usize> {
    let b = vstd::utf8::encode_utf8(sign_stripped(s));
    if sign_stripped(s).len() > 0 && all_digits(b) && crate::text::digits_value(b) <= usize::MAX {
        Some(crate::text::digits_value(b) as usize)
    } else {
        None
    }
}

/// What reading a replay file line gives.
pub open spec fn traffic_entry_of(line: Seq<char>) -> Result<(Seq<char>, Seq<char>, Seq<char>, usize, Seq<u8>), LogLineError> {
    let ws = words(line);
    if ws.len() < 5 {
        Err(LogLineError::InvalidFormat)
    } else {
        match strip_prefix(ws[3], "len="@) {
            None => Err(LogLineError::MissingLen),
            Some(l) => match usize_of_text(l) {
                None => Err(LogLineError::InvalidLen),
                Some(n) => match strip_prefix(ws[4], "data="@) {
                    None => Err(LogLineError::MissingData),
                    Some(h) => match hex_decoded(vstd::utf8::encode_utf8(h)) {
                        None => Err(LogLineError::InvalidHex),
                        Some(d) => Ok((ws[0], ws[1], ws[2], n, d)),
                    },
                },
            },
        }
    }
}

/// `s` with the prefix `p` removed, when it starts with it.
pub(crate) fn strip_prefix_str<'a>(s: &'a str, p: &str) -> (r: Option<&'a str>)
    ensures
        match strip_prefix(s@, p@) {
            Some(t) => r matches Some(x) && x@ == t,
            None => r is None,
        },
{
    let n = s.unicode_len();
    let m = p.unicode_len();
    if n < m {
        return None;
    }
    let mut i: usize = 0;
    while i < m
        invariant
            m == p@.len(),
            n == s@.len(),
            m <= n,
            i <= m,
            forall|j: int| 0 <= j < i ==> s@[j] == p@[j],
        decreases m - i,
    {
        if s.get_char(i) != p.get_char(i) {
            proof {
                assert(s@.take(m as int)[i as int] != p@[i as int]);
            }
            return None;
        }
        i = i + 1;
    }
    assert(s@.take(m as int) =~= p@);
    Some(s.substring_char(m, n))
}

/// Reads a `usize` written in decimal, with an optional `+` sign.
fn parse_usize(s: &str) -> (r: Option<usize>)
    ensures
        r == usize_of_text(s@),
{
    let digits = match strip_prefix_str(s, "+") {
        Some(d) => d,
        None => s,
    };
    proof {
        reveal_strlit("+");
        if s@.len() > 0 && s@[0] == '+' {
            assert(s@.take(1) =~= "+"@);
        } else if s@.len() >= 1 {
            assert(s@.take(1)[0] != '+');
        }
    }
    let b = str_bytes(digits);
    if b.len() == 0 {
        proof {
            if digits@.len() > 0 {
                vstd::utf8::encode_utf8_decode_utf8(digits@);
            }
        }
        return None;
    }
    let ghost d = sign_stripped(s@);
    assert(digits@ == d);
    let mut v: u128 = 0;
    let mut i: usize = 0;
    while i < b.len()
        invariant
            i <= b@.len(),
            b@ == vstd::utf8::encode_utf8(digits@),
            digits@ == d,
            d == sign_stripped(s@),
            b@.len() > 0,
            forall|j: int| 0 <= j < i ==> is_digit_byte(#[trigger] b@[j]),
            v == crate::text::digits_value(b@.take(i as int)),
            v <= usize::MAX,
        decreases b@.len() - i,
    {
        if b[i] < 48 || b[i] > 57 {
            proof {
                assert(!is_digit_byte(b@[i as int]));
                vstd::utf8::encode_utf8_decode_utf8(digits@);
            }
            return None;
        }
        proof {
            assert(b@.take(i + 1).drop_last() =~= b@.take(i as int));
        }
        let next = v * 10 + (b[i] - 48) as u128;
        if next > usize::MAX as u128 {
            proof {
                vstd::utf8::encode_utf8_decode_utf8(digits@);
                if all_digits(b@) {
                    lemma_digits_monotone(b@, i as int + 1);
                }
            }
            return None;
        }
        v = next;
        i = i + 1;
    }
    assert(b@.take(i as int) =~= b@);
    proof {
        vstd::utf8::encode_utf8_decode_utf8(digits@);
    }
    Some(v as usize)
}

proof fn lemma_digits_monotone(b: Seq<u8>, k: int)
    requires
        0 <= k <= b.len(),
        forall|j: int| 0 <= j < b.len() ==> is_digit_byte(#[trigger] b[j]),
    ensures
        crate::text::digits_value(b.take(k)) <= crate::text::digits_value(b),
    decreases b.len() - k,
{
    if k < b.len() {
        lemma_digits_monotone(b.drop_last(), k);
        assert(b.drop_last().take(k) =~= b.take(k));
        assert(b.drop_last() =~= b.take(b.len() - 1));
    } else {
        assert(b.take(k) =~= b);
    }
}

impl TrafficEntry {
    /// Reads a line of a replay file.
    pub fn parse(line: &str) -> (r: Result<TrafficEntry, LogLineError>)
        ensures
            match traffic_entry_of(line@) {
                Ok((t, d, a, n, data)) => r matches Ok(e) && e._timestamp@ == t && e.direction@ == d
                    && e.addr@ == a && e._len == n && e.data@ == data,
                Err(x) => r matches Err(y) && x == y,
            },
    {
        let parts = split_whitespace(line);
        if parts.len() < 5 {
            return Err(LogLineError::InvalidFormat);
        }
        proof {
            reveal_strlit("len=");
            reveal_strlit("data=");
            assert(string_views(parts@)[3] == parts@[3]@);
            assert(string_views(parts@)[4] == parts@[4]@);
        }
        let len_text = match strip_prefix_str(parts[3].as_str(), "len=") {
            Some(t) => t,
            None => return Err(LogLineError::MissingLen),
        };
        let len = match parse_usize(len_text) {
            Some(n) => n,
            None => return Err(LogLineError::InvalidLen),
        };
        let hex_text = match strip_prefix_str(parts[4].as_str(), "data=") {
            Some(t) => t,
            None => return Err(LogLineError::MissingData),
        };
        let data = match hex_decode(str_bytes(hex_text).as_slice()) {
            Ok(d) => d,
            Err(_) => return Err(LogLineError::InvalidHex),
        };
        proof {
            assert(string_views(parts@)[0] == parts@[0]@);
            assert(string_views(parts@)[1] == parts@[1]@);
            assert(string_views(parts@)[2] == parts@[2]@);
        }
        Ok(
            TrafficEntry {
                _timestamp: parts[0].clone(),
                direction: parts[1].clone(),
                addr: parts[2].clone(),
                _len: len,
                data,
            },
        )
    }
}

/// What the replay does with a line of a replay file.
pub enum ReplayStep {
    /// A blank line, or a datagram the client sent: nothing to replay.
    Skip,
    /// A datagram to send to the server again.
    Send(Vec<u8>),
    /// A line that could not be read.
    Invalid(LogLineError),
}

/// Decides what to replay for a line of a replay file: blank lines and
/// outbound datagrams (direction `OUT`) are skipped.
pub fn replay_step(line: &str) -> (r: ReplayStep)
    ensures
        words(line@).len() == 0 ==> r is Skip,
        words(line@).len() > 0 ==> match traffic_entry_of(line@) {
            Err(e) => r matches ReplayStep::Invalid(x) && x == e,
            Ok((_, d, _, _, data)) => if d == "OUT"@ {
                r is Skip
            } else {
                r matches ReplayStep::Send(v) && v@ == data
            },
        },
{
    let parts = split_whitespace(line);
    if parts.len() == 0 {
        return ReplayStep::Skip;
    }
    match TrafficEntry::parse(line) {
        Ok(entry) => {
            let d = str_bytes(entry.direction.as_str());
            let out = str_bytes("OUT");
            proof {
                vstd::utf8::encode_utf8_decode_utf8(entry.direction@);
                vstd::utf8::encode_utf8_decode_utf8("OUT"@);
            }
            if crate::text::bytes_eq(d.as_slice(), out.as_slice()) {
                ReplayStep::Skip
            } else {
                ReplayStep::Send(entry.data)
            }
        },
        Err(e) => ReplayStep::Invalid(e),
    }
}

} // verus!
