//! Splitting the URLs of the authentication server into host and path.
use vstd::prelude::*;
use vstd::string::StrSliceExecFns;

use crate::text::concat_strs;
use crate::trafficlog::{string_views, strip_prefix, strip_prefix_str};

verus! {

/// Why a URL could not be split.
#[derive(Debug, Clone, Copy, PartialEq, Eq, Structural)]
pub enum UrlError {
    /// The URL starts with neither `http://` nor `https://`.
    ProtoNotFound,
    /// No `/` follows the host.
    NoPath,
}

/// True when `s` holds the character `c`.
pub open spec fn has_char(s: Seq<char>, c: char) -> bool {
    exists|i: int| 0 <= i < s.len() && s[i] == c
}

/// The index of the first `c` in `s`, when `s` holds one.
pub open spec fn first_index(s: Seq<char>, c: char) -> int {
    choose|i: int| 0 <= i < s.len() && s[i] == c && forall|j: int| 0 <= j < i ==> s[j] != c
}

/// The host and path of `url`: the text after the scheme up to the first
/// `/`, and the rest from that `/` on.
pub open spec fn url_parts(url: Seq<char>) -> Result<(Seq<char>, Seq<char>), UrlError> {
    let rest = match strip_prefix(url, "http://"@) {
        Some(r) => Some(r),
        None => strip_prefix(url, "https://"@),
    };
    match rest {
        None => Err(UrlError::ProtoNotFound),
        Some(r) => if has_char(r, '/') {
            let i = first_index(r, '/');
            Ok((r.take(i), "/"@ + r.skip(i + 1)))
        } else {
            Err(UrlError::NoPath)
        },
    }
}

/// Splits an `http://` or `https://` URL into its host (with the port, if
/// any) and its path.
pub fn parse_url(url: String) -> (r: Result<(String, String), UrlError>)
    ensures
        match url_parts(url@) {
            Ok((h, p)) => r matches Ok((host, path)) && host@ == h && path@ == p,
            Err(e) => r matches Err(x) && x == e,
        },
{
    let rest = match strip_prefix_str(url.as_str(), "http://") {
        Some(r) => r,
        None => match strip_prefix_str(url.as_str(), "https://") {
            Some(r) => r,
            None => return Err(UrlError::ProtoNotFound),
        },
    };
    let ghost rest_spec = match strip_prefix(url@, "http://"@) {
        Some(r) => Some(r),
        None => strip_prefix(url@, "https://"@),
    };
    assert(rest_spec == Some(rest@));
    let n = rest.unicode_len();
    let mut i: usize = 0;
    while i < n
        invariant
            rest_spec == Some(rest@),
            rest_spec == match strip_prefix(url@, "http://"@) {
                Some(r) => Some(r),
                None => strip_prefix(url@, "https://"@),
            },
            n == rest@.len(),
            i <= n,
            forall|j: int| 0 <= j < i ==> rest@[j] != '/',
        decreases n - i,
    {
        if rest.get_char(i) == '/' {
            let host = rest.substring_char(0, i).to_owned();
            let tail = rest.substring_char(i + 1, n);
            let path = concat_strs("/", tail);
            proof {
                let k = first_index(rest@, '/');
                assert(0 <= i < rest@.len() && rest@[i as int] == '/' && forall|j: int| 0 <= j < i ==> rest@[j] != '/');
                if k < i {
                    assert(rest@[k] != '/');
                } else if k > i {
                    assert(rest@[i as int] != '/');
                }
                assert(k == i);
                assert(host@ =~= rest@.take(i as int));
                assert(tail@ =~= rest@.skip(i + 1));
                assert(has_char(rest@, '/'));
            }
            return Ok((host, path));
        }
        i = i + 1;
    }
    proof {
        if has_char(rest@, '/') {
            let j = choose|j: int| 0 <= j < rest@.len() && rest@[j] == '/';
            assert(rest@[j] != '/');
        }
    }
    Err(UrlError::NoPath)
}

/// `l` without one trailing carriage return.
pub open spec fn strip_cr(l: Seq<char>) -> Seq<char> {
    if l.len() > 0 && l.last() == '\r' {
        l.drop_last()
    } else {
        l
    }
}

/// The finished lines of `s` and the line still open, reading `s` from the
/// left: a line feed ends a line, and a carriage return just before it is
/// dropped.
pub open spec fn lines_acc(s: Seq<char>) -> (Seq<Seq<char>>, Seq<char>)
    decreases s.len(),
{
    if s.len() == 0 {
        (Seq::empty(), Seq::empty())
    } else {
        let (done, cur) = lines_acc(s.drop_last());
        if s.last() == '\n' {
            (done.push(strip_cr(cur)), Seq::empty())
        } else {
            (done, cur.push(s.last()))
        }
    }
}

/// The lines of `s`, as `str::lines` gives them: split at `\n` or `\r\n`,
/// the last line ending being optional.
pub open spec fn text_lines(s: Seq<char>) -> Seq<Seq<char>> {
    let (done, cur) = lines_acc(s);
    if cur.len() > 0 {
        done.push(cur)
    } else {
        done
    }
}

/// Splits `s` into its lines, as `str::lines` does.
pub fn split_lines(s: &str) -> (r: Vec<String>)
    ensures
        string_views(r@) == text_lines(s@),
{
    let ghost full = s@;
    let mut out: Vec<String> = Vec::new();
    let mut start: usize = 0;
    let n = s.unicode_len();
    let mut i: usize = 0;
    proof {
        assert(full.take(0) =~= Seq::<char>::empty());
    }
    while i < n
        invariant
            full == s@,
            n == full.len(),
            start <= i <= n,
            string_views(out@) == lines_acc(full.take(i as int)).0,
            lines_acc(full.take(i as int)).1 == full.subrange(start as int, i as int),
        decreases n - i,
    {
        let c = s.get_char(i);
        proof {
            assert(full.take(i + 1).drop_last() =~= full.take(i as int));
            assert(full.take(i + 1).last() == c);
        }
        if c == '\n' {
            let ghost cur = full.subrange(start as int, i as int);
            let end = if i > start && s.get_char(i - 1) == '\r' {
                i - 1
            } else {
                i
            };
            let line = s.substring_char(start, end).to_owned();
            proof {
                if i > start && full[i - 1] == '\r' {
                    assert(cur.last() == full[i - 1]);
                    assert(line@ =~= cur.drop_last());
                } else {
                    assert(line@ =~= cur);
                }
                assert(line@ == strip_cr(cur));
            }
            let ghost before = out@;
            out.push(line);
            assert(string_views(out@) =~= string_views(before).push(line@));
            start = i + 1;
            proof {
                assert(full.subrange(start as int, i + 1) =~= Seq::<char>::empty());
            }
        } else {
            proof {
                assert(full.subrange(start as int, i as int).push(c) =~= full.subrange(start as int, i + 1));
            }
        }
        i = i + 1;
    }
    proof {
        assert(full.take(i as int) =~= full);
    }
    if start < n {
        let line = s.substring_char(start, n).to_owned();
        let ghost before = out@;
        out.push(line);
        assert(string_views(out@) =~= string_views(before).push(line@));
    }
    out
}

/// The second of the pieces that `l.split(" ")` gives: the text after the
/// first space up to the next space or the end; `None` without a space.
pub open spec fn second_piece(l: Seq<char>) -> Option<Seq<char>> {
    if has_char(l, ' ') {
        let r = l.skip(first_index(l, ' ') + 1);
        if has_char(r, ' ') {
            Some(r.take(first_index(r, ' ')))
        } else {
            Some(r)
        }
    } else {
        None
    }
}

/// The value of a decimal digit character.
pub open spec fn digit_value(c: char) -> int {
    c as int - '0' as int
}

/// The status code that three characters denote, as
/// `http::StatusCode::from_bytes` reads them: three decimal digits, the
/// first of them not zero.
pub open spec fn status_code_of(w: Seq<char>) -> Option<u16> {
    if w.len() == 3 && '1' <= w[0] <= '9' && '0' <= w[1] <= '9' && '0' <= w[2] <= '9' {
        Some((digit_value(w[0]) * 100 + digit_value(w[1]) * 10 + digit_value(w[2])) as u16)
    } else {
        None
    }
}

/// The index of the first empty line among `ls`, when there is one.
pub open spec fn first_empty(ls: Seq<Seq<char>>) -> int {
    choose|k: int| 0 <= k < ls.len() && ls[k].len() == 0 && forall|j: int| 0 <= j < k ==> ls[j].len() > 0
}

/// The body of a reply whose lines after the status line are `ls`: the line
/// that follows the first empty line, or nothing.
pub open spec fn body_of(ls: Seq<Seq<char>>) -> Seq<char> {
    if exists|k: int| 0 <= k < ls.len() && #[trigger] ls[k].len() == 0 {
        let k = first_empty(ls);
        if k + 1 < ls.len() {
            ls[k + 1]
        } else {
            Seq::empty()
        }
    } else {
        Seq::empty()
    }
}

/// Why a reply of the server could not be read.
#[derive(Debug, Clone, Copy, PartialEq, Eq, Structural)]
pub enum HttpError {
    /// The reply has no status line, or no code in it.
    MissingStatus,
    /// The code is not three digits, the first of them not zero.
    InvalidStatus,
}

/// A reply of the server: its status code and the first line of its body.
#[derive(Debug, PartialEq, Eq)]
pub struct HttpResponse {
    pub status_code: u16,
    pub payload: String,
}

/// The status code and body line of the reply text `s`.
pub open spec fn response_of(s: Seq<char>) -> Result<(u16, Seq<char>), HttpError> {
    let ls = text_lines(s);
    if ls.len() == 0 {
        Err(HttpError::MissingStatus)
    } else {
        match second_piece(ls[0]) {
            None => Err(HttpError::MissingStatus),
            Some(w) => match status_code_of(w) {
                None => Err(HttpError::InvalidStatus),
                Some(c) => Ok((c, body_of(ls.skip(1)))),
            },
        }
    }
}

/// The index of the first `c` in `s` at or after `from`, or the length of
/// `s` when there is none.
fn find_char_from(s: &str, c: char, from: usize) -> (r: usize)
    requires
        from <= s@.len(),
    ensures
        from <= r <= s@.len(),
        forall|j: int| from <= j < r ==> s@[j] != c,
        r < s@.len() ==> s@[r as int] == c,
{
    let n = s.unicode_len();
    let mut i = from;
    while i < n
        invariant
            n == s@.len(),
            from <= i <= n,
            forall|j: int| from <= j < i ==> s@[j] != c,
        decreases n - i,
    {
        if s.get_char(i) == c {
            return i;
        }
        i = i + 1;
    }
    i
}

proof fn lemma_first_index_is(s: Seq<char>, c: char, i: int)
    requires
        0 <= i < s.len(),
        s[i] == c,
        forall|j: int| 0 <= j < i ==> s[j] != c,
    ensures
        has_char(s, c),
        first_index(s, c) == i,
{
    assert(has_char(s, c));
    let k = first_index(s, c);
    assert(0 <= k < s.len() && s[k] == c && forall|j: int| 0 <= j < k ==> s[j] != c);
    if k < i {
        assert(s[k] != c);
    } else if k > i {
        assert(s[i] != c);
    }
}

/// The second piece of `l` split at spaces.
fn second_piece_of(l: &str) -> (r: Option<String>)
    ensures
        match second_piece(l@) {
            Some(w) => r matches Some(x) && x@ == w,
            None => r is None,
        },
{
    let n = l.unicode_len();
    let i = find_char_from(l, ' ', 0);
    if i == n {
        proof {
            if has_char(l@, ' ') {
                let j = choose|j: int| 0 <= j < l@.len() && l@[j] == ' ';
                assert(l@[j] != ' ');
            }
        }
        return None;
    }
    let k = find_char_from(l, ' ', i + 1);
    let w = l.substring_char(i + 1, k).to_owned();
    proof {
        lemma_first_index_is(l@, ' ', i as int);
        let r = l@.skip(i + 1);
        if k < n {
            assert(r[k - i - 1] == ' ');
            assert forall|j: int| 0 <= j < k - i - 1 implies r[j] != ' ' by {
                assert(r[j] == l@[i + 1 + j]);
            }
            lemma_first_index_is(r, ' ', k - i - 1);
            assert(w@ =~= r.take(k - i - 1));
        } else {
            if has_char(r, ' ') {
                let j = choose|j: int| 0 <= j < r.len() && r[j] == ' ';
                assert(r[j] == l@[i + 1 + j]);
            }
            assert(w@ =~= r);
        }
    }
    Some(w)
}

/// The status code that `w` denotes, as `http::StatusCode::from_bytes`
/// reads it.
fn status_code_from(w: &str) -> (r: Option<u16>)
    ensures
        r == status_code_of(w@),
{
    if w.unicode_len() != 3 {
        return None;
    }
    let a = w.get_char(0);
    let b = w.get_char(1);
    let c = w.get_char(2);
    if !('1' <= a && a <= '9' && '0' <= b && b <= '9' && '0' <= c && c <= '9') {
        return None;
    }
    let x: u16 = (a as u32 - '0' as u32) as u16;
    let y: u16 = (b as u32 - '0' as u32) as u16;
    let z: u16 = (c as u32 - '0' as u32) as u16;
    Some(x * 100 + y * 10 + z)
}

/// Reads a reply of the server: the code in its status line and the line
/// that follows the blank line after the headers (empty when there is
/// none).
pub fn parse_http_response(response: &str) -> (r: Result<HttpResponse, HttpError>)
    ensures
        match response_of(response@) {
            Ok((code, body)) => r matches Ok(x) && x.status_code == code && x.payload@ == body,
            Err(e) => r matches Err(x) && x == e,
        },
{
    let lines = split_lines(response);
    let ghost ls = text_lines(response@);
    assert(string_views(lines@) == ls);
    if lines.len() == 0 {
        return Err(HttpError::MissingStatus);
    }
    assert(lines@[0]@ == ls[0]);
    let w = match second_piece_of(lines[0].as_str()) {
        Some(w) => w,
        None => return Err(HttpError::MissingStatus),
    };
    let code = match status_code_from(w.as_str()) {
        Some(c) => c,
        None => return Err(HttpError::InvalidStatus),
    };
    let ghost rest = ls.skip(1);
    let mut k: usize = 1;
    while k < lines.len()
        invariant
            1 <= k <= lines.len(),
            string_views(lines@) == ls,
            rest == ls.skip(1),
            ls == text_lines(response@),
            ls.len() > 0,
            second_piece(ls[0]) == Some(w@),
            status_code_of(w@) == Some(code),
            forall|j: int| 0 <= j < k - 1 ==> rest[j].len() > 0,
        decreases lines.len() - k,
    {
        assert(lines@[k as int]@ == rest[k - 1]);
        if lines[k].unicode_len() == 0 {
            proof {
                assert(rest[k - 1].len() == 0);
                let f = first_empty(rest);
                assert(0 <= f < rest.len() && rest[f].len() == 0 && forall|j: int| 0 <= j < f ==> rest[j].len() > 0);
                if f < k - 1 {
                    assert(rest[f].len() > 0);
                } else if f > k - 1 {
                    assert(rest[k - 1].len() > 0);
                }
            }
            let payload = if k + 1 < lines.len() {
                proof {
                    assert(lines@[k + 1]@ == rest[k as int]);
                }
                lines[k + 1].as_str().to_owned()
            } else {
                String::new()
            };
            proof {
                assert(body_of(rest) == payload@);
            }
            return Ok(HttpResponse { status_code: code, payload });
        }
        k = k + 1;
    }
    proof {
        if exists|j: int| 0 <= j < rest.len() && #[trigger] rest[j].len() == 0 {
            let j = choose|j: int| 0 <= j < rest.len() && #[trigger] rest[j].len() == 0;
            assert(rest[j].len() > 0);
        }
    }
    Ok(HttpResponse { status_code: code, payload: String::new() })
}

/// The request that asks the server, at `host`, for `path` on behalf of the
/// client that holds `key`.
pub fn http_get_request(path: &str, host: &str, key: &str) -> (r: String)
    ensures
        r@ == "GET "@ + path@ + " HTTP/1.1\r\nHost: "@ + host@ + "\r\nAuthorization: Bearer "@ + key@
            + "\r\nConnection: close\r\n\r\n"@,
{
    let a = concat_strs("GET ", path);
    let b = concat_strs(a.as_str(), " HTTP/1.1\r\nHost: ");
    let c = concat_strs(b.as_str(), host);
    let d = concat_strs(c.as_str(), "\r\nAuthorization: Bearer ");
    let e = concat_strs(d.as_str(), key);
    concat_strs(e.as_str(), "\r\nConnection: close\r\n\r\n")
}

} // verus!
