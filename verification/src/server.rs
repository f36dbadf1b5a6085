//! The relay server's traffic counters, its transport mode, and the outcome
//! of a client's handshake.
use vstd::prelude::*;

use crate::messages::{HandshakeError, HandshakeRep, HandshakeReq};
use crate::text::concat_strs;

verus! {

/// How clients reach the relay server.
#[derive(Clone, Copy, PartialEq, Eq, Debug, Structural)]
pub enum TransportMode {
    UDP,
    WebSocket,
}

/// True for the characters that `char::is_whitespace` accepts (Unicode
/// `White_Space`).
pub open spec fn is_white_space(c: char) -> bool {
    ||| ('\u{9}' <= c <= '\u{d}')
    ||| c == ' '
    ||| c == '\u{85}'
    ||| c == '\u{a0}'
    ||| c == '\u{1680}'
    ||| ('\u{2000}' <= c <= '\u{200a}')
    ||| c == '\u{2028}'
    ||| c == '\u{2029}'
    ||| c == '\u{202f}'
    ||| c == '\u{205f}'
    ||| c == '\u{3000}'
}

/// `s` without its leading and trailing white space.
pub open spec fn trimmed(s: Seq<char>) -> Seq<char> {
    if forall|i: int| 0 <= i < s.len() ==> is_white_space(#[trigger] s[i]) {
        Seq::empty()
    } else {
        let a = choose|a: int|
            0 <= a < s.len() && !is_white_space(s[a]) && forall|i: int|
                0 <= i < a ==> is_white_space(#[trigger] s[i]);
        let b = choose|b: int|
            0 <= b < s.len() && !is_white_space(s[b]) && forall|i: int|
                b < i < s.len() ==> is_white_space(#[trigger] s[i]);
        s.subrange(a, b + 1)
    }
}

/// The text that `str::to_lowercase` gives for some text.
pub uninterp spec fn lowercase(s: Seq<char>) -> Seq<char>;

/// `str::trim`: `s` without leading and trailing white space.
#[verifier::external_body]
fn trim_str(s: &str) -> (r: &str)
    ensures
        r@ == trimmed(s@),
{
    s.trim()
}

/// True when every character of `s` is one of the letters `a` to `z`.
pub open spec fn lower_ascii_letters(s: Seq<char>) -> bool {
    forall|i: int| 0 <= i < s.len() ==> 'a' <= #[trigger] s[i] <= 'z'
}

/// True when every character of `s` is ASCII.
pub open spec fn ascii_text(s: Seq<char>) -> bool {
    forall|i: int| 0 <= i < s.len() ==> (#[trigger] s[i] as int) < 128
}

/// `s` with the letters `A` to `Z` turned into `a` to `z`.
pub open spec fn ascii_lower(s: Seq<char>) -> Seq<char> {
    s.map_values(|c: char| if 'A' <= c <= 'Z' { ((c as int) + 32) as char } else { c })
}

/// `str::to_lowercase`: the lowercase equivalent of `s` under Unicode's
/// case mapping. For ASCII text that is the text with `A` to `Z` turned
/// into `a` to `z`, and text that is lowercase already, here made of the
/// letters `a` to `z` alone, is its own lowercase equivalent; of other
/// text nothing more is stated than the name.
#[verifier::external_body]
pub(crate) fn to_lowercase(s: &str) -> (r: String)
    ensures
        r@ == lowercase(s@),
        ascii_text(s@) ==> r@ == ascii_lower(s@),
        lower_ascii_letters(s@) ==> r@ == s@,
{
    s.to_lowercase()
}

/// The transport mode that a mode name selects, once trimmed and in lower
/// case.
pub open spec fn mode_of_name(name: Seq<char>) -> Option<TransportMode> {
    if name == "udp"@ {
        Some(TransportMode::UDP)
    } else if name == "ws"@ || name == "websocket"@ {
        Some(TransportMode::WebSocket)
    } else {
        None
    }
}

impl TransportMode {
    /// The transport mode a configuration value names: "udp", or "ws" or
    /// "websocket", in any case and with surrounding white space.
    pub fn from_string(mode: String) -> (r: Option<TransportMode>)
        ensures
            r == mode_of_name(lowercase(trimmed(mode@))),
            ascii_text(trimmed(mode@)) ==> r == mode_of_name(ascii_lower(trimmed(mode@))),
            lower_ascii_letters(trimmed(mode@)) ==> r == mode_of_name(trimmed(mode@)),
    {
        let t = trim_str(mode.as_str());
        let lower = to_lowercase(t);
        let b = crate::text::str_bytes(lower.as_str());
        proof {
            reveal_strlit("udp");
            reveal_strlit("ws");
            reveal_strlit("websocket");
            vstd::utf8::encode_utf8_decode_utf8(lower@);
            vstd::utf8::encode_utf8_decode_utf8("udp"@);
            vstd::utf8::encode_utf8_decode_utf8("ws"@);
            vstd::utf8::encode_utf8_decode_utf8("websocket"@);
        }
        let udp = crate::text::str_bytes("udp");
        let ws = crate::text::str_bytes("ws");
        let websocket = crate::text::str_bytes("websocket");
        if crate::text::bytes_eq(b.as_slice(), udp.as_slice()) {
            Some(TransportMode::UDP)
        } else if crate::text::bytes_eq(b.as_slice(), ws.as_slice()) || crate::text::bytes_eq(
            b.as_slice(),
            websocket.as_slice(),
        ) {
            Some(TransportMode::WebSocket)
        } else {
            None
        }
    }

    /// The canonical name of the mode.
    pub fn as_string(&self) -> (r: String)
        ensures
            r@ == mode_name(*self),
    {
        match self {
            TransportMode::UDP => "udp".to_owned(),
            TransportMode::WebSocket => "websocket".to_owned(),
        }
    }
}

/// The canonical name of a transport mode.
pub open spec fn mode_name(m: TransportMode) -> Seq<char> {
    match m {
        TransportMode::UDP => "udp"@,
        TransportMode::WebSocket => "websocket"@,
    }
}

/// Text of lowercase letters is left as it is by trimming.
proof fn lemma_trim_letters(s: Seq<char>)
    requires
        s.len() > 0,
        lower_ascii_letters(s),
    ensures
        trimmed(s) == s,
{
    assert(!is_white_space(s[0]));
    let a = choose|a: int|
        0 <= a < s.len() && !is_white_space(s[a]) && forall|i: int|
            0 <= i < a ==> is_white_space(#[trigger] s[i]);
    let b = choose|b: int|
        0 <= b < s.len() && !is_white_space(s[b]) && forall|i: int|
            b < i < s.len() ==> is_white_space(#[trigger] s[i]);
    assert(!is_white_space(s[s.len() - 1]));
    assert(0 <= a < s.len() && !is_white_space(s[a]) && forall|i: int|
        0 <= i < a ==> is_white_space(#[trigger] s[i]));
    assert(0 <= b < s.len() && !is_white_space(s[b]) && forall|i: int|
        b < i < s.len() ==> is_white_space(#[trigger] s[i]));
    if a > 0 {
        assert(is_white_space(s[0]));
    }
    if b < s.len() - 1 {
        assert(is_white_space(s[s.len() - 1]));
    }
    assert(trimmed(s) =~= s);
}

/// A mode's canonical name selects that mode again: the name is made of
/// lowercase letters, which trimming and lowercasing leave as they are, and
/// it is one of the names that `TransportMode::from_string` accepts.
pub proof fn lemma_mode_name_selects_mode(m: TransportMode)
    ensures
        lower_ascii_letters(trimmed(mode_name(m))),
        mode_of_name(trimmed(mode_name(m))) == Some(m),
{
    let s = mode_name(m);
    assert(s.len() > 0 && lower_ascii_letters(s)) by {
        reveal_strlit("udp");
        reveal_strlit("websocket");
    }
    lemma_trim_letters(s);
    assert(mode_of_name(s) == Some(m)) by {
        reveal_strlit("udp");
        reveal_strlit("websocket");
        assert("websocket"@.len() != "udp"@.len());
    }
}

/// The server's counters of relayed traffic.
pub struct ServerStats {
    pub transport_mode: TransportMode,
    pub in_bytes: usize,
    pub out_bytes: usize,
}

/// `a + b` wrapped around `usize`.
pub open spec fn wrapping_sum(a: usize, b: usize) -> usize {
    if a + b > usize::MAX {
        (a + b - usize::MAX - 1) as usize
    } else {
        (a + b) as usize
    }
}

impl ServerStats {
    /// Counters at zero.
    pub fn new(transport_mode: TransportMode) -> (r: ServerStats)
        ensures
            r.transport_mode == transport_mode,
            r.in_bytes == 0,
            r.out_bytes == 0,
    {
        ServerStats { transport_mode, in_bytes: 0, out_bytes: 0 }
    }

    /// Counts `nbytes` received; gives the count before (the counter wraps
    /// around).
    pub fn add_in_bytes(&mut self, nbytes: usize) -> (r: usize)
        ensures
            r == old(self).in_bytes,
            final(self).in_bytes == wrapping_sum(old(self).in_bytes, nbytes),
            final(self).out_bytes == old(self).out_bytes,
            final(self).transport_mode == old(self).transport_mode,
    {
        let before = self.in_bytes;
        self.in_bytes = before.wrapping_add(nbytes);
        before
    }

    /// Counts `nbytes` sent; gives the count before (the counter wraps
    /// around).
    pub fn add_out_bytes(&mut self, nbytes: usize) -> (r: usize)
        ensures
            r == old(self).out_bytes,
            final(self).out_bytes == wrapping_sum(old(self).out_bytes, nbytes),
            final(self).in_bytes == old(self).in_bytes,
            final(self).transport_mode == old(self).transport_mode,
    {
        let before = self.out_bytes;
        self.out_bytes = before.wrapping_add(nbytes);
        before
    }
}

/// A client as the server's records hold it.
pub struct ClientRecord {
    pub netmask: String,
    pub network: String,
    pub sdn_client_ip: String,
}

/// The outcome of a client's handshake.
pub enum HandshakeResult {
    /// Accepted: the reply, the client's overlay address and its public
    /// key.
    Success(HandshakeRep, String, String),
    /// Refused, with the reason.
    Error(HandshakeError),
}

/// The outcome of a handshake whose signed key was verified: `client` is
/// the record found for the key's client, if any.
pub fn handshake_outcome(req: &HandshakeReq, client: Option<ClientRecord>) -> (r: HandshakeResult)
    ensures
        match client {
            None => r matches HandshakeResult::Error(e) && e.error_message@
                == "Authorization failed: Unknown user"@,
            Some(c) => match req.client_public_key {
                None => r matches HandshakeResult::Error(e) && e.error_message@
                    == "Client must provide public key for E2E encryption"@,
                Some(k) => r matches HandshakeResult::Success(rep, ip, key) && rep.netmask@
                    == c.netmask@ && rep.network@ == c.network@ && rep.sdn_ip_addr@
                    == c.sdn_client_ip@ && rep.server_public_key is None && ip@
                    == c.sdn_client_ip@ && key@ == k@,
            },
        },
        r matches HandshakeResult::Error(e) ==> e.header@ == crate::messages::HANDSHAKE_ERROR_HEADER@,
        r matches HandshakeResult::Success(rep, _, _) ==> rep.header@ == crate::messages::HANDSHAKE_REPLY_HEADER@,
{
    match client {
        None => HandshakeResult::Error(HandshakeError::new("Authorization failed: Unknown user")),
        Some(c) => match &req.client_public_key {
            None => HandshakeResult::Error(
                HandshakeError::new("Client must provide public key for E2E encryption"),
            ),
            Some(k) => {
                let rep = HandshakeRep::new(
                    c.netmask.as_str(),
                    c.network.as_str(),
                    c.sdn_client_ip.as_str(),
                );
                HandshakeResult::Success(rep, c.sdn_client_ip, k.clone())
            },
        },
    }
}

/// The outcome of a handshake whose signed key was refused, `reason` being
/// the refusal.
pub fn auth_failure(reason: &str) -> (r: HandshakeResult)
    ensures
        r matches HandshakeResult::Error(e) && e.error_message@ == "Authorization failed: "@
            + reason@ && e.header@ == crate::messages::HANDSHAKE_ERROR_HEADER@,
{
    let msg = concat_strs("Authorization failed: ", reason);
    HandshakeResult::Error(HandshakeError::new(msg.as_str()))
}

} // verus!
