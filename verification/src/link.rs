//! Linking a client with a link code: the addresses of the authentication
//! server that the client asks, and what it makes of the replies.
use vstd::prelude::*;

use crate::http::HttpResponse;
use crate::text::{concat_strs, decimal_string, decimal_text};

verus! {

/// The port of the authentication server when none is given.
pub const DEFAULT_AUTH_PORT: u16 = 8000;

/// The status code of a successful reply.
pub const STATUS_OK: u16 = 200;

/// The port that an optional port setting selects.
pub open spec fn auth_port_of(auth_port: Option<u16>) -> u16 {
    match auth_port {
        Some(p) => p,
        None => DEFAULT_AUTH_PORT,
    }
}

/// The address under which the server checks a stored key:
/// `http://{host}:{port}/auth`.
pub open spec fn auth_url_text(host: Seq<char>, auth_port: Option<u16>) -> Seq<char> {
    "http://"@ + host + ":"@ + decimal_text(auth_port_of(auth_port) as nat) + "/auth"@
}

/// The address under which the server checks a stored key.
pub fn auth_url(host: &str, auth_port: Option<u16>) -> (r: String)
    ensures
        r@ == auth_url_text(host@, auth_port),
{
    let port: u16 = match auth_port {
        Some(p) => p,
        None => DEFAULT_AUTH_PORT,
    };
    let a = concat_strs("http://", host);
    let b = concat_strs(a.as_str(), ":");
    let p = decimal_string(port as u32);
    let c = concat_strs(b.as_str(), p.as_str());
    concat_strs(c.as_str(), "/auth")
}

/// The address under which the server exchanges `link_code` for a key:
/// the key check's address, a slash and the code.
pub fn link_url(host: &str, auth_port: Option<u16>, link_code: &str) -> (r: String)
    ensures
        r@ == auth_url_text(host@, auth_port) + "/"@ + link_code@,
{
    let base = auth_url(host, auth_port);
    let a = concat_strs(base.as_str(), "/");
    concat_strs(a.as_str(), link_code)
}

/// True when the server's reply to the check of a stored key says that the
/// key still authenticates the client, which then needs no new link.
pub fn stored_key_accepted(reply: &HttpResponse) -> (r: bool)
    ensures
        r == (reply.status_code == STATUS_OK),
{
    reply.status_code == STATUS_OK
}

/// Why linking with a code failed.
#[derive(Debug, PartialEq, Eq)]
pub enum LinkError {
    /// The stored key exists but could not be read.
    KeyFileUnreadable,
    /// The server refused the code, with this status and body.
    Refused { status: u16, reason: String },
}

/// The key that the server's reply to a link request hands out, or the
/// refusal with the reply's status and body.
pub fn link_outcome(reply: HttpResponse) -> (r: Result<String, LinkError>)
    ensures
        reply.status_code == STATUS_OK ==> (r matches Ok(k) && k@ == reply.payload@),
        reply.status_code != STATUS_OK ==> (r matches Err(LinkError::Refused { status, reason })
            && status == reply.status_code && reason@ == reply.payload@),
{
    if reply.status_code == STATUS_OK {
        Ok(reply.payload)
    } else {
        Err(LinkError::Refused { status: reply.status_code, reason: reply.payload })
    }
}

} // verus!
