//! The decisions of the server's web interface and of its link codes: the
//! network a new client gets, the links and cookies it hands out, and
//! whether a link code still authenticates a client.
use vstd::prelude::*;

use crate::ipv4::{calculate_network_address, ipv4_of_text};
use crate::model::{AuthClient, CreateClientRequest, User};
use crate::text::concat_strs;

verus! {

/// The network address of a client to create: the bitwise AND of its
/// address and its netmask, as text; the refusal names which of the two is
/// no IPv4 address.
pub fn create_client_network(req: &CreateClientRequest) -> (r: Result<String, String>)
    ensures
        match (ipv4_of_text(req.sdn_client_ip@), ipv4_of_text(req.netmask@)) {
            (Some(ip), Some(mask)) => r matches Ok(n) && n@ == (crate::ipv4::Ipv4 { bits: ip.bits & mask.bits }).text(),
            (None, _) => r matches Err(e) && e@ == "Invalid netmask or IP: "@ + "Invalid IP address format"@,
            (Some(_), None) => r matches Err(e) && e@ == "Invalid netmask or IP: "@ + "Invalid netmask format"@,
        },
{
    match calculate_network_address(req.sdn_client_ip.as_str(), req.netmask.as_str()) {
        Ok(n) => Ok(n.to_string()),
        Err(e) => Err(concat_strs("Invalid netmask or IP: ", e.as_str())),
    }
}

/// The link a client opens to authenticate with its link code.
pub fn auth_link_url(server_url: &str, auth_link_id: &str) -> (r: String)
    ensures
        r@ == server_url@ + "/auth/"@ + auth_link_id@,
{
    let a = concat_strs(server_url, "/auth/");
    concat_strs(a.as_str(), auth_link_id)
}

/// The cookie that carries a web session token for a day.
pub fn session_cookie(token: &str) -> (r: String)
    ensures
        r@ == "auth_token="@ + token@ + "; HttpOnly; SameSite=Strict; Path=/; Max-Age=86400"@,
{
    let a = concat_strs("auth_token=", token);
    concat_strs(a.as_str(), "; HttpOnly; SameSite=Strict; Path=/; Max-Age=86400")
}

/// What a link code's row decides: the client it authenticates, or why it
/// authenticates none.
pub open spec fn link_decision(used: Option<bool>, client_id: Option<Seq<char>>) -> Result<Seq<char>, Seq<char>> {
    match used {
        None => Err("Unexpected error on auth"@),
        Some(true) => Err("Link key already used"@),
        Some(false) => match client_id {
            None => Err("No user"@),
            Some(id) => Ok(id),
        },
    }
}

/// The client id of a row, as text.
pub open spec fn client_id_text(a: &AuthClient) -> Option<Seq<char>> {
    match &a.client_id {
        Some(id) => Some(id@),
        None => None,
    }
}

/// A link code authenticates at most once: once a row's decision named a
/// client and the row was marked used, its decision is the refusal of a
/// used code, whoever asks and with whatever key.
pub proof fn lemma_link_authenticates_once(used: Option<bool>, client_id: Option<Seq<char>>)
    requires
        link_decision(used, client_id) is Ok,
    ensures
        link_decision(Some(true), client_id) == Err::<Seq<char>, Seq<char>>("Link key already used"@),
        used == Some(false),
{
}

impl AuthClient {
    /// The client a link code authenticates: refused when the code's use is
    /// unknown, when the code was used already, or when it names no client.
    pub fn link_client_id(&self) -> (r: Result<String, String>)
        ensures
            match self.used {
                None => r matches Err(e) && e@ == "Unexpected error on auth"@,
                Some(true) => r matches Err(e) && e@ == "Link key already used"@,
                Some(false) => match &self.client_id {
                    None => r matches Err(e) && e@ == "No user"@,
                    Some(id) => r matches Ok(c) && c@ == id@,
                },
            },
            match r {
                Ok(c) => link_decision(self.used, client_id_text(self)) == Ok::<Seq<char>, Seq<char>>(c@),
                Err(e) => link_decision(self.used, client_id_text(self)) == Err::<Seq<char>, Seq<char>>(e@),
            },
    {
        match self.used {
            None => Err("Unexpected error on auth".to_owned()),
            Some(true) => Err("Link key already used".to_owned()),
            Some(false) => match &self.client_id {
                None => Err("No user".to_owned()),
                Some(id) => Ok(id.clone()),
            },
        }
    }

    /// Redeems the link code of this row: the decision of `link_client_id`,
    /// and on success the row is marked used, as the server writes it; a
    /// refused row stays as it was.
    pub fn redeem(&mut self) -> (r: Result<String, String>)
        ensures
            match r {
                Ok(c) => link_decision(old(self).used, client_id_text(&*old(self))) == Ok::<Seq<char>, Seq<char>>(c@),
                Err(e) => link_decision(old(self).used, client_id_text(&*old(self))) == Err::<Seq<char>, Seq<char>>(e@),
            },
            r is Ok ==> final(self).used == Some(true),
            r is Err ==> final(self).used == old(self).used,
            client_id_text(&*final(self)) == client_id_text(&*old(self)),
    {
        let r = self.link_client_id();
        if r.is_ok() {
            self.used = Some(true);
        }
        r
    }
}

/// What `bcrypt::verify` answers for a password and a stored hash: whether
/// the password hashes, with the hash's cost and salt, to the hash; `None`
/// where the hash is no bcrypt hash.
pub uninterp spec fn bcrypt_verdict(password: Seq<char>, hash: Seq<char>) -> Option<bool>;

/// True when every character of `s` is ASCII.
pub open spec fn all_ascii(s: Seq<char>) -> bool {
    forall|i: int| 0 <= i < s.len() ==> (#[trigger] s[i] as int) < 128
}

/// `bcrypt::verify`: recomputes the hash of `password` with the cost and
/// salt that `hash` holds and compares. Its answer is named; what is stated
/// besides is that a hash other than 60 ASCII characters is refused.
#[verifier::external_body]
fn bcrypt_verify(password: &str, hash: &str) -> (r: Option<bool>)
    ensures
        r == bcrypt_verdict(password@, hash@),
        !(hash@.len() == 60 && all_ascii(hash@)) ==> r is None,
{
    bcrypt::verify(password, hash).ok()
}

/// The answer to a login attempt.
#[derive(Debug, Clone, Copy, PartialEq, Eq, Structural)]
pub enum LoginOutcome {
    /// The password matches the user's stored hash.
    Accepted,
    /// No user has the given email, or the password does not match.
    InvalidCredentials,
}

/// Decides a login attempt with `password` for the user the email named, if
/// any: accepted exactly when the password matches the user's stored
/// hash.
pub fn login_outcome(user: Option<&User>, password: &str) -> (r: LoginOutcome)
    ensures
        r == match user {
            None => LoginOutcome::InvalidCredentials,
            Some(u) => if bcrypt_verdict(password@, u.password_hash@) == Some(true) {
                LoginOutcome::Accepted
            } else {
                LoginOutcome::InvalidCredentials
            },
        },
{
    match user {
        None => LoginOutcome::InvalidCredentials,
        Some(u) => match bcrypt_verify(password, u.password_hash.as_str()) {
            Some(true) => LoginOutcome::Accepted,
            _ => LoginOutcome::InvalidCredentials,
        },
    }
}

} // verus!
