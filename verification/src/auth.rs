//! Signed authentication keys: a payload and its HMAC-SHA256 tag under the
//! server's secret, both in URL-safe base64, joined by a dot.
use vstd::prelude::*;
use vstd::string::StrSliceExecFns;

use crate::codec::{
    base64_decode, base64_encode, base64_url_decode, base64_url_encode, hmac_sha256,
    hmac_sha256_tag, hmac_sha256_verify, is_url_safe_char,
};
use crate::text::concat_strs;

verus! {

/// Number of dots in `s`.
pub open spec fn dot_count(s: Seq<char>) -> nat
    decreases s.len(),
{
    if s.len() == 0 {
        0
    } else {
        dot_count(s.drop_last()) + if s.last() == '.' {
            1nat
        } else {
            0nat
        }
    }
}

/// The text before and after the only dot of `s`; `None` unless `s` holds
/// exactly one dot.
pub open spec fn split_at_dot(s: Seq<char>) -> Option<(Seq<char>, Seq<char>)> {
    if dot_count(s) == 1 {
        let i = choose|i: int| 0 <= i < s.len() && s[i] == '.';
        Some((s.take(i), s.skip(i + 1)))
    } else {
        None
    }
}

/// The signed form of `payload` under `secret`.
pub open spec fn signed_text(secret: Seq<u8>, payload: Seq<u8>) -> Seq<char> {
    base64_url_encode(payload) + "."@ + base64_url_encode(hmac_sha256_tag(secret, payload))
}

/// Why a signed key was refused.
#[derive(Debug, Clone, Copy, PartialEq, Eq, Structural)]
pub enum AuthError {
    /// The key does not consist of two parts joined by one dot.
    Malformed,
    /// The tag part is no URL-safe base64.
    BadEncoding,
    /// The tag does not match the payload.
    BadSignature,
}

impl AuthError {
    /// The refusal text of the error, as the server sends it after
    /// "Authorization failed: ": the key's shape, its tag's encoding, or the
    /// tag check ("MAC tag mismatch", as the HMAC check words it).
    pub fn message(&self) -> (r: String)
        ensures
            r@ == match self {
                AuthError::Malformed => "Malformed key"@,
                AuthError::BadEncoding => "Invalid base64 encoding"@,
                AuthError::BadSignature => "MAC tag mismatch"@,
            },
    {
        match self {
            AuthError::Malformed => "Malformed key".to_owned(),
            AuthError::BadEncoding => "Invalid base64 encoding".to_owned(),
            AuthError::BadSignature => "MAC tag mismatch".to_owned(),
        }
    }
}

/// True when the key can be checked: it is malformed, its tag part does not
/// decode, or its payload part decodes.
pub open spec fn key_checkable(s: Seq<char>) -> bool {
    match split_at_dot(s) {
        None => true,
        Some((k, g)) => base64_url_decode(g) is None || base64_url_decode(k) is Some,
    }
}

/// What checking the signed key `s` under `secret` gives.
pub open spec fn signed_key_result(secret: Seq<u8>, s: Seq<char>) -> Result<Seq<u8>, AuthError> {
    match split_at_dot(s) {
        None => Err(AuthError::Malformed),
        Some((k, g)) => match base64_url_decode(g) {
            None => Err(AuthError::BadEncoding),
            Some(tag) => {
                let payload = base64_url_decode(k)->Some_0;
                if tag == hmac_sha256_tag(secret, payload) {
                    Ok(payload)
                } else {
                    Err(AuthError::BadSignature)
                }
            },
        },
    }
}

/// Signs `key` under `secret`: the base64 of the key, a dot, and the base64
/// of its HMAC-SHA256 tag. Checking the signed key under the same secret
/// accepts it and gives `key` back.
pub fn sign_key(secret: &[u8], key: &[u8]) -> (r: String)
    ensures
        r@ == signed_text(secret@, key@),
        key_checkable(r@),
        signed_key_result(secret@, r@) == Ok::<Seq<u8>, AuthError>(key@),
{
    let tag = hmac_sha256(secret, key);
    let tag_b64 = base64_encode(tag.as_slice());
    let key_b64 = base64_encode(key);
    let with_dot = concat_strs(key_b64.as_str(), ".");
    let r = concat_strs(with_dot.as_str(), tag_b64.as_str());
    assert(r@ =~= signed_text(secret@, key@));
    proof {
        lemma_signed_accepted(secret@, key@);
    }
    r
}

proof fn lemma_dot_count_step(s: Seq<char>, k: int)
    requires
        0 <= k < s.len(),
    ensures
        dot_count(s.take(k + 1)) == dot_count(s.take(k)) + if s[k] == '.' {
            1nat
        } else {
            0nat
        },
{
    assert(s.take(k + 1).drop_last() =~= s.take(k));
}

/// Finds the position of the only dot, if `s` holds exactly one.
fn find_single_dot(s: &str) -> (r: Option<usize>)
    ensures
        match r {
            Some(i) => dot_count(s@) == 1 && i < s@.len() && s@[i as int] == '.' && forall|j: int|
                0 <= j < s@.len() && s@[j] == '.' ==> j == i,
            None => dot_count(s@) != 1,
        },
{
    let n = s.unicode_len();
    let mut i: usize = 0;
    let mut dots: usize = 0;
    let mut pos: usize = 0;
    while i < n
        invariant
            n == s@.len(),
            i <= n,
            dots == dot_count(s@.take(i as int)),
            dots <= i,
            dots == 0 ==> forall|j: int| 0 <= j < i ==> s@[j] != '.',
            dots == 1 ==> pos < i && s@[pos as int] == '.' && forall|j: int|
                0 <= j < i && j != pos ==> s@[j] != '.',
        decreases n - i,
    {
        proof {
            lemma_dot_count_step(s@, i as int);
        }
        if s.get_char(i) == '.' {
            if dots == 0 {
                pos = i;
            }
            dots = dots + 1;
        }
        i = i + 1;
    }
    assert(s@.take(n as int) =~= s@);
    if dots == 1 {
        Some(pos)
    } else {
        None
    }
}

/// Checks a signed key under `secret` and gives the payload it carries.
/// A key whose tag part decodes but whose payload part does not is left out.
pub fn verify_signed_key(secret: &[u8], signed_key: &str) -> (r: Result<Vec<u8>, AuthError>)
    requires
        key_checkable(signed_key@),
    ensures
        match signed_key_result(secret@, signed_key@) {
            Ok(p) => r matches Ok(v) && v@ == p,
            Err(e) => r == Err::<Vec<u8>, AuthError>(e),
        },
{
    let dot = match find_single_dot(signed_key) {
        Some(i) => i,
        None => return Err(AuthError::Malformed),
    };
    let ghost s = signed_key@;
    let n = signed_key.unicode_len();
    let key_part = signed_key.substring_char(0, dot);
    let tag_part = signed_key.substring_char(dot + 1, n);
    proof {
        let i = choose|i: int| 0 <= i < s.len() && s[i] == '.';
        assert(0 <= dot < s.len() && s[dot as int] == '.');
        assert(i == dot);
        assert(key_part@ =~= s.take(dot as int));
        assert(tag_part@ =~= s.skip(dot + 1));
    }
    let tag = match base64_decode(tag_part) {
        Ok(t) => t,
        Err(_) => return Err(AuthError::BadEncoding),
    };
    let payload = match base64_decode(key_part) {
        Ok(p) => p,
        Err(_) => {
            assert(false);
            return Err(AuthError::BadEncoding);
        },
    };
    if hmac_sha256_verify(secret, payload.as_slice(), tag.as_slice()) {
        Ok(payload)
    } else {
        Err(AuthError::BadSignature)
    }
}

/// Checks a signed key where it can be checked; `None` for a key whose tag
/// part decodes but whose payload part does not.
pub fn try_verify_signed_key(secret: &[u8], signed_key: &str) -> (r: Option<Result<Vec<u8>, AuthError>>)
    ensures
        r is None <==> !key_checkable(signed_key@),
        r matches Some(res) ==> match signed_key_result(secret@, signed_key@) {
            Ok(p) => res matches Ok(v) && v@ == p,
            Err(e) => res == Err::<Vec<u8>, AuthError>(e),
        },
{
    let ghost s = signed_key@;
    if let Some(dot) = find_single_dot(signed_key) {
        let n = signed_key.unicode_len();
        let key_part = signed_key.substring_char(0, dot);
        let tag_part = signed_key.substring_char(dot + 1, n);
        proof {
            let i = choose|i: int| 0 <= i < s.len() && s[i] == '.';
            assert(0 <= dot < s.len() && s[dot as int] == '.');
            assert(i == dot);
            assert(key_part@ =~= s.take(dot as int));
            assert(tag_part@ =~= s.skip(dot + 1));
        }
        if base64_decode(tag_part).is_ok() && base64_decode(key_part).is_err() {
            return None;
        }
    }
    Some(verify_signed_key(secret, signed_key))
}

proof fn lemma_no_dots(s: Seq<char>)
    requires
        forall|i: int| 0 <= i < s.len() ==> is_url_safe_char(#[trigger] s[i]),
    ensures
        dot_count(s) == 0,
    decreases s.len(),
{
    if s.len() > 0 {
        lemma_no_dots(s.drop_last());
    }
}

proof fn lemma_dot_count_concat(a: Seq<char>, b: Seq<char>)
    ensures
        dot_count(a + b) == dot_count(a) + dot_count(b),
    decreases b.len(),
{
    if b.len() == 0 {
        assert(a + b =~= a);
    } else {
        lemma_dot_count_concat(a, b.drop_last());
        assert((a + b).drop_last() =~= a + b.drop_last());
    }
}

/// Under the base64 facts of the two encodings, the signed form of a payload
/// is accepted and gives the payload back.
proof fn lemma_signed_accepted(secret: Seq<u8>, payload: Seq<u8>)
    requires
        base64_url_decode(base64_url_encode(payload)) == Some(payload),
        base64_url_decode(base64_url_encode(hmac_sha256_tag(secret, payload))) == Some(
            hmac_sha256_tag(secret, payload),
        ),
        forall|i: int|
            0 <= i < base64_url_encode(payload).len() ==> is_url_safe_char(
                #[trigger] base64_url_encode(payload)[i],
            ),
        forall|i: int|
            0 <= i < base64_url_encode(hmac_sha256_tag(secret, payload)).len() ==> is_url_safe_char(
                #[trigger] base64_url_encode(hmac_sha256_tag(secret, payload))[i],
            ),
    ensures
        key_checkable(signed_text(secret, payload)),
        signed_key_result(secret, signed_text(secret, payload)) == Ok::<Seq<u8>, AuthError>(
            payload,
        ),
{
    let k = base64_url_encode(payload);
    let g = base64_url_encode(hmac_sha256_tag(secret, payload));
    let s = signed_text(secret, payload);
    lemma_no_dots(k);
    lemma_no_dots(g);
    reveal_strlit(".");
    lemma_dot_count_concat(k, "."@);
    lemma_dot_count_concat(k + "."@, g);
    assert("."@.len() == 1);
    assert("."@.last() == '.');
    assert("."@.drop_last() =~= Seq::<char>::empty());
    assert(dot_count(Seq::<char>::empty()) == 0);
    assert(dot_count("."@) == 1);
    assert(s =~= k + "."@ + g);
    let i = choose|i: int| 0 <= i < s.len() && s[i] == '.';
    assert(s[k.len() as int] == '.');
    if i < k.len() {
        assert(s[i] == k[i]);
        assert(is_url_safe_char(k[i]));
    } else if i > k.len() {
        assert(s[i] == g[i - k.len() - 1]);
        assert(is_url_safe_char(g[i - k.len() - 1]));
    }
    assert(i == k.len());
    assert(s.take(i) =~= k);
    assert(s.skip(i + 1) =~= g);
}

} // verus!
