//! The Noise protocol (`Noise_IK_25519_ChaChaPoly_BLAKE2s`) as the `snow`
//! crate implements it. Key agreement and encryption depend on random
//! ephemeral keys and on the session's nonce, so nothing here names the bytes
//! that come out; what the contracts state are the lengths and the failures
//! that the crate's source shows, and, for every handshake and session, the
//! keys it was built from and the messages and data that went through it.
use vstd::prelude::*;

use crate::messages::{NoiseHandshakeResp, NOISE_HANDSHAKE_RESP_HEADER};

verus! {

/// The Noise protocol name that both sides of every session use.
pub const NOISE_PARAMS: &'static str = "Noise_IK_25519_ChaChaPoly_BLAKE2s";

/// Length of the authentication tag that ChaChaPoly appends.
pub const TAG_LEN: usize = 16;

/// Largest Noise message.
pub const MAX_MESSAGE_LEN: usize = 65535;

/// Largest static private key the builder accepts (X25519).
pub const MAX_PRIVATE_KEY_LEN: usize = 32;

/// Largest remote public key the builder accepts.
pub const MAX_PUBLIC_KEY_LEN: usize = 56;

/// `snow::HandshakeState`: a Noise handshake in progress.
#[verifier::external_type_specification]
#[verifier::external_body]
pub struct ExHandshakeState(snow::HandshakeState);

/// `snow::TransportState`: an established Noise session.
#[verifier::external_type_specification]
#[verifier::external_body]
pub struct ExTransportState(snow::TransportState);

/// `snow::Error`: a failure of the Noise implementation.
#[verifier::external_type_specification]
#[verifier::external_body]
pub struct ExNoiseError(snow::Error);

/// A Noise handshake in progress, with what it was built from: our static
/// private key, the peer's static public key and our side, and the
/// handshake messages written and taken in so far, in order.
pub struct NoiseHandshake {
    state: snow::HandshakeState,
    local_key: Ghost<Seq<u8>>,
    remote_key: Ghost<Seq<u8>>,
    initiator: Ghost<bool>,
    transcript: Ghost<Seq<Seq<u8>>>,
}

/// Builds the initiator side of a handshake with `snow::Builder`
/// (`build_initiator`) from our static private key and the peer's public key,
/// which the handshake records as its keys. The builder copies the keys into
/// buffers of 32 and 56 bytes, and panics on longer keys; whether it accepts
/// shorter ones is left unsaid.
#[verifier::external_body]
pub fn create_noise_initiator(local_private_key: &[u8], remote_public_key: &[u8]) -> (r:
    Result<NoiseHandshake, snow::Error>)
    requires
        local_private_key@.len() <= MAX_PRIVATE_KEY_LEN,
        remote_public_key@.len() <= MAX_PUBLIC_KEY_LEN,
    ensures
        r matches Ok(h) ==> h.local_key() == local_private_key@ && h.remote_key() == remote_public_key@
            && h.is_initiator() && h.transcript() == Seq::<Seq<u8>>::empty(),
{
    let params: snow::params::NoiseParams = NOISE_PARAMS.parse()?;
    let state = snow::Builder::new(params).local_private_key(local_private_key).remote_public_key(
        remote_public_key,
    ).build_initiator()?;
    Ok(NoiseHandshake { state, local_key: Ghost(local_private_key@), remote_key: Ghost(remote_public_key@), initiator: Ghost(true), transcript: Ghost(Seq::empty()) })
}

/// Builds the responder side of a handshake with `snow::Builder`
/// (`build_responder`); as `create_noise_initiator`, on the other side.
#[verifier::external_body]
pub fn create_noise_responder(local_private_key: &[u8], remote_public_key: &[u8]) -> (r:
    Result<NoiseHandshake, snow::Error>)
    requires
        local_private_key@.len() <= MAX_PRIVATE_KEY_LEN,
        remote_public_key@.len() <= MAX_PUBLIC_KEY_LEN,
    ensures
        r matches Ok(h) ==> h.local_key() == local_private_key@ && h.remote_key() == remote_public_key@
            && !h.is_initiator() && h.transcript() == Seq::<Seq<u8>>::empty(),
{
    let params: snow::params::NoiseParams = NOISE_PARAMS.parse()?;
    let state = snow::Builder::new(params).local_private_key(local_private_key).remote_public_key(
        remote_public_key,
    ).build_responder()?;
    Ok(NoiseHandshake { state, local_key: Ghost(local_private_key@), remote_key: Ghost(remote_public_key@), initiator: Ghost(false), transcript: Ghost(Seq::empty()) })
}

/// `HandshakeState::write_message` with an empty payload into a buffer of
/// 1024 bytes: the next handshake message. The message holds fresh ephemeral
/// key material; only its bound is stated.
#[verifier::external_body]
fn handshake_write(state: &mut snow::HandshakeState) -> (r: Result<Vec<u8>, snow::Error>)
    ensures
        r matches Ok(m) ==> m@.len() <= 1024,
{
    let mut buf = [0u8; 1024];
    let len = state.write_message(&[], &mut buf)?;
    Ok(buf[..len].to_vec())
}

/// `HandshakeState::read_message`: takes in the peer's handshake message,
/// with a payload buffer of 1024 bytes. Nothing is stated of the outcome.
#[verifier::external_body]
fn handshake_read(state: &mut snow::HandshakeState, message: &[u8]) -> (r: Result<
    (),
    snow::Error,
>) {
    let mut buf = [0u8; 1024];
    state.read_message(message, &mut buf)?;
    Ok(())
}

/// `HandshakeState::into_transport_mode`: the established session once the
/// handshake is finished. Nothing is stated of the outcome.
#[verifier::external_body]
fn into_transport(state: snow::HandshakeState) -> (r: Result<
    snow::TransportState,
    snow::Error,
>) {
    state.into_transport_mode()
}

/// `TransportState::write_message`: encrypts `data`. The crate refuses a
/// message longer than 65535 bytes; a ciphertext is the plaintext's length
/// plus the 16-byte tag. Its bytes depend on the session key and nonce.
/// Success on shorter messages is left unsaid: the crate also refuses once
/// the session's nonce, which it keeps out of sight, is exhausted.
#[verifier::external_body]
fn transport_encrypt(state: &mut snow::TransportState, data: &[u8]) -> (r: Result<
    Vec<u8>,
    snow::Error,
>)
    ensures
        data@.len() + TAG_LEN > MAX_MESSAGE_LEN ==> r is Err,
        r matches Ok(c) ==> c@.len() == data@.len() + TAG_LEN,
{
    let mut buf = vec![0u8; data.len() + TAG_LEN];
    let len = state.write_message(data, &mut buf)?;
    buf.truncate(len);
    Ok(buf)
}

/// `TransportState::read_message`: decrypts and authenticates `data`. The
/// crate refuses a message longer than 65535 bytes or shorter than the tag;
/// a plaintext is the ciphertext's length less the 16-byte tag. Whether
/// other messages are accepted depends on the session's key and nonce and
/// is left unsaid.
#[verifier::external_body]
fn transport_decrypt(state: &mut snow::TransportState, data: &[u8]) -> (r: Result<
    Vec<u8>,
    snow::Error,
>)
    ensures
        data@.len() > MAX_MESSAGE_LEN || data@.len() < TAG_LEN ==> r is Err,
        r matches Ok(p) ==> p@.len() + TAG_LEN == data@.len(),
{
    let mut buf = vec![0u8; data.len()];
    let len = state.read_message(data, &mut buf)?;
    buf.truncate(len);
    Ok(buf)
}

/// The step of a Noise handshake that failed.
#[derive(Debug, Clone, Copy, PartialEq, Eq, Structural)]
pub enum NoiseFailure {
    /// The initiator could not write its first message.
    InitiatorWrite,
    /// The responder could not take in the initiator's message.
    ResponderRead,
    /// The responder could not write its answer.
    ResponderWrite,
    /// The initiator could not take in the responder's answer.
    InitiatorRead,
    /// The initiator's side could not become a session.
    InitiatorTransport,
    /// The responder's side could not become a session.
    ResponderTransport,
}

impl NoiseHandshake {
    /// Our static private key.
    pub closed spec fn local_key(&self) -> Seq<u8> {
        self.local_key@
    }

    /// The peer's static public key.
    pub closed spec fn remote_key(&self) -> Seq<u8> {
        self.remote_key@
    }

    /// True on the initiator's side.
    pub closed spec fn is_initiator(&self) -> bool {
        self.initiator@
    }

    /// The handshake messages written and taken in so far, in order.
    pub closed spec fn transcript(&self) -> Seq<Seq<u8>> {
        self.transcript@
    }

    /// Writes the next handshake message (with an empty payload), which
    /// joins the transcript; the keys stay.
    pub fn write_message(&mut self) -> (r: Result<Vec<u8>, snow::Error>)
        ensures
            final(self).local_key() == old(self).local_key(),
            final(self).remote_key() == old(self).remote_key(),
            final(self).is_initiator() == old(self).is_initiator(),
            r matches Ok(m) ==> m@.len() <= 1024 && final(self).transcript() == old(self).transcript().push(m@),
            r is Err ==> final(self).transcript() == old(self).transcript(),
    {
        let r = handshake_write(&mut self.state);
        if let Ok(m) = &r {
            self.transcript = Ghost(self.transcript@.push(m@));
        }
        r
    }

    /// Takes in the peer's handshake message, which joins the transcript
    /// when it is accepted; the keys stay.
    pub fn read_message(&mut self, message: &[u8]) -> (r: Result<(), snow::Error>)
        ensures
            final(self).local_key() == old(self).local_key(),
            final(self).remote_key() == old(self).remote_key(),
            final(self).is_initiator() == old(self).is_initiator(),
            r is Ok ==> final(self).transcript() == old(self).transcript().push(message@),
            r is Err ==> final(self).transcript() == old(self).transcript(),
    {
        let r = handshake_read(&mut self.state, message);
        if r.is_ok() {
            self.transcript = Ghost(self.transcript@.push(message@));
        }
        r
    }
}

/// An established Noise session: encrypts what goes to one peer and
/// decrypts what comes from it. It keeps the keys, side and transcript of
/// the handshake it came from, and logs what it was handed and what it
/// encrypted and decrypted.
pub struct NoiseSession {
    transport: snow::TransportState,
    local_key: Ghost<Seq<u8>>,
    remote_key: Ghost<Seq<u8>>,
    initiator: Ghost<bool>,
    transcript: Ghost<Seq<Seq<u8>>>,
    sent: Ghost<Seq<(Seq<u8>, Seq<u8>)>>,
    received: Ghost<Seq<(Seq<u8>, Seq<u8>)>>,
    encrypt_tried: Ghost<Seq<Seq<u8>>>,
    decrypt_tried: Ghost<Seq<Seq<u8>>>,
}

impl NoiseSession {
    /// Our static private key.
    pub closed spec fn local_key(&self) -> Seq<u8> {
        self.local_key@
    }

    /// The peer's static public key.
    pub closed spec fn remote_key(&self) -> Seq<u8> {
        self.remote_key@
    }

    /// True when we were the initiator of the handshake.
    pub closed spec fn is_initiator(&self) -> bool {
        self.initiator@
    }

    /// The messages of the handshake the session came from, in order.
    pub closed spec fn transcript(&self) -> Seq<Seq<u8>> {
        self.transcript@
    }

    /// The (plaintext, ciphertext) pairs encrypted so far, oldest first.
    pub closed spec fn sent_log(&self) -> Seq<(Seq<u8>, Seq<u8>)> {
        self.sent@
    }

    /// The (ciphertext, plaintext) pairs decrypted so far, oldest first.
    pub closed spec fn received_log(&self) -> Seq<(Seq<u8>, Seq<u8>)> {
        self.received@
    }

    /// Every plaintext handed for encryption so far, oldest first.
    pub closed spec fn encrypt_attempts(&self) -> Seq<Seq<u8>> {
        self.encrypt_tried@
    }

    /// Every ciphertext handed for decryption so far, oldest first.
    pub closed spec fn decrypt_attempts(&self) -> Seq<Seq<u8>> {
        self.decrypt_tried@
    }

    /// True when `self` and `o` came from handshakes with the same keys,
    /// side and transcript.
    pub open spec fn same_origin(&self, o: &Self) -> bool {
        &&& self.local_key() == o.local_key()
        &&& self.remote_key() == o.remote_key()
        &&& self.is_initiator() == o.is_initiator()
        &&& self.transcript() == o.transcript()
    }

    /// True when `self` is the fresh session of the handshake `h`: its keys,
    /// side and transcript, and nothing handed to it yet.
    pub open spec fn fresh_from(&self, h: NoiseHandshake) -> bool {
        &&& self.local_key() == h.local_key()
        &&& self.remote_key() == h.remote_key()
        &&& self.is_initiator() == h.is_initiator()
        &&& self.transcript() == h.transcript()
        &&& self.sent_log() == Seq::<(Seq<u8>, Seq<u8>)>::empty()
        &&& self.received_log() == Seq::<(Seq<u8>, Seq<u8>)>::empty()
        &&& self.encrypt_attempts() == Seq::<Seq<u8>>::empty()
        &&& self.decrypt_attempts() == Seq::<Seq<u8>>::empty()
    }

    /// The session of a finished handshake.
    pub fn new(handshake: NoiseHandshake) -> (r: Result<NoiseSession, snow::Error>)
        ensures
            r matches Ok(s) ==> s.fresh_from(handshake),
    {
        let NoiseHandshake { state, local_key, remote_key, initiator, transcript } = handshake;
        match into_transport(state) {
            Ok(transport) => Ok(
                NoiseSession {
                    transport,
                    local_key,
                    remote_key,
                    initiator,
                    transcript,
                    sent: Ghost(Seq::empty()),
                    received: Ghost(Seq::empty()),
                    encrypt_tried: Ghost(Seq::empty()),
                    decrypt_tried: Ghost(Seq::empty()),
                },
            ),
            Err(e) => Err(e),
        }
    }

    /// Encrypts `data` for the peer: refused beyond the largest Noise
    /// message; a ciphertext is the plaintext's length plus the tag. `data`
    /// joins what was handed for encryption, and the pair of it and its
    /// ciphertext joins what was encrypted.
    pub fn encrypt(&mut self, data: &[u8]) -> (r: Result<Vec<u8>, snow::Error>)
        ensures
            data@.len() + TAG_LEN > MAX_MESSAGE_LEN ==> r is Err,
            r matches Ok(c) ==> c@.len() == data@.len() + TAG_LEN,
            final(self).same_origin(&*old(self)),
            final(self).encrypt_attempts() == old(self).encrypt_attempts().push(data@),
            r matches Ok(c) ==> final(self).sent_log() == old(self).sent_log().push((data@, c@)),
            r is Err ==> final(self).sent_log() == old(self).sent_log(),
            final(self).received_log() == old(self).received_log(),
            final(self).decrypt_attempts() == old(self).decrypt_attempts(),
    {
        let r = transport_encrypt(&mut self.transport, data);
        if let Ok(c) = &r {
            self.sent = Ghost(self.sent@.push((data@, c@)));
        }
        self.encrypt_tried = Ghost(self.encrypt_tried@.push(data@));
        r
    }

    /// Decrypts and authenticates `data` from the peer: refused beyond the
    /// largest Noise message or below the tag's length; a plaintext is the
    /// ciphertext's length less the tag. `data` joins what was handed for
    /// decryption, and the pair of it and its plaintext joins what was
    /// decrypted.
    pub fn decrypt(&mut self, data: &[u8]) -> (r: Result<Vec<u8>, snow::Error>)
        ensures
            data@.len() > MAX_MESSAGE_LEN || data@.len() < TAG_LEN ==> r is Err,
            r matches Ok(p) ==> p@.len() + TAG_LEN == data@.len(),
            final(self).same_origin(&*old(self)),
            final(self).decrypt_attempts() == old(self).decrypt_attempts().push(data@),
            r matches Ok(p) ==> final(self).received_log() == old(self).received_log().push((data@, p@)),
            r is Err ==> final(self).received_log() == old(self).received_log(),
            final(self).sent_log() == old(self).sent_log(),
            final(self).encrypt_attempts() == old(self).encrypt_attempts(),
    {
        let r = transport_decrypt(&mut self.transport, data);
        if let Ok(p) = &r {
            self.received = Ghost(self.received@.push((data@, p@)));
        }
        self.decrypt_tried = Ghost(self.decrypt_tried@.push(data@));
        r
    }
}

/// `s` is the fresh session of the handshake `h` after the messages
/// `first` and `second` went through it: `h`'s keys and side, and its
/// transcript followed by those two messages.
pub open spec fn completed(s: NoiseSession, h: NoiseHandshake, first: Seq<u8>, second: Seq<u8>) -> bool {
    &&& s.local_key() == h.local_key()
    &&& s.remote_key() == h.remote_key()
    &&& s.is_initiator() == h.is_initiator()
    &&& s.transcript() == h.transcript().push(first).push(second)
    &&& s.sent_log() == Seq::<(Seq<u8>, Seq<u8>)>::empty()
    &&& s.received_log() == Seq::<(Seq<u8>, Seq<u8>)>::empty()
    &&& s.encrypt_attempts() == Seq::<Seq<u8>>::empty()
    &&& s.decrypt_attempts() == Seq::<Seq<u8>>::empty()
}

/// `i` and `s` are the fresh sessions of the handshakes `hi` and `hr` after
/// the same two messages went through both.
pub open spec fn paired(i: NoiseSession, s: NoiseSession, hi: NoiseHandshake, hr: NoiseHandshake) -> bool {
    exists|first: Seq<u8>, second: Seq<u8>|
        #[trigger] completed(i, hi, first, second) && completed(s, hr, first, second)
}

/// Runs a whole handshake between two local parties, the initiator's first
/// message to the responder and the responder's answer back, and turns both
/// into sessions: the initiator's first. On success each session keeps the
/// keys and side of its handshake, and both went through the same two
/// messages: the one the initiator wrote and the responder took in, then
/// the one the responder wrote and the initiator took in. An error names
/// the step that failed; which of them fails, if any, the Noise
/// implementation decides.
pub fn perform_noise_handshake(initiator: NoiseHandshake, responder: NoiseHandshake)
    -> (r: Result<(NoiseSession, NoiseSession), NoiseFailure>)
    ensures
        r matches Ok((i, s)) ==> paired(i, s, initiator, responder),
{
    let mut ini = initiator;
    let mut res = responder;
    let first = match ini.write_message() {
        Ok(m) => m,
        Err(_) => return Err(NoiseFailure::InitiatorWrite),
    };
    if res.read_message(first.as_slice()).is_err() {
        return Err(NoiseFailure::ResponderRead);
    }
    let second = match res.write_message() {
        Ok(m) => m,
        Err(_) => return Err(NoiseFailure::ResponderWrite),
    };
    if ini.read_message(second.as_slice()).is_err() {
        return Err(NoiseFailure::InitiatorRead);
    }
    let initiator_session = match NoiseSession::new(ini) {
        Ok(t) => t,
        Err(_) => return Err(NoiseFailure::InitiatorTransport),
    };
    let responder_session = match NoiseSession::new(res) {
        Ok(t) => t,
        Err(_) => return Err(NoiseFailure::ResponderTransport),
    };
    assert(completed(initiator_session, initiator, first@, second@));
    assert(completed(responder_session, responder, first@, second@));
    assert(paired(initiator_session, responder_session, initiator, responder));
    Ok((initiator_session, responder_session))
}

/// The responder's side of a handshake: takes in the initiator's message,
/// answers it and becomes a session. The answer is a handshake response
/// message whose payload is the responder's Noise message (at most 1024
/// bytes); the session keeps the responder's keys and side, and went
/// through the initiator's message and then that answer. An error names the
/// step that failed; whether one does, the Noise implementation decides.
pub fn process_noise_handshake_init(responder: NoiseHandshake, init_payload: &[u8]) -> (r:
    Result<(NoiseHandshakeResp, NoiseSession), NoiseFailure>)
    ensures
        r matches Ok((resp, s)) ==> resp.header@ == NOISE_HANDSHAKE_RESP_HEADER@
            && resp.payload@.len() <= 1024 && completed(s, responder, init_payload@, resp.payload@),
        r matches Err(e) ==> e == NoiseFailure::ResponderRead || e == NoiseFailure::ResponderWrite
            || e == NoiseFailure::ResponderTransport,
{
    let ghost h = responder;
    let mut responder = responder;
    if responder.read_message(init_payload).is_err() {
        return Err(NoiseFailure::ResponderRead);
    }
    let answer = match responder.write_message() {
        Ok(m) => m,
        Err(_) => return Err(NoiseFailure::ResponderWrite),
    };
    let ghost answer_bytes = answer@;
    let resp = NoiseHandshakeResp::new(answer);
    let session = match NoiseSession::new(responder) {
        Ok(t) => t,
        Err(_) => return Err(NoiseFailure::ResponderTransport),
    };
    assert(completed(session, h, init_payload@, answer_bytes));
    Ok((resp, session))
}

/// The X25519 public key that belongs to a 32-byte private key: the
/// clamped private key times the curve's base point, as snow derives it.
pub uninterp spec fn x25519_public_key(private: Seq<u8>) -> Seq<u8>;

/// `snow::Builder::generate_keypair`: a fresh X25519 key pair (private,
/// public), each of 32 bytes, from the system's random source, the public
/// key being derived from the private one. The protocol
/// name parses, and the crate's default resolver always supplies the random
/// source and the X25519 implementation, so no error comes back (the random
/// source panics rather than returns when the system fails it). Which keys
/// come out is left unsaid: they are random.
#[verifier::external_body]
pub(crate) fn generate_keypair() -> (r: Result<(Vec<u8>, Vec<u8>), snow::Error>)
    ensures
        r is Ok,
        r matches Ok((private, public)) ==> private@.len() == 32 && public@.len() == 32,
        r matches Ok((private, public)) ==> public@ == x25519_public_key(private@),
{
    let params: snow::params::NoiseParams = NOISE_PARAMS.parse()?;
    let keypair = snow::Builder::new(params).generate_keypair()?;
    Ok((keypair.private, keypair.public))
}

/// A fresh key pair for the client, as the key files hold it: the public
/// key and the private key in URL-safe base64, in that order. Generation
/// always succeeds, the public key is the one that belongs to the private
/// key, and each text has the 43 characters of 32 bytes.
pub fn generate_keypair_texts() -> (r: Option<(String, String)>)
    ensures
        r matches Some((public, private)) && (crate::codec::base64_url_decode(private@) matches Some(k)
            && k.len() == 32 && x25519_public_key(k).len() == 32
            && crate::codec::base64_url_decode(public@) == Some(x25519_public_key(k))) && public@.len() == 43
            && private@.len() == 43,
{
    match generate_keypair() {
        Ok((private, public)) => {
            let public_b64 = crate::codec::base64_encode(public.as_slice());
            let private_b64 = crate::codec::base64_encode(private.as_slice());
            Some((public_b64, private_b64))
        },
        Err(_) => None,
    }
}

} // verus!
