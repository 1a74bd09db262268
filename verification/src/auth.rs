//! Identities and the handshake by which two nodes authenticate each
//! other and agree on the keys of their sealed streams.
//!
//! The handshake is written as steps. Each step takes the frame that has
//! arrived and gives the frame to send, so that the caller only moves
//! bytes; what is checked, signed, mixed into the transcript and derived
//! is decided here.

use vstd::prelude::*;
use vstd::string::StringExecFns;
use vstd::utf8::encode_utf8;

use crate::bytes::append_bytes;
use crate::bytes::be_u128;
use crate::bytes::be_u16;
use crate::bytes::be_u64;
use crate::bytes::copy_bytes;
use crate::bytes::hex_encode;
use crate::bytes::hex_text;
use crate::bytes::put_u128;
use crate::bytes::put_u16;
use crate::bytes::put_u64;
use crate::consent::ConsentDecision;
use crate::crypto::aead_open;
use crate::crypto::aead_seal;
use crate::crypto::aead_sealable;
use crate::crypto::blake3_digest;
use crate::crypto::blake3_hash;
use crate::crypto::chacha_open;
use crate::crypto::chacha_seal;
use crate::crypto::ed25519_decodes;
use crate::crypto::ed25519_key_decodes;
use crate::crypto::ed25519_public;
use crate::crypto::ed25519_public_key;
use crate::crypto::ed25519_sign;
use crate::crypto::ed25519_signature;
use crate::crypto::ed25519_verifies;
use crate::crypto::ed25519_verify;
use crate::crypto::os_random_bytes32;
use crate::crypto::random_bytes32;
use crate::crypto::x25519;
use crate::crypto::x25519_basepoint;
use crate::crypto::x25519_point;
use crate::secure_stream::nonce_bytes;
use crate::secure_stream::nonce_of;
use crate::transcript::Transcript;
use crate::trust::is_entry;
use crate::trust::lists_key;
use crate::trust::TrustedStore;
use crate::wire::enc_bytes;
use crate::wire::enc_text;
use crate::wire::lemma_parse_bytes;
use crate::wire::lemma_parse_fixed;
use crate::wire::lemma_parse_text;
use crate::wire::lemma_parse_u128;
use crate::wire::lemma_parse_u16;
use crate::wire::lemma_parse_u64;
use crate::wire::lemma_parse_u8;
use crate::wire::parse_bytes;
use crate::wire::parse_fixed;
use crate::wire::parse_text;
use crate::wire::parse_u128;
use crate::wire::parse_u16;
use crate::wire::parse_u64;
use crate::wire::parse_u8;
use crate::wire::put_bytes;
use crate::wire::put_text;
use crate::wire::Reader;

verus! {

/// The version of the handshake that this node speaks.
pub const PROTOCOL_VERSION: u16 = 2;

/// The first message of either side: its ephemeral key, a nonce, and what
/// it offers.
#[derive(Debug)]
pub struct HandshakeHello {
    pub version: u16,
    pub nonce: [u8; 32],
    /// The X25519 public key of this handshake.
    pub eph_pub: [u8; 32],
    /// The bytes that the sender lets the receiver store on it.
    pub quota: u64,
    pub total_memory: u64,
}

/// What a side proves of itself, sealed under the handshake key.
#[derive(Debug)]
pub struct HandshakeAuth {
    pub node_id: u128,
    /// The Ed25519 public key of the node.
    pub pub_key: [u8; 32],
    pub name: String,
    /// The node's signature on the hash of the transcript.
    pub signature: Vec<u8>,
}

/// A message of the handshake.
#[derive(Debug)]
pub enum HandshakeMessage {
    Hello(HandshakeHello),
    /// A sealed `HandshakeAuth`.
    Auth(Vec<u8>),
    ConsentRequired { reason: String },
    ConsentDenied,
}

/// What a completed handshake leaves: the keys of the two directions, and
/// what the peer said of itself.
pub struct Session {
    pub send_key: [u8; 32],
    pub recv_key: [u8; 32],
    pub peer_id: u128,
    pub peer_name: String,
    pub peer_quota: u64,
    pub peer_total_memory: u64,
}

/// Why a handshake failed.
#[derive(Debug, Clone, Copy, PartialEq, Eq, Structural)]
pub enum HandshakeError {
    /// The frame is no handshake message.
    Malformed,
    /// The frame holds a handshake message, but not the one that is due.
    Unexpected,
    /// The peer speaks another version of the handshake.
    VersionMismatch,
    /// The peer's proof does not open under the handshake key.
    DecryptionFailed,
    /// The peer's public key is no Ed25519 key.
    InvalidKey,
    /// The peer's signature is not 64 bytes long.
    InvalidSignatureLength,
    /// The peer's signature does not verify.
    BadSignature,
    /// The operator of the peer, or of this node, refused the connection.
    ConsentDenied,
    /// This node's own proof is too long to seal.
    EncryptionFailed,
    /// The system gave no randomness for a secret key.
    NoRandomness,
}

/// A hello as the values that it carries.
pub struct HelloView {
    pub version: u16,
    pub nonce: Seq<u8>,
    pub eph_pub: Seq<u8>,
    pub quota: u64,
    pub total_memory: u64,
}

/// A proof of identity as the values that it carries.
pub struct AuthView {
    pub node_id: u128,
    pub pub_key: Seq<u8>,
    pub name: Seq<char>,
    pub signature: Seq<u8>,
}

/// A handshake message as the values that it carries.
pub enum HandshakeView {
    Hello(HelloView),
    Auth(Seq<u8>),
    ConsentRequired { reason: Seq<char> },
    ConsentDenied,
}

impl View for HandshakeHello {
    type V = HelloView;

    open spec fn view(&self) -> HelloView {
        HelloView {
            version: self.version,
            nonce: self.nonce@,
            eph_pub: self.eph_pub@,
            quota: self.quota,
            total_memory: self.total_memory,
        }
    }
}

impl View for HandshakeAuth {
    type V = AuthView;

    open spec fn view(&self) -> AuthView {
        AuthView {
            node_id: self.node_id,
            pub_key: self.pub_key@,
            name: self.name@,
            signature: self.signature@,
        }
    }
}

impl View for HandshakeMessage {
    type V = HandshakeView;

    open spec fn view(&self) -> HandshakeView {
        match *self {
            HandshakeMessage::Hello(h) => HandshakeView::Hello(h@),
            HandshakeMessage::Auth(sealed) => HandshakeView::Auth(sealed@),
            HandshakeMessage::ConsentRequired { reason } => HandshakeView::ConsentRequired {
                reason: reason@,
            },
            HandshakeMessage::ConsentDenied => HandshakeView::ConsentDenied,
        }
    }
}

/// The bytes of a handshake message: its tag, then its fields in order.
pub open spec fn encode_handshake(m: HandshakeView) -> Seq<u8> {
    match m {
        HandshakeView::Hello(h) => {
            let offer = be_u64(h.quota) + be_u64(h.total_memory);
            seq![0u8] + (be_u16(h.version) + (h.nonce + (h.eph_pub + offer)))
        },
        HandshakeView::Auth(sealed) => seq![1u8] + enc_bytes(sealed),
        HandshakeView::ConsentRequired { reason } => seq![2u8] + enc_text(reason),
        HandshakeView::ConsentDenied => seq![3u8],
    }
}

/// The fields of a hello.
pub open spec fn decode_hello_fields(s: Seq<u8>) -> Option<HandshakeView> {
    match parse_u16(s) {
        Some((version, r1)) => match parse_fixed(r1, 32) {
            Some((nonce, r2)) => match parse_fixed(r2, 32) {
                Some((eph_pub, r3)) => match parse_u64(r3) {
                    Some((quota, r4)) => match parse_u64(r4) {
                        Some((total_memory, r5)) => if r5.len() == 0 {
                            Some(
                                HandshakeView::Hello(
                                    HelloView { version, nonce, eph_pub, quota, total_memory },
                                ),
                            )
                        } else {
                            None
                        },
                        None => None,
                    },
                    None => None,
                },
                None => None,
            },
            None => None,
        },
        None => None,
    }
}

/// The handshake message that a byte string holds.
pub open spec fn decode_handshake(s: Seq<u8>) -> Option<HandshakeView> {
    match parse_u8(s) {
        None => None,
        Some((tag, r)) => if tag == 0 {
            decode_hello_fields(r)
        } else if tag == 1 {
            match parse_bytes(r) {
                Some((sealed, r1)) => if r1.len() == 0 {
                    Some(HandshakeView::Auth(sealed))
                } else {
                    None
                },
                None => None,
            }
        } else if tag == 2 {
            match parse_text(r) {
                Some((reason, r1)) => if r1.len() == 0 {
                    Some(HandshakeView::ConsentRequired { reason })
                } else {
                    None
                },
                None => None,
            }
        } else if tag == 3 {
            if r.len() == 0 {
                Some(HandshakeView::ConsentDenied)
            } else {
                None
            }
        } else {
            None
        },
    }
}

/// The bytes of a proof of identity, before they are sealed.
pub open spec fn encode_auth(a: AuthView) -> Seq<u8> {
    be_u128(a.node_id) + (a.pub_key + (enc_text(a.name) + enc_bytes(a.signature)))
}

/// The proof of identity that a byte string holds.
pub open spec fn decode_auth(s: Seq<u8>) -> Option<AuthView> {
    match parse_u128(s) {
        Some((node_id, r1)) => match parse_fixed(r1, 32) {
            Some((pub_key, r2)) => match parse_text(r2) {
                Some((name, r3)) => match parse_bytes(r3) {
                    Some((signature, r4)) => if r4.len() == 0 {
                        Some(AuthView { node_id, pub_key, name, signature })
                    } else {
                        None
                    },
                    None => None,
                },
                None => None,
            },
            None => None,
        },
        None => None,
    }
}

/// Whether a handshake message can be encoded: its keys and nonces are 32
/// bytes long, and its texts and byte strings short enough for their
/// lengths to be written in 64 bits, as those of every message in memory are.
pub open spec fn handshake_encodable(m: HandshakeView) -> bool {
    match m {
        HandshakeView::Hello(h) => h.nonce.len() == 32 && h.eph_pub.len() == 32,
        HandshakeView::Auth(sealed) => sealed.len() <= u64::MAX,
        HandshakeView::ConsentRequired { reason } => encode_utf8(reason).len() <= u64::MAX,
        HandshakeView::ConsentDenied => true,
    }
}

/// Whether a proof of identity can be encoded.
pub open spec fn auth_encodable(a: AuthView) -> bool {
    a.pub_key.len() == 32 && encode_utf8(a.name).len() <= u64::MAX && a.signature.len() <= u64::MAX
}

/// A handshake message that is encoded and decoded again is the same message.
#[verifier::rlimit(40)]
pub proof fn lemma_handshake_roundtrip(m: HandshakeView)
    requires
        handshake_encodable(m),
    ensures
        decode_handshake(encode_handshake(m)) == Some(m),
{
    let e = Seq::<u8>::empty();
    match m {
        HandshakeView::Hello(h) => {
            let r4 = be_u64(h.total_memory);
            let r3 = be_u64(h.quota) + r4;
            let r2 = h.eph_pub + r3;
            let r1 = h.nonce + r2;
            let r0 = be_u16(h.version) + r1;
            lemma_parse_u8(0u8, r0);
            lemma_parse_u16(h.version, r1);
            lemma_parse_fixed(h.nonce, r2);
            lemma_parse_fixed(h.eph_pub, r3);
            lemma_parse_u64(h.quota, r4);
            assert(r4 =~= be_u64(h.total_memory) + e);
            lemma_parse_u64(h.total_memory, e);
        },
        HandshakeView::Auth(sealed) => {
            lemma_parse_u8(1u8, enc_bytes(sealed));
            assert(enc_bytes(sealed) =~= enc_bytes(sealed) + e);
            lemma_parse_bytes(sealed, e);
        },
        HandshakeView::ConsentRequired { reason } => {
            lemma_parse_u8(2u8, enc_text(reason));
            assert(enc_text(reason) =~= enc_text(reason) + e);
            lemma_parse_text(reason, e);
        },
        HandshakeView::ConsentDenied => {
            assert(seq![3u8] =~= seq![3u8] + e);
            lemma_parse_u8(3u8, e);
        },
    }
}

/// A proof of identity that is encoded and decoded again is the same proof.
pub proof fn lemma_auth_roundtrip(a: AuthView)
    requires
        auth_encodable(a),
    ensures
        decode_auth(encode_auth(a)) == Some(a),
{
    let e = Seq::<u8>::empty();
    let r3 = enc_bytes(a.signature);
    let r2 = enc_text(a.name) + r3;
    let r1 = a.pub_key + r2;
    lemma_parse_u128(a.node_id, r1);
    lemma_parse_fixed(a.pub_key, r2);
    lemma_parse_text(a.name, r3);
    assert(r3 =~= enc_bytes(a.signature) + e);
    lemma_parse_bytes(a.signature, e);
}

/// The bytes of a handshake message, as they travel in a frame.
pub fn encode_message(m: &HandshakeMessage) -> (bytes: Vec<u8>)
    ensures
        bytes@ == encode_handshake(m@),
        handshake_encodable(m@),
{
    let mut out: Vec<u8> = Vec::new();
    match m {
        HandshakeMessage::Hello(h) => {
            out.push(0u8);
            put_u16(&mut out, h.version);
            append_bytes(&mut out, h.nonce.as_slice());
            append_bytes(&mut out, h.eph_pub.as_slice());
            put_u64(&mut out, h.quota);
            put_u64(&mut out, h.total_memory);
        },
        HandshakeMessage::Auth(sealed) => {
            out.push(1u8);
            put_bytes(&mut out, sealed.as_slice());
        },
        HandshakeMessage::ConsentRequired { reason } => {
            out.push(2u8);
            put_text(&mut out, reason.as_str());
        },
        HandshakeMessage::ConsentDenied => {
            out.push(3u8);
        },
    }
    assert(out@ =~= encode_handshake(m@));
    out
}

/// The handshake message that the payload of a frame holds.
#[verifier::rlimit(40)]
pub fn decode_message(bytes: &[u8]) -> (r: Option<HandshakeMessage>)
    ensures
        r.is_some() == decode_handshake(bytes@).is_some(),
        r.is_some() ==> decode_handshake(bytes@) == Some(r.unwrap()@),
{
    let mut rd = Reader::new(bytes);
    let tag = match rd.u8() {
        Some(t) => t,
        None => {
            return None;
        },
    };
    let m = if tag == 0 {
        let version = match rd.u16() {
            Some(v) => v,
            None => {
                return None;
            },
        };
        let nonce = match rd.array32() {
            Some(v) => v,
            None => {
                return None;
            },
        };
        let eph_pub = match rd.array32() {
            Some(v) => v,
            None => {
                return None;
            },
        };
        let quota = match rd.u64() {
            Some(v) => v,
            None => {
                return None;
            },
        };
        let total_memory = match rd.u64() {
            Some(v) => v,
            None => {
                return None;
            },
        };
        HandshakeMessage::Hello(HandshakeHello { version, nonce, eph_pub, quota, total_memory })
    } else if tag == 1 {
        match rd.bytes() {
            Some(sealed) => HandshakeMessage::Auth(sealed),
            None => {
                return None;
            },
        }
    } else if tag == 2 {
        match rd.text() {
            Some(reason) => HandshakeMessage::ConsentRequired { reason },
            None => {
                return None;
            },
        }
    } else if tag == 3 {
        HandshakeMessage::ConsentDenied
    } else {
        return None;
    };
    if rd.at_end() {
        Some(m)
    } else {
        None
    }
}

/// The bytes of a proof of identity, before they are sealed.
pub fn encode_auth_bytes(a: &HandshakeAuth) -> (bytes: Vec<u8>)
    ensures
        bytes@ == encode_auth(a@),
        auth_encodable(a@),
{
    let mut out: Vec<u8> = Vec::new();
    put_u128(&mut out, a.node_id);
    append_bytes(&mut out, a.pub_key.as_slice());
    put_text(&mut out, a.name.as_str());
    put_bytes(&mut out, a.signature.as_slice());
    assert(out@ =~= encode_auth(a@));
    out
}

/// The proof of identity that a byte string holds.
pub fn decode_auth_bytes(bytes: &[u8]) -> (r: Option<HandshakeAuth>)
    ensures
        r.is_some() == decode_auth(bytes@).is_some(),
        r.is_some() ==> decode_auth(bytes@) == Some(r.unwrap()@),
{
    let mut rd = Reader::new(bytes);
    let node_id = match rd.u128() {
        Some(v) => v,
        None => {
            return None;
        },
    };
    let pub_key = match rd.array32() {
        Some(v) => v,
        None => {
            return None;
        },
    };
    let name = match rd.text() {
        Some(v) => v,
        None => {
            return None;
        },
    };
    let signature = match rd.bytes() {
        Some(v) => v,
        None => {
            return None;
        },
    };
    if rd.at_end() {
        Some(HandshakeAuth { node_id, pub_key, name, signature })
    } else {
        None
    }
}

/// The long-term identity of a node: its Ed25519 secret key, its node id
/// and the name that it shows to people.
#[derive(Clone)]
pub struct Identity {
    pub keypair: [u8; 32],
    pub node_id: u128,
    pub name: String,
}

impl Identity {
    /// An identity with a fresh secret key; nothing where the system
    /// gives no randomness for the key.
    pub fn new(node_id: u128, name: String) -> (identity: Option<Identity>)
        ensures
            identity.is_some() ==> ({
                &&& identity.unwrap().node_id == node_id
                &&& identity.unwrap().name == name
            }),
    {
        match os_random_bytes32() {
            Some(secret) => Some(Identity::from_secret(secret, node_id, name)),
            None => None,
        }
    }

    /// The identity that holds the given secret key.
    pub fn from_secret(secret: [u8; 32], node_id: u128, name: String) -> (identity: Identity)
        ensures
            identity.keypair == secret,
            identity.node_id == node_id,
            identity.name == name,
    {
        Identity { keypair: secret, node_id, name }
    }

    /// The public key by which peers know this node.
    pub fn public_key(&self) -> (public: [u8; 32])
        ensures
            public@ == ed25519_public(self.keypair@),
            ed25519_decodes(public@),
    {
        ed25519_public_key(&self.keypair)
    }
}

/// The key that both sides derive from what they share, from the hash of
/// the transcript, and from a label that says what the key is for.
pub open spec fn derived_key(label: Seq<char>, shared: Seq<u8>, context: Seq<u8>) -> Seq<u8> {
    blake3_digest(shared + context + encode_utf8(label))
}

/// Derives a key from a shared secret, a context and a label.
pub fn derive_key(label: &str, shared: &[u8], context: &[u8]) -> (key: [u8; 32])
    ensures
        key@ == derived_key(label@, shared@, context@),
{
    let mut input: Vec<u8> = Vec::new();
    append_bytes(&mut input, shared);
    append_bytes(&mut input, context);
    append_bytes(&mut input, label.as_bytes());
    assert(input@ =~= shared@ + context@ + encode_utf8(label@));
    blake3_hash(input.as_slice())
}

/// The proof that a node with this secret key gives of itself over the
/// hash `signed`.
pub open spec fn own_auth(
    secret: Seq<u8>,
    node_id: u128,
    name: Seq<char>,
    signed: Seq<u8>,
) -> AuthView {
    AuthView {
        node_id: node_id,
        pub_key: ed25519_public(secret),
        name: name,
        signature: ed25519_signature(secret, signed),
    }
}

/// What a side makes of the sealed proof of its peer: the proof, where it
/// opens under the handshake key, holds a proof of identity with a public
/// key that decodes and a signature of 64 bytes, and the signature
/// verifies over the hash `signed` of the transcript.
pub open spec fn checked_auth(
    handshake_key: Seq<u8>,
    nonce: Seq<u8>,
    sealed: Seq<u8>,
    signed: Seq<u8>,
) -> Result<AuthView, HandshakeError> {
    match aead_open(handshake_key, nonce, sealed) {
        None => Err(HandshakeError::DecryptionFailed),
        Some(plain) => match decode_auth(plain) {
            None => Err(HandshakeError::Malformed),
            Some(auth) => if !ed25519_decodes(auth.pub_key) {
                Err(HandshakeError::InvalidKey)
            } else if auth.signature.len() != 64 {
                Err(HandshakeError::InvalidSignatureLength)
            } else if !ed25519_verifies(auth.pub_key, signed, auth.signature) {
                Err(HandshakeError::BadSignature)
            } else {
                Ok(auth)
            },
        },
    }
}

/// Opens and checks the sealed proof of the peer; see `checked_auth`.
#[verifier::rlimit(40)]
pub fn open_auth(
    handshake_key: &[u8; 32],
    nonce: &[u8; 12],
    sealed: &[u8],
    signed: &[u8; 32],
) -> (r: Result<HandshakeAuth, HandshakeError>)
    ensures
        match r {
            Ok(auth) => checked_auth(handshake_key@, nonce@, sealed@, signed@)
                == Ok::<AuthView, HandshakeError>(auth@),
            Err(e) => checked_auth(handshake_key@, nonce@, sealed@, signed@)
                == Err::<AuthView, HandshakeError>(e),
        },
{
    let plain = match chacha_open(handshake_key, nonce, sealed) {
        Some(p) => p,
        None => {
            return Err(HandshakeError::DecryptionFailed);
        },
    };
    let auth = match decode_auth_bytes(plain.as_slice()) {
        Some(a) => a,
        None => {
            return Err(HandshakeError::Malformed);
        },
    };
    if !ed25519_key_decodes(&auth.pub_key) {
        return Err(HandshakeError::InvalidKey);
    }
    if auth.signature.len() != 64 {
        return Err(HandshakeError::InvalidSignatureLength);
    }
    let mut signature = [0u8; 64];
    let mut i: usize = 0;
    while i < 64
        invariant
            i <= 64,
            auth.signature@.len() == 64,
            forall|j: int| 0 <= j < i ==> signature@[j] == auth.signature@[j],
        decreases 64 - i,
    {
        signature[i] = auth.signature[i];
        i = i + 1;
    }
    assert(signature@ =~= auth.signature@);
    if !ed25519_verify(&auth.pub_key, signed.as_slice(), &signature) {
        return Err(HandshakeError::BadSignature);
    }
    Ok(auth)
}

/// Signs the hash `signed` of the transcript and seals the proof of this
/// node's identity under the handshake key. The result is refused only
/// where the proof is too long to seal; any other result passes the check
/// that the peer makes of it.
#[verifier::rlimit(40)]
pub fn seal_auth(
    identity: &Identity,
    handshake_key: &[u8; 32],
    nonce: &[u8; 12],
    signed: &[u8; 32],
) -> (r: Result<Vec<u8>, HandshakeError>)
    ensures
        r is Ok == aead_sealable(
            encode_auth(
                own_auth(identity.keypair@, identity.node_id, identity.name@, signed@),
            ).len(),
        ),
        r is Err ==> r == Err::<Vec<u8>, HandshakeError>(HandshakeError::EncryptionFailed),
        r is Ok ==>
            aead_seal(
                handshake_key@,
                nonce@,
                encode_auth(own_auth(identity.keypair@, identity.node_id, identity.name@, signed@)),
            ) == Some(r.unwrap()@),
        r is Ok ==>
            checked_auth(handshake_key@, nonce@, r.unwrap()@, signed@)
                == Ok::<AuthView, HandshakeError>(
                    own_auth(identity.keypair@, identity.node_id, identity.name@, signed@),
                ),
{
    let signature = ed25519_sign(&identity.keypair, signed.as_slice());
    let auth = HandshakeAuth {
        node_id: identity.node_id,
        pub_key: identity.public_key(),
        name: identity.name.clone(),
        signature: copy_bytes(signature.as_slice()),
    };
    let plain = encode_auth_bytes(&auth);
    proof {
        lemma_auth_roundtrip(auth@);
        assert(auth@ == own_auth(identity.keypair@, identity.node_id, identity.name@, signed@));
    }
    match chacha_seal(handshake_key, nonce, plain.as_slice()) {
        Some(sealed) => Ok(sealed),
        None => Err(HandshakeError::EncryptionFailed),
    }
}

/// The public key that a secret key has in the key exchange.
pub open spec fn exchange_public(secret: Seq<u8>) -> Seq<u8> {
    x25519_point(secret, x25519_basepoint())
}

/// Whether the key exchange agrees for a secret key and its public key:
/// whoever applies a secret of their own to this public key gets what
/// this secret gives when applied to their public key.
pub open spec fn exchange_agrees(secret: Seq<u8>, public: Seq<u8>) -> bool {
    forall|other: Seq<u8>|
        other.len() == 32 ==> #[trigger] x25519_point(other, public) == x25519_point(
            secret,
            exchange_public(other),
        )
}

/// The public key of a secret key in the key exchange.
pub fn exchange_public_key(secret: &[u8; 32]) -> (public: [u8; 32])
    ensures
        public@ == exchange_public(secret@),
        exchange_agrees(secret@, public@),
{
    let mut base = [0u8; 32];
    base[0] = 9;
    assert(base@ =~= x25519_basepoint());
    x25519(secret, &base)
}

/// The keys of the two directions of a session, as the initiator holds
/// them: the key that it sends under, and the key that it receives under.
/// Both come from the shared secret of the key exchange and from the hash
/// of the whole transcript.
pub open spec fn initiator_keys(
    secret: Seq<u8>,
    peer_public: Seq<u8>,
    transcript: Seq<u8>,
) -> (Seq<u8>, Seq<u8>) {
    let shared = x25519_point(secret, peer_public);
    let hash = blake3_digest(transcript);
    (derived_key("traffic_a"@, shared, hash), derived_key("traffic_b"@, shared, hash))
}

/// The keys of the two directions of a session, as the responder holds
/// them: the key that it sends under, and the key that it receives under.
pub open spec fn responder_keys(
    secret: Seq<u8>,
    peer_public: Seq<u8>,
    transcript: Seq<u8>,
) -> (Seq<u8>, Seq<u8>) {
    let shared = x25519_point(secret, peer_public);
    let hash = blake3_digest(transcript);
    (derived_key("traffic_b"@, shared, hash), derived_key("traffic_a"@, shared, hash))
}

/// The two sides of a completed handshake hold matching keys: what the
/// initiator sends under, the responder receives under, and the other way
/// round. This holds whenever both have mixed the same messages into
/// their transcripts and each has used the public key of the other.
pub proof fn lemma_session_keys_agree(
    initiator_secret: Seq<u8>,
    initiator_public: Seq<u8>,
    responder_secret: Seq<u8>,
    responder_public: Seq<u8>,
    transcript: Seq<u8>,
)
    requires
        initiator_secret.len() == 32,
        responder_secret.len() == 32,
        exchange_agrees(initiator_secret, initiator_public),
        responder_public == exchange_public(responder_secret),
    ensures
        initiator_keys(initiator_secret, responder_public, transcript).0 == responder_keys(
            responder_secret,
            initiator_public,
            transcript,
        ).1,
        initiator_keys(initiator_secret, responder_public, transcript).1 == responder_keys(
            responder_secret,
            initiator_public,
            transcript,
        ).0,
{
    assert(x25519_point(responder_secret, initiator_public) == x25519_point(
        initiator_secret,
        exchange_public(responder_secret),
    ));
}

/// The initiator accepts the proof of identity that the responder seals
/// for it, and its session then names the responder: `proof` is what the
/// responder says of itself, sealed under the handshake key into `frame`,
/// and `transcript` is what both sides have mixed in before that frame.
pub proof fn lemma_initiator_learns_responder(
    initiator: InitiatorAuth,
    transcript: Seq<u8>,
    proof: AuthView,
    frame: Seq<u8>,
    r: Result<InitiatorStep, HandshakeError>,
)
    requires
        initiator.transcript() == transcript,
        aead_seal(initiator.handshake_key(), nonce_of(1), encode_auth(proof)).is_some(),
        decode_handshake(frame) == Some(
            HandshakeView::Auth(
                aead_seal(initiator.handshake_key(), nonce_of(1), encode_auth(proof)).unwrap(),
            ),
        ),
        checked_auth(
            initiator.handshake_key(),
            nonce_of(1),
            aead_seal(initiator.handshake_key(), nonce_of(1), encode_auth(proof)).unwrap(),
            blake3_digest(transcript),
        ) == Ok::<AuthView, HandshakeError>(proof),
        initiator.replied(frame, r),
    ensures
        r is Ok,
        r.unwrap() is Done,
        r.unwrap()->Done_0.peer_id == proof.node_id,
        r.unwrap()->Done_0.peer_name@ == proof.name,
        r.unwrap()->Done_0.peer_quota == initiator.peer_quota(),
        r.unwrap()->Done_0.peer_total_memory == initiator.peer_total_memory(),
{
}

/// The frame that carries a handshake message.
pub open spec fn hello_frame(
    version: u16,
    nonce: Seq<u8>,
    public: Seq<u8>,
    quota: u64,
    total_memory: u64,
) -> Seq<u8> {
    encode_handshake(
        HandshakeView::Hello(
            HelloView {
                version: version,
                nonce: nonce,
                eph_pub: public,
                quota: quota,
                total_memory: total_memory,
            },
        ),
    )
}

/// The name of the protocol, with which every transcript starts.
pub open spec fn protocol_label() -> Seq<u8> {
    encode_utf8("MemCloud-v2"@)
}

/// The initiator after it has sent its hello.
pub struct InitiatorHello {
    transcript: Transcript,
    secret: [u8; 32],
}

/// The initiator after it has sent its proof of identity.
pub struct InitiatorAuth {
    transcript: Transcript,
    secret: [u8; 32],
    peer_public: [u8; 32],
    handshake_key: [u8; 32],
    peer_quota: u64,
    peer_total_memory: u64,
}

/// What the initiator does next.
pub enum InitiatorStep {
    /// The peer asks its operator for consent: go on waiting for its answer.
    WaitForConsent(InitiatorAuth),
    /// The handshake is complete.
    Done(Session),
}

impl InitiatorHello {
    /// What the transcript has taken in.
    pub closed spec fn transcript(&self) -> Seq<u8> {
        self.transcript.absorbed()
    }

    /// The secret key of this handshake.
    pub closed spec fn secret(&self) -> Seq<u8> {
        self.secret@
    }

    /// Takes the hello of the responder, and gives the initiator's sealed
    /// proof of identity to send. The frame must hold a hello of this
    /// version of the protocol.
    #[verifier::rlimit(40)]
    pub fn on_hello(
        self,
        identity: &Identity,
        frame: &[u8],
    ) -> (r: Result<(InitiatorAuth, Vec<u8>), HandshakeError>)
        ensures
            match decode_handshake(frame@) {
                None => r is Err && r->Err_0 == HandshakeError::Malformed,
                Some(HandshakeView::Hello(h)) => if h.version != PROTOCOL_VERSION {
                    r is Err && r->Err_0 == HandshakeError::VersionMismatch
                } else {
                    let heard = self.transcript() + frame@;
                    let shared = x25519_point(self.secret(), h.eph_pub);
                    let key = derived_key("handshake_key"@, shared, blake3_digest(heard));
                    let auth = own_auth(
                        identity.keypair@,
                        identity.node_id,
                        identity.name@,
                        blake3_digest(heard),
                    );
                    if !aead_sealable(encode_auth(auth).len()) {
                        r is Err && r->Err_0 == HandshakeError::EncryptionFailed
                    } else {
                        &&& r is Ok
                        &&& r.unwrap().1@ == encode_handshake(
                            HandshakeView::Auth(
                                aead_seal(key, nonce_of(0), encode_auth(auth)).unwrap(),
                            ),
                        )
                        &&& checked_auth(
                            key,
                            nonce_of(0),
                            aead_seal(key, nonce_of(0), encode_auth(auth)).unwrap(),
                            blake3_digest(heard),
                        ) == Ok::<AuthView, HandshakeError>(auth)
                        &&& r.unwrap().0.transcript() == heard + r.unwrap().1@
                        &&& r.unwrap().0.secret() == self.secret()
                        &&& r.unwrap().0.peer_public() == h.eph_pub
                        &&& r.unwrap().0.handshake_key() == key
                        &&& r.unwrap().0.peer_quota() == h.quota
                        &&& r.unwrap().0.peer_total_memory() == h.total_memory
                    }
                },
                Some(_) => r is Err && r->Err_0 == HandshakeError::Unexpected,
            },
    {
        let hello = match decode_message(frame) {
            None => {
                return Err(HandshakeError::Malformed);
            },
            Some(HandshakeMessage::Hello(h)) => h,
            Some(_) => {
                return Err(HandshakeError::Unexpected);
            },
        };
        if hello.version != PROTOCOL_VERSION {
            return Err(HandshakeError::VersionMismatch);
        }
        let mut transcript = self.transcript;
        transcript.mix("hello_b", frame);
        let shared = x25519(&self.secret, &hello.eph_pub);
        let hash = transcript.current_hash();
        let handshake_key = derive_key("handshake_key", shared.as_slice(), hash.as_slice());
        let nonce = nonce_bytes(0);
        let sealed = match seal_auth(identity, &handshake_key, &nonce, &hash) {
            Ok(s) => s,
            Err(e) => {
                return Err(e);
            },
        };
        let wire = encode_message(&HandshakeMessage::Auth(sealed));
        transcript.mix("auth_a", wire.as_slice());
        Ok(
            (
                InitiatorAuth {
                    transcript,
                    secret: self.secret,
                    peer_public: hello.eph_pub,
                    handshake_key,
                    peer_quota: hello.quota,
                    peer_total_memory: hello.total_memory,
                },
                wire,
            ),
        )
    }
}

impl InitiatorAuth {
    /// What the transcript has taken in.
    pub closed spec fn transcript(&self) -> Seq<u8> {
        self.transcript.absorbed()
    }

    /// The secret key of this handshake.
    pub closed spec fn secret(&self) -> Seq<u8> {
        self.secret@
    }

    /// The public key of the peer in this handshake.
    pub closed spec fn peer_public(&self) -> Seq<u8> {
        self.peer_public@
    }

    /// The key under which the proofs of identity are sealed.
    pub closed spec fn handshake_key(&self) -> Seq<u8> {
        self.handshake_key@
    }

    /// What the peer lets this node store on it.
    pub closed spec fn peer_quota(&self) -> u64 {
        self.peer_quota
    }

    /// The capacity that the peer declared.
    pub closed spec fn peer_total_memory(&self) -> u64 {
        self.peer_total_memory
    }

    /// What the initiator makes of the answer of the responder to its
    /// proof. A request for consent leaves everything as it is; a denial
    /// ends the handshake; the responder's own proof, where it passes the
    /// check, completes it, and the session holds the keys of the two
    /// directions and what the proof says of the responder.
    pub open spec fn replied(
        &self,
        frame: Seq<u8>,
        r: Result<InitiatorStep, HandshakeError>,
    ) -> bool {
        match decode_handshake(frame) {
            None => r is Err && r->Err_0 == HandshakeError::Malformed,
            Some(HandshakeView::ConsentRequired { reason }) => {
                &&& r is Ok
                &&& r.unwrap() is WaitForConsent
                &&& r.unwrap()->WaitForConsent_0 == *self
            },
            Some(HandshakeView::ConsentDenied) => {
                &&& r is Err
                &&& r->Err_0 == HandshakeError::ConsentDenied
            },
            Some(HandshakeView::Auth(sealed)) => match checked_auth(
                self.handshake_key(),
                nonce_of(1),
                sealed,
                blake3_digest(self.transcript()),
            ) {
                Err(e) => r is Err && r->Err_0 == e,
                Ok(auth) => {
                    &&& r is Ok
                    &&& r.unwrap() is Done
                    &&& session_is(
                        r.unwrap()->Done_0,
                        initiator_keys(
                            self.secret(),
                            self.peer_public(),
                            self.transcript() + frame,
                        ),
                        auth,
                        self.peer_quota(),
                        self.peer_total_memory(),
                    )
                },
            },
            Some(HandshakeView::Hello(_)) => r is Err && r->Err_0 == HandshakeError::Unexpected,
        }
    }

    /// Takes the answer of the responder to the initiator's proof; see
    /// `replied`.
    #[verifier::rlimit(40)]
    pub fn on_reply(self, frame: &[u8]) -> (r: Result<InitiatorStep, HandshakeError>)
        ensures
            self.replied(frame@, r),
    {
        let sealed = match decode_message(frame) {
            None => {
                return Err(HandshakeError::Malformed);
            },
            Some(HandshakeMessage::ConsentRequired { reason }) => {
                return Ok(InitiatorStep::WaitForConsent(self));
            },
            Some(HandshakeMessage::ConsentDenied) => {
                return Err(HandshakeError::ConsentDenied);
            },
            Some(HandshakeMessage::Auth(sealed)) => sealed,
            Some(HandshakeMessage::Hello(_)) => {
                return Err(HandshakeError::Unexpected);
            },
        };
        let hash = self.transcript.current_hash();
        let nonce = nonce_bytes(1);
        let auth = match open_auth(&self.handshake_key, &nonce, sealed.as_slice(), &hash) {
            Ok(a) => a,
            Err(e) => {
                return Err(e);
            },
        };
        let mut transcript = self.transcript;
        transcript.mix("auth_b", frame);
        let final_hash = transcript.current_hash();
        let shared = x25519(&self.secret, &self.peer_public);
        let send_key = derive_key("traffic_a", shared.as_slice(), final_hash.as_slice());
        let recv_key = derive_key("traffic_b", shared.as_slice(), final_hash.as_slice());
        Ok(
            InitiatorStep::Done(
                Session {
                    send_key,
                    recv_key,
                    peer_id: auth.node_id,
                    peer_name: auth.name,
                    peer_quota: self.peer_quota,
                    peer_total_memory: self.peer_total_memory,
                },
            ),
        )
    }
}

/// Whether a session holds these keys and these data of the peer.
pub open spec fn session_is(
    session: Session,
    keys: (Seq<u8>, Seq<u8>),
    peer: AuthView,
    peer_quota: u64,
    peer_total_memory: u64,
) -> bool {
    &&& session.send_key@ == keys.0
    &&& session.recv_key@ == keys.1
    &&& session.peer_id == peer.node_id
    &&& session.peer_name@ == peer.name
    &&& session.peer_quota == peer_quota
    &&& session.peer_total_memory == peer_total_memory
}

/// Starts a handshake as initiator with the given secret key and nonce:
/// the state to go on with, and the hello to send.
pub fn initiator_hello(
    ram_quota: u64,
    total_memory: u64,
    secret: [u8; 32],
    nonce: [u8; 32],
) -> (r: (InitiatorHello, Vec<u8>))
    ensures
        r.1@ == hello_frame(
            PROTOCOL_VERSION,
            nonce@,
            exchange_public(secret@),
            ram_quota,
            total_memory,
        ),
        r.0.secret() == secret@,
        r.0.secret().len() == 32,
        r.0.transcript() == protocol_label() + r.1@,
        exchange_agrees(secret@, exchange_public(secret@)),
{
    let mut transcript = Transcript::new("MemCloud-v2");
    let eph_pub = exchange_public_key(&secret);
    let hello = HandshakeHello {
        version: PROTOCOL_VERSION,
        nonce,
        eph_pub,
        quota: ram_quota,
        total_memory,
    };
    let wire = encode_message(&HandshakeMessage::Hello(hello));
    transcript.mix("hello_a", wire.as_slice());
    (InitiatorHello { transcript, secret }, wire)
}

/// Starts a handshake as initiator, with a secret key and a nonce drawn
/// at random, as `initiator_hello` starts it with them: the state to go on
/// with, and the hello to send, which offers the peer `ram_quota` bytes on
/// this node. Nothing where the system gives no randomness for the key.
pub fn handshake_initiator(
    ram_quota: u64,
    total_memory: u64,
) -> (r: Option<(InitiatorHello, Vec<u8>)>)
    ensures
        r.is_some() ==> ({
            &&& r.unwrap().0.secret().len() == 32
            &&& r.unwrap().0.transcript() == protocol_label() + r.unwrap().1@
            &&& exchange_agrees(r.unwrap().0.secret(), exchange_public(r.unwrap().0.secret()))
            &&& exists|nonce: Seq<u8>|
                nonce.len() == 32
                    && r.unwrap().1@ == hello_frame(
                        PROTOCOL_VERSION,
                        nonce,
                        exchange_public(r.unwrap().0.secret()),
                        ram_quota,
                        total_memory,
                    )
        }),
{
    match os_random_bytes32() {
        None => None,
        Some(secret) => {
            let nonce = random_bytes32();
            let r = initiator_hello(ram_quota, total_memory, secret, nonce);
            assert(nonce@.len() == 32);
            Some(r)
        },
    }
}

/// The responder after it has answered the initiator's hello.
pub struct ResponderHello {
    transcript: Transcript,
    secret: [u8; 32],
    peer_public: [u8; 32],
    handshake_key: [u8; 32],
    peer_quota: u64,
    peer_total_memory: u64,
}

/// The responder after it has checked the initiator's proof of identity.
pub struct ResponderAuth {
    transcript: Transcript,
    secret: [u8; 32],
    peer_public: [u8; 32],
    handshake_key: [u8; 32],
    peer_quota: u64,
    peer_total_memory: u64,
    auth: HandshakeAuth,
    peer_key_hex: String,
    auth_frame: Vec<u8>,
}

impl ResponderHello {
    /// What the transcript has taken in.
    pub closed spec fn transcript(&self) -> Seq<u8> {
        self.transcript.absorbed()
    }

    /// The secret key of this handshake.
    pub closed spec fn secret(&self) -> Seq<u8> {
        self.secret@
    }

    /// The public key of the peer in this handshake.
    pub closed spec fn peer_public(&self) -> Seq<u8> {
        self.peer_public@
    }

    /// The key under which the proofs of identity are sealed.
    pub closed spec fn handshake_key(&self) -> Seq<u8> {
        self.handshake_key@
    }

    /// What the peer lets this node store on it.
    pub closed spec fn peer_quota(&self) -> u64 {
        self.peer_quota
    }

    /// The capacity that the peer declared.
    pub closed spec fn peer_total_memory(&self) -> u64 {
        self.peer_total_memory
    }

    /// Takes the initiator's sealed proof of identity and checks it
    /// against the transcript so far.
    #[verifier::rlimit(40)]
    pub fn on_auth(self, frame: &[u8]) -> (r: Result<ResponderAuth, HandshakeError>)
        ensures
            match decode_handshake(frame@) {
                None => r is Err && r->Err_0 == HandshakeError::Malformed,
                Some(HandshakeView::Auth(sealed)) => match checked_auth(
                    self.handshake_key(),
                    nonce_of(0),
                    sealed,
                    blake3_digest(self.transcript()),
                ) {
                    Err(e) => r is Err && r->Err_0 == e,
                    Ok(auth) => {
                        &&& r is Ok
                        &&& r.unwrap().transcript() == self.transcript()
                        &&& r.unwrap().auth_frame() == frame@
                        &&& r.unwrap().secret() == self.secret()
                        &&& r.unwrap().peer_public() == self.peer_public()
                        &&& r.unwrap().handshake_key() == self.handshake_key()
                        &&& r.unwrap().peer_quota() == self.peer_quota()
                        &&& r.unwrap().peer_total_memory() == self.peer_total_memory()
                        &&& r.unwrap().peer() == auth
                        &&& r.unwrap().peer_key_hex() == hex_text(auth.pub_key)
                    },
                },
                Some(_) => r is Err && r->Err_0 == HandshakeError::Unexpected,
            },
    {
        let sealed = match decode_message(frame) {
            None => {
                return Err(HandshakeError::Malformed);
            },
            Some(HandshakeMessage::Auth(sealed)) => sealed,
            Some(_) => {
                return Err(HandshakeError::Unexpected);
            },
        };
        let hash = self.transcript.current_hash();
        let nonce = nonce_bytes(0);
        let auth = match open_auth(&self.handshake_key, &nonce, sealed.as_slice(), &hash) {
            Ok(a) => a,
            Err(e) => {
                return Err(e);
            },
        };
        let peer_key_hex = hex_encode(auth.pub_key.as_slice());
        Ok(
            ResponderAuth {
                transcript: self.transcript,
                secret: self.secret,
                peer_public: self.peer_public,
                handshake_key: self.handshake_key,
                peer_quota: self.peer_quota,
                peer_total_memory: self.peer_total_memory,
                auth,
                peer_key_hex,
                auth_frame: copy_bytes(frame),
            },
        )
    }
}

/// What the responder does once consent is settled.
pub enum ResponderStep {
    /// The handshake is complete: send the frame, then use the session.
    Accepted { session: Session, frame: Vec<u8> },
    /// The connection is refused: send the frame, if there is one, and close.
    Refused { error: HandshakeError, frame: Option<Vec<u8>> },
}

impl ResponderAuth {
    /// What the transcript has taken in.
    pub closed spec fn transcript(&self) -> Seq<u8> {
        self.transcript.absorbed()
    }

    /// The frame that held the initiator's proof.
    pub closed spec fn auth_frame(&self) -> Seq<u8> {
        self.auth_frame@
    }

    /// The secret key of this handshake.
    pub closed spec fn secret(&self) -> Seq<u8> {
        self.secret@
    }

    /// The public key of the peer in this handshake.
    pub closed spec fn peer_public(&self) -> Seq<u8> {
        self.peer_public@
    }

    /// The key under which the proofs of identity are sealed.
    pub closed spec fn handshake_key(&self) -> Seq<u8> {
        self.handshake_key@
    }

    /// What the peer lets this node store on it.
    pub closed spec fn peer_quota(&self) -> u64 {
        self.peer_quota
    }

    /// The capacity that the peer declared.
    pub closed spec fn peer_total_memory(&self) -> u64 {
        self.peer_total_memory
    }

    /// The proof of identity that the peer gave.
    pub closed spec fn peer(&self) -> AuthView {
        self.auth@
    }

    /// The hexadecimal text of the peer's public key.
    pub closed spec fn peer_key_hex(&self) -> Seq<char> {
        self.peer_key_hex@
    }

    /// The proof of identity that this node answers with: its signature
    /// is over everything that the transcript has taken in, the
    /// initiator's proof included.
    pub open spec fn own_proof(&self, identity: &Identity) -> AuthView {
        own_auth(
            identity.keypair@,
            identity.node_id,
            identity.name@,
            blake3_digest(self.transcript() + self.auth_frame()),
        )
    }

    /// The hexadecimal text of the peer's public key, under which the
    /// trust store knows the peer.
    pub fn get_peer_key(&self) -> (key: &String)
        ensures
            key@ == self.peer_key_hex(),
    {
        &self.peer_key_hex
    }

    /// The name that the peer gave.
    pub fn get_peer_name(&self) -> (name: &String)
        ensures
            name@ == self.peer().name,
    {
        &self.auth.name
    }

    /// What the peer lets this node store on it.
    pub fn get_peer_quota(&self) -> (quota: u64)
        ensures
            quota == self.peer_quota(),
    {
        self.peer_quota
    }

    /// Whether the operator must be asked before the peer is let in: the
    /// peer's key is not in the trust store.
    pub fn needs_consent(&self, trust: &TrustedStore) -> (ask: bool)
        ensures
            ask == !lists_key(trust.devices(), self.peer_key_hex()),
    {
        !trust.is_trusted(self.peer_key_hex.as_str())
    }

    /// Completes the handshake once consent is settled. The peer is let
    /// in where its key is trusted already, or where the operator's
    /// decision approves it; a decision to trust it always enters its key
    /// into the trust store. The frame for the peer then holds this node's
    /// sealed proof of identity, which passes the check that the peer
    /// makes of it. Otherwise the peer is refused, the frame that tells it
    /// so is given, and the trust store stays as it was.
    #[verifier::rlimit(80)]
    pub fn finish(
        self,
        identity: &Identity,
        decision: Option<ConsentDecision>,
        trust: &mut TrustedStore,
        now: u64,
    ) -> (step: ResponderStep)
        requires
            old(trust).wf(),
        ensures
            final(trust).wf(),
            !admitted(old(trust).devices(), self.peer_key_hex(), decision) ==> ({
                &&& step is Refused
                &&& step->Refused_error == HandshakeError::ConsentDenied
                &&& step->Refused_frame.is_some()
                &&& step->Refused_frame.unwrap()@ == encode_handshake(HandshakeView::ConsentDenied)
                &&& final(trust).devices() == old(trust).devices()
            }),
            admitted(old(trust).devices(), self.peer_key_hex(), decision)
                && !aead_sealable(encode_auth(self.own_proof(identity)).len()) ==> ({
                &&& step is Refused
                &&& step->Refused_error == HandshakeError::EncryptionFailed
                &&& step->Refused_frame.is_none()
                &&& final(trust).devices() == old(trust).devices()
            }),
            admitted(old(trust).devices(), self.peer_key_hex(), decision)
                && aead_sealable(encode_auth(self.own_proof(identity)).len()) ==> ({
                &&& step is Accepted
                &&& step->Accepted_frame@ == encode_handshake(
                    HandshakeView::Auth(
                        aead_seal(
                            self.handshake_key(),
                            nonce_of(1),
                            encode_auth(self.own_proof(identity)),
                        ).unwrap(),
                    ),
                )
                &&& checked_auth(
                    self.handshake_key(),
                    nonce_of(1),
                    aead_seal(
                        self.handshake_key(),
                        nonce_of(1),
                        encode_auth(self.own_proof(identity)),
                    ).unwrap(),
                    blake3_digest(self.transcript() + self.auth_frame()),
                ) == Ok::<AuthView, HandshakeError>(self.own_proof(identity))
                &&& decode_handshake(step->Accepted_frame@) == Some(
                    HandshakeView::Auth(
                        aead_seal(
                            self.handshake_key(),
                            nonce_of(1),
                            encode_auth(self.own_proof(identity)),
                        ).unwrap(),
                    ),
                )
                &&& session_is(
                    step->Accepted_session,
                    responder_keys(
                        self.secret(),
                        self.peer_public(),
                        self.transcript() + self.auth_frame() + step->Accepted_frame@,
                    ),
                    self.peer(),
                    self.peer_quota(),
                    self.peer_total_memory(),
                )
            }),
            step is Accepted
                && decision == Some(ConsentDecision::ApprovedAndTrusted)
                && !lists_key(old(trust).devices(), self.peer_key_hex()) ==> ({
                &&& final(trust).devices() == old(trust).devices().push(
                    final(trust).devices().last(),
                )
                &&& is_entry(
                    final(trust).devices().last(),
                    self.peer_key_hex(),
                    self.peer().name,
                    now,
                    now,
                )
            }),
            step is Accepted
                && !(
                    decision == Some(ConsentDecision::ApprovedAndTrusted)
                        && !lists_key(old(trust).devices(), self.peer_key_hex())
                ) ==>
                final(trust).devices() == old(trust).devices(),
    {
        let trusted = trust.is_trusted(self.peer_key_hex.as_str());
        let approved = match decision {
            Some(ConsentDecision::ApprovedOnce) => true,
            Some(ConsentDecision::ApprovedAndTrusted) => true,
            _ => false,
        };
        if !trusted && !approved {
            let frame = encode_message(&HandshakeMessage::ConsentDenied);
            return ResponderStep::Refused {
                error: HandshakeError::ConsentDenied,
                frame: Some(frame),
            };
        }
        let mut transcript = self.transcript;
        transcript.mix("auth_a", self.auth_frame.as_slice());
        let hash = transcript.current_hash();
        let nonce = nonce_bytes(1);
        let sealed = match seal_auth(identity, &self.handshake_key, &nonce, &hash) {
            Ok(s) => s,
            Err(e) => {
                return ResponderStep::Refused { error: e, frame: None };
            },
        };
        let ghost answer = HandshakeView::Auth(sealed@);
        let frame = encode_message(&HandshakeMessage::Auth(sealed));
        proof {
            lemma_handshake_roundtrip(answer);
        }
        transcript.mix("auth_b", frame.as_slice());
        let final_hash = transcript.current_hash();
        let shared = x25519(&self.secret, &self.peer_public);
        let send_key = derive_key("traffic_b", shared.as_slice(), final_hash.as_slice());
        let recv_key = derive_key("traffic_a", shared.as_slice(), final_hash.as_slice());
        if !trusted {
            match decision {
                Some(ConsentDecision::ApprovedAndTrusted) => {
                    trust.add_trusted(self.peer_key_hex, self.auth.name.clone(), now);
                },
                _ => {},
            }
        }
        ResponderStep::Accepted {
            session: Session {
                send_key,
                recv_key,
                peer_id: self.auth.node_id,
                peer_name: self.auth.name,
                peer_quota: self.peer_quota,
                peer_total_memory: self.peer_total_memory,
            },
            frame,
        }
    }
}

/// Whether a peer is let in: its key is trusted, or the operator's
/// decision approves it.
pub open spec fn admitted(
    trusted: Seq<crate::trust::TrustedDevice>,
    key_hex: Seq<char>,
    decision: Option<ConsentDecision>,
) -> bool {
    lists_key(trusted, key_hex) || decision == Some(ConsentDecision::ApprovedOnce)
        || decision == Some(ConsentDecision::ApprovedAndTrusted)
}

/// The frame that tells the initiator that the operator is being asked.
pub fn consent_required_frame() -> (frame: Vec<u8>)
    ensures
        frame@ == encode_handshake(HandshakeView::ConsentRequired { reason: "untrusted_peer"@ }),
{
    encode_message(
        &HandshakeMessage::ConsentRequired { reason: String::from_str("untrusted_peer") },
    )
}

/// Answers the hello of an initiator with the given secret key and
/// nonce: the state to go on with, and the responder's own hello to send.
/// The frame must hold a hello of this version of the protocol.
#[verifier::rlimit(40)]
pub fn responder_hello(
    frame: &[u8],
    ram_quota: u64,
    total_memory: u64,
    secret: [u8; 32],
    nonce: [u8; 32],
) -> (r: Result<(ResponderHello, Vec<u8>), HandshakeError>)
    ensures
        exchange_agrees(secret@, exchange_public(secret@)),
        match decode_handshake(frame@) {
            None => r is Err && r->Err_0 == HandshakeError::Malformed,
            Some(HandshakeView::Hello(h)) => if h.version != PROTOCOL_VERSION {
                r is Err && r->Err_0 == HandshakeError::VersionMismatch
            } else {
                &&& r is Ok
                &&& r.unwrap().1@ == hello_frame(
                    PROTOCOL_VERSION,
                    nonce@,
                    exchange_public(secret@),
                    ram_quota,
                    total_memory,
                )
                &&& r.unwrap().0.transcript() == protocol_label() + frame@ + r.unwrap().1@
                &&& r.unwrap().0.secret() == secret@
                &&& r.unwrap().0.secret().len() == 32
                &&& r.unwrap().0.peer_public() == h.eph_pub
                &&& r.unwrap().0.handshake_key() == derived_key(
                    "handshake_key"@,
                    x25519_point(secret@, h.eph_pub),
                    blake3_digest(r.unwrap().0.transcript()),
                )
                &&& r.unwrap().0.peer_quota() == h.quota
                &&& r.unwrap().0.peer_total_memory() == h.total_memory
            },
            Some(_) => r is Err && r->Err_0 == HandshakeError::Unexpected,
        },
{
    let eph_pub = exchange_public_key(&secret);
    let hello = match decode_message(frame) {
        None => {
            return Err(HandshakeError::Malformed);
        },
        Some(HandshakeMessage::Hello(h)) => h,
        Some(_) => {
            return Err(HandshakeError::Unexpected);
        },
    };
    if hello.version != PROTOCOL_VERSION {
        return Err(HandshakeError::VersionMismatch);
    }
    let mut transcript = Transcript::new("MemCloud-v2");
    transcript.mix("hello_a", frame);
    let own = HandshakeHello {
        version: PROTOCOL_VERSION,
        nonce,
        eph_pub,
        quota: ram_quota,
        total_memory,
    };
    let wire = encode_message(&HandshakeMessage::Hello(own));
    transcript.mix("hello_b", wire.as_slice());
    let shared = x25519(&secret, &hello.eph_pub);
    let hash = transcript.current_hash();
    let handshake_key = derive_key("handshake_key", shared.as_slice(), hash.as_slice());
    Ok(
        (
            ResponderHello {
                transcript,
                secret,
                peer_public: hello.eph_pub,
                handshake_key,
                peer_quota: hello.quota,
                peer_total_memory: hello.total_memory,
            },
            wire,
        ),
    )
}

/// What is wrong with the frame that should hold the hello of an
/// initiator, if anything is.
pub open spec fn hello_flaw(frame: Seq<u8>) -> Option<HandshakeError> {
    match decode_handshake(frame) {
        None => Some(HandshakeError::Malformed),
        Some(HandshakeView::Hello(h)) => if h.version != PROTOCOL_VERSION {
            Some(HandshakeError::VersionMismatch)
        } else {
            None
        },
        Some(_) => Some(HandshakeError::Unexpected),
    }
}

/// Answers the hello of an initiator, with a secret key and a nonce drawn
/// at random, as `responder_hello` answers it with them: the state to go
/// on with, and the responder's own hello to send, which offers the peer
/// `ram_quota` bytes on this node. A frame that holds no hello of this
/// version of the protocol is refused before anything is drawn; for any
/// other frame the only failure is that the system gives no randomness
/// for the key.
pub fn handshake_responder(
    frame: &[u8],
    ram_quota: u64,
    total_memory: u64,
) -> (r: Result<(ResponderHello, Vec<u8>), HandshakeError>)
    ensures
        hello_flaw(frame@).is_some() ==> r is Err && r->Err_0 == hello_flaw(frame@).unwrap(),
        hello_flaw(frame@).is_none() && r is Err ==> r->Err_0 == HandshakeError::NoRandomness,
        hello_flaw(frame@).is_none() && r is Ok ==> ({
            let h = decode_handshake(frame@).unwrap()->Hello_0;
            let state = r.unwrap().0;
            &&& state.secret().len() == 32
            &&& state.transcript() == protocol_label() + frame@ + r.unwrap().1@
            &&& state.peer_public() == h.eph_pub
            &&& state.handshake_key() == derived_key(
                "handshake_key"@,
                x25519_point(state.secret(), h.eph_pub),
                blake3_digest(state.transcript()),
            )
            &&& state.peer_quota() == h.quota
            &&& state.peer_total_memory() == h.total_memory
            &&& exchange_agrees(state.secret(), exchange_public(state.secret()))
            &&& exists|nonce: Seq<u8>|
                nonce.len() == 32
                    && r.unwrap().1@ == hello_frame(
                        PROTOCOL_VERSION,
                        nonce,
                        exchange_public(state.secret()),
                        ram_quota,
                        total_memory,
                    )
        }),
{
    match decode_message(frame) {
        None => {
            return Err(HandshakeError::Malformed);
        },
        Some(HandshakeMessage::Hello(h)) => {
            if h.version != PROTOCOL_VERSION {
                return Err(HandshakeError::VersionMismatch);
            }
        },
        Some(_) => {
            return Err(HandshakeError::Unexpected);
        },
    }
    match os_random_bytes32() {
        None => Err(HandshakeError::NoRandomness),
        Some(secret) => {
            let nonce = random_bytes32();
            let r = responder_hello(frame, ram_quota, total_memory, secret, nonce);
            assert(nonce@.len() == 32);
            r
        },
    }
}

} // verus!
