//! The running transcript of a handshake: every message that went over
//! the wire, in order, bound into one hash.

use vstd::prelude::*;

use crate::bytes::append_bytes;
use crate::crypto::blake3_digest;
use crate::crypto::blake3_hash;

verus! {

/// The transcript of a handshake. Its hash covers the protocol's name and
/// everything that was mixed in since, in order.
pub struct Transcript {
    absorbed: Vec<u8>,
}

impl Transcript {
    /// Everything that the transcript has taken in, in order.
    pub closed spec fn absorbed(&self) -> Seq<u8> {
        self.absorbed@
    }

    /// A transcript that holds the name of the protocol.
    pub fn new(protocol_name: &str) -> (t: Transcript)
        ensures
            t.absorbed() == vstd::utf8::encode_utf8(protocol_name@),
    {
        let mut absorbed: Vec<u8> = Vec::new();
        append_bytes(&mut absorbed, protocol_name.as_bytes());
        assert(absorbed@ =~= vstd::utf8::encode_utf8(protocol_name@));
        Transcript { absorbed }
    }

    /// Mixes a wire message into the transcript. The label says which
    /// message it is and does not enter the hash.
    pub fn mix(&mut self, _label: &str, data: &[u8])
        ensures
            final(self).absorbed() == old(self).absorbed() + data@,
    {
        append_bytes(&mut self.absorbed, data);
    }

    /// Mixes a public key into the transcript.
    pub fn mix_key(&mut self, key: &[u8; 32])
        ensures
            final(self).absorbed() == old(self).absorbed() + key@,
    {
        append_bytes(&mut self.absorbed, key.as_slice());
    }

    /// The hash of everything that the transcript has taken in. The
    /// transcript goes on afterwards.
    pub fn current_hash(&self) -> (hash: [u8; 32])
        ensures
            hash@ == blake3_digest(self.absorbed()),
    {
        blake3_hash(self.absorbed.as_slice())
    }
}

} // verus!
