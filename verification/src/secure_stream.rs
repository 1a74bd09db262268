//! Sealed frames: each direction of a connection seals its frames with
//! ChaCha20-Poly1305 under its own key, with a counter as nonce that
//! starts at zero and goes up by one with every frame.

use vstd::prelude::*;

use crate::bytes::be_u64;
use crate::crypto::aead_open;
use crate::crypto::aead_seal;
use crate::crypto::chacha_open;
use crate::crypto::chacha_seal;
use crate::framing::encode_frame;
use crate::framing::first_payload;
use crate::framing::frame_of;
use crate::framing::lemma_frame_roundtrip;

verus! {

/// The longest plaintext that one sealed frame carries: what a 32-bit
/// frame length leaves after the 16 bytes of the tag.
pub const MAX_PLAINTEXT: usize = 0xffff_ffef;

/// Why a frame was not sent or not accepted.
#[derive(Debug, Clone, Copy, PartialEq, Eq, Structural)]
pub enum StreamError {
    /// The plaintext is too long for one frame.
    TooLarge,
    /// The counter has run out: the key must not seal or open another frame.
    CounterExhausted,
    /// The frame does not open under the key and the counter.
    DecryptionFailed,
    /// An earlier frame failed: the stream is closed.
    Closed,
}

/// The nonce of the frame with this number: four zero bytes and the
/// number, big-endian.
pub open spec fn nonce_of(counter: u64) -> Seq<u8> {
    seq![0u8, 0u8, 0u8, 0u8] + be_u64(counter)
}

/// The nonce of the frame with this number.
pub fn nonce_bytes(counter: u64) -> (nonce: [u8; 12])
    ensures
        nonce@ == nonce_of(counter),
{
    let mut tail: Vec<u8> = Vec::new();
    crate::bytes::put_u64(&mut tail, counter);
    let mut nonce = [0u8; 12];
    let mut i: usize = 0;
    assert(tail@ =~= be_u64(counter));
    while i < 8
        invariant
            i <= 8,
            tail@.len() == 8,
            forall|j: int| 0 <= j < 4 ==> nonce@[j] == 0u8,
            forall|j: int| 0 <= j < i ==> nonce@[4 + j] == tail@[j],
        decreases 8 - i,
    {
        nonce[4 + i] = tail[i];
        i = i + 1;
    }
    assert(nonce@ =~= nonce_of(counter));
    nonce
}

/// The state of the reading side of a sealed stream.
pub struct ReaderState {
    pub counter: u64,
    pub failed: bool,
}

/// What the reading side makes of the sealed payload of one frame: it
/// accepts nothing once a frame has failed; otherwise it opens the payload
/// under the nonce of its counter, counts on where that succeeds, and
/// fails for good where it does not.
pub open spec fn reader_step(
    key: Seq<u8>,
    state: ReaderState,
    sealed: Seq<u8>,
) -> (ReaderState, Result<Seq<u8>, StreamError>) {
    if state.failed {
        (state, Err(StreamError::Closed))
    } else if state.counter == u64::MAX {
        (ReaderState { counter: state.counter, failed: true }, Err(StreamError::CounterExhausted))
    } else {
        match aead_open(key, nonce_of(state.counter), sealed) {
            Some(plain) => (
                ReaderState { counter: (state.counter + 1) as u64, failed: false },
                Ok(plain),
            ),
            None => (
                ReaderState { counter: state.counter, failed: true },
                Err(StreamError::DecryptionFailed),
            ),
        }
    }
}

/// What the reading side accepts of a run of sealed payloads, in order,
/// and the state that it ends in.
pub open spec fn reader_run(
    key: Seq<u8>,
    state: ReaderState,
    sealed: Seq<Seq<u8>>,
) -> (ReaderState, Seq<Seq<u8>>)
    decreases sealed.len(),
{
    if sealed.len() == 0 {
        (state, Seq::empty())
    } else {
        let before = reader_run(key, state, sealed.drop_last());
        let step = reader_step(key, before.0, sealed.last());
        match step.1 {
            Ok(plain) => (step.0, before.1.push(plain)),
            Err(_) => (step.0, before.1),
        }
    }
}

/// Frames arrive as they were sent. Where every sealed payload opens,
/// under the key and the nonce of its place in the stream, to the
/// plaintext that the writer sealed in that place, the reader accepts
/// exactly those plaintexts, in order, and is ready for more.
pub proof fn lemma_stream_in_order(
    key: Seq<u8>,
    start: u64,
    plaintexts: Seq<Seq<u8>>,
    sealed: Seq<Seq<u8>>,
)
    requires
        sealed.len() == plaintexts.len(),
        start + sealed.len() <= u64::MAX,
        forall|i: int|
            0 <= i < sealed.len() ==>
                aead_open(key, nonce_of((start + i) as u64), #[trigger] sealed[i]) == Some(
                    plaintexts[i],
                ),
    ensures
        reader_run(key, ReaderState { counter: start, failed: false }, sealed)
            == (ReaderState { counter: (start + sealed.len()) as u64, failed: false }, plaintexts),
    decreases sealed.len(),
{
    if sealed.len() > 0 {
        let n = sealed.len() - 1;
        lemma_stream_in_order(key, start, plaintexts.drop_last(), sealed.drop_last());
        assert(sealed.last() == sealed[n]);
        assert(plaintexts.drop_last().push(plaintexts[n]) =~= plaintexts);
    } else {
        assert(plaintexts =~= Seq::<Seq<u8>>::empty());
    }
}

/// A stream that has failed stays closed: whatever arrives afterwards,
/// nothing more is accepted.
pub proof fn lemma_failed_stream_stays_closed(key: Seq<u8>, counter: u64, sealed: Seq<Seq<u8>>)
    ensures
        reader_run(key, ReaderState { counter: counter, failed: true }, sealed)
            == (ReaderState { counter: counter, failed: true }, Seq::<Seq<u8>>::empty()),
    decreases sealed.len(),
{
    if sealed.len() > 0 {
        lemma_failed_stream_stays_closed(key, counter, sealed.drop_last());
    }
}

/// A frame that does not open closes the stream: the frames before it
/// are accepted, and nothing after it is.
pub proof fn lemma_tampered_frame_closes_stream(
    key: Seq<u8>,
    state: ReaderState,
    before: Seq<Seq<u8>>,
    bad: Seq<u8>,
    after: Seq<Seq<u8>>,
)
    requires
        reader_step(key, reader_run(key, state, before).0, bad).1 is Err,
    ensures
        reader_run(key, state, before.push(bad) + after).1 == reader_run(key, state, before).1,
        reader_run(key, state, before.push(bad) + after).0.failed,
    decreases after.len(),
{
    let all = before.push(bad) + after;
    if after.len() == 0 {
        assert(all =~= before.push(bad));
        assert(all.drop_last() =~= before);
    } else {
        lemma_tampered_frame_closes_stream(key, state, before, bad, after.drop_last());
        assert(all.drop_last() =~= before.push(bad) + after.drop_last());
    }
}

/// The writing side of a sealed stream.
pub struct SecureWriter {
    key: [u8; 32],
    nonce_counter: u64,
}

impl SecureWriter {
    /// The key that seals the frames.
    pub closed spec fn key(&self) -> Seq<u8> {
        self.key@
    }

    /// The number of the next frame.
    pub closed spec fn counter(&self) -> u64 {
        self.nonce_counter
    }

    /// A writer that starts with frame zero.
    pub fn new(key: &[u8; 32]) -> (w: SecureWriter)
        ensures
            w.key() == key@,
            w.counter() == 0,
    {
        SecureWriter { key: *key, nonce_counter: 0 }
    }

    /// A writer that starts with frame zero.
    pub fn from_raw(key: &[u8; 32]) -> (w: SecureWriter)
        ensures
            w.key() == key@,
            w.counter() == 0,
    {
        SecureWriter::new(key)
    }

    /// Seals `data` as the next frame and returns the bytes to put on the
    /// wire: the length, and the sealed payload, which is 16 bytes longer
    /// than `data` and opens under the same key and counter to `data`. The
    /// counter goes up by one. Data that is too long, or a counter that
    /// has run out, is refused and changes nothing.
    pub fn send_frame(&mut self, data: &[u8]) -> (r: Result<Vec<u8>, StreamError>)
        ensures
            final(self).key() == old(self).key(),
            data@.len() > MAX_PLAINTEXT ==> ({
                &&& r == Err::<Vec<u8>, StreamError>(StreamError::TooLarge)
                &&& final(self).counter() == old(self).counter()
            }),
            data@.len() <= MAX_PLAINTEXT && old(self).counter() == u64::MAX ==> ({
                &&& r == Err::<Vec<u8>, StreamError>(StreamError::CounterExhausted)
                &&& final(self).counter() == old(self).counter()
            }),
            data@.len() <= MAX_PLAINTEXT && old(self).counter() < u64::MAX ==> ({
                let sealed = aead_seal(old(self).key(), nonce_of(old(self).counter()), data@);
                &&& r is Ok
                &&& final(self).counter() == old(self).counter() + 1
                &&& sealed.is_some()
                &&& sealed.unwrap().len() == data@.len() + 16
                &&& r.unwrap()@ == frame_of(sealed.unwrap())
                &&& r.unwrap()@.len() == 4 + data@.len() + 16
                &&& first_payload(r.unwrap()@) == sealed
                &&& aead_open(old(self).key(), nonce_of(old(self).counter()), sealed.unwrap())
                    == Some(data@)
            }),
    {
        if data.len() > MAX_PLAINTEXT {
            return Err(StreamError::TooLarge);
        }
        if self.nonce_counter == u64::MAX {
            return Err(StreamError::CounterExhausted);
        }
        let nonce = nonce_bytes(self.nonce_counter);
        match chacha_seal(&self.key, &nonce, data) {
            None => Err(StreamError::TooLarge),
            Some(sealed) => match encode_frame(sealed.as_slice()) {
                Err(_) => Err(StreamError::TooLarge),
                Ok(frame) => {
                    proof {
                        lemma_frame_roundtrip(sealed@, Seq::empty());
                        assert(frame@ + Seq::<u8>::empty() =~= frame@);
                    }
                    self.nonce_counter = self.nonce_counter + 1;
                    Ok(frame)
                },
            },
        }
    }
}

/// The reading side of a sealed stream.
pub struct SecureReader {
    key: [u8; 32],
    nonce_counter: u64,
    failed: bool,
}

impl SecureReader {
    /// The key that opens the frames.
    pub closed spec fn key(&self) -> Seq<u8> {
        self.key@
    }

    /// The number of the next frame, and whether a frame has failed.
    pub closed spec fn state(&self) -> ReaderState {
        ReaderState { counter: self.nonce_counter, failed: self.failed }
    }

    /// A reader that expects frame zero.
    pub fn new(key: &[u8; 32]) -> (r: SecureReader)
        ensures
            r.key() == key@,
            r.state() == (ReaderState { counter: 0, failed: false }),
    {
        SecureReader { key: *key, nonce_counter: 0, failed: false }
    }

    /// Opens the sealed payload of the next frame; see `reader_step`.
    pub fn recv_frame(&mut self, sealed: &[u8]) -> (r: Result<Vec<u8>, StreamError>)
        ensures
            final(self).key() == old(self).key(),
            final(self).state() == reader_step(old(self).key(), old(self).state(), sealed@).0,
            match r {
                Ok(plain) => reader_step(old(self).key(), old(self).state(), sealed@).1
                    == Ok::<Seq<u8>, StreamError>(plain@),
                Err(e) => reader_step(old(self).key(), old(self).state(), sealed@).1
                    == Err::<Seq<u8>, StreamError>(e),
            },
    {
        if self.failed {
            return Err(StreamError::Closed);
        }
        if self.nonce_counter == u64::MAX {
            self.failed = true;
            return Err(StreamError::CounterExhausted);
        }
        let nonce = nonce_bytes(self.nonce_counter);
        match chacha_open(&self.key, &nonce, sealed) {
            Some(plain) => {
                self.nonce_counter = self.nonce_counter + 1;
                Ok(plain)
            },
            None => {
                self.failed = true;
                Err(StreamError::DecryptionFailed)
            },
        }
    }
}

} // verus!
