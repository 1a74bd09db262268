//! The messages that two authenticated peers exchange, and what a node
//! does with each message that it reads.

use vstd::prelude::*;

use crate::blocks::keys_of_held;
use crate::blocks::without_peer;
use crate::blocks::Block;
use crate::blocks::BlockManager;
use crate::blocks::Durability;
use crate::blocks::InMemoryBlockManager;
use crate::blocks::StoreError;
use crate::bytes::be_u128;
use crate::bytes::be_u16;
use crate::bytes::be_u64;
use crate::bytes::put_u128;
use crate::bytes::put_u16;
use crate::bytes::put_u64;
use crate::crypto::random_u64;
use crate::peers::charged;
use crate::peers::fits_quota;
use crate::peers::PeerInfo;
use crate::peers::PeerManager;
use crate::secure_stream::reader_step;
use crate::secure_stream::SecureReader;
use crate::secure_stream::SecureWriter;
use crate::wire::enc_bytes;
use crate::wire::enc_opt_bytes;
use crate::wire::enc_text;
use crate::wire::lemma_parse_bytes;
use crate::wire::lemma_parse_opt_bytes;
use crate::wire::lemma_parse_text;
use crate::wire::lemma_parse_u128;
use crate::wire::lemma_parse_u16;
use crate::wire::lemma_parse_u64;
use crate::wire::lemma_parse_u8;
use crate::wire::opt_view;
use crate::wire::parse_bytes;
use crate::wire::parse_opt_bytes;
use crate::wire::parse_text;
use crate::wire::parse_u128;
use crate::wire::parse_u16;
use crate::wire::parse_u64;
use crate::wire::parse_u8;
use crate::wire::put_bytes;
use crate::wire::put_opt_bytes;
use crate::wire::put_text;
use crate::wire::Reader;
use vstd::utf8::encode_utf8;

verus! {

/// A message between peers, one per sealed frame.
#[derive(Debug, Clone)]
pub enum Message {
    /// A greeting from before the handshake existed; read and ignored.
    Hello { version: u16, node_id: u128, name: String, total_memory: u64, used_memory: u64 },
    /// Store this block for the sender, within the sender's quota.
    PutBlock { id: u64, data: Vec<u8> },
    /// Send the block with this id; answered by `BlockData`.
    GetBlock { id: u64 },
    /// The answer to `GetBlock`: the block's bytes, or nothing.
    BlockData { id: u64, data: Option<Vec<u8>> },
    /// Send the value of this key; answered by `KeyFound`.
    GetKey { key: String },
    /// The answer to `GetKey`: the value, or nothing.
    KeyFound { key: String, data: Option<Vec<u8>> },
    /// Store this value under this key for the sender; answered by `KeyStored`.
    PutKey { key: String, data: Vec<u8> },
    /// The answer to `PutKey`: the id of the block that holds the value.
    KeyStored { key: String, id: u64 },
    /// The sender now lets the receiver store this many bytes on it.
    UpdateQuota { quota: u64 },
    /// An acknowledgement; read and ignored.
    Ack,
    /// Drop everything that is stored.
    Flush,
    /// The sender closes the connection.
    Bye,
}

/// A message as the values that it carries.
pub enum MessageView {
    Hello { version: u16, node_id: u128, name: Seq<char>, total_memory: u64, used_memory: u64 },
    PutBlock { id: u64, data: Seq<u8> },
    GetBlock { id: u64 },
    BlockData { id: u64, data: Option<Seq<u8>> },
    GetKey { key: Seq<char> },
    KeyFound { key: Seq<char>, data: Option<Seq<u8>> },
    PutKey { key: Seq<char>, data: Seq<u8> },
    KeyStored { key: Seq<char>, id: u64 },
    UpdateQuota { quota: u64 },
    Ack,
    Flush,
    Bye,
}

impl View for Message {
    type V = MessageView;

    open spec fn view(&self) -> MessageView {
        match *self {
            Message::Hello { version, node_id, name, total_memory, used_memory } => {
                MessageView::Hello { version, node_id, name: name@, total_memory, used_memory }
            },
            Message::PutBlock { id, data } => MessageView::PutBlock { id, data: data@ },
            Message::GetBlock { id } => MessageView::GetBlock { id },
            Message::BlockData { id, data } => MessageView::BlockData { id, data: opt_view(data) },
            Message::GetKey { key } => MessageView::GetKey { key: key@ },
            Message::KeyFound { key, data } => MessageView::KeyFound {
                key: key@,
                data: opt_view(data),
            },
            Message::PutKey { key, data } => MessageView::PutKey { key: key@, data: data@ },
            Message::KeyStored { key, id } => MessageView::KeyStored { key: key@, id },
            Message::UpdateQuota { quota } => MessageView::UpdateQuota { quota },
            Message::Ack => MessageView::Ack,
            Message::Flush => MessageView::Flush,
            Message::Bye => MessageView::Bye,
        }
    }
}

/// Why a byte string is no message that this node knows.
#[derive(Debug, Clone, Copy, PartialEq, Eq, Structural)]
pub enum WireError {
    /// The message has a tag that this node does not know. Such a message
    /// is passed over, so that later versions can add messages.
    UnknownTag(u8),
    /// The bytes break off, or go on after the message has ended, or hold
    /// a text that is not UTF-8.
    Malformed,
}

/// The bytes of a message: its tag, then its fields in order, numbers
/// big-endian, texts and byte strings after their length.
pub open spec fn encode_message(m: MessageView) -> Seq<u8> {
    match m {
        MessageView::Hello { version, node_id, name, total_memory, used_memory } => {
            let memory = be_u64(total_memory) + be_u64(used_memory);
            seq![0u8] + (be_u16(version) + (be_u128(node_id) + (enc_text(name) + memory)))
        },
        MessageView::PutBlock { id, data } => seq![1u8] + (be_u64(id) + enc_bytes(data)),
        MessageView::GetBlock { id } => seq![2u8] + be_u64(id),
        MessageView::BlockData { id, data } => seq![3u8] + (be_u64(id) + enc_opt_bytes(data)),
        MessageView::GetKey { key } => seq![4u8] + enc_text(key),
        MessageView::KeyFound { key, data } => seq![5u8] + (enc_text(key) + enc_opt_bytes(data)),
        MessageView::PutKey { key, data } => seq![6u8] + (enc_text(key) + enc_bytes(data)),
        MessageView::KeyStored { key, id } => seq![7u8] + (enc_text(key) + be_u64(id)),
        MessageView::UpdateQuota { quota } => seq![8u8] + be_u64(quota),
        MessageView::Ack => seq![9u8],
        MessageView::Flush => seq![10u8],
        MessageView::Bye => seq![11u8],
    }
}

/// The message, where nothing follows it.
pub open spec fn ended(m: MessageView, rest: Seq<u8>) -> Result<MessageView, WireError> {
    if rest.len() == 0 {
        Ok(m)
    } else {
        Err(WireError::Malformed)
    }
}

/// The fields of a `Hello`.
pub open spec fn decode_hello(s: Seq<u8>) -> Result<MessageView, WireError> {
    match parse_u16(s) {
        Some((version, r1)) => match parse_u128(r1) {
            Some((node_id, r2)) => match parse_text(r2) {
                Some((name, r3)) => match parse_u64(r3) {
                    Some((total_memory, r4)) => match parse_u64(r4) {
                        Some((used_memory, r5)) => ended(
                            MessageView::Hello {
                                version,
                                node_id,
                                name,
                                total_memory,
                                used_memory,
                            },
                            r5,
                        ),
                        None => Err(WireError::Malformed),
                    },
                    None => Err(WireError::Malformed),
                },
                None => Err(WireError::Malformed),
            },
            None => Err(WireError::Malformed),
        },
        None => Err(WireError::Malformed),
    }
}

/// The fields of a message that holds an id and a byte string.
pub open spec fn decode_id_bytes(s: Seq<u8>) -> Result<MessageView, WireError> {
    match parse_u64(s) {
        Some((id, r1)) => match parse_bytes(r1) {
            Some((data, r2)) => ended(MessageView::PutBlock { id, data }, r2),
            None => Err(WireError::Malformed),
        },
        None => Err(WireError::Malformed),
    }
}

/// The fields of a message that holds an id and an optional byte string.
pub open spec fn decode_id_opt(s: Seq<u8>) -> Result<MessageView, WireError> {
    match parse_u64(s) {
        Some((id, r1)) => match parse_opt_bytes(r1) {
            Some((data, r2)) => ended(MessageView::BlockData { id, data }, r2),
            None => Err(WireError::Malformed),
        },
        None => Err(WireError::Malformed),
    }
}

/// The fields of a message that holds a key and an optional byte string.
pub open spec fn decode_key_opt(s: Seq<u8>) -> Result<MessageView, WireError> {
    match parse_text(s) {
        Some((key, r1)) => match parse_opt_bytes(r1) {
            Some((data, r2)) => ended(MessageView::KeyFound { key, data }, r2),
            None => Err(WireError::Malformed),
        },
        None => Err(WireError::Malformed),
    }
}

/// The fields of a message that holds a key and a byte string.
pub open spec fn decode_key_bytes(s: Seq<u8>) -> Result<MessageView, WireError> {
    match parse_text(s) {
        Some((key, r1)) => match parse_bytes(r1) {
            Some((data, r2)) => ended(MessageView::PutKey { key, data }, r2),
            None => Err(WireError::Malformed),
        },
        None => Err(WireError::Malformed),
    }
}

/// The fields of a message that holds a key and an id.
pub open spec fn decode_key_id(s: Seq<u8>) -> Result<MessageView, WireError> {
    match parse_text(s) {
        Some((key, r1)) => match parse_u64(r1) {
            Some((id, r2)) => ended(MessageView::KeyStored { key, id }, r2),
            None => Err(WireError::Malformed),
        },
        None => Err(WireError::Malformed),
    }
}

/// The message that a byte string holds.
pub open spec fn decode_message(s: Seq<u8>) -> Result<MessageView, WireError> {
    match parse_u8(s) {
        None => Err(WireError::Malformed),
        Some((tag, r)) => if tag == 0 {
            decode_hello(r)
        } else if tag == 1 {
            decode_id_bytes(r)
        } else if tag == 2 {
            match parse_u64(r) {
                Some((id, r1)) => ended(MessageView::GetBlock { id }, r1),
                None => Err(WireError::Malformed),
            }
        } else if tag == 3 {
            decode_id_opt(r)
        } else if tag == 4 {
            match parse_text(r) {
                Some((key, r1)) => ended(MessageView::GetKey { key }, r1),
                None => Err(WireError::Malformed),
            }
        } else if tag == 5 {
            decode_key_opt(r)
        } else if tag == 6 {
            decode_key_bytes(r)
        } else if tag == 7 {
            decode_key_id(r)
        } else if tag == 8 {
            match parse_u64(r) {
                Some((quota, r1)) => ended(MessageView::UpdateQuota { quota }, r1),
                None => Err(WireError::Malformed),
            }
        } else if tag == 9 {
            ended(MessageView::Ack, r)
        } else if tag == 10 {
            ended(MessageView::Flush, r)
        } else if tag == 11 {
            ended(MessageView::Bye, r)
        } else {
            Err(WireError::UnknownTag(tag))
        },
    }
}

/// Whether the texts and byte strings of a message are short enough for
/// their lengths to be written in 64 bits, as those of every message in
/// memory are.
pub open spec fn encodable(m: MessageView) -> bool {
    match m {
        MessageView::Hello { name, .. } => encode_utf8(name).len() <= u64::MAX,
        MessageView::PutBlock { data, .. } => data.len() <= u64::MAX,
        MessageView::BlockData { data, .. } => data.is_some() ==> data.unwrap().len() <= u64::MAX,
        MessageView::GetKey { key } => encode_utf8(key).len() <= u64::MAX,
        MessageView::KeyFound { key, data } => {
            &&& encode_utf8(key).len() <= u64::MAX
            &&& (data.is_some() ==> data.unwrap().len() <= u64::MAX)
        },
        MessageView::PutKey { key, data } => {
            &&& encode_utf8(key).len() <= u64::MAX
            &&& data.len() <= u64::MAX
        },
        MessageView::KeyStored { key, .. } => encode_utf8(key).len() <= u64::MAX,
        _ => true,
    }
}

/// A message that is encoded and decoded again is the same message.
#[verifier::rlimit(40)]
pub proof fn lemma_message_roundtrip(m: MessageView)
    requires
        encodable(m),
    ensures
        decode_message(encode_message(m)) == Ok::<MessageView, WireError>(m),
{
    let e = Seq::<u8>::empty();
    match m {
        MessageView::Hello { version, node_id, name, total_memory, used_memory } => {
            let r4 = be_u64(used_memory);
            let r3 = be_u64(total_memory) + r4;
            let r2 = enc_text(name) + r3;
            let r1 = be_u128(node_id) + r2;
            let r0 = be_u16(version) + r1;
            lemma_parse_u8(0u8, r0);
            lemma_parse_u16(version, r1);
            lemma_parse_u128(node_id, r2);
            lemma_parse_text(name, r3);
            lemma_parse_u64(total_memory, r4);
            assert(r4 =~= be_u64(used_memory) + e);
            lemma_parse_u64(used_memory, e);
        },
        MessageView::PutBlock { id, data } => {
            lemma_parse_u8(1u8, be_u64(id) + enc_bytes(data));
            lemma_parse_u64(id, enc_bytes(data));
            assert(enc_bytes(data) =~= enc_bytes(data) + e);
            lemma_parse_bytes(data, e);
        },
        MessageView::GetBlock { id } => {
            lemma_parse_u8(2u8, be_u64(id));
            assert(be_u64(id) =~= be_u64(id) + e);
            lemma_parse_u64(id, e);
        },
        MessageView::BlockData { id, data } => {
            lemma_parse_u8(3u8, be_u64(id) + enc_opt_bytes(data));
            lemma_parse_u64(id, enc_opt_bytes(data));
            assert(enc_opt_bytes(data) =~= enc_opt_bytes(data) + e);
            lemma_parse_opt_bytes(data, e);
        },
        MessageView::GetKey { key } => {
            lemma_parse_u8(4u8, enc_text(key));
            assert(enc_text(key) =~= enc_text(key) + e);
            lemma_parse_text(key, e);
        },
        MessageView::KeyFound { key, data } => {
            lemma_parse_u8(5u8, enc_text(key) + enc_opt_bytes(data));
            lemma_parse_text(key, enc_opt_bytes(data));
            assert(enc_opt_bytes(data) =~= enc_opt_bytes(data) + e);
            lemma_parse_opt_bytes(data, e);
        },
        MessageView::PutKey { key, data } => {
            lemma_parse_u8(6u8, enc_text(key) + enc_bytes(data));
            lemma_parse_text(key, enc_bytes(data));
            assert(enc_bytes(data) =~= enc_bytes(data) + e);
            lemma_parse_bytes(data, e);
        },
        MessageView::KeyStored { key, id } => {
            lemma_parse_u8(7u8, enc_text(key) + be_u64(id));
            lemma_parse_text(key, be_u64(id));
            assert(be_u64(id) =~= be_u64(id) + e);
            lemma_parse_u64(id, e);
        },
        MessageView::UpdateQuota { quota } => {
            lemma_parse_u8(8u8, be_u64(quota));
            assert(be_u64(quota) =~= be_u64(quota) + e);
            lemma_parse_u64(quota, e);
        },
        MessageView::Ack => {
            assert(seq![9u8] =~= seq![9u8] + e);
            lemma_parse_u8(9u8, e);
        },
        MessageView::Flush => {
            assert(seq![10u8] =~= seq![10u8] + e);
            lemma_parse_u8(10u8, e);
        },
        MessageView::Bye => {
            assert(seq![11u8] =~= seq![11u8] + e);
            lemma_parse_u8(11u8, e);
        },
    }
}

/// The bytes of a message, as they travel in a sealed frame.
#[verifier::rlimit(40)]
pub fn encode(m: &Message) -> (bytes: Vec<u8>)
    ensures
        bytes@ == encode_message(m@),
        encodable(m@),
{
    let mut out: Vec<u8> = Vec::new();
    match m {
        Message::Hello { version, node_id, name, total_memory, used_memory } => {
            out.push(0u8);
            put_u16(&mut out, *version);
            put_u128(&mut out, *node_id);
            put_text(&mut out, name.as_str());
            put_u64(&mut out, *total_memory);
            put_u64(&mut out, *used_memory);
            assert(out@ =~= encode_message(m@));
        },
        Message::PutBlock { id, data } => {
            out.push(1u8);
            put_u64(&mut out, *id);
            put_bytes(&mut out, data.as_slice());
            assert(out@ =~= encode_message(m@));
        },
        Message::GetBlock { id } => {
            out.push(2u8);
            put_u64(&mut out, *id);
            assert(out@ =~= encode_message(m@));
        },
        Message::BlockData { id, data } => {
            out.push(3u8);
            put_u64(&mut out, *id);
            put_opt_bytes(&mut out, data);
            assert(out@ =~= encode_message(m@));
        },
        Message::GetKey { key } => {
            out.push(4u8);
            put_text(&mut out, key.as_str());
            assert(out@ =~= encode_message(m@));
        },
        Message::KeyFound { key, data } => {
            out.push(5u8);
            put_text(&mut out, key.as_str());
            put_opt_bytes(&mut out, data);
            assert(out@ =~= encode_message(m@));
        },
        Message::PutKey { key, data } => {
            out.push(6u8);
            put_text(&mut out, key.as_str());
            put_bytes(&mut out, data.as_slice());
            assert(out@ =~= encode_message(m@));
        },
        Message::KeyStored { key, id } => {
            out.push(7u8);
            put_text(&mut out, key.as_str());
            put_u64(&mut out, *id);
            assert(out@ =~= encode_message(m@));
        },
        Message::UpdateQuota { quota } => {
            out.push(8u8);
            put_u64(&mut out, *quota);
            assert(out@ =~= encode_message(m@));
        },
        Message::Ack => {
            out.push(9u8);
            assert(out@ =~= encode_message(m@));
        },
        Message::Flush => {
            out.push(10u8);
            assert(out@ =~= encode_message(m@));
        },
        Message::Bye => {
            out.push(11u8);
            assert(out@ =~= encode_message(m@));
        },
    }
    out
}

/// The message that the payload of a frame holds.
#[verifier::rlimit(40)]
pub fn decode(bytes: &[u8]) -> (r: Result<Message, WireError>)
    ensures
        match r {
            Ok(m) => decode_message(bytes@) == Ok::<MessageView, WireError>(m@),
            Err(e) => decode_message(bytes@) == Err::<MessageView, WireError>(e),
        },
{
    let mut rd = Reader::new(bytes);
    let tag = match rd.u8() {
        Some(t) => t,
        None => {
            return Err(WireError::Malformed);
        },
    };
    let m = if tag == 0 {
        let version = match rd.u16() {
            Some(v) => v,
            None => {
                return Err(WireError::Malformed);
            },
        };
        let node_id = match rd.u128() {
            Some(v) => v,
            None => {
                return Err(WireError::Malformed);
            },
        };
        let name = match rd.text() {
            Some(v) => v,
            None => {
                return Err(WireError::Malformed);
            },
        };
        let total_memory = match rd.u64() {
            Some(v) => v,
            None => {
                return Err(WireError::Malformed);
            },
        };
        let used_memory = match rd.u64() {
            Some(v) => v,
            None => {
                return Err(WireError::Malformed);
            },
        };
        Message::Hello { version, node_id, name, total_memory, used_memory }
    } else if tag == 1 {
        let id = match rd.u64() {
            Some(v) => v,
            None => {
                return Err(WireError::Malformed);
            },
        };
        let data = match rd.bytes() {
            Some(v) => v,
            None => {
                return Err(WireError::Malformed);
            },
        };
        Message::PutBlock { id, data }
    } else if tag == 2 {
        let id = match rd.u64() {
            Some(v) => v,
            None => {
                return Err(WireError::Malformed);
            },
        };
        Message::GetBlock { id }
    } else if tag == 3 {
        let id = match rd.u64() {
            Some(v) => v,
            None => {
                return Err(WireError::Malformed);
            },
        };
        let data = match rd.opt_bytes() {
            Some(v) => v,
            None => {
                return Err(WireError::Malformed);
            },
        };
        Message::BlockData { id, data }
    } else if tag == 4 {
        let key = match rd.text() {
            Some(v) => v,
            None => {
                return Err(WireError::Malformed);
            },
        };
        Message::GetKey { key }
    } else if tag == 5 {
        let key = match rd.text() {
            Some(v) => v,
            None => {
                return Err(WireError::Malformed);
            },
        };
        let data = match rd.opt_bytes() {
            Some(v) => v,
            None => {
                return Err(WireError::Malformed);
            },
        };
        Message::KeyFound { key, data }
    } else if tag == 6 {
        let key = match rd.text() {
            Some(v) => v,
            None => {
                return Err(WireError::Malformed);
            },
        };
        let data = match rd.bytes() {
            Some(v) => v,
            None => {
                return Err(WireError::Malformed);
            },
        };
        Message::PutKey { key, data }
    } else if tag == 7 {
        let key = match rd.text() {
            Some(v) => v,
            None => {
                return Err(WireError::Malformed);
            },
        };
        let id = match rd.u64() {
            Some(v) => v,
            None => {
                return Err(WireError::Malformed);
            },
        };
        Message::KeyStored { key, id }
    } else if tag == 8 {
        let quota = match rd.u64() {
            Some(v) => v,
            None => {
                return Err(WireError::Malformed);
            },
        };
        Message::UpdateQuota { quota }
    } else if tag == 9 {
        Message::Ack
    } else if tag == 10 {
        Message::Flush
    } else if tag == 11 {
        Message::Bye
    } else {
        return Err(WireError::UnknownTag(tag));
    };
    if rd.at_end() {
        Ok(m)
    } else {
        Err(WireError::Malformed)
    }
}

/// A reply that has arrived for somebody who waits for it.
#[derive(Debug)]
pub enum Delivery {
    /// The bytes of a block that was asked for, or nothing where the peer
    /// does not hold the block.
    Block { id: u64, data: Option<Vec<u8>> },
    /// The value of a key that was looked up.
    Key { key: String, data: Vec<u8> },
    /// The id under which a peer stored a key's value.
    KeyStored { key: String, id: u64 },
}

/// What is to be done once a message has been handled.
#[derive(Debug)]
pub struct Dispatch {
    /// The message to send back to the peer, if any.
    pub reply: Option<Message>,
    /// The reply to hand to those who wait for it, if any.
    pub delivery: Option<Delivery>,
    /// Whether the connection is to be closed.
    pub close: bool,
}

/// The bytes of a block that is held here.
pub open spec fn local_bytes(store: &InMemoryBlockManager, id: u64) -> Option<Vec<u8>> {
    if store.blocks().contains_key(id) {
        Some(store.blocks()[id].data)
    } else {
        None
    }
}

/// The value of a key that is bound to a block held here.
pub open spec fn local_value(store: &InMemoryBlockManager, key: Seq<char>) -> Option<Vec<u8>> {
    if store.keys().contains_key(key) {
        local_bytes(store, store.keys()[key])
    } else {
        None
    }
}

/// Whether a peer can reserve `size` more bytes on this node.
pub open spec fn can_reserve(peers: &PeerManager, peer: u128, size: int) -> bool {
    peers.peers().contains_key(peer) && fits_quota(peers.peers()[peer], size)
}

/// The records of the peers once `peer` has reserved `size` more bytes.
pub open spec fn with_reserved(
    peers: Map<u128, PeerInfo>,
    peer: u128,
    size: int,
) -> Map<u128, PeerInfo> {
    peers.insert(peer, charged(peers[peer], size))
}

/// What a node does with a message from the peer `peer`. `fresh` is the
/// id that a value written by `PutKey` is stored under, and `now` the
/// time. The result says what is sent back, what is delivered to waiters,
/// and whether the connection closes.
pub open spec fn handled(
    store0: &InMemoryBlockManager,
    peers0: &PeerManager,
    peer: u128,
    msg: Message,
    now: u64,
    fresh: u64,
    store1: &InMemoryBlockManager,
    peers1: &PeerManager,
    out: Dispatch,
) -> bool {
    match msg {
        Message::Hello { .. } | Message::Ack => {
            &&& store1.unchanged(store0)
            &&& peers1.unchanged(peers0)
            &&& out.reply.is_none() && out.delivery.is_none() && !out.close
        },
        Message::GetBlock { id } => {
            &&& store1.unchanged(store0)
            &&& peers1.unchanged(peers0)
            &&& out.reply == Some(Message::BlockData { id: id, data: local_bytes(store0, id) })
            &&& out.delivery.is_none() && !out.close
        },
        Message::BlockData { id, data } => {
            &&& store1.unchanged(store0)
            &&& peers1.same_peers(peers0)
            &&& peers1.key_waiters() == peers0.key_waiters()
            &&& peers1.key_write_waiters() == peers0.key_write_waiters()
            &&& peers1.handshakes() == peers0.handshakes()
            &&& out.reply.is_none() && !out.close
            &&& peers1.block_waiters() == peers0.block_waiters().remove(id)
            &&& out.delivery == (if peers0.block_waiters().contains_key(id) {
                Some(Delivery::Block { id: id, data: data })
            } else {
                None
            })
        },
        Message::PutBlock { id, data } => {
            let block = Block {
                id: id,
                data: data,
                durability: Durability::Pinned,
                last_accessed: now,
            };
            &&& peers1.same_but_peers(peers0)
            &&& out.reply.is_none() && out.delivery.is_none() && !out.close
            &&& if !can_reserve(peers0, peer, data@.len() as int) {
                store1.unchanged(store0) && peers1.peers() == peers0.peers()
            } else if is_stored(store0, block) {
                &&& store0.put_outcome(block, store1, Ok::<(), StoreError>(()))
                &&& peers1.peers() == with_reserved(peers0.peers(), peer, data@.len() as int)
            } else {
                store1.unchanged(store0) && peers1.peers() == peers0.peers()
            }
        },
        Message::GetKey { key } => {
            &&& store1.unchanged(store0)
            &&& peers1.unchanged(peers0)
            &&& out.reply is Some && out.reply.unwrap() is KeyFound
            &&& out.reply.unwrap()->KeyFound_key@ == key@
            &&& out.reply.unwrap()->KeyFound_data == local_value(store0, key@)
            &&& out.delivery.is_none() && !out.close
        },
        Message::KeyFound { key, data } => {
            &&& store1.unchanged(store0)
            &&& peers1.same_peers(peers0)
            &&& peers1.block_waiters() == peers0.block_waiters()
            &&& peers1.key_write_waiters() == peers0.key_write_waiters()
            &&& peers1.handshakes() == peers0.handshakes()
            &&& out.reply.is_none() && !out.close
            &&& if data.is_some() {
                &&& peers1.key_waiters() == peers0.key_waiters().remove(key@)
                &&& out.delivery == (if peers0.key_waiters().contains_key(key@) {
                    Some(Delivery::Key { key: key, data: data.unwrap() })
                } else {
                    None
                })
            } else {
                peers1.key_waiters() == peers0.key_waiters() && out.delivery.is_none()
            }
        },
        Message::PutKey { key, data } => {
            let block = Block {
                id: fresh,
                data: data,
                durability: Durability::Pinned,
                last_accessed: now,
            };
            &&& peers1.same_but_peers(peers0)
            &&& out.delivery.is_none() && !out.close
            &&& if !can_reserve(peers0, peer, data@.len() as int) {
                store1.unchanged(store0) && peers1.peers() == peers0.peers() && out.reply.is_none()
            } else if is_stored(store0, block) {
                &&& store0.named_put_ok(key@, block, store1)
                &&& peers1.peers() == with_reserved(peers0.peers(), peer, data@.len() as int)
                &&& out.reply == Some(Message::KeyStored { key: key, id: fresh })
            } else {
                store1.unchanged(store0) && peers1.peers() == peers0.peers() && out.reply.is_none()
            }
        },
        Message::KeyStored { key, id } => {
            &&& store1.unchanged(store0)
            &&& peers1.same_peers(peers0)
            &&& peers1.block_waiters() == peers0.block_waiters()
            &&& peers1.key_waiters() == peers0.key_waiters()
            &&& peers1.handshakes() == peers0.handshakes()
            &&& peers1.key_write_waiters() == peers0.key_write_waiters().remove(key@)
            &&& out.reply.is_none() && !out.close
            &&& out.delivery == (if peers0.key_write_waiters().contains_key(key@) {
                Some(Delivery::KeyStored { key: key, id: id })
            } else {
                None
            })
        },
        Message::UpdateQuota { quota } => {
            &&& store1.unchanged(store0)
            &&& peers1.same_but_peers(peers0)
            &&& out.reply.is_none() && out.delivery.is_none() && !out.close
            &&& peers1.peers() == (if peers0.peers().contains_key(peer) {
                peers0.peers().insert(
                    peer,
                    PeerInfo { remote_quota: quota, ..peers0.peers()[peer] },
                )
            } else {
                peers0.peers()
            })
        },
        Message::Flush => {
            &&& store1.blocks() =~= Map::empty()
            &&& store1.keys() =~= Map::empty()
            &&& store1.remote() =~= Map::empty()
            &&& store1.uploads() =~= Map::empty()
            &&& store1.used() == 0
            &&& store1.max() == store0.max()
            &&& peers1.unchanged(peers0)
            &&& out.reply.is_none() && out.delivery.is_none() && !out.close
        },
        Message::Bye => {
            &&& store1.unchanged(store0)
            &&& peers1.unchanged(peers0)
            &&& out.reply.is_none() && out.delivery.is_none() && out.close
        },
    }
}

/// Whether the store takes a pinned block: its id is new, and it fits.
pub open spec fn is_stored(store: &InMemoryBlockManager, block: Block) -> bool {
    !crate::blocks::is_held(store.blocks(), store.remote(), block.id) && store.used()
        + block.data@.len() <= store.max()
}

/// Handles a message from the peer `peer`; `fresh` is the id that a value
/// written by `PutKey` is stored under.
#[verifier::rlimit(40)]
pub fn handle_message_with(
    store: &mut InMemoryBlockManager,
    peers: &mut PeerManager,
    peer: u128,
    msg: Message,
    now: u64,
    fresh: u64,
) -> (out: Dispatch)
    requires
        old(store).wf(),
        old(peers).wf(),
    ensures
        final(store).wf(),
        final(peers).wf(),
        handled(old(store), old(peers), peer, msg, now, fresh, final(store), final(peers), out),
{
    match msg {
        Message::Hello { .. } => Dispatch { reply: None, delivery: None, close: false },
        Message::Ack => Dispatch { reply: None, delivery: None, close: false },
        Message::GetBlock { id } => {
            let data = match store.get_block(id) {
                Ok(Some(block)) => Some(block.data),
                _ => None,
            };
            Dispatch { reply: Some(Message::BlockData { id, data }), delivery: None, close: false }
        },
        Message::BlockData { id, data } => {
            let delivery = match data {
                Some(d) => match peers.satisfy_request(id, d) {
                    Some(d) => Some(Delivery::Block { id, data: Some(d) }),
                    None => None,
                },
                None => if peers.satisfy_request_not_held(id) {
                    Some(Delivery::Block { id, data: None })
                } else {
                    None
                },
            };
            Dispatch { reply: None, delivery, close: false }
        },
        Message::PutBlock { id, data } => {
            let size = data.len() as u64;
            let ghost before = peers.peers();
            if peers.try_reserve_storage(peer, size) {
                let block = Block { id, data, durability: Durability::Pinned, last_accessed: now };
                match store.put_block(block) {
                    Ok(()) => {},
                    Err(_) => {
                        peers.release_storage(peer, size);
                        assert(peers.peers() =~= before);
                    },
                }
            }
            Dispatch { reply: None, delivery: None, close: false }
        },
        Message::GetKey { key } => {
            let data = match store.get_named_block_id(key.as_str()) {
                Some(id) => match store.get_block(id) {
                    Ok(Some(block)) => Some(block.data),
                    _ => None,
                },
                None => None,
            };
            Dispatch { reply: Some(Message::KeyFound { key, data }), delivery: None, close: false }
        },
        Message::KeyFound { key, data } => {
            let delivery = match data {
                Some(d) => match peers.satisfy_key_request(key.as_str(), d) {
                    Some(d) => Some(Delivery::Key { key, data: d }),
                    None => None,
                },
                None => None,
            };
            Dispatch { reply: None, delivery, close: false }
        },
        Message::PutKey { key, data } => {
            let size = data.len() as u64;
            let ghost before = peers.peers();
            let mut reply: Option<Message> = None;
            if peers.try_reserve_storage(peer, size) {
                match store.set_with_id(key.clone(), fresh, data, Durability::Pinned, now) {
                    Ok(id) => {
                        reply = Some(Message::KeyStored { key, id });
                    },
                    Err(_) => {
                        peers.release_storage(peer, size);
                        assert(peers.peers() =~= before);
                    },
                }
            }
            Dispatch { reply, delivery: None, close: false }
        },
        Message::KeyStored { key, id } => {
            let delivery = match peers.satisfy_key_store(key.as_str(), id) {
                Some(id) => Some(Delivery::KeyStored { key, id }),
                None => None,
            };
            Dispatch { reply: None, delivery, close: false }
        },
        Message::UpdateQuota { quota } => {
            let _ = peers.update_peer_ram_quota(peer, quota);
            Dispatch { reply: None, delivery: None, close: false }
        },
        Message::Flush => {
            store.flush();
            Dispatch { reply: None, delivery: None, close: false }
        },
        Message::Bye => Dispatch { reply: None, delivery: None, close: true },
    }
}

/// Handles a message from the peer `peer`. A value written by `PutKey` is
/// stored under an id drawn at random.
pub fn handle_message(
    store: &mut InMemoryBlockManager,
    peers: &mut PeerManager,
    peer: u128,
    msg: Message,
    now: u64,
) -> (out: Dispatch)
    requires
        old(store).wf(),
        old(peers).wf(),
    ensures
        final(store).wf(),
        final(peers).wf(),
        exists|fresh: u64|
            handled(old(store), old(peers), peer, msg, now, fresh, final(store), final(peers), out),
{
    let fresh = random_u64();
    handle_message_with(store, peers, peer, msg, now, fresh)
}

/// Clears up after the connection to a peer has closed: the peer leaves
/// the registry, and with it the notes of what it held for this node.
pub fn connection_closed(store: &mut InMemoryBlockManager, peers: &mut PeerManager, peer: u128)
    requires
        old(store).wf(),
        old(peers).wf(),
    ensures
        final(store).wf(),
        final(peers).wf(),
        closed_from(old(store), old(peers), peer, final(store), final(peers)),
{
    let _ = peers.handle_peer_disconnect(peer);
    store.forget_peer(peer);
}

/// A value that a peer has written under a key is the value that a
/// lookup of the key on this node is answered with, whoever asks.
pub proof fn lemma_put_key_then_get_key(
    store0: &InMemoryBlockManager,
    peers0: &PeerManager,
    writer: u128,
    key: String,
    data: Vec<u8>,
    now: u64,
    fresh: u64,
    store1: &InMemoryBlockManager,
    peers1: &PeerManager,
    stored: Dispatch,
    reader: u128,
    asked: String,
    later: u64,
    other: u64,
    store2: &InMemoryBlockManager,
    peers2: &PeerManager,
    answer: Dispatch,
)
    requires
        store0.wf(),
        asked@ == key@,
        handled(
            store0,
            peers0,
            writer,
            Message::PutKey { key: key, data: data },
            now,
            fresh,
            store1,
            peers1,
            stored,
        ),
        stored.reply.is_some(),
        handled(
            store1,
            peers1,
            reader,
            Message::GetKey { key: asked },
            later,
            other,
            store2,
            peers2,
            answer,
        ),
    ensures
        stored.reply == Some(Message::KeyStored { key: key, id: fresh }),
        answer.reply.is_some(),
        answer.reply.unwrap() is KeyFound,
        answer.reply.unwrap()->KeyFound_key@ == key@,
        answer.reply.unwrap()->KeyFound_data == Some(data),
{
}

/// What became of one sealed frame from a peer.
#[derive(Debug)]
pub struct FrameOutcome {
    /// The frame to send back to the peer, sealed and ready for the wire.
    pub reply: Option<Vec<u8>>,
    /// The reply to hand to those who wait for it, if any.
    pub delivery: Option<Delivery>,
    /// Whether the connection is to be closed.
    pub close: bool,
}

/// Takes the sealed payload of one frame from the peer `peer`: opens it,
/// reads the message in it, handles the message, and seals the reply. A
/// frame that does not open, or that holds no well-formed message, closes
/// the connection, and so does `Bye`; a message with a tag that this node
/// does not know is passed over. Whenever the connection closes, the peer
/// leaves the registry, and with it the notes of what it held.
#[verifier::rlimit(40)]
pub fn handle_connection_split(
    reader: &mut SecureReader,
    writer: &mut SecureWriter,
    store: &mut InMemoryBlockManager,
    peers: &mut PeerManager,
    peer: u128,
    sealed: &[u8],
    now: u64,
) -> (out: FrameOutcome)
    requires
        old(store).wf(),
        old(peers).wf(),
    ensures
        final(store).wf(),
        final(peers).wf(),
        final(reader).key() == old(reader).key(),
        final(reader).state() == reader_step(old(reader).key(), old(reader).state(), sealed@).0,
        final(writer).key() == old(writer).key(),
        out.close ==> !final(peers).peers().contains_key(peer),
        match reader_step(old(reader).key(), old(reader).state(), sealed@).1 {
            Err(_) => {
                &&& out.close
                &&& out.reply.is_none()
                &&& out.delivery.is_none()
                &&& closed_from(old(store), old(peers), peer, final(store), final(peers))
                &&& final(writer).counter() == old(writer).counter()
            },
            Ok(plain) => match decode_message(plain) {
                Err(WireError::UnknownTag(_)) => {
                    &&& !out.close
                    &&& out.reply.is_none()
                    &&& out.delivery.is_none()
                    &&& final(store).unchanged(old(store))
                    &&& final(peers).unchanged(old(peers))
                    &&& final(writer).counter() == old(writer).counter()
                },
                Err(WireError::Malformed) => {
                    &&& out.close
                    &&& out.reply.is_none()
                    &&& out.delivery.is_none()
                    &&& closed_from(old(store), old(peers), peer, final(store), final(peers))
                    &&& final(writer).counter() == old(writer).counter()
                },
                Ok(m) => exists|
                    msg: Message,
                    fresh: u64,
                    store_mid: InMemoryBlockManager,
                    peers_mid: PeerManager,
                    done: Dispatch,
                |
                    #![trigger handled(
                        old(store), old(peers), peer, msg, now, fresh, &store_mid, &peers_mid, done,
                    )]
                    msg@ == m
                        && handled(
                            old(store),
                            old(peers),
                            peer,
                            msg,
                            now,
                            fresh,
                            &store_mid,
                            &peers_mid,
                            done,
                        )
                        && answered(old(writer), done, final(writer), out)
                        && (
                            if out.close {
                                closed_from(
                                    &store_mid,
                                    &peers_mid,
                                    peer,
                                    final(store),
                                    final(peers),
                                )
                            } else {
                                *final(store) == store_mid && *final(peers) == peers_mid
                            }
                        ),
            },
        },
{
    let plain = match reader.recv_frame(sealed) {
        Ok(p) => p,
        Err(_) => {
            connection_closed(store, peers, peer);
            return FrameOutcome { reply: None, delivery: None, close: true };
        },
    };
    let msg = match decode(plain.as_slice()) {
        Ok(m) => m,
        Err(WireError::UnknownTag(_)) => {
            return FrameOutcome { reply: None, delivery: None, close: false };
        },
        Err(WireError::Malformed) => {
            connection_closed(store, peers, peer);
            return FrameOutcome { reply: None, delivery: None, close: true };
        },
    };
    let done = handle_message(store, peers, peer, msg, now);
    let ghost store_mid = *store;
    let ghost peers_mid = *peers;
    let ghost handled_as = done;
    let ghost fresh = choose|fresh: u64|
        handled(old(store), old(peers), peer, msg, now, fresh, &store_mid, &peers_mid, done);
    let mut close = done.close;
    let reply = match done.reply {
        None => None,
        Some(m) => {
            let bytes = encode(&m);
            match writer.send_frame(bytes.as_slice()) {
                Ok(frame) => Some(frame),
                Err(_) => {
                    close = true;
                    None
                },
            }
        },
    };
    if close {
        connection_closed(store, peers, peer);
    }
    let out = FrameOutcome { reply, delivery: done.delivery, close };
    proof {
        assert(handled(
            old(store),
            old(peers),
            peer,
            msg,
            now,
            fresh,
            &store_mid,
            &peers_mid,
            handled_as,
        ));
        assert(answered(old(writer), handled_as, writer, out));
    }
    out
}

/// What is sent back and delivered once a message has been handled. The
/// reply, where there is one, is sealed as the writer's next frame; where
/// it cannot be sealed, or the message says so, the connection closes.
pub open spec fn answered(
    writer0: &SecureWriter,
    done: Dispatch,
    writer1: &SecureWriter,
    out: FrameOutcome,
) -> bool {
    &&& writer1.key() == writer0.key()
    &&& out.delivery == done.delivery
    &&& match done.reply {
        None => out.reply.is_none() && out.close == done.close && writer1.counter()
            == writer0.counter(),
        Some(m) => if encode_message(m@).len() <= crate::secure_stream::MAX_PLAINTEXT
            && writer0.counter() < u64::MAX {
            &&& out.close == done.close
            &&& writer1.counter() == writer0.counter() + 1
            &&& out.reply.is_some()
            &&& crate::crypto::aead_seal(
                writer0.key(),
                crate::secure_stream::nonce_of(writer0.counter()),
                encode_message(m@),
            ).is_some()
            &&& out.reply.unwrap()@ == crate::framing::frame_of(
                crate::crypto::aead_seal(
                    writer0.key(),
                    crate::secure_stream::nonce_of(writer0.counter()),
                    encode_message(m@),
                ).unwrap(),
            )
        } else {
            out.reply.is_none() && out.close && writer1.counter() == writer0.counter()
        },
    }
}

/// What closing the connection to a peer does to the store and the registry.
pub open spec fn closed_from(
    store0: &InMemoryBlockManager,
    peers0: &PeerManager,
    peer: u128,
    store1: &InMemoryBlockManager,
    peers1: &PeerManager,
) -> bool {
    &&& peers1.same_but_peers(peers0)
    &&& peers1.peers() == peers0.peers().remove(peer)
    &&& store1.blocks() == store0.blocks()
    &&& store1.uploads() == store0.uploads()
    &&& store1.used() == store0.used()
    &&& store1.max() == store0.max()
    &&& store1.remote() == without_peer(store0.remote(), peer)
    &&& store1.keys() == keys_of_held(
        store0.keys(),
        store0.blocks(),
        without_peer(store0.remote(), peer),
    )
}

/// How many ports the transport tries before it gives up.
pub const BIND_ATTEMPTS: u16 = 10;

/// The port to try next when `failures` ports, from `start_port` up, were
/// found in use: the one after them, as long as fewer than ten have been
/// tried and port numbers have not run out.
pub fn next_bind_port(start_port: u16, failures: u16) -> (port: Option<u16>)
    ensures
        port == (if failures < BIND_ATTEMPTS && start_port + failures <= u16::MAX {
            Some((start_port + failures) as u16)
        } else {
            None
        }),
{
    if failures < BIND_ATTEMPTS && failures <= u16::MAX - start_port {
        Some(start_port + failures)
    } else {
        None
    }
}

} // verus!
