//! The control plane of a node: the commands that a local client sends,
//! the answers that it gets, and what the node does for each command.
//!
//! A command that needs a peer is handled in two steps. The first step
//! says what is to be sent, and to whom; the caller sends it and waits for
//! the reply where one is due; the second step takes what came back and
//! gives the answer for the client.

use vstd::prelude::*;
use vstd::string::StringExecFns;

use crate::auth::Identity;
use crate::blocks::is_held;
use crate::blocks::keys_of_held;
use crate::blocks::set_outcome;
use crate::blocks::unbound;
use crate::blocks::Block;
use crate::blocks::BlockManager;
use crate::blocks::Durability;
use crate::blocks::InMemoryBlockManager;
use crate::blocks::KeyLookup;
use crate::blocks::Lookup;
use crate::blocks::StoreError;
use crate::consent::position_of;
use crate::consent::same_request;
use crate::consent::ConsentDecision;
use crate::consent::ConsentManager;
use crate::consent::PendingConsent;
use crate::crypto::random_u64;
use crate::crypto::uuid_parse;
use crate::glob::glob_matches;
use crate::net::handled;
use crate::net::local_value;
use crate::net::Delivery;
use crate::net::Dispatch;
use crate::net::Message;
use crate::pack::opt_text;
use crate::peers::failure_of;
use crate::peers::filled;
use crate::peers::is_peer_metadata;
use crate::peers::is_terminal;
use crate::peers::metadata_matches;
use crate::peers::one_more;
use crate::peers::state_name;
use crate::peers::HandshakeEntry;
use crate::peers::HandshakeState;
use crate::peers::PeerError;
use crate::peers::PeerInfo;
use crate::peers::PeerManager;
use crate::peers::PeerMetadata;
use crate::string_id::decimal_string;
use crate::string_id::decimal_text;
use crate::trust::is_named;
use crate::trust::lists_key;
use crate::trust::same_device;
use crate::trust::TrustedDevice;
use crate::trust::TrustedStore;

verus! {

/// How long the caller waits for a block from a peer, in seconds.
pub const BLOCK_WAIT_SECS: u64 = 5;

/// How long the caller waits for the first answer to a key lookup, in seconds.
pub const KEY_WAIT_SECS: u64 = 2;

/// How long the caller waits for a peer to acknowledge a key write, in seconds.
pub const KEY_STORE_WAIT_SECS: u64 = 10;

/// A command from a local client.
#[derive(Debug)]
pub enum SdkCommand {
    Store { data: Vec<u8>, durability: Option<Durability> },
    StoreRemote { data: Vec<u8>, target: Option<String>, durability: Option<Durability> },
    Load { id: u64 },
    Free { id: u64 },
    ListPeers,
    Connect { addr: String, quota: Option<u64> },
    UpdatePeerQuota { peer_id: String, quota: u64 },
    Disconnect { peer_id: String },
    SetKey { key: String, data: Vec<u8>, target: Option<String>, durability: Option<Durability> },
    Get { key: String, target: Option<String> },
    ListKeys { pattern: String },
    Stat,
    PollConnection { addr: String },
    StreamStart { size_hint: Option<u64> },
    StreamChunk { stream_id: u64, chunk_seq: u32, data: Vec<u8> },
    StreamFinish { stream_id: u64, target: Option<String>, durability: Option<Durability> },
    Flush { target: Option<String> },
    TrustList,
    TrustRemove { key_or_name: String },
    ConsentList,
    ConsentApprove { session_id: String, trust_always: bool },
    ConsentDeny { session_id: String },
}

/// The answer to a command.
#[derive(Debug)]
pub enum SdkResponse {
    Stored { id: u64 },
    Loaded { data: Vec<u8> },
    Success,
    List { items: Vec<String> },
    PeerList { peers: Vec<PeerMetadata> },
    PeerConnected { metadata: PeerMetadata },
    Error { msg: String },
    Status { blocks: usize, peers: usize, memory_usage: usize },
    StreamStarted { stream_id: u64 },
    FlushSuccess,
    TrustedList { items: Vec<TrustedDevice> },
    ConsentList { items: Vec<PendingConsent> },
    ConnectionStatus { state: String, msg: Option<String> },
}

/// What is to be done for a command.
#[derive(Debug)]
pub enum Outcome {
    /// The answer is ready.
    Reply(SdkResponse),
    /// Send `request` to `peer`; `finish_remote_store` then gives the answer.
    StoreOnPeer { peer: u128, id: u64, size: u64, request: Message },
    /// Send `request` to `peer` and wait for the block; `finish_load` then
    /// gives the answer.
    FetchBlock { peer: u128, id: u64, request: Message },
    /// Send `request` to `peer` and wait for its acknowledgement;
    /// `finish_remote_set` then gives the answer.
    WriteKeyOnPeer { peer: u128, key: String, request: Message },
    /// Send `request` to each of `peers` and wait for the first value that
    /// comes back; `finish_get` then gives the answer.
    AskPeers { peers: Vec<u128>, key: String, request: Message },
    /// Start a handshake with the node at `addr`, offering it `quota`
    /// bytes, and answer at once.
    Connect { addr: String, quota: u64, reply: SdkResponse },
    /// Send `message` to `peer`; answer with `reply` once it has gone out.
    Notify { peer: u128, message: Message, reply: SdkResponse },
    /// Say goodbye to each of `peers`, close their connections, and answer.
    Disconnect { peers: Vec<u128>, reply: SdkResponse },
    /// Make the decision on a request for consent known to those who wait
    /// for it, and answer.
    Publish { session_id: String, decision: ConsentDecision, reply: SdkResponse },
}

/// The state of a node that the control plane works on.
pub struct Node {
    pub store: InMemoryBlockManager,
    pub peers: PeerManager,
    pub trust: TrustedStore,
    pub consent: ConsentManager,
}

/// What a store error says to a client.
pub open spec fn store_error_text(e: StoreError) -> Seq<char> {
    match e {
        StoreError::DuplicateId => "Block id already in use"@,
        StoreError::MemoryLimit => "Memory limit exceeded"@,
        StoreError::UnknownStream => "Stream not found"@,
        StoreError::NoPeer => "No suitable peer found for remote storage"@,
        StoreError::PeerNotConnected => "Peer not connected"@,
    }
}

/// What a store error says to a client.
pub fn store_error_message(e: StoreError) -> (msg: String)
    ensures
        msg@ == store_error_text(e),
{
    match e {
        StoreError::DuplicateId => String::from_str("Block id already in use"),
        StoreError::MemoryLimit => String::from_str("Memory limit exceeded"),
        StoreError::UnknownStream => String::from_str("Stream not found"),
        StoreError::NoPeer => String::from_str("No suitable peer found for remote storage"),
        StoreError::PeerNotConnected => String::from_str("Peer not connected"),
    }
}

/// Whether an outcome is the error answer with this text.
pub open spec fn is_error(out: Outcome, text: Seq<char>) -> bool {
    out is Reply && is_error_reply(out->Reply_0, text)
}

/// Whether an answer is the error answer with this text.
pub open spec fn is_error_reply(reply: SdkResponse, text: Seq<char>) -> bool {
    reply is Error && reply->Error_msg@ == text
}

/// The durability that a command asks for: pinned, unless it says otherwise.
pub open spec fn mode_of(durability: Option<Durability>) -> Durability {
    match durability {
        Some(d) => d,
        None => Durability::Pinned,
    }
}

/// The text that says that a target names no peer.
pub open spec fn no_such_peer(target: Seq<char>) -> Seq<char> {
    "Peer '"@ + target + "' not found"@
}

fn error(text: &str) -> (out: Outcome)
    ensures
        is_error(out, text@),
{
    Outcome::Reply(SdkResponse::Error { msg: String::from_str(text) })
}

fn store_error(e: StoreError) -> (out: Outcome)
    ensures
        is_error(out, store_error_text(e)),
{
    Outcome::Reply(SdkResponse::Error { msg: store_error_message(e) })
}

fn peer_not_found(target: &str) -> (out: Outcome)
    ensures
        is_error(out, no_such_peer(target@)),
{
    let mut msg = String::from_str("Peer '");
    msg.append(target);
    msg.append("' not found");
    Outcome::Reply(SdkResponse::Error { msg })
}

fn mode(durability: Option<Durability>) -> (d: Durability)
    ensures
        d == mode_of(durability),
{
    match durability {
        Some(d) => d,
        None => Durability::Pinned,
    }
}

/// What `store_local` does; `before` and `after` are the node before and
/// after. The bytes are stored as a block with the id `fresh`, as
/// `put_block` stores it, and the answer is the id, or the error that
/// `put_block` gave.
pub open spec fn store_local_outcome(
    before: &Node,
    data: Vec<u8>,
    durability: Option<Durability>,
    now: u64,
    fresh: u64,
    after: &Node,
    out: Outcome,
) -> bool {
    let block = Block {
        id: fresh,
        data: data,
        durability: mode_of(durability),
        last_accessed: now,
    };
    &&& after.peers == before.peers
    &&& after.trust == before.trust
    &&& after.consent == before.consent
    &&& exists|r: Result<(), StoreError>|
        #![trigger before.store.put_outcome(block, &after.store, r)]
        before.store.put_outcome(block, &after.store, r)
            && match r {
                Ok(_) => out == Outcome::Reply(SdkResponse::Stored { id: fresh }),
                Err(e) => is_error(out, store_error_text(e)),
            }
}

/// What `store_remote` answers on the node `before`, which it does not
/// change: the plan of `put_block_remote` for the block, or the error
/// that stands in its way.
pub open spec fn store_remote_outcome(
    before: &Node,
    data: Vec<u8>,
    target: Option<String>,
    durability: Option<Durability>,
    now: u64,
    fresh: u64,
    out: Outcome,
) -> bool {
    let block = Block {
        id: fresh,
        data: data,
        durability: mode_of(durability),
        last_accessed: now,
    };
    exists|r: Result<(u128, Message), StoreError>|
        #![trigger before.store.remote_plan(&before.peers, block, opt_text(target), r)]
        before.store.remote_plan(&before.peers, block, opt_text(target), r)
            && match r {
                Ok(plan) => out == (Outcome::StoreOnPeer {
                    peer: plan.0,
                    id: fresh,
                    size: data@.len() as u64,
                    request: plan.1,
                }),
                Err(e) => is_error(out, store_error_text(e)),
            }
}

/// What `finish_remote_store` does; `before` and `after` are the node
/// before and after. Where the block has gone out and its id is not held
/// yet, the node notes that the peer holds it and counts its bytes against
/// what the peer offers, and the answer is the id. Otherwise nothing
/// changes and the answer is an error.
pub open spec fn finish_remote_store_outcome(
    before: &Node,
    id: u64,
    peer: u128,
    size: u64,
    sent: bool,
    after: &Node,
    reply: SdkResponse,
) -> bool {
    &&& after.trust == before.trust
    &&& after.consent == before.consent
    &&& after.peers.same_but_peers(&before.peers)
    &&& after.store.blocks() == before.store.blocks()
    &&& after.store.keys() == before.store.keys()
    &&& after.store.uploads() == before.store.uploads()
    &&& after.store.used() == before.store.used()
    &&& after.store.max() == before.store.max()
    &&& if !sent {
        &&& is_error_reply(reply, "Failed to send block to peer"@)
        &&& after.store.remote() == before.store.remote()
        &&& after.peers.peers() == before.peers.peers()
    } else if is_held(before.store.blocks(), before.store.remote(), id) {
        &&& is_error_reply(reply, store_error_text(StoreError::DuplicateId))
        &&& after.store.remote() == before.store.remote()
        &&& after.peers.peers() == before.peers.peers()
    } else {
        &&& reply == (SdkResponse::Stored { id: id })
        &&& after.store.remote() == before.store.remote().insert(id, peer)
        &&& after.peers.peers() == (if before.peers.peers().contains_key(peer) {
            before.peers.peers().insert(peer, filled(before.peers.peers()[peer], size))
        } else {
            before.peers.peers()
        })
    }
}

/// What `load` does; `before` and `after` are the node before and after.
/// A block held here is the answer, and counts as used at `now`. For a
/// block held by a connected peer, a waiter is registered and the peer is
/// to be asked. Any other block is not found.
pub open spec fn load_outcome(
    before: &Node,
    id: u64,
    now: u64,
    after: &Node,
    out: Outcome,
) -> bool {
    let quiet = after.peers.block_waiters() == before.peers.block_waiters();
    let untouched = after.store.blocks() == before.store.blocks();
    &&& after.store.keys() == before.store.keys()
    &&& after.store.remote() == before.store.remote()
    &&& after.store.uploads() == before.store.uploads()
    &&& after.store.used() == before.store.used()
    &&& after.store.max() == before.store.max()
    &&& after.trust == before.trust
    &&& after.consent == before.consent
    &&& after.peers.same_peers(&before.peers)
    &&& after.peers.key_waiters() == before.peers.key_waiters()
    &&& after.peers.key_write_waiters() == before.peers.key_write_waiters()
    &&& after.peers.handshakes() == before.peers.handshakes()
    &&& if before.store.blocks().contains_key(id) {
        &&& quiet
        &&& out == Outcome::Reply(SdkResponse::Loaded { data: before.store.blocks()[id].data })
        &&& after.store.blocks() == before.store.blocks().insert(
            id,
            Block { last_accessed: now, ..before.store.blocks()[id] },
        )
    } else if !before.store.remote().contains_key(id) {
        quiet && untouched && is_error(out, "Block not found"@)
    } else if !before.peers.peers().contains_key(before.store.remote()[id]) {
        quiet && untouched && is_error(out, store_error_text(StoreError::PeerNotConnected))
    } else {
        &&& untouched
        &&& out == (Outcome::FetchBlock {
            peer: before.store.remote()[id],
            id: id,
            request: Message::GetBlock { id: id },
        })
        &&& after.peers.block_waiters() == before.peers.block_waiters().insert(
            id,
            one_more(before.peers.block_waiters(), id),
        )
    }
}

/// What `free` does; `before` and `after` are the node before and after.
/// The block is dropped, wherever it is held, with the keys bound to it.
pub open spec fn free_outcome(before: &Node, id: u64, after: &Node, out: Outcome) -> bool {
    &&& after.peers == before.peers
    &&& after.trust == before.trust
    &&& after.consent == before.consent
    &&& out == Outcome::Reply(SdkResponse::Success)
    &&& after.store.blocks() == before.store.blocks().remove(id)
    &&& after.store.remote() == before.store.remote().remove(id)
    &&& after.store.keys() == unbound(before.store.keys(), id)
    &&& after.store.uploads() == before.store.uploads()
    &&& after.store.max() == before.store.max()
}

/// What `set_local` does; `before` and `after` are the node before and
/// after. The value is stored as a block with the id `fresh` and the key
/// bound to it, as `set_with_id` does it, and the answer is the id, or the
/// error that stood in the way.
pub open spec fn set_local_outcome(
    before: &Node,
    key: String,
    data: Vec<u8>,
    durability: Option<Durability>,
    now: u64,
    fresh: u64,
    after: &Node,
    out: Outcome,
) -> bool {
    let block = Block {
        id: fresh,
        data: data,
        durability: mode_of(durability),
        last_accessed: now,
    };
    &&& after.peers == before.peers
    &&& after.trust == before.trust
    &&& after.consent == before.consent
    &&& exists|r: Result<u64, StoreError>|
        #![trigger set_outcome(&before.store, key@, block, &after.store, r)]
        set_outcome(&before.store, key@, block, &after.store, r)
            && match r {
                Ok(id) => out == Outcome::Reply(SdkResponse::Stored { id: id }),
                Err(e) => is_error(out, store_error_text(e)),
            }
}

/// What `set_remote` does; `before` and `after` are the node before and
/// after. Where the target names a connected peer, a waiter for the
/// acknowledgement is registered and the value is to be sent to that
/// peer; otherwise the answer is an error and nothing changes.
pub open spec fn set_remote_outcome(
    before: &Node,
    key: String,
    data: Vec<u8>,
    target: Seq<char>,
    after: &Node,
    out: Outcome,
) -> bool {
    &&& after.store == before.store
    &&& after.trust == before.trust
    &&& after.consent == before.consent
    &&& after.peers.same_peers(&before.peers)
    &&& after.peers.block_waiters() == before.peers.block_waiters()
    &&& after.peers.key_waiters() == before.peers.key_waiters()
    &&& after.peers.handshakes() == before.peers.handshakes()
    &&& if before.peers.reaches(target) {
        &&& out is WriteKeyOnPeer
        &&& before.peers.peers().contains_key(out->WriteKeyOnPeer_peer)
        &&& before.peers.target_is(target, out->WriteKeyOnPeer_peer)
        &&& out->WriteKeyOnPeer_key@ == key@
        &&& out->WriteKeyOnPeer_request == (Message::PutKey { key: key, data: data })
        &&& after.peers.key_write_waiters() == before.peers.key_write_waiters().insert(
            key@,
            one_more(before.peers.key_write_waiters(), key@),
        )
    } else {
        &&& is_error(out, unreachable_text(target))
        &&& after.peers.key_write_waiters() == before.peers.key_write_waiters()
    }
}

/// What is said of a target that names no connected peer.
pub open spec fn unreachable_text(target: Seq<char>) -> Seq<char> {
    if uuid_parse(target).is_some() {
        store_error_text(StoreError::PeerNotConnected)
    } else {
        no_such_peer(target)
    }
}

/// What `finish_remote_set` does; `before` and `after` are the node
/// before and after. Where the peer has acknowledged the write with the id
/// of a block that is not held yet, the node notes that the peer holds
/// that block and binds the key to it, and the answer is the id.
/// Otherwise nothing changes and the answer is an error.
pub open spec fn finish_remote_set_outcome(
    before: &Node,
    key: String,
    peer: u128,
    stored: Option<u64>,
    after: &Node,
    reply: SdkResponse,
) -> bool {
    let same = {
        &&& after.store.remote() == before.store.remote()
        &&& after.store.keys() == before.store.keys()
    };
    &&& after.peers == before.peers
    &&& after.trust == before.trust
    &&& after.consent == before.consent
    &&& after.store.blocks() == before.store.blocks()
    &&& after.store.uploads() == before.store.uploads()
    &&& after.store.used() == before.store.used()
    &&& after.store.max() == before.store.max()
    &&& match stored {
        None => same && is_error_reply(reply, "Timeout waiting for remote key store"@),
        Some(id) => if is_held(before.store.blocks(), before.store.remote(), id) {
            same && is_error_reply(reply, store_error_text(StoreError::DuplicateId))
        } else {
            &&& reply == (SdkResponse::Stored { id: id })
            &&& after.store.remote() == before.store.remote().insert(id, peer)
            &&& after.store.keys() == before.store.keys().insert(key@, id)
        },
    }
}

/// A key that was written to a peer is bound, once the peer has answered
/// with an id that is not held yet, to that id, which the peer is noted to
/// hold and which is not held here; and the answer is the id.
pub proof fn lemma_remote_set_binds_key(
    before: &Node,
    key: String,
    peer: u128,
    id: u64,
    after: &Node,
    reply: SdkResponse,
)
    requires
        before.wf(),
        finish_remote_set_outcome(before, key, peer, Some(id), after, reply),
        !is_held(before.store.blocks(), before.store.remote(), id),
    ensures
        reply == (SdkResponse::Stored { id: id }),
        after.store.keys().contains_key(key@),
        after.store.keys()[key@] == id,
        after.store.remote().contains_key(id),
        after.store.remote()[id] == peer,
        !after.store.blocks().contains_key(id),
{
}

/// What `get` does; `before` and `after` are the node before and after.
/// Without a target, a key that is bound to a block held here is answered
/// at once; otherwise every connected peer is to be asked, and with none
/// connected the key is not found. With a target, the peer that it names
/// is to be asked. Whenever peers are to be asked, a waiter for the value
/// is registered.
pub open spec fn get_outcome(
    before: &Node,
    key: String,
    target: Option<String>,
    after: &Node,
    out: Outcome,
) -> bool {
    let asked = {
        &&& out is AskPeers
        &&& out->AskPeers_key@ == key@
        &&& out->AskPeers_request == (Message::GetKey { key: key })
        &&& after.peers.key_waiters() == before.peers.key_waiters().insert(
            key@,
            one_more(before.peers.key_waiters(), key@),
        )
    };
    let quiet = after.peers.key_waiters() == before.peers.key_waiters();
    &&& after.store == before.store
    &&& after.trust == before.trust
    &&& after.consent == before.consent
    &&& after.peers.same_peers(&before.peers)
    &&& after.peers.block_waiters() == before.peers.block_waiters()
    &&& after.peers.key_write_waiters() == before.peers.key_write_waiters()
    &&& after.peers.handshakes() == before.peers.handshakes()
    &&& match target {
        None => match local_value(&before.store, key@) {
            Some(value) => quiet && out == Outcome::Reply(SdkResponse::Loaded { data: value }),
            None => if before.peers.peers().dom().len() == 0 {
                quiet && is_error(out, "Key not found"@)
            } else {
                &&& asked
                &&& out->AskPeers_peers@.len() == before.peers.peers().dom().len()
                &&& forall|i: int|
                    0 <= i < out->AskPeers_peers@.len() ==> before.peers.peers().contains_key(
                        #[trigger] out->AskPeers_peers@[i],
                    )
                &&& forall|id: u128|
                    before.peers.peers().contains_key(id) ==>
                        exists|i: int|
                            0 <= i < out->AskPeers_peers@.len()
                                && #[trigger] out->AskPeers_peers@[i] == id
            },
        },
        Some(t) => if before.peers.reaches(t@) {
            &&& asked
            &&& out->AskPeers_peers@.len() == 1
            &&& before.peers.peers().contains_key(out->AskPeers_peers@[0])
            &&& before.peers.target_is(t@, out->AskPeers_peers@[0])
        } else {
            quiet && is_error(out, unreachable_text(t@))
        },
    }
}

/// What `update_peer_quota` does; `before` and `after` are the node
/// before and after. A quota above the memory of this node is refused; so
/// is a target that names no connected peer, and a quota below what the
/// peer has stored. Otherwise the quota is set, and the peer is to be told.
pub open spec fn update_peer_quota_outcome(
    before: &Node,
    target: Seq<char>,
    quota: u64,
    after: &Node,
    out: Outcome,
) -> bool {
    let same = after.peers.peers() == before.peers.peers();
    &&& after.store == before.store
    &&& after.trust == before.trust
    &&& after.consent == before.consent
    &&& after.peers.same_but_peers(&before.peers)
    &&& if quota > before.store.max() {
        same && is_error(
            out,
            "Quota exceeds node memory limit ("@ + decimal_text(before.store.max() as nat) + ")"@,
        )
    } else if !before.peers.reaches(target) {
        same && is_error(
            out,
            if uuid_parse(target).is_some() {
                "Peer not found"@
            } else {
                no_such_peer(target)
            },
        )
    } else {
        exists|peer: u128|
            #![trigger before.peers.target_is(target, peer)]
            before.peers.peers().contains_key(peer) && before.peers.target_is(target, peer) && (
            if quota < before.peers.peers()[peer].remote_used_storage {
                same && is_error(out, "Quota is below what the peer has stored"@)
            } else {
                &&& out == (Outcome::Notify {
                    peer: peer,
                    message: Message::UpdateQuota { quota: quota },
                    reply: SdkResponse::Success,
                })
                &&& after.peers.peers() == before.peers.peers().insert(
                    peer,
                    PeerInfo { ram_quota: quota, ..before.peers.peers()[peer] },
                )
            })
    }
}

/// What `disconnect` does; `before` and `after` are the node before and
/// after. Where the target names a connected peer, that peer leaves the
/// registry, and with it the notes of what it held for this node;
/// otherwise the answer is an error and nothing changes.
pub open spec fn disconnect_outcome(
    before: &Node,
    target: Seq<char>,
    after: &Node,
    out: Outcome,
) -> bool {
    &&& after.trust == before.trust
    &&& after.consent == before.consent
    &&& after.peers.same_but_peers(&before.peers)
    &&& if before.peers.reaches(target) {
        &&& out is Disconnect
        &&& out->Disconnect_reply is Success
        &&& out->Disconnect_peers@.len() == 1
        &&& before.peers.peers().contains_key(out->Disconnect_peers@[0])
        &&& before.peers.target_is(target, out->Disconnect_peers@[0])
        &&& crate::net::closed_from(
            &before.store,
            &before.peers,
            out->Disconnect_peers@[0],
            &after.store,
            &after.peers,
        )
    } else {
        &&& is_error(out, "Peer not found"@)
        &&& after.peers.peers() == before.peers.peers()
        &&& after.store == before.store
    }
}

/// What `flush` does; `before` and `after` are the node before and after.
/// Without a target everything that is stored here is dropped. With a
/// target that names a connected peer, that peer is to be told to drop
/// what it stores, and nothing changes here.
pub open spec fn flush_outcome(
    before: &Node,
    target: Option<String>,
    after: &Node,
    out: Outcome,
) -> bool {
    &&& after.peers == before.peers
    &&& after.trust == before.trust
    &&& after.consent == before.consent
    &&& after.store.max() == before.store.max()
    &&& match target {
        None => {
            &&& out == Outcome::Reply(SdkResponse::FlushSuccess)
            &&& after.store.blocks() =~= Map::empty()
            &&& after.store.keys() =~= Map::empty()
            &&& after.store.remote() =~= Map::empty()
            &&& after.store.uploads() =~= Map::empty()
            &&& after.store.used() == 0
        },
        Some(t) => {
            &&& after.store == before.store
            &&& if before.peers.reaches(t@) {
                &&& out is Notify
                &&& before.peers.peers().contains_key(out->Notify_peer)
                &&& before.peers.target_is(t@, out->Notify_peer)
                &&& out->Notify_message is Flush
                &&& out->Notify_reply is FlushSuccess
            } else {
                is_error(out, unreachable_text(t@))
            }
        },
    }
}

/// What `stream_finish` does; `before` and `after` are the node before
/// and after. The upload is closed. What was appended to it is stored
/// here as a block with the id `fresh`, where there is no target, or is
/// to be handed to a peer, as `store_remote` plans it, where there is one.
/// An unknown stream id is refused.
pub open spec fn stream_finish_outcome(
    before: &Node,
    stream_id: u64,
    target: Option<String>,
    durability: Option<Durability>,
    now: u64,
    fresh: u64,
    after: &Node,
    out: Outcome,
) -> bool {
    let data = before.store.uploads()[stream_id];
    let block = Block {
        id: fresh,
        data: data,
        durability: mode_of(durability),
        last_accessed: now,
    };
    &&& after.peers == before.peers
    &&& after.trust == before.trust
    &&& after.consent == before.consent
    &&& after.store.uploads() == before.store.uploads().remove(stream_id)
    &&& after.store.max() == before.store.max()
    &&& if !before.store.uploads().contains_key(stream_id) {
        &&& after.store.same_store(&before.store)
        &&& is_error(out, "Stream ID "@ + decimal_text(stream_id as nat) + " not found"@)
    } else if target.is_some() {
        &&& after.store.same_store(&before.store)
        &&& store_remote_outcome(before, data, target, durability, now, fresh, out)
    } else {
        exists|r: Result<(), StoreError>, closed: InMemoryBlockManager|
            #![trigger closed.put_outcome(block, &after.store, r)]
            closed.same_store(&before.store) && closed.uploads() == before.store.uploads().remove(
                stream_id,
            ) && closed.put_outcome(block, &after.store, r) && match r {
                Ok(_) => out == Outcome::Reply(SdkResponse::Stored { id: fresh }),
                Err(e) => is_error(out, store_error_text(e)),
            }
    }
}

/// What `trust_remove` does; `before` and `after` are the node before and
/// after. The devices that the text names leave the trust store. Where
/// there is none, the answer is an error and nothing else changes.
/// Otherwise the connected peers that were found under the names of those
/// devices leave the registry, each with the notes of what it held for
/// this node, and are to be told goodbye.
pub open spec fn trust_remove_outcome(
    before: &Node,
    key_or_name: Seq<char>,
    after: &Node,
    out: Outcome,
) -> bool {
    let removed = before.trust.devices().filter(|d: TrustedDevice| is_named(d, key_or_name));
    &&& after.consent == before.consent
    &&& after.peers.same_but_peers(&before.peers)
    &&& after.trust.devices() == before.trust.devices().filter(
        |d: TrustedDevice| !is_named(d, key_or_name),
    )
    &&& after.store.blocks() == before.store.blocks()
    &&& after.store.uploads() == before.store.uploads()
    &&& after.store.used() == before.store.used()
    &&& after.store.max() == before.store.max()
    &&& if removed.len() == 0 {
        &&& is_error(out, "No matching trusted device found"@)
        &&& after.peers.peers() == before.peers.peers()
        &&& after.store.remote() == before.store.remote()
        &&& after.store.keys() == before.store.keys()
    } else {
        &&& out is Disconnect
        &&& out->Disconnect_reply is Success
        &&& forall|i: int|
            0 <= i < out->Disconnect_peers@.len() ==> goes_by(
                before.peers.peers(),
                #[trigger] out->Disconnect_peers@[i],
                removed,
            )
        &&& after.peers.peers() == before.peers.peers().remove_keys(out->Disconnect_peers@.to_set())
        &&& after.store.remote() == without_peers(
            before.store.remote(),
            out->Disconnect_peers@.to_set(),
        )
        &&& after.store.keys() == keys_of_held(
            before.store.keys(),
            before.store.blocks(),
            after.store.remote(),
        )
    }
}

/// Whether a connected peer goes by the name of one of the devices: it has
/// that name, or the name spells its id.
pub open spec fn goes_by(
    peers: Map<u128, PeerInfo>,
    peer: u128,
    devices: Seq<TrustedDevice>,
) -> bool {
    peers.contains_key(peer)
        && exists|j: int|
            0 <= j < devices.len()
                && (
                    peers[peer].name@ == (#[trigger] devices[j]).name@
                        || uuid_parse(devices[j].name@) == Some(peer)
                )
}

/// The remote locations that are left when some peers have gone.
pub open spec fn without_peers(remote: Map<u64, u128>, gone: Set<u128>) -> Map<u64, u128> {
    remote.restrict(Set::new(|id: u64| remote.contains_key(id) && !gone.contains(remote[id])))
}

/// What `decide` does; `before` and `after` are the node before and
/// after. The request with the session id leaves the list, and the
/// decision is to be made known under that id. A decision to trust the
/// peer always enters the peer's key into the trust store and leaves the
/// other keys as they are. A session id that is not pending is refused.
pub open spec fn decide_outcome(
    before: &Node,
    session_id: Seq<char>,
    decision: ConsentDecision,
    now: u64,
    after: &Node,
    out: Outcome,
) -> bool {
    &&& after.store == before.store
    &&& after.peers == before.peers
    &&& match position_of(before.consent.pending(), session_id) {
        None => {
            &&& is_error(out, "No pending request for session "@ + session_id)
            &&& after.consent.pending() == before.consent.pending()
            &&& after.trust == before.trust
        },
        Some(i) => {
            let key = before.consent.pending()[i].peer_pubkey@;
            &&& out is Publish
            &&& out->Publish_session_id@ == session_id
            &&& out->Publish_decision == decision
            &&& out->Publish_reply is Success
            &&& after.consent.pending() == before.consent.pending().remove(i)
            &&& if decision == ConsentDecision::ApprovedAndTrusted {
                &&& lists_key(after.trust.devices(), key)
                &&& forall|other: Seq<char>|
                    other != key ==> lists_key(after.trust.devices(), other) == lists_key(
                        before.trust.devices(),
                        other,
                    )
            } else {
                after.trust == before.trust
            }
        },
    }
}

/// Whether two nodes differ in nothing.
pub open spec fn same_node(before: &Node, after: &Node) -> bool {
    &&& after.store == before.store
    &&& after.peers == before.peers
    &&& after.trust == before.trust
    &&& after.consent == before.consent
}

/// The number of bytes in use, as far as a count can say it.
pub open spec fn usage_of(store: &InMemoryBlockManager) -> usize {
    if store.used() <= usize::MAX {
        store.used() as usize
    } else {
        usize::MAX
    }
}

/// What a node does for a command. `fresh` is the id that a new block or a
/// new upload gets, and `now` the time. Each command is handled as the
/// function of its name says.
pub open spec fn commanded(
    before: &Node,
    cmd: SdkCommand,
    now: u64,
    fresh: u64,
    after: &Node,
    out: Outcome,
) -> bool {
    match cmd {
        SdkCommand::Store { data, durability } => store_local_outcome(
            before,
            data,
            durability,
            now,
            fresh,
            after,
            out,
        ),
        SdkCommand::StoreRemote { data, target, durability } => same_node(before, after)
            && store_remote_outcome(before, data, target, durability, now, fresh, out),
        SdkCommand::Load { id } => load_outcome(before, id, now, after, out),
        SdkCommand::Free { id } => free_outcome(before, id, after, out),
        SdkCommand::ListPeers => {
            &&& same_node(before, after)
            &&& out is Reply
            &&& out->Reply_0 is PeerList
            &&& out->Reply_0->PeerList_peers@.len() == before.peers.peers().dom().len()
            &&& forall|i: int|
                0 <= i < out->Reply_0->PeerList_peers@.len() ==> is_peer_metadata(
                    before.peers.peers(),
                    #[trigger] out->Reply_0->PeerList_peers@[i],
                )
            &&& forall|id: u128|
                #[trigger] before.peers.peers().contains_key(id) ==>
                    exists|i: int|
                        0 <= i < out->Reply_0->PeerList_peers@.len()
                            && metadata_matches(
                                #[trigger] out->Reply_0->PeerList_peers@[i],
                                before.peers.peers()[id],
                            )
        },
        SdkCommand::Connect { addr, quota } => {
            &&& after.store == before.store
            &&& after.trust == before.trust
            &&& after.consent == before.consent
            &&& after.peers.same_peers(&before.peers)
            &&& after.peers.block_waiters() == before.peers.block_waiters()
            &&& after.peers.key_waiters() == before.peers.key_waiters()
            &&& after.peers.key_write_waiters() == before.peers.key_write_waiters()
            &&& after.peers.handshakes() == before.peers.handshakes().insert(
                addr@,
                HandshakeEntry { state: HandshakeState::Connecting, since: now },
            )
            &&& out is Connect
            &&& out->Connect_addr@ == addr@
            &&& out->Connect_quota == (match quota {
                Some(q) => q,
                None => 0,
            })
            &&& out->Connect_reply is ConnectionStatus
            &&& out->Connect_reply->ConnectionStatus_state@ == "pending"@
            &&& out->Connect_reply->ConnectionStatus_msg.is_none()
        },
        SdkCommand::UpdatePeerQuota { peer_id, quota } => update_peer_quota_outcome(
            before,
            peer_id@,
            quota,
            after,
            out,
        ),
        SdkCommand::Disconnect { peer_id } => disconnect_outcome(before, peer_id@, after, out),
        SdkCommand::SetKey { key, data, target, durability } => match target {
            Some(t) => set_remote_outcome(before, key, data, t@, after, out),
            None => set_local_outcome(before, key, data, durability, now, fresh, after, out),
        },
        SdkCommand::Get { key, target } => get_outcome(before, key, target, after, out),
        SdkCommand::ListKeys { pattern } => {
            &&& same_node(before, after)
            &&& out is Reply
            &&& out->Reply_0 is List
            &&& forall|i: int|
                0 <= i < out->Reply_0->List_items@.len() ==> ({
                    &&& before.store.keys().contains_key((#[trigger] out->Reply_0->List_items@[i])@)
                    &&& glob_matches(pattern@, out->Reply_0->List_items@[i]@)
                })
            &&& forall|k: Seq<char>|
                before.store.keys().contains_key(k) && glob_matches(pattern@, k) ==>
                    exists|i: int|
                        0 <= i < out->Reply_0->List_items@.len()
                            && (#[trigger] out->Reply_0->List_items@[i])@ == k
            &&& forall|i: int, j: int|
                0 <= i < j < out->Reply_0->List_items@.len() ==>
                    (#[trigger] out->Reply_0->List_items@[i])@
                        != (#[trigger] out->Reply_0->List_items@[j])@
        },
        SdkCommand::Stat => {
            &&& same_node(before, after)
            &&& out is Reply
            &&& out->Reply_0 == (SdkResponse::Status {
                blocks: before.store.blocks().dom().len() as usize,
                peers: before.peers.peers().dom().len() as usize,
                memory_usage: usage_of(&before.store),
            })
        },
        SdkCommand::PollConnection { addr } => {
            &&& after.store == before.store
            &&& after.trust == before.trust
            &&& after.consent == before.consent
            &&& after.peers.same_peers(&before.peers)
            &&& after.peers.block_waiters() == before.peers.block_waiters()
            &&& after.peers.key_waiters() == before.peers.key_waiters()
            &&& after.peers.key_write_waiters() == before.peers.key_write_waiters()
            &&& out is Reply
            &&& out->Reply_0 is ConnectionStatus
            &&& if before.peers.handshakes().contains_key(addr@) {
                let state = before.peers.handshakes()[addr@].state;
                &&& out->Reply_0->ConnectionStatus_state@ == state_name(state)
                &&& out->Reply_0->ConnectionStatus_msg == failure_of(state)
                &&& after.peers.handshakes() == (if is_terminal(state) {
                    before.peers.handshakes().remove(addr@)
                } else {
                    before.peers.handshakes()
                })
            } else {
                &&& out->Reply_0->ConnectionStatus_state@ == "unknown"@
                &&& out->Reply_0->ConnectionStatus_msg.is_some()
                &&& out->Reply_0->ConnectionStatus_msg.unwrap()@ == "No active handshake found"@
                &&& after.peers.handshakes() == before.peers.handshakes()
            }
        },
        SdkCommand::StreamStart { size_hint } => {
            &&& after.peers == before.peers
            &&& after.trust == before.trust
            &&& after.consent == before.consent
            &&& after.store.same_store(&before.store)
            &&& out is Reply
            &&& if before.store.uploads().contains_key(fresh) {
                is_error(out, store_error_text(StoreError::DuplicateId)) && after.store.uploads()
                    == before.store.uploads()
            } else {
                &&& out->Reply_0 == (SdkResponse::StreamStarted { stream_id: fresh })
                &&& after.store.uploads().dom() == before.store.uploads().dom().insert(fresh)
                &&& after.store.uploads()[fresh]@ == Seq::<u8>::empty()
                &&& forall|other: u64|
                    other != fresh && #[trigger] before.store.uploads().contains_key(other) ==>
                        after.store.uploads()[other] == before.store.uploads()[other]
            }
        },
        SdkCommand::StreamChunk { stream_id, chunk_seq, data } => {
            &&& after.peers == before.peers
            &&& after.trust == before.trust
            &&& after.consent == before.consent
            &&& after.store.same_store(&before.store)
            &&& after.store.uploads().dom() == before.store.uploads().dom()
            &&& forall|other: u64|
                other != stream_id && #[trigger] before.store.uploads().contains_key(other) ==>
                    after.store.uploads()[other] == before.store.uploads()[other]
            &&& out is Reply
            &&& if before.store.uploads().contains_key(stream_id) {
                out->Reply_0 is Success && after.store.uploads()[stream_id]@
                    == before.store.uploads()[stream_id]@ + data@
            } else {
                is_error(
                    out,
                    "Stream ID "@ + decimal_text(stream_id as nat)
                        + " not found or already closed"@,
                ) && after.store.uploads() == before.store.uploads()
            }
        },
        SdkCommand::StreamFinish { stream_id, target, durability } => stream_finish_outcome(
            before,
            stream_id,
            target,
            durability,
            now,
            fresh,
            after,
            out,
        ),
        SdkCommand::Flush { target } => flush_outcome(before, target, after, out),
        SdkCommand::TrustList => {
            &&& same_node(before, after)
            &&& out is Reply
            &&& out->Reply_0 is TrustedList
            &&& out->Reply_0->TrustedList_items@.len() == before.trust.devices().len()
            &&& forall|i: int|
                0 <= i < before.trust.devices().len() ==> same_device(
                    #[trigger] out->Reply_0->TrustedList_items@[i],
                    before.trust.devices()[i],
                )
        },
        SdkCommand::TrustRemove { key_or_name } => trust_remove_outcome(
            before,
            key_or_name@,
            after,
            out,
        ),
        SdkCommand::ConsentList => {
            &&& same_node(before, after)
            &&& out is Reply
            &&& out->Reply_0 is ConsentList
            &&& out->Reply_0->ConsentList_items@.len() == before.consent.pending().len()
            &&& forall|i: int|
                0 <= i < before.consent.pending().len() ==> same_request(
                    #[trigger] out->Reply_0->ConsentList_items@[i],
                    before.consent.pending()[i],
                )
        },
        SdkCommand::ConsentApprove { session_id, trust_always } => decide_outcome(
            before,
            session_id@,
            if trust_always {
                ConsentDecision::ApprovedAndTrusted
            } else {
                ConsentDecision::ApprovedOnce
            },
            now,
            after,
            out,
        ),
        SdkCommand::ConsentDeny { session_id } => decide_outcome(
            before,
            session_id@,
            ConsentDecision::Denied,
            now,
            after,
            out,
        ),
    }
}

impl Node {
    /// What holds of every node: what holds of each of its parts.
    pub open spec fn wf(&self) -> bool {
        &&& self.store.wf()
        &&& self.peers.wf()
        &&& self.trust.wf()
        &&& self.consent.wf()
    }

    /// Whether a node is new: it holds nothing, no upload is open, it
    /// knows nobody, nobody waits for anything, no handshake is under way,
    /// it trusts nobody, and no request for consent is pending.
    pub open spec fn is_new(&self, max_memory: u64) -> bool {
        &&& self.wf()
        &&& self.store.max() == max_memory
        &&& self.store.used() == 0
        &&& self.store.blocks() =~= Map::empty()
        &&& self.store.keys() =~= Map::empty()
        &&& self.store.remote() =~= Map::empty()
        &&& self.store.uploads() =~= Map::empty()
        &&& self.peers.is_new()
        &&& self.trust.devices().len() == 0
        &&& self.consent.pending().len() == 0
    }

    /// A new node with a fresh identity, as `with_identity` makes it;
    /// nothing where the system gives no randomness for the key of the
    /// identity.
    pub fn new(self_id: u128, self_name: String, max_memory: u64) -> (r: Option<Node>)
        ensures
            r.is_some() ==> ({
                &&& r.unwrap().is_new(max_memory)
                &&& r.unwrap().peers.self_id() == self_id
                &&& r.unwrap().peers.self_name() == self_name@
            }),
    {
        match Identity::new(self_id, self_name) {
            Some(identity) => Some(Node::with_identity(identity, max_memory)),
            None => None,
        }
    }

    /// A new node with the given identity, which may hold `max_memory`
    /// bytes.
    pub fn with_identity(identity: Identity, max_memory: u64) -> (node: Node)
        ensures
            node.is_new(max_memory),
            node.peers.self_id() == identity.node_id,
            node.peers.self_name() == identity.name@,
            node.peers.identity() == identity,
    {
        Node {
            store: InMemoryBlockManager::new(max_memory),
            peers: PeerManager::with_identity(identity),
            trust: TrustedStore::new(),
            consent: ConsentManager::new(),
        }
    }

    /// `Store`: stores the bytes here, as a block with the id `fresh`.
    pub fn store_local(
        &mut self,
        data: Vec<u8>,
        durability: Option<Durability>,
        now: u64,
        fresh: u64,
    ) -> (out: Outcome)
        requires
            old(self).wf(),
        ensures
            final(self).wf(),
            store_local_outcome(old(self), data, durability, now, fresh, final(self), out),
    {
        let block = Block { id: fresh, data, durability: mode(durability), last_accessed: now };
        let r = self.store.put_block(block);
        match r {
            Ok(()) => Outcome::Reply(SdkResponse::Stored { id: fresh }),
            Err(e) => store_error(e),
        }
    }

    /// `StoreRemote`, first step: picks the peer that is to take the block.
    /// Nothing changes yet.
    pub fn store_remote(
        &self,
        data: Vec<u8>,
        target: Option<String>,
        durability: Option<Durability>,
        now: u64,
        fresh: u64,
    ) -> (out: Outcome)
        requires
            self.wf(),
        ensures
            store_remote_outcome(self, data, target, durability, now, fresh, out),
    {
        let size = data.len() as u64;
        let block = Block { id: fresh, data, durability: mode(durability), last_accessed: now };
        match self.store.put_block_remote(&self.peers, block, target) {
            Ok((peer, request)) => Outcome::StoreOnPeer { peer, id: fresh, size, request },
            Err(e) => store_error(e),
        }
    }

    /// `StoreRemote`, second step. Where the block has gone out, the node
    /// notes that the peer holds it, counts its bytes against what the
    /// peer offers, and answers with the id; where it has not, nothing
    /// changes and the answer is an error.
    pub fn finish_remote_store(
        &mut self,
        id: u64,
        peer: u128,
        size: u64,
        sent: bool,
    ) -> (reply: SdkResponse)
        requires
            old(self).wf(),
        ensures
            final(self).wf(),
            finish_remote_store_outcome(old(self), id, peer, size, sent, final(self), reply),
    {
        if !sent {
            return SdkResponse::Error { msg: String::from_str("Failed to send block to peer") };
        }
        match self.store.record_remote(id, peer) {
            Ok(()) => {
                self.peers.note_stored_on_peer(peer, size);
                SdkResponse::Stored { id }
            },
            Err(e) => SdkResponse::Error { msg: store_error_message(e) },
        }
    }

    /// `Load`, first step. A block held here is the answer; for a block
    /// held by a connected peer, a waiter is registered and the peer is to
    /// be asked; any other block is not found.
    #[verifier::rlimit(40)]
    pub fn load(&mut self, id: u64, now: u64) -> (out: Outcome)
        requires
            old(self).wf(),
        ensures
            final(self).wf(),
            load_outcome(old(self), id, now, final(self), out),
    {
        match self.store.get_block_async(id) {
            Lookup::Local(block) => {
                self.store.touch(id, now);
                Outcome::Reply(SdkResponse::Loaded { data: block.data })
            },
            Lookup::Missing => error("Block not found"),
            Lookup::Remote { peer } => match self.peers.request_block(peer, id) {
                None => store_error(StoreError::PeerNotConnected),
                Some(request) => {
                    let _ = self.peers.wait_for_block(id);
                    Outcome::FetchBlock { peer, id, request }
                },
            },
        }
    }

    /// `Free`: drops the block, wherever it is held, and the keys bound to it.
    pub fn free(&mut self, id: u64) -> (out: Outcome)
        requires
            old(self).wf(),
        ensures
            final(self).wf(),
            free_outcome(old(self), id, final(self), out),
    {
        let _ = self.store.free(id);
        Outcome::Reply(SdkResponse::Success)
    }

    /// `Set` without a target: stores the value here as a block with the
    /// id `fresh`, and binds the key to it.
    pub fn set_local(
        &mut self,
        key: String,
        data: Vec<u8>,
        durability: Option<Durability>,
        now: u64,
        fresh: u64,
    ) -> (out: Outcome)
        requires
            old(self).wf(),
        ensures
            final(self).wf(),
            set_local_outcome(old(self), key, data, durability, now, fresh, final(self), out),
    {
        let stored = self.store.set_with_id(key, fresh, data, mode(durability), now);
        let ghost r = stored;
        let out = match stored {
            Ok(id) => Outcome::Reply(SdkResponse::Stored { id }),
            Err(e) => store_error(e),
        };
        proof {
            let block = Block {
                id: fresh,
                data: data,
                durability: mode_of(durability),
                last_accessed: now,
            };
            assert(set_outcome(&old(self).store, key@, block, &self.store, r));
        }
        out
    }

    /// `Set` with a target, first step. Where the target names a connected
    /// peer, a waiter for the acknowledgement is registered and the value
    /// is to be sent to that peer.
    pub fn set_remote(&mut self, key: String, data: Vec<u8>, target: &str) -> (out: Outcome)
        requires
            old(self).wf(),
        ensures
            final(self).wf(),
            set_remote_outcome(old(self), key, data, target@, final(self), out),
    {
        match self.peers.resolve_target(target) {
            None => peer_not_found(target),
            Some(peer) => {
                let name = key.clone();
                match self.peers.set_key_remote(peer, key, data) {
                    None => store_error(StoreError::PeerNotConnected),
                    Some(request) => {
                        let _ = self.peers.wait_for_key_store(name.as_str());
                        Outcome::WriteKeyOnPeer { peer, key: name, request }
                    },
                }
            },
        }
    }

    /// `Set` with a target, second step. Where the peer has acknowledged
    /// the write with a block id, the node notes that the peer holds that
    /// block, binds the key to it, and answers with the id. Where nothing
    /// came back in time the answer is an error and nothing changes.
    pub fn finish_remote_set(
        &mut self,
        key: String,
        peer: u128,
        stored: Option<u64>,
    ) -> (reply: SdkResponse)
        requires
            old(self).wf(),
        ensures
            final(self).wf(),
            finish_remote_set_outcome(old(self), key, peer, stored, final(self), reply),
    {
        match stored {
            None => SdkResponse::Error {
                msg: String::from_str("Timeout waiting for remote key store"),
            },
            Some(id) => match self.store.bind_remote(key, id, peer) {
                Ok(id) => SdkResponse::Stored { id },
                Err(e) => SdkResponse::Error { msg: store_error_message(e) },
            },
        }
    }

    /// `Get`, first step. A key that is bound to a block held here is
    /// answered at once. Otherwise the peers are to be asked: the peer
    /// that the target names, or every connected peer. With nobody to ask
    /// the key is not found.
    #[verifier::rlimit(40)]
    pub fn get(&mut self, key: String, target: Option<String>) -> (out: Outcome)
        requires
            old(self).wf(),
        ensures
            final(self).wf(),
            get_outcome(old(self), key, target, final(self), out),
    {
        match target {
            None => {
                match self.store.get_distributed_key(key.as_str()) {
                    KeyLookup::Local(data) => {
                        return Outcome::Reply(SdkResponse::Loaded { data });
                    },
                    _ => {},
                }
                let (_, peers) = self.peers.broadcast_get_key(key.as_str());
                if peers.len() == 0 {
                    return error("Key not found");
                }
                let request = Message::GetKey { key: key.clone() };
                let _ = self.peers.wait_for_key(key.as_str());
                let out = Outcome::AskPeers { peers, key, request };
                proof {
                    assert forall|id: u128|
                        old(self).peers.peers().contains_key(id) implies
                            exists|i: int|
                                0 <= i < out->AskPeers_peers@.len()
                                    && #[trigger] out->AskPeers_peers@[i] == id by {
                        let j = choose|j: int| 0 <= j < peers@.len() && #[trigger] peers@[j] == id;
                        assert(out->AskPeers_peers@[j] == id);
                    }
                }
                out
            },
            Some(t) => match self.peers.resolve_target(t.as_str()) {
                None => peer_not_found(t.as_str()),
                Some(peer) => {
                    if !self.peers.is_connected(peer) {
                        return store_error(StoreError::PeerNotConnected);
                    }
                    let request = Message::GetKey { key: key.clone() };
                    let mut peers: Vec<u128> = Vec::new();
                    peers.push(peer);
                    let _ = self.peers.wait_for_key(key.as_str());
                    Outcome::AskPeers { peers, key, request }
                },
            },
        }
    }

    /// `UpdatePeerQuota`: sets what a peer may store here, and says what
    /// is to be sent to tell the peer. A quota above the memory of this
    /// node is refused, and so is one below what the peer has stored.
    #[verifier::rlimit(40)]
    pub fn update_peer_quota(&mut self, target: &str, quota: u64) -> (out: Outcome)
        requires
            old(self).wf(),
        ensures
            final(self).wf(),
            update_peer_quota_outcome(old(self), target@, quota, final(self), out),
    {
        let max = self.store.get_max_memory();
        if quota > max {
            let mut msg = String::from_str("Quota exceeds node memory limit (");
            let number = decimal_string(max);
            msg.append(number.as_str());
            msg.append(")");
            return Outcome::Reply(SdkResponse::Error { msg });
        }
        match self.peers.resolve_target(target) {
            None => peer_not_found(target),
            Some(peer) => match self.peers.set_allowed_quota(peer, quota) {
                Ok(message) => Outcome::Notify { peer, message, reply: SdkResponse::Success },
                Err(PeerError::NotFound) => error("Peer not found"),
                Err(PeerError::QuotaBelowUsage) => error("Quota is below what the peer has stored"),
            },
        }
    }

    /// `Disconnect`: drops the peer that the target names from the
    /// registry, together with the notes of what it held for this node.
    pub fn disconnect(&mut self, target: &str) -> (out: Outcome)
        requires
            old(self).wf(),
        ensures
            final(self).wf(),
            disconnect_outcome(old(self), target@, final(self), out),
    {
        match self.peers.resolve_target(target) {
            None => error("Peer not found"),
            Some(peer) => {
                if self.peers.disconnect_peer(peer) {
                    self.store.forget_peer(peer);
                    let mut peers: Vec<u128> = Vec::new();
                    peers.push(peer);
                    Outcome::Disconnect { peers, reply: SdkResponse::Success }
                } else {
                    assert(self.peers.peers() =~= old(self).peers.peers());
                    error("Peer not found")
                }
            },
        }
    }

    /// `Flush`: without a target, drops everything that is stored here;
    /// with one, says which peer is to be told to drop what it stores.
    pub fn flush(&mut self, target: Option<String>) -> (out: Outcome)
        requires
            old(self).wf(),
        ensures
            final(self).wf(),
            flush_outcome(old(self), target, final(self), out),
    {
        match target {
            None => {
                self.store.flush();
                Outcome::Reply(SdkResponse::FlushSuccess)
            },
            Some(t) => match self.store.flush_remote(&self.peers, t.as_str()) {
                Ok((peer, message)) => {
                    Outcome::Notify { peer, message, reply: SdkResponse::FlushSuccess }
                },
                Err(StoreError::NoPeer) => peer_not_found(t.as_str()),
                Err(e) => store_error(e),
            },
        }
    }

    /// `StreamFinish`: closes the upload and stores what was appended to
    /// it: here without a target, or on a peer with one.
    #[verifier::rlimit(40)]
    pub fn stream_finish(
        &mut self,
        stream_id: u64,
        target: Option<String>,
        durability: Option<Durability>,
        now: u64,
        fresh: u64,
    ) -> (out: Outcome)
        requires
            old(self).wf(),
        ensures
            final(self).wf(),
            stream_finish_outcome(
                old(self),
                stream_id,
                target,
                durability,
                now,
                fresh,
                final(self),
                out,
            ),
    {
        match self.store.finalize_stream(stream_id) {
            Err(_) => {
                let mut msg = String::from_str("Stream ID ");
                let number = decimal_string(stream_id);
                msg.append(number.as_str());
                msg.append(" not found");
                Outcome::Reply(SdkResponse::Error { msg })
            },
            Ok(data) => {
                let ghost closed = self.store;
                let ghost block = Block {
                    id: fresh,
                    data: data,
                    durability: mode_of(durability),
                    last_accessed: now,
                };
                match target {
                    Some(t) => {
                        let ghost wanted = Some(t);
                        let out = self.store_remote(data, Some(t), durability, now, fresh);
                        proof {
                            let plan = choose|plan: Result<(u128, Message), StoreError>|
                                #![trigger closed.remote_plan(
                                    &self.peers, block, opt_text(wanted), plan,
                                )]
                                closed.remote_plan(
                                    &self.peers,
                                    block,
                                    opt_text(wanted),
                                    plan,
                                ) && match plan {
                                    Ok(p) => out == (Outcome::StoreOnPeer {
                                        peer: p.0,
                                        id: fresh,
                                        size: data@.len() as u64,
                                        request: p.1,
                                    }),
                                    Err(e) => is_error(out, store_error_text(e)),
                                };
                            assert(old(self).store.remote_plan(
                                &old(self).peers,
                                block,
                                opt_text(wanted),
                                plan,
                            ));
                        }
                        out
                    },
                    None => {
                        let out = self.store_local(data, durability, now, fresh);
                        proof {
                            let r = choose|r: Result<(), StoreError>|
                                #![trigger closed.put_outcome(block, &self.store, r)]
                                closed.put_outcome(block, &self.store, r) && match r {
                                    Ok(_) => out == Outcome::Reply(
                                        SdkResponse::Stored { id: fresh },
                                    ),
                                    Err(e) => is_error(out, store_error_text(e)),
                                };
                            assert(closed.put_outcome(block, &self.store, r));
                        }
                        out
                    },
                }
            },
        }
    }

    /// `TrustRemove`: stops trusting the devices that the text names, and
    /// drops from the registry the connected peers that go by their names.
    #[verifier::rlimit(60)]
    pub fn trust_remove(&mut self, key_or_name: &str) -> (out: Outcome)
        requires
            old(self).wf(),
        ensures
            final(self).wf(),
            trust_remove_outcome(old(self), key_or_name@, final(self), out),
    {
        let removed = self.trust.remove_trusted(key_or_name);
        if removed.len() == 0 {
            return error("No matching trusted device found");
        }
        let ghost peers0 = self.peers.peers();
        let ghost remote0 = self.store.remote();
        let ghost keys0 = self.store.keys();
        let ghost blocks0 = self.store.blocks();
        let mut gone: Vec<u128> = Vec::new();
        let mut i: usize = 0;
        proof {
            assert(gone@.to_set() =~= Set::<u128>::empty());
            assert(peers0.remove_keys(gone@.to_set()) =~= peers0);
            assert(without_peers(remote0, gone@.to_set()) =~= remote0);
            assert(keys_of_held(keys0, blocks0, remote0) =~= keys0);
        }
        while i < removed.len()
            invariant
                i <= removed@.len(),
                self.wf(),
                old(self).wf(),
                peers0 == old(self).peers.peers(),
                remote0 == old(self).store.remote(),
                keys0 == old(self).store.keys(),
                blocks0 == old(self).store.blocks(),
                removed@ == old(self).trust.devices().filter(
                    |d: TrustedDevice| is_named(d, key_or_name@),
                ),
                self.trust.devices() == old(self).trust.devices().filter(
                    |d: TrustedDevice| !is_named(d, key_or_name@),
                ),
                self.consent == old(self).consent,
                self.peers.same_but_peers(&old(self).peers),
                self.store.blocks() == blocks0,
                self.store.uploads() == old(self).store.uploads(),
                self.store.used() == old(self).store.used(),
                self.store.max() == old(self).store.max(),
                forall|k: int|
                    0 <= k < gone@.len() ==> goes_by(peers0, #[trigger] gone@[k], removed@),
                self.peers.peers() == peers0.remove_keys(gone@.to_set()),
                self.store.remote() == without_peers(remote0, gone@.to_set()),
                self.store.keys() == keys_of_held(keys0, blocks0, self.store.remote()),
            decreases removed@.len() - i,
        {
            match self.peers.get_peer_id_by_name(removed[i].name.as_str()) {
                Some(peer) => {
                    let ghost had = gone@;
                    let ghost remote1 = self.store.remote();
                    let _ = self.peers.disconnect_peer(peer);
                    self.store.forget_peer(peer);
                    gone.push(peer);
                    proof {
                        assert(gone@.to_set() =~= had.to_set().insert(peer)) by {
                            let grown = had.to_set().insert(peer);
                            assert forall|x: u128| gone@.to_set().contains(x) == grown.contains(
                                x,
                            ) by {
                                if had.contains(x) {
                                    let k = choose|k: int| 0 <= k < had.len() && had[k] == x;
                                    assert(gone@[k] == x);
                                }
                                if x == peer {
                                    assert(gone@[had.len() as int] == x);
                                }
                                if gone@.contains(x) {
                                    let k = choose|k: int| 0 <= k < gone@.len() && gone@[k] == x;
                                    if k < had.len() {
                                        assert(had[k] == x);
                                    }
                                }
                            }
                        }
                        assert(self.peers.peers() =~= peers0.remove_keys(gone@.to_set()));
                        assert(self.store.remote() =~= without_peers(remote0, gone@.to_set()));
                        assert(self.store.keys() =~= keys_of_held(
                            keys0,
                            blocks0,
                            self.store.remote(),
                        )) by {
                            assert forall|k: Seq<char>|
                                #[trigger] keys0.contains_key(k)
                                    && is_held(blocks0, self.store.remote(), keys0[k]) implies
                                    is_held(blocks0, remote1, keys0[k]) by {
                                if self.store.remote().contains_key(keys0[k]) {
                                    assert(remote1.contains_key(keys0[k]));
                                }
                            }
                        }
                        assert forall|k: int|
                            0 <= k < gone@.len() implies
                                goes_by(peers0, #[trigger] gone@[k], removed@) by {
                            if k < had.len() {
                                assert(gone@[k] == had[k]);
                            } else {
                                assert(peers0.contains_key(peer));
                            }
                        }
                    }
                },
                None => {},
            }
            i = i + 1;
        }
        Outcome::Disconnect { peers: gone, reply: SdkResponse::Success }
    }

    /// `ConsentApprove` and `ConsentDeny`: takes the operator's decision
    /// on a request, and says that it is to be made known. A decision to
    /// trust the peer always enters its key into the trust store.
    #[verifier::rlimit(40)]
    pub fn decide(
        &mut self,
        session_id: &str,
        decision: ConsentDecision,
        now: u64,
    ) -> (out: Outcome)
        requires
            old(self).wf(),
        ensures
            final(self).wf(),
            decide_outcome(old(self), session_id@, decision, now, final(self), out),
    {
        proof {
            crate::consent::lemma_position_of(self.consent.pending(), session_id@);
        }
        match self.consent.take_request(session_id) {
            None => {
                let mut msg = String::from_str("No pending request for session ");
                msg.append(session_id);
                Outcome::Reply(SdkResponse::Error { msg })
            },
            Some(request) => {
                match decision {
                    ConsentDecision::ApprovedAndTrusted => {
                        self.trust.add_trusted(request.peer_pubkey, request.peer_name, now);
                    },
                    _ => {},
                }
                Outcome::Publish {
                    session_id: request.session_id,
                    decision,
                    reply: SdkResponse::Success,
                }
            },
        }
    }

    /// Handles a command; `fresh` is the id that a new block or a new
    /// upload gets. See the function of each command for what it does.
    #[verifier::rlimit(40)]
    pub fn handle_command_with(&mut self, cmd: SdkCommand, now: u64, fresh: u64) -> (out: Outcome)
        requires
            old(self).wf(),
        ensures
            final(self).wf(),
            commanded(old(self), cmd, now, fresh, final(self), out),
    {
        match cmd {
            SdkCommand::Store { data, durability } => self.store_local(
                data,
                durability,
                now,
                fresh,
            ),
            SdkCommand::StoreRemote { data, target, durability } => self.store_remote(
                data,
                target,
                durability,
                now,
                fresh,
            ),
            SdkCommand::Load { id } => self.load(id, now),
            SdkCommand::Free { id } => self.free(id),
            SdkCommand::ListPeers => Outcome::Reply(
                SdkResponse::PeerList { peers: self.peers.get_peer_metadata_list() },
            ),
            SdkCommand::Connect { addr, quota } => {
                self.peers.begin_handshake(addr.as_str(), now);
                let offered = match quota {
                    Some(q) => q,
                    None => 0,
                };
                Outcome::Connect {
                    addr,
                    quota: offered,
                    reply: SdkResponse::ConnectionStatus {
                        state: String::from_str("pending"),
                        msg: None,
                    },
                }
            },
            SdkCommand::UpdatePeerQuota { peer_id, quota } => self.update_peer_quota(
                peer_id.as_str(),
                quota,
            ),
            SdkCommand::Disconnect { peer_id } => self.disconnect(peer_id.as_str()),
            SdkCommand::SetKey { key, data, target, durability } => match target {
                Some(t) => self.set_remote(key, data, t.as_str()),
                None => self.set_local(key, data, durability, now, fresh),
            },
            SdkCommand::Get { key, target } => self.get(key, target),
            SdkCommand::ListKeys { pattern } => {
                let items = self.store.list_keys(pattern.as_str());
                let ghost found = items@;
                let out = Outcome::Reply(SdkResponse::List { items });
                proof {
                    assert forall|k: Seq<char>|
                        self.store.keys().contains_key(k) && glob_matches(pattern@, k) implies
                            exists|i: int|
                                0 <= i < out->Reply_0->List_items@.len()
                                    && (#[trigger] out->Reply_0->List_items@[i])@ == k by {
                        let j = choose|j: int| 0 <= j < found.len() && (#[trigger] found[j])@ == k;
                        assert(out->Reply_0->List_items@[j]@ == k);
                    }
                }
                out
            },
            SdkCommand::Stat => {
                let blocks = self.store.block_count();
                let peers = self.peers.peer_count();
                let used = self.store.used_space();
                let memory_usage = if used <= usize::MAX as u64 {
                    used as usize
                } else {
                    usize::MAX
                };
                Outcome::Reply(SdkResponse::Status { blocks, peers, memory_usage })
            },
            SdkCommand::PollConnection { addr } => {
                let (state, msg) = self.peers.poll_connection(addr.as_str());
                Outcome::Reply(SdkResponse::ConnectionStatus { state, msg })
            },
            SdkCommand::StreamStart { size_hint } => {
                match self.store.open_stream(fresh, size_hint) {
                    Ok(stream_id) => Outcome::Reply(SdkResponse::StreamStarted { stream_id }),
                    Err(e) => store_error(e),
                }
            },
            SdkCommand::StreamChunk { stream_id, chunk_seq, data } => {
                match self.store.append_stream(stream_id, data) {
                    Ok(()) => Outcome::Reply(SdkResponse::Success),
                    Err(_) => {
                        let mut msg = String::from_str("Stream ID ");
                        let number = decimal_string(stream_id);
                        msg.append(number.as_str());
                        msg.append(" not found or already closed");
                        Outcome::Reply(SdkResponse::Error { msg })
                    },
                }
            },
            SdkCommand::StreamFinish { stream_id, target, durability } => self.stream_finish(
                stream_id,
                target,
                durability,
                now,
                fresh,
            ),
            SdkCommand::Flush { target } => self.flush(target),
            SdkCommand::TrustList => Outcome::Reply(
                SdkResponse::TrustedList { items: self.trust.list_trusted() },
            ),
            SdkCommand::TrustRemove { key_or_name } => self.trust_remove(key_or_name.as_str()),
            SdkCommand::ConsentList => Outcome::Reply(
                SdkResponse::ConsentList { items: self.consent.get_pending_list() },
            ),
            SdkCommand::ConsentApprove { session_id, trust_always } => {
                let decision = if trust_always {
                    ConsentDecision::ApprovedAndTrusted
                } else {
                    ConsentDecision::ApprovedOnce
                };
                self.decide(session_id.as_str(), decision, now)
            },
            SdkCommand::ConsentDeny { session_id } => self.decide(
                session_id.as_str(),
                ConsentDecision::Denied,
                now,
            ),
        }
    }

    /// Handles a command. A new block or a new upload gets an id drawn at
    /// random.
    pub fn handle_command(&mut self, cmd: SdkCommand, now: u64) -> (out: Outcome)
        requires
            old(self).wf(),
        ensures
            final(self).wf(),
            exists|fresh: u64| commanded(old(self), cmd, now, fresh, final(self), out),
    {
        let fresh = random_u64();
        self.handle_command_with(cmd, now, fresh)
    }
}

/// What `finish_load` answers: the bytes that the peer sent; that the
/// block is not found, where the peer answered that it does not hold it;
/// and an error where nothing came back in time.
pub open spec fn load_finished(reply: Option<Option<Vec<u8>>>, response: SdkResponse) -> bool {
    match reply {
        Some(Some(data)) => response == (SdkResponse::Loaded { data: data }),
        Some(None) => is_error_reply(response, "Block not found"@),
        None => is_error_reply(response, "Timeout waiting for block data"@),
    }
}

/// `Load`, second step; see `load_finished`.
pub fn finish_load(reply: Option<Option<Vec<u8>>>) -> (response: SdkResponse)
    ensures
        load_finished(reply, response),
{
    match reply {
        Some(Some(data)) => SdkResponse::Loaded { data },
        Some(None) => SdkResponse::Error { msg: String::from_str("Block not found") },
        None => SdkResponse::Error { msg: String::from_str("Timeout waiting for block data") },
    }
}

/// The load of a block that the peer does not hold, though this node
/// noted that it does, is answered with not found: the peer, asked for
/// the block, answers without bytes; that answer is handed to whoever
/// waits for the block; and the load then says that the block is not
/// found.
pub proof fn lemma_block_not_held_is_not_found(
    holder: &InMemoryBlockManager,
    holder_peers: &PeerManager,
    asker: u128,
    id: u64,
    holder_after: &InMemoryBlockManager,
    holder_peers_after: &PeerManager,
    asked: Dispatch,
    store: &InMemoryBlockManager,
    peers: &PeerManager,
    peer: u128,
    store_after: &InMemoryBlockManager,
    peers_after: &PeerManager,
    answered: Dispatch,
    now: u64,
    fresh: u64,
    response: SdkResponse,
)
    requires
        !holder.blocks().contains_key(id),
        handled(
            holder,
            holder_peers,
            asker,
            Message::GetBlock { id: id },
            now,
            fresh,
            holder_after,
            holder_peers_after,
            asked,
        ),
        peers.block_waiters().contains_key(id),
        handled(
            store,
            peers,
            peer,
            asked.reply.unwrap(),
            now,
            fresh,
            store_after,
            peers_after,
            answered,
        ),
        load_finished(Some(answered.delivery.unwrap()->Block_data), response),
    ensures
        asked.reply == Some(Message::BlockData { id: id, data: None }),
        answered.delivery == Some(Delivery::Block { id: id, data: None }),
        !peers_after.block_waiters().contains_key(id),
        is_error_reply(response, "Block not found"@),
{
}

/// `Get`, second step: the first value that a peer sent is the answer;
/// where nothing came back in time, the key is not found.
pub fn finish_get(reply: Option<Vec<u8>>) -> (response: SdkResponse)
    ensures
        reply.is_some() ==> response == (SdkResponse::Loaded { data: reply.unwrap() }),
        reply.is_none() ==> is_error_reply(response, "Key not found"@),
{
    match reply {
        Some(data) => SdkResponse::Loaded { data },
        None => SdkResponse::Error { msg: String::from_str("Key not found") },
    }
}

} // verus!
