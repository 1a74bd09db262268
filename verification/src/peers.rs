//! The registry of connected peers: their records and quotas, the waiters
//! for replies that are still to come, and the outgoing handshakes that a
//! client may poll.

use dashmap::DashMap;
use vstd::prelude::*;
use vstd::string::StringExecFns;

use crate::auth::Identity;
use crate::crypto::format_uuid;
use crate::crypto::parse_uuid;
use crate::crypto::uuid_parse;
use crate::crypto::uuid_text;
use crate::net::Message;
use crate::table::new_handshake_table;
use crate::table::new_peer_table;
use crate::table::new_text_table;
use crate::table::new_waiter_table;
use crate::table::table_contains;
use crate::table::table_get;
use crate::table::table_insert;
use crate::table::table_keys;
use crate::table::table_remove;
use crate::table::Table;

verus! {

/// The identifier of a node: a 128-bit UUID, kept as a number.
pub type NodeId = u128;

/// What a node knows of a connected peer.
#[derive(Debug, Clone)]
pub struct PeerInfo {
    pub id: u128,
    pub addr: String,
    pub name: String,
    /// The capacity that the peer declared.
    pub total_memory: u64,
    /// The bytes that this node has stored on the peer.
    pub used_memory: u64,
    /// The bytes that the peer may store on this node.
    pub ram_quota: u64,
    pub remote_chunk_size: u64,
    /// The bytes that the peer lets this node store on it.
    pub remote_quota: u64,
    /// The bytes that the peer has stored on this node.
    pub remote_used_storage: u64,
}

/// A peer as a client of the control socket sees it.
#[derive(Debug, Clone)]
pub struct PeerMetadata {
    pub id: String,
    pub name: String,
    pub addr: String,
    pub total_memory: u64,
    pub used_memory: u64,
    /// The bytes that the peer lets this node store on it.
    pub quota: u64,
    /// The bytes that the peer may store on this node.
    pub allowed_quota: u64,
}

/// Where an outgoing handshake stands.
#[derive(Debug, Clone)]
pub enum HandshakeState {
    Connecting,
    WaitingForConsent,
    Authenticated,
    Failed(String),
}

/// What happens to an outgoing handshake.
#[derive(Debug, Clone)]
pub enum HandshakeEvent {
    /// The peer asks its operator for consent.
    ConsentRequired,
    /// The handshake completed.
    Completed,
    /// The handshake failed, for the reason given.
    Failed(String),
}

/// An outgoing handshake in the registry: its state, and when it entered it.
#[derive(Debug, Clone)]
pub struct HandshakeEntry {
    pub state: HandshakeState,
    pub since: u64,
}

/// Why the registry refuses a request.
#[derive(Debug, Clone, Copy, PartialEq, Eq, Structural)]
pub enum PeerError {
    /// No connected peer has the id.
    NotFound,
    /// The new quota is below what the peer has already stored.
    QuotaBelowUsage,
}

/// How long a finished handshake waits to be polled, in seconds.
pub const HANDSHAKE_RETENTION_SECS: u64 = 300;

/// Whether a state is one that a handshake ends in.
pub open spec fn is_terminal(state: HandshakeState) -> bool {
    state is Authenticated || state is Failed
}

/// The state that follows `state` on `event`: a handshake that has ended
/// stays as it ended; any other moves to waiting, to authenticated or to
/// failed as the event says.
pub open spec fn next_state(state: HandshakeState, event: HandshakeEvent) -> HandshakeState {
    if is_terminal(state) {
        state
    } else {
        match event {
            HandshakeEvent::ConsentRequired => HandshakeState::WaitingForConsent,
            HandshakeEvent::Completed => HandshakeState::Authenticated,
            HandshakeEvent::Failed(reason) => HandshakeState::Failed(reason),
        }
    }
}

/// The state that follows `state` on `event`.
pub fn advance(state: HandshakeState, event: HandshakeEvent) -> (next: HandshakeState)
    ensures
        next == next_state(state, event),
{
    match state {
        HandshakeState::Authenticated => HandshakeState::Authenticated,
        HandshakeState::Failed(reason) => HandshakeState::Failed(reason),
        _ => match event {
            HandshakeEvent::ConsentRequired => HandshakeState::WaitingForConsent,
            HandshakeEvent::Completed => HandshakeState::Authenticated,
            HandshakeEvent::Failed(reason) => HandshakeState::Failed(reason),
        },
    }
}

/// The name by which a client of the control socket knows a state.
pub open spec fn state_name(state: HandshakeState) -> Seq<char> {
    match state {
        HandshakeState::Connecting => "pending"@,
        HandshakeState::WaitingForConsent => "waiting_consent"@,
        HandshakeState::Authenticated => "connected"@,
        HandshakeState::Failed(_) => "failed"@,
    }
}

/// The reason that a failed handshake reports.
pub open spec fn failure_of(state: HandshakeState) -> Option<String> {
    match state {
        HandshakeState::Failed(reason) => Some(reason),
        _ => None,
    }
}

/// Whether a handshake ended at least five minutes before `now`.
pub open spec fn is_stale(entry: HandshakeEntry, now: u64) -> bool {
    is_terminal(entry.state) && now >= entry.since && now - entry.since >= HANDSHAKE_RETENTION_SECS
}

/// The count of waiters for `k` after one more has come: one where nobody
/// waited, and never more than the largest number.
pub open spec fn one_more<K>(waiters: Map<K, u64>, k: K) -> u64 {
    if !waiters.contains_key(k) {
        1
    } else if waiters[k] < u64::MAX {
        (waiters[k] + 1) as u64
    } else {
        u64::MAX
    }
}

fn count_up(before: Option<u64>) -> (after: u64)
    ensures
        after == (match before {
            None => 1,
            Some(n) => if n < u64::MAX { (n + 1) as u64 } else { u64::MAX },
        }),
{
    match before {
        None => 1,
        Some(n) => if n < u64::MAX {
            n + 1
        } else {
            u64::MAX
        },
    }
}

/// The peer as a client sees it.
pub open spec fn metadata_matches(meta: PeerMetadata, info: PeerInfo) -> bool {
    &&& meta.id@ == uuid_text(info.id)
    &&& meta.name@ == info.name@
    &&& meta.addr@ == info.addr@
    &&& meta.total_memory == info.total_memory
    &&& meta.used_memory == info.used_memory
    &&& meta.quota == info.remote_quota
    &&& meta.allowed_quota == info.ram_quota
}

/// The bytes that a peer still lets this node store on it.
pub open spec fn remaining_offer(info: PeerInfo) -> int {
    if info.remote_quota >= info.used_memory {
        info.remote_quota - info.used_memory
    } else {
        0
    }
}

/// The line that `list_peers` shows for a peer.
pub open spec fn peer_line(info: PeerInfo) -> Seq<char> {
    uuid_text(info.id) + " ("@ + info.name@ + ") @ "@ + info.addr@
}

/// What holds of the records of every registry: each stands under its own
/// id, and no peer has stored more on this node than it is allowed to.
pub open spec fn peers_wf(peers: Map<u128, PeerInfo>) -> bool {
    forall|id: u128| #[trigger]
        peers.contains_key(id) ==> peers[id].id == id && peers[id].remote_used_storage
            <= peers[id].ram_quota
}

proof fn lemma_wf_remove(peers: Map<u128, PeerInfo>, id: u128)
    requires
        peers_wf(peers),
    ensures
        peers_wf(peers.remove(id)),
{
    assert forall|k: u128|
        #[trigger] peers.remove(id).contains_key(k) implies
            peers.remove(id)[k].id == k
                && peers.remove(id)[k].remote_used_storage <= peers.remove(id)[k].ram_quota by {
        assert(peers.contains_key(k));
    }
}

proof fn lemma_wf_insert(peers: Map<u128, PeerInfo>, id: u128, info: PeerInfo)
    requires
        peers_wf(peers),
        info.id == id,
        info.remote_used_storage <= info.ram_quota,
    ensures
        peers_wf(peers.insert(id, info)),
{
    assert forall|k: u128|
        #[trigger] peers.insert(id, info).contains_key(k) implies
            peers.insert(id, info)[k].id == k
                && peers.insert(id, info)[k].remote_used_storage <= peers.insert(
                    id,
                    info,
                )[k].ram_quota by {
        if k != id {
            assert(peers.contains_key(k));
        }
    }
}

/// Whether a peer may store `size` more bytes on this node: what it has
/// stored, with `size` more, does not pass what it is allowed.
pub open spec fn fits_quota(info: PeerInfo, size: int) -> bool {
    info.remote_used_storage + size <= info.ram_quota
}

/// The record of a peer once it has stored `size` more bytes on this node.
pub open spec fn charged(info: PeerInfo, size: int) -> PeerInfo {
    PeerInfo { remote_used_storage: (info.remote_used_storage + size) as u64, ..info }
}

/// The record of a peer once `size` of the bytes that it has stored on
/// this node are given back: what it has stored does not go below zero.
pub open spec fn released(info: PeerInfo, size: u64) -> PeerInfo {
    let left = if info.remote_used_storage >= size {
        info.remote_used_storage - size
    } else {
        0
    };
    PeerInfo { remote_used_storage: left as u64, ..info }
}

/// The record of a peer once this node has stored `size` more bytes on
/// it: the count stops at the largest number.
pub open spec fn filled(info: PeerInfo, size: u64) -> PeerInfo {
    let used = if info.used_memory + size <= u64::MAX {
        info.used_memory + size
    } else {
        u64::MAX as int
    };
    PeerInfo { used_memory: used as u64, ..info }
}

/// No connected peer has stored more on this node than it is allowed to.
pub proof fn lemma_usage_within_quota(peers: &PeerManager, id: u128)
    requires
        peers.wf(),
        peers.peers().contains_key(id),
    ensures
        peers.peers()[id].remote_used_storage <= peers.peers()[id].ram_quota,
{
}

/// A peer may fill its quota to the last byte, and not one byte more.
pub proof fn lemma_quota_boundary(info: PeerInfo)
    requires
        info.remote_used_storage <= info.ram_quota,
    ensures
        fits_quota(info, info.ram_quota - info.remote_used_storage),
        !fits_quota(info, info.ram_quota - info.remote_used_storage + 1),
{
}

/// What to do about a peer that was found, by discovery or by hand.
#[derive(Debug)]
pub enum ConnectPlan {
    /// The peer is connected already: this is what is known of it.
    Known(PeerMetadata),
    /// The peer is not connected: dial it and start a handshake.
    Dial,
}

/// Whether a line is the line of one of the peers.
pub open spec fn is_peer_line(peers: Map<u128, PeerInfo>, line: Seq<char>) -> bool {
    exists|id: u128| #[trigger] peers.contains_key(id) && line == peer_line(peers[id])
}

/// Whether a description is that of one of the peers.
pub open spec fn is_peer_metadata(peers: Map<u128, PeerInfo>, meta: PeerMetadata) -> bool {
    exists|id: u128| #[trigger] peers.contains_key(id) && metadata_matches(meta, peers[id])
}

/// The registry of connected peers.
pub struct PeerManager {
    peers: DashMap<u128, PeerInfo>,
    pending_requests: DashMap<u64, u64>,
    pending_key_requests: DashMap<String, u64>,
    pending_key_writes: DashMap<String, u64>,
    outgoing_handshakes: DashMap<String, HandshakeEntry>,
    self_id: u128,
    self_name: String,
    identity: Identity,
}

impl PeerManager {
    /// The record of each connected peer, by node id.
    pub closed spec fn peers(&self) -> Map<u128, PeerInfo> {
        self.peers.entries()
    }

    /// The number of waiters for each awaited block.
    pub closed spec fn block_waiters(&self) -> Map<u64, u64> {
        self.pending_requests.entries()
    }

    /// The number of waiters for each awaited key value.
    pub closed spec fn key_waiters(&self) -> Map<Seq<char>, u64> {
        self.pending_key_requests.entries()
    }

    /// The number of waiters for each awaited remote key write.
    pub closed spec fn key_write_waiters(&self) -> Map<Seq<char>, u64> {
        self.pending_key_writes.entries()
    }

    /// The outgoing handshakes, by destination address.
    pub closed spec fn handshakes(&self) -> Map<Seq<char>, HandshakeEntry> {
        self.outgoing_handshakes.entries()
    }

    /// The id of this node.
    pub closed spec fn self_id(&self) -> u128 {
        self.self_id
    }

    /// The name of this node.
    pub closed spec fn self_name(&self) -> Seq<char> {
        self.self_name@
    }

    /// The identity of this node.
    pub closed spec fn identity(&self) -> Identity {
        self.identity
    }

    /// What holds of every registry: each record stands under its own id,
    /// and no peer has stored more on this node than it is allowed to.
    pub open spec fn wf(&self) -> bool {
        peers_wf(self.peers())
    }

    /// Whether everything but the peer records is the same in both registries.
    pub open spec fn same_but_peers(&self, other: &PeerManager) -> bool {
        &&& self.block_waiters() == other.block_waiters()
        &&& self.key_waiters() == other.key_waiters()
        &&& self.key_write_waiters() == other.key_write_waiters()
        &&& self.handshakes() == other.handshakes()
        &&& self.self_id() == other.self_id()
        &&& self.self_name() == other.self_name()
        &&& self.identity() == other.identity()
    }

    /// Whether the peer records and this node's own data are the same in
    /// both registries.
    pub open spec fn same_peers(&self, other: &PeerManager) -> bool {
        &&& self.peers() == other.peers()
        &&& self.self_id() == other.self_id()
        &&& self.self_name() == other.self_name()
        &&& self.identity() == other.identity()
    }

    /// Whether two registries differ in nothing.
    pub open spec fn unchanged(&self, other: &PeerManager) -> bool {
        self.same_but_peers(other) && self.peers() == other.peers()
    }

    /// Whether a registry is new: it knows no peer, nobody waits for
    /// anything, and no handshake is under way.
    pub open spec fn is_new(&self) -> bool {
        &&& self.wf()
        &&& self.peers() =~= Map::empty()
        &&& self.block_waiters() =~= Map::empty()
        &&& self.key_waiters() =~= Map::empty()
        &&& self.key_write_waiters() =~= Map::empty()
        &&& self.handshakes() =~= Map::empty()
    }

    /// A new registry, for a node with a fresh identity, as
    /// `with_identity` makes it; nothing where the system gives no
    /// randomness for the key of the identity.
    pub fn new(self_id: u128, self_name: String) -> (r: Option<PeerManager>)
        ensures
            r.is_some() ==> ({
                &&& r.unwrap().is_new()
                &&& r.unwrap().self_id() == self_id
                &&& r.unwrap().self_name() == self_name@
                &&& r.unwrap().identity().node_id == self_id
                &&& r.unwrap().identity().name@ == self_name@
            }),
    {
        match Identity::new(self_id, self_name) {
            Some(identity) => Some(PeerManager::with_identity(identity)),
            None => None,
        }
    }

    /// A new registry, for the node with the given identity.
    pub fn with_identity(identity: Identity) -> (pm: PeerManager)
        ensures
            pm.is_new(),
            pm.self_id() == identity.node_id,
            pm.self_name() == identity.name@,
            pm.identity() == identity,
    {
        PeerManager {
            peers: new_peer_table(),
            pending_requests: new_waiter_table(),
            pending_key_requests: new_text_table(),
            pending_key_writes: new_text_table(),
            outgoing_handshakes: new_handshake_table(),
            self_id: identity.node_id,
            self_name: identity.name.clone(),
            identity,
        }
    }

    /// The identity of this node.
    pub fn get_identity(&self) -> (identity: &Identity)
        ensures
            *identity == self.identity(),
    {
        &self.identity
    }

    /// The id of this node.
    pub fn get_self_id(&self) -> (id: u128)
        ensures
            id == self.self_id(),
    {
        self.self_id
    }

    /// The name of this node.
    pub fn get_self_name(&self) -> (name: String)
        ensures
            name@ == self.self_name(),
    {
        self.self_name.clone()
    }

    /// The record of a connected peer.
    pub fn get_peer(&self, peer_id: u128) -> (info: Option<PeerInfo>)
        ensures
            info.is_some() == self.peers().contains_key(peer_id),
            info.is_some() ==> info.unwrap() == self.peers()[peer_id],
    {
        table_get(&self.peers, &peer_id)
    }

    /// Whether a peer with this id is connected.
    pub fn is_connected(&self, peer_id: u128) -> (connected: bool)
        ensures
            connected == self.peers().contains_key(peer_id),
    {
        table_contains(&self.peers, &peer_id)
    }

    /// Enters a peer that has completed the handshake, with nothing stored
    /// in either direction. An earlier record under the same id is replaced.
    pub fn register_authenticated_peer(
        &mut self,
        id: u128,
        addr: String,
        name: String,
        quota: u64,
        total_memory: u64,
        remote_quota: u64,
    ) -> (meta: PeerMetadata)
        requires
            old(self).wf(),
        ensures
            final(self).wf(),
            final(self).same_but_peers(old(self)),
            final(self).peers().contains_key(id),
            final(self).peers() == old(self).peers().insert(id, final(self).peers()[id]),
            final(self).peers()[id].id == id,
            final(self).peers()[id].addr@ == addr@,
            final(self).peers()[id].name@ == name@,
            final(self).peers()[id].total_memory == total_memory,
            final(self).peers()[id].used_memory == 0,
            final(self).peers()[id].ram_quota == quota,
            final(self).peers()[id].remote_chunk_size == 0,
            final(self).peers()[id].remote_quota == remote_quota,
            final(self).peers()[id].remote_used_storage == 0,
            metadata_matches(meta, final(self).peers()[id]),
    {
        let info = PeerInfo {
            id,
            addr,
            name,
            total_memory,
            used_memory: 0,
            ram_quota: quota,
            remote_chunk_size: 0,
            remote_quota,
            remote_used_storage: 0,
        };
        let meta = metadata_of(&info);
        let _ = table_insert(&mut self.peers, id, info);
        proof {
            lemma_wf_insert(old(self).peers(), id, info);
        }
        meta
    }

    /// Forgets a peer whose connection has closed. Returns whether the peer
    /// was connected.
    pub fn handle_peer_disconnect(&mut self, peer_id: u128) -> (removed: bool)
        requires
            old(self).wf(),
        ensures
            final(self).wf(),
            final(self).same_but_peers(old(self)),
            final(self).peers() == old(self).peers().remove(peer_id),
            removed == old(self).peers().contains_key(peer_id),
    {
        let r = table_remove(&mut self.peers, &peer_id).is_some();
        proof {
            lemma_wf_remove(old(self).peers(), peer_id);
        }
        r
    }

    /// Forgets a peer at the operator's request. Returns whether the peer
    /// was connected, in which case it is owed a `Bye`.
    pub fn disconnect_peer(&mut self, peer_id: u128) -> (removed: bool)
        requires
            old(self).wf(),
        ensures
            final(self).wf(),
            final(self).same_but_peers(old(self)),
            final(self).peers() == old(self).peers().remove(peer_id),
            removed == old(self).peers().contains_key(peer_id),
    {
        self.handle_peer_disconnect(peer_id)
    }

    /// Reserves `size` bytes of the peer's quota on this node. The
    /// reservation succeeds if and only if the peer is connected and what
    /// it has stored, with `size` more, does not pass what it is allowed.
    pub fn try_reserve_storage(&mut self, peer_id: u128, size: u64) -> (reserved: bool)
        requires
            old(self).wf(),
        ensures
            final(self).wf(),
            final(self).same_but_peers(old(self)),
            reserved == (
                old(self).peers().contains_key(peer_id)
                    && fits_quota(old(self).peers()[peer_id], size as int)
            ),
            reserved ==> final(self).peers() == old(self).peers().insert(
                peer_id,
                charged(old(self).peers()[peer_id], size as int),
            ),
            !reserved ==> final(self).peers() == old(self).peers(),
    {
        match table_remove(&mut self.peers, &peer_id) {
            None => {
                assert(self.peers.entries() =~= old(self).peers.entries());
                false
            },
            Some(info) => {
                assert(old(self).peers().contains_key(peer_id));
                let mut info = info;
                let fits = size <= info.ram_quota - info.remote_used_storage;
                if fits {
                    info.remote_used_storage = info.remote_used_storage + size;
                }
                let _ = table_insert(&mut self.peers, peer_id, info);
                assert(self.peers.entries() =~= old(self).peers.entries().insert(peer_id, info));
                proof {
                    lemma_wf_insert(old(self).peers(), peer_id, info);
                }
                fits
            },
        }
    }

    /// Gives back `size` bytes of the peer's quota on this node; what the
    /// peer has stored does not go below zero.
    pub fn release_storage(&mut self, peer_id: u128, size: u64)
        requires
            old(self).wf(),
        ensures
            final(self).wf(),
            final(self).same_but_peers(old(self)),
            !old(self).peers().contains_key(peer_id) ==> final(self).peers() == old(self).peers(),
            old(self).peers().contains_key(peer_id) ==>
                final(self).peers() == old(self).peers().insert(
                    peer_id,
                    released(old(self).peers()[peer_id], size),
                ),
    {
        match table_remove(&mut self.peers, &peer_id) {
            None => {
                assert(self.peers.entries() =~= old(self).peers.entries());
            },
            Some(info) => {
                assert(old(self).peers().contains_key(peer_id));
                let mut info = info;
                if info.remote_used_storage >= size {
                    info.remote_used_storage = info.remote_used_storage - size;
                } else {
                    info.remote_used_storage = 0;
                }
                let _ = table_insert(&mut self.peers, peer_id, info);
                assert(self.peers.entries() =~= old(self).peers.entries().insert(peer_id, info));
                proof {
                    lemma_wf_insert(old(self).peers(), peer_id, info);
                }
            },
        }
    }

    /// Records what a peer now lets this node store on it. Returns whether
    /// the peer is connected; for an unknown peer nothing changes.
    pub fn update_peer_ram_quota(&mut self, peer_id: u128, remote_quota: u64) -> (known: bool)
        requires
            old(self).wf(),
        ensures
            final(self).wf(),
            final(self).same_but_peers(old(self)),
            known == old(self).peers().contains_key(peer_id),
            !known ==> final(self).peers() == old(self).peers(),
            known ==> final(self).peers() == old(self).peers().insert(
                peer_id,
                (PeerInfo { remote_quota: remote_quota, ..old(self).peers()[peer_id] }),
            ),
    {
        match table_remove(&mut self.peers, &peer_id) {
            None => {
                assert(self.peers.entries() =~= old(self).peers.entries());
                false
            },
            Some(info) => {
                assert(old(self).peers().contains_key(peer_id));
                let mut info = info;
                info.remote_quota = remote_quota;
                let _ = table_insert(&mut self.peers, peer_id, info);
                assert(self.peers.entries() =~= old(self).peers.entries().insert(peer_id, info));
                proof {
                    lemma_wf_insert(old(self).peers(), peer_id, info);
                }
                true
            },
        }
    }

    /// Sets what a peer may store on this node, and returns the message
    /// that tells the peer. A quota below what the peer has already stored
    /// is refused, and so is an unknown peer; nothing changes then.
    pub fn set_allowed_quota(
        &mut self,
        peer_id: u128,
        new_quota: u64,
    ) -> (r: Result<Message, PeerError>)
        requires
            old(self).wf(),
        ensures
            final(self).wf(),
            final(self).same_but_peers(old(self)),
            !old(self).peers().contains_key(peer_id) ==> r == Err::<Message, PeerError>(
                PeerError::NotFound,
            ),
            old(self).peers().contains_key(peer_id)
                && new_quota < old(self).peers()[peer_id].remote_used_storage ==>
                r == Err::<Message, PeerError>(PeerError::QuotaBelowUsage),
            r is Err ==> final(self).peers() == old(self).peers(),
            old(self).peers().contains_key(peer_id)
                && new_quota >= old(self).peers()[peer_id].remote_used_storage ==> ({
                &&& r == Ok::<Message, PeerError>(Message::UpdateQuota { quota: new_quota })
                &&& final(self).peers() == old(self).peers().insert(
                    peer_id,
                    (PeerInfo { ram_quota: new_quota, ..old(self).peers()[peer_id] }),
                )
            }),
    {
        match table_remove(&mut self.peers, &peer_id) {
            None => {
                assert(self.peers.entries() =~= old(self).peers.entries());
                Err(PeerError::NotFound)
            },
            Some(info) => {
                assert(old(self).peers().contains_key(peer_id));
                let mut info = info;
                let accepted = new_quota >= info.remote_used_storage;
                if accepted {
                    info.ram_quota = new_quota;
                }
                let _ = table_insert(&mut self.peers, peer_id, info);
                assert(self.peers.entries() =~= old(self).peers.entries().insert(peer_id, info));
                proof {
                    lemma_wf_insert(old(self).peers(), peer_id, info);
                }
                if accepted {
                    Ok(Message::UpdateQuota { quota: new_quota })
                } else {
                    Err(PeerError::QuotaBelowUsage)
                }
            },
        }
    }

    /// Adds `size` to the bytes that this node has stored on the peer, up
    /// to the largest number; for an unknown peer nothing changes.
    pub fn note_stored_on_peer(&mut self, peer_id: u128, size: u64)
        requires
            old(self).wf(),
        ensures
            final(self).wf(),
            final(self).same_but_peers(old(self)),
            !old(self).peers().contains_key(peer_id) ==> final(self).peers() == old(self).peers(),
            old(self).peers().contains_key(peer_id) ==>
                final(self).peers() == old(self).peers().insert(
                    peer_id,
                    filled(old(self).peers()[peer_id], size),
                ),
    {
        match table_remove(&mut self.peers, &peer_id) {
            None => {
                assert(self.peers.entries() =~= old(self).peers.entries());
            },
            Some(info) => {
                assert(old(self).peers().contains_key(peer_id));
                let mut info = info;
                if size <= u64::MAX - info.used_memory {
                    info.used_memory = info.used_memory + size;
                } else {
                    info.used_memory = u64::MAX;
                }
                let _ = table_insert(&mut self.peers, peer_id, info);
                assert(self.peers.entries() =~= old(self).peers.entries().insert(peer_id, info));
                proof {
                    lemma_wf_insert(old(self).peers(), peer_id, info);
                }
            },
        }
    }

    /// Registers one more waiter for a block that a peer is asked for, and
    /// returns how many now wait for it.
    pub fn wait_for_block(&mut self, block_id: u64) -> (waiting: u64)
        ensures
            final(self).same_peers(old(self)),
            final(self).key_waiters() == old(self).key_waiters(),
            final(self).key_write_waiters() == old(self).key_write_waiters(),
            final(self).handshakes() == old(self).handshakes(),
            final(self).block_waiters() == old(self).block_waiters().insert(block_id, waiting),
            waiting == one_more(old(self).block_waiters(), block_id),
    {
        let before = table_get(&self.pending_requests, &block_id);
        let waiting = count_up(before);
        let _ = table_insert(&mut self.pending_requests, block_id, waiting);
        waiting
    }

    /// Takes the reply to a block request. The bytes are handed back for
    /// delivery if and only if somebody waits for the block; the waiters
    /// are then forgotten, so that a second reply is dropped.
    pub fn satisfy_request(&mut self, block_id: u64, data: Vec<u8>) -> (delivery: Option<Vec<u8>>)
        ensures
            final(self).same_peers(old(self)),
            final(self).key_waiters() == old(self).key_waiters(),
            final(self).key_write_waiters() == old(self).key_write_waiters(),
            final(self).handshakes() == old(self).handshakes(),
            final(self).block_waiters() == old(self).block_waiters().remove(block_id),
            delivery.is_some() == old(self).block_waiters().contains_key(block_id),
            delivery.is_some() ==> delivery.unwrap() == data,
    {
        match table_remove(&mut self.pending_requests, &block_id) {
            Some(_) => Some(data),
            None => None,
        }
    }

    /// Takes the reply that a peer does not hold the block it was asked
    /// for. Returns whether somebody waits for the block, and so is to be
    /// told; the waiters are then forgotten.
    pub fn satisfy_request_not_held(&mut self, block_id: u64) -> (waited: bool)
        ensures
            final(self).same_peers(old(self)),
            final(self).key_waiters() == old(self).key_waiters(),
            final(self).key_write_waiters() == old(self).key_write_waiters(),
            final(self).handshakes() == old(self).handshakes(),
            final(self).block_waiters() == old(self).block_waiters().remove(block_id),
            waited == old(self).block_waiters().contains_key(block_id),
    {
        table_remove(&mut self.pending_requests, &block_id).is_some()
    }

    /// Registers one more waiter for the value of a key that the peers are
    /// asked for, and returns how many now wait for it.
    pub fn wait_for_key(&mut self, key: &str) -> (waiting: u64)
        ensures
            final(self).same_peers(old(self)),
            final(self).block_waiters() == old(self).block_waiters(),
            final(self).key_write_waiters() == old(self).key_write_waiters(),
            final(self).handshakes() == old(self).handshakes(),
            final(self).key_waiters() == old(self).key_waiters().insert(key@, waiting),
            waiting == one_more(old(self).key_waiters(), key@),
    {
        let owned = key.to_owned();
        let before = table_get(&self.pending_key_requests, &owned);
        let waiting = count_up(before);
        let _ = table_insert(&mut self.pending_key_requests, owned, waiting);
        waiting
    }

    /// Takes the reply to a key lookup. The bytes are handed back for
    /// delivery if and only if somebody waits for the key; the waiters are
    /// then forgotten, so that only the first reply is delivered.
    pub fn satisfy_key_request(&mut self, key: &str, data: Vec<u8>) -> (delivery: Option<Vec<u8>>)
        ensures
            final(self).same_peers(old(self)),
            final(self).block_waiters() == old(self).block_waiters(),
            final(self).key_write_waiters() == old(self).key_write_waiters(),
            final(self).handshakes() == old(self).handshakes(),
            final(self).key_waiters() == old(self).key_waiters().remove(key@),
            delivery.is_some() == old(self).key_waiters().contains_key(key@),
            delivery.is_some() ==> delivery.unwrap() == data,
    {
        let owned = key.to_owned();
        match table_remove(&mut self.pending_key_requests, &owned) {
            Some(_) => Some(data),
            None => None,
        }
    }

    /// Registers one more waiter for the acknowledgement of a remote key
    /// write, and returns how many now wait for it.
    pub fn wait_for_key_store(&mut self, key: &str) -> (waiting: u64)
        ensures
            final(self).same_peers(old(self)),
            final(self).block_waiters() == old(self).block_waiters(),
            final(self).key_waiters() == old(self).key_waiters(),
            final(self).handshakes() == old(self).handshakes(),
            final(self).key_write_waiters() == old(self).key_write_waiters().insert(key@, waiting),
            waiting == one_more(old(self).key_write_waiters(), key@),
    {
        let owned = key.to_owned();
        let before = table_get(&self.pending_key_writes, &owned);
        let waiting = count_up(before);
        let _ = table_insert(&mut self.pending_key_writes, owned, waiting);
        waiting
    }

    /// Takes the acknowledgement of a remote key write. The block id is
    /// handed back for delivery if and only if somebody waits for the key;
    /// the waiters are then forgotten.
    pub fn satisfy_key_store(&mut self, key: &str, id: u64) -> (delivery: Option<u64>)
        ensures
            final(self).same_peers(old(self)),
            final(self).block_waiters() == old(self).block_waiters(),
            final(self).key_waiters() == old(self).key_waiters(),
            final(self).handshakes() == old(self).handshakes(),
            final(self).key_write_waiters() == old(self).key_write_waiters().remove(key@),
            delivery == (if old(self).key_write_waiters().contains_key(key@) {
                Some(id)
            } else {
                None
            }),
    {
        let owned = key.to_owned();
        match table_remove(&mut self.pending_key_writes, &owned) {
            Some(_) => Some(id),
            None => None,
        }
    }

    /// The request for a block that a peer holds: the message to send to
    /// the peer, if the peer is connected.
    pub fn request_block(&self, peer_id: u128, block_id: u64) -> (request: Option<Message>)
        ensures
            request == (if self.peers().contains_key(peer_id) {
                Some(Message::GetBlock { id: block_id })
            } else {
                None
            }),
    {
        if table_contains(&self.peers, &peer_id) {
            Some(Message::GetBlock { id: block_id })
        } else {
            None
        }
    }

    /// The request to store a value under a key on a peer: the message to
    /// send to the peer, if the peer is connected.
    pub fn set_key_remote(
        &self,
        peer_id: u128,
        key: String,
        data: Vec<u8>,
    ) -> (request: Option<Message>)
        ensures
            request == (if self.peers().contains_key(peer_id) {
                Some(Message::PutKey { key: key, data: data })
            } else {
                None
            }),
    {
        if table_contains(&self.peers, &peer_id) {
            Some(Message::PutKey { key, data })
        } else {
            None
        }
    }

    /// The lookup of a key on every connected peer: the message to send,
    /// and the peers to send it to, each once. With no peer connected there
    /// is nobody to ask.
    pub fn broadcast_get_key(&self, key: &str) -> (r: (Message, Vec<u128>))
        ensures
            r.0 is GetKey,
            r.0->GetKey_key@ == key@,
            forall|i: int| 0 <= i < r.1@.len() ==> self.peers().contains_key(#[trigger] r.1@[i]),
            forall|id: u128|
                self.peers().contains_key(id) ==>
                    exists|i: int| 0 <= i < r.1@.len() && #[trigger] r.1@[i] == id,
            forall|i: int, j: int| 0 <= i < j < r.1@.len() ==> r.1@[i] != r.1@[j],
            self.peers().dom().finite(),
            r.1@.len() == self.peers().dom().len(),
    {
        let ids = self.peer_ids();
        proof {
            lemma_listed_once(ids@, self.peers().dom());
        }
        let r = (Message::GetKey { key: key.to_owned() }, ids);
        proof {
            assert forall|id: u128|
                self.peers().contains_key(id) implies
                    exists|i: int| 0 <= i < r.1@.len() && #[trigger] r.1@[i] == id by {
                let j = choose|j: int| 0 <= j < ids@.len() && #[trigger] ids@[j] == id;
                assert(r.1@[j] == id);
            }
        }
        r
    }

    /// Enters an outgoing handshake with the peer at `addr`, as connecting.
    pub fn begin_handshake(&mut self, addr: &str, now: u64)
        ensures
            final(self).same_peers(old(self)),
            final(self).block_waiters() == old(self).block_waiters(),
            final(self).key_waiters() == old(self).key_waiters(),
            final(self).key_write_waiters() == old(self).key_write_waiters(),
            final(self).handshakes() == old(self).handshakes().insert(
                addr@,
                (HandshakeEntry { state: HandshakeState::Connecting, since: now }),
            ),
    {
        let entry = HandshakeEntry { state: HandshakeState::Connecting, since: now };
        let _ = table_insert(&mut self.outgoing_handshakes, addr.to_owned(), entry);
    }

    /// Moves the outgoing handshake with the peer at `addr` on, as the
    /// event says. Returns whether such a handshake is known; if none is,
    /// nothing changes.
    pub fn handshake_event(&mut self, addr: &str, event: HandshakeEvent, now: u64) -> (known: bool)
        ensures
            final(self).same_peers(old(self)),
            final(self).block_waiters() == old(self).block_waiters(),
            final(self).key_waiters() == old(self).key_waiters(),
            final(self).key_write_waiters() == old(self).key_write_waiters(),
            known == old(self).handshakes().contains_key(addr@),
            !known ==> final(self).handshakes() == old(self).handshakes(),
            known ==> final(self).handshakes() == old(self).handshakes().insert(
                addr@,
                (HandshakeEntry {
                    state: next_state(old(self).handshakes()[addr@].state, event),
                    since: now,
                }),
            ),
    {
        let owned = addr.to_owned();
        match table_remove(&mut self.outgoing_handshakes, &owned) {
            None => {
                assert(self.outgoing_handshakes.entries()
                    =~= old(self).outgoing_handshakes.entries());
                false
            },
            Some(entry) => {
                let next = HandshakeEntry { state: advance(entry.state, event), since: now };
                let _ = table_insert(&mut self.outgoing_handshakes, owned, next);
                assert(self.outgoing_handshakes.entries()
                    =~= old(self).outgoing_handshakes.entries().insert(addr@, next));
                true
            },
        }
    }

    /// Answers a poll for the outgoing handshake with the peer at `addr`:
    /// the name of its state, and the reason where it failed. A handshake
    /// that has ended is forgotten once it has been reported; one that is
    /// not known is reported as unknown.
    pub fn poll_connection(&mut self, addr: &str) -> (status: (String, Option<String>))
        ensures
            final(self).same_peers(old(self)),
            final(self).block_waiters() == old(self).block_waiters(),
            final(self).key_waiters() == old(self).key_waiters(),
            final(self).key_write_waiters() == old(self).key_write_waiters(),
            !old(self).handshakes().contains_key(addr@) ==> ({
                &&& status.0@ == "unknown"@
                &&& status.1.is_some()
                &&& status.1.unwrap()@ == "No active handshake found"@
                &&& final(self).handshakes() == old(self).handshakes()
            }),
            old(self).handshakes().contains_key(addr@) ==> ({
                &&& status.0@ == state_name(old(self).handshakes()[addr@].state)
                &&& status.1 == failure_of(old(self).handshakes()[addr@].state)
            }),
            old(self).handshakes().contains_key(addr@)
                && is_terminal(old(self).handshakes()[addr@].state) ==>
                final(self).handshakes() == old(self).handshakes().remove(addr@),
            old(self).handshakes().contains_key(addr@)
                && !is_terminal(old(self).handshakes()[addr@].state) ==>
                final(self).handshakes() == old(self).handshakes(),
    {
        let owned = addr.to_owned();
        match table_get(&self.outgoing_handshakes, &owned) {
            None => (
                String::from_str("unknown"),
                Some(String::from_str("No active handshake found")),
            ),
            Some(entry) => match entry.state {
                HandshakeState::Connecting => (String::from_str("pending"), None),
                HandshakeState::WaitingForConsent => (String::from_str("waiting_consent"), None),
                HandshakeState::Authenticated => {
                    let _ = table_remove(&mut self.outgoing_handshakes, &owned);
                    (String::from_str("connected"), None)
                },
                HandshakeState::Failed(reason) => {
                    let _ = table_remove(&mut self.outgoing_handshakes, &owned);
                    (String::from_str("failed"), Some(reason))
                },
            },
        }
    }

    /// Forgets the outgoing handshakes that ended at least five minutes
    /// before `now` and were never polled since.
    #[verifier::rlimit(40)]
    pub fn expire_handshakes(&mut self, now: u64)
        ensures
            final(self).same_peers(old(self)),
            final(self).block_waiters() == old(self).block_waiters(),
            final(self).key_waiters() == old(self).key_waiters(),
            final(self).key_write_waiters() == old(self).key_write_waiters(),
            forall|addr: Seq<char>|
                final(self).handshakes().contains_key(addr) <==> (
                    #[trigger] old(self).handshakes().contains_key(addr)
                        && !is_stale(old(self).handshakes()[addr], now)
                ),
            forall|addr: Seq<char>|
                #[trigger] final(self).handshakes().contains_key(addr) ==>
                    final(self).handshakes()[addr] == old(self).handshakes()[addr],
    {
        let addrs = table_keys(&self.outgoing_handshakes);
        let ghost before = self.outgoing_handshakes.entries();
        let mut i: usize = 0;
        while i < addrs.len()
            invariant
                i <= addrs@.len(),
                self.peers == old(self).peers,
                self.pending_requests == old(self).pending_requests,
                self.pending_key_requests == old(self).pending_key_requests,
                self.pending_key_writes == old(self).pending_key_writes,
                self.self_id == old(self).self_id,
                self.self_name == old(self).self_name,
                self.identity == old(self).identity,
                before == old(self).outgoing_handshakes.entries(),
                forall|j: int|
                    0 <= j < addrs@.len() ==> before.contains_key((#[trigger] addrs@[j])@),
                forall|k: Seq<char>|
                    before.contains_key(k) ==>
                        exists|j: int| 0 <= j < addrs@.len() && (#[trigger] addrs@[j])@ == k,
                forall|k: Seq<char>|
                    self.outgoing_handshakes.entries().contains_key(k) <==> (
                        #[trigger] before.contains_key(k)
                            && !(
                                is_stale(before[k], now)
                                    && exists|j: int| 0 <= j < i && (#[trigger] addrs@[j])@ == k
                            )
                    ),
                forall|k: Seq<char>|
                    #[trigger] self.outgoing_handshakes.entries().contains_key(k) ==>
                        self.outgoing_handshakes.entries()[k] == before[k],
            decreases addrs@.len() - i,
        {
            let ghost cur = self.outgoing_handshakes.entries();
            let ghost a = addrs@[i as int]@;
            let entry = table_get(&self.outgoing_handshakes, &addrs[i]);
            let mut stale = false;
            match entry {
                Some(e) => {
                    let ended = match e.state {
                        HandshakeState::Authenticated => true,
                        HandshakeState::Failed(_) => true,
                        _ => false,
                    };
                    stale = ended && now >= e.since && now - e.since >= HANDSHAKE_RETENTION_SECS;
                },
                None => {},
            }
            if stale {
                let _ = table_remove(&mut self.outgoing_handshakes, &addrs[i]);
            }
            proof {
                assert(before.contains_key(a));
                let held = self.outgoing_handshakes.entries();
                assert forall|k: Seq<char>|
                    held.contains_key(k) <==> (#[trigger] before.contains_key(k) && !(is_stale(
                        before[k],
                        now,
                    ) && exists|j: int| 0 <= j < i + 1 && (#[trigger] addrs@[j])@ == k)) by {
                    if k == a {
                        assert(addrs@[i as int]@ == k);
                    } else {
                        if exists|j: int| 0 <= j < i + 1 && (#[trigger] addrs@[j])@ == k {
                            let j = choose|j: int| 0 <= j < i + 1 && (#[trigger] addrs@[j])@ == k;
                            assert(j < i);
                        }
                    }
                }
            }
            i = i + 1;
        }
        proof {
            let held = self.handshakes();
            assert forall|addr: Seq<char>|
                held.contains_key(addr) <==> (#[trigger] before.contains_key(addr) && !is_stale(
                    before[addr],
                    now,
                )) by {
                if before.contains_key(addr) {
                    let j = choose|j: int| 0 <= j < addrs@.len() && (#[trigger] addrs@[j])@ == addr;
                    assert(0 <= j < i);
                }
            }
        }
    }

    /// What to do about a peer that was found at `addr`, under the id `id`
    /// where one is known. A peer that is connected under that id, or at
    /// that address, is not dialled again.
    pub fn add_discovered_peer(&self, id: u128, addr: &str) -> (plan: ConnectPlan)
        requires
            self.wf(),
        ensures
            self.peers().contains_key(id) ==> ({
                &&& plan is Known
                &&& metadata_matches(plan->Known_0, self.peers()[id])
            }),
            plan is Known ==> is_peer_metadata(self.peers(), plan->Known_0),
            plan is Known && !self.peers().contains_key(id) ==> plan->Known_0.addr@ == addr@,
            plan is Dial ==> ({
                &&& !self.peers().contains_key(id)
                &&& forall|other: u128|
                    #[trigger] self.peers().contains_key(other) ==>
                        self.peers()[other].addr@ != addr@
            }),
    {
        match self.get_peer(id) {
            Some(info) => ConnectPlan::Known(metadata_of(&info)),
            None => match self.find_by_addr(addr) {
                Some(info) => ConnectPlan::Known(metadata_of(&info)),
                None => ConnectPlan::Dial,
            },
        }
    }

    /// A connected peer with this address, if there is one.
    pub fn find_by_addr(&self, addr: &str) -> (found: Option<PeerInfo>)
        requires
            self.wf(),
        ensures
            found.is_some() ==> ({
                &&& self.peers().contains_key(found.unwrap().id)
                &&& self.peers()[found.unwrap().id] == found.unwrap()
                &&& found.unwrap().addr@ == addr@
            }),
            found.is_none() ==>
                forall|id: u128|
                    #[trigger] self.peers().contains_key(id) ==> self.peers()[id].addr@ != addr@,
    {
        let ids = table_keys(&self.peers);
        let wanted = addr.to_owned();
        let mut i: usize = 0;
        while i < ids.len()
            invariant
                i <= ids@.len(),
                wanted@ == addr@,
                forall|j: int|
                    0 <= j < ids@.len() ==> self.peers.entries().contains_key(#[trigger] ids@[j]),
                forall|j: int|
                    0 <= j < i ==>
                        self.peers.entries()[#[trigger] ids@[j]].addr@ != addr@
                            || self.peers.entries()[ids@[j]].id != ids@[j],
            decreases ids@.len() - i,
        {
            let id = ids[i];
            match table_get(&self.peers, &id) {
                Some(info) => {
                    if info.addr == wanted && info.id == id {
                        return Some(info);
                    }
                },
                None => {},
            }
            i = i + 1;
        }
        proof {
            assert forall|id: u128|
                #[trigger] self.peers().contains_key(id) implies
                    self.peers()[id].addr@ != addr@ by {
                let j = choose|j: int| 0 <= j < ids@.len() && (#[trigger] ids@[j])@ == id;
                assert(ids@[j] == id);
            }
        }
        None
    }

    /// A connected peer with this name, if there is one.
    pub fn find_by_name(&self, name: &str) -> (found: Option<u128>)
        ensures
            found.is_some() ==> ({
                &&& self.peers().contains_key(found.unwrap())
                &&& self.peers()[found.unwrap()].name@ == name@
            }),
            found.is_none() ==>
                forall|id: u128|
                    #[trigger] self.peers().contains_key(id) ==> self.peers()[id].name@ != name@,
    {
        let ids = table_keys(&self.peers);
        let wanted = name.to_owned();
        let mut i: usize = 0;
        while i < ids.len()
            invariant
                i <= ids@.len(),
                wanted@ == name@,
                forall|j: int|
                    0 <= j < ids@.len() ==> self.peers.entries().contains_key(#[trigger] ids@[j]),
                forall|j: int|
                    0 <= j < i ==> self.peers.entries()[#[trigger] ids@[j]].name@ != name@,
            decreases ids@.len() - i,
        {
            let id = ids[i];
            match table_get(&self.peers, &id) {
                Some(info) => {
                    if info.name == wanted {
                        return Some(id);
                    }
                },
                None => {},
            }
            i = i + 1;
        }
        proof {
            assert forall|id: u128|
                #[trigger] self.peers().contains_key(id) implies
                    self.peers()[id].name@ != name@ by {
                let j = choose|j: int| 0 <= j < ids@.len() && (#[trigger] ids@[j])@ == id;
                assert(ids@[j] == id);
            }
        }
        None
    }

    /// The peer that a text names: a connected peer with that name, or
    /// else the connected peer whose id the text spells, or nobody.
    pub fn get_peer_id_by_name(&self, name: &str) -> (found: Option<u128>)
        ensures
            found.is_some() ==> self.peers().contains_key(found.unwrap()),
            found.is_some() ==>
                self.peers()[found.unwrap()].name@ == name@
                    || (
                        uuid_parse(name@) == Some(found.unwrap())
                            && forall|id: u128|
                                #[trigger] self.peers().contains_key(id) ==>
                                    self.peers()[id].name@ != name@
                    ),
            found.is_none() ==>
                forall|id: u128|
                    #[trigger] self.peers().contains_key(id) ==> self.peers()[id].name@ != name@,
            found.is_none() ==> uuid_parse(name@).is_none() || !self.peers().contains_key(
                uuid_parse(name@).unwrap(),
            ),
    {
        match self.find_by_name(name) {
            Some(id) => Some(id),
            None => match parse_uuid(name) {
                Some(id) => if table_contains(&self.peers, &id) {
                    Some(id)
                } else {
                    None
                },
                None => None,
            },
        }
    }

    /// Whether a target names a connected peer: the peer whose id the text
    /// spells, or else a peer with that name.
    pub open spec fn reaches(&self, target: Seq<char>) -> bool {
        match uuid_parse(target) {
            Some(id) => self.peers().contains_key(id),
            None => exists|id: u128| #[trigger]
                self.peers().contains_key(id) && self.peers()[id].name@ == target,
        }
    }

    /// Whether `peer` is the peer that a target names: the id that the text
    /// spells, or else a connected peer with that name.
    pub open spec fn target_is(&self, target: Seq<char>, peer: u128) -> bool {
        if uuid_parse(target).is_some() {
            uuid_parse(target) == Some(peer)
        } else {
            self.peers().contains_key(peer) && self.peers()[peer].name@ == target
        }
    }

    /// The peer that the target of a command names: the id that the text
    /// spells, whether or not such a peer is connected, or else a connected
    /// peer with that name.
    pub fn resolve_target(&self, target: &str) -> (found: Option<u128>)
        ensures
            uuid_parse(target@).is_some() ==> found == uuid_parse(target@),
            uuid_parse(target@).is_none() && found.is_some() ==> ({
                &&& self.peers().contains_key(found.unwrap())
                &&& self.peers()[found.unwrap()].name@ == target@
            }),
            uuid_parse(target@).is_none() && found.is_none() ==>
                forall|id: u128|
                    #[trigger] self.peers().contains_key(id) ==> self.peers()[id].name@ != target@,
            self.reaches(target@) == (found.is_some() && self.peers().contains_key(found.unwrap())),
            found.is_some() && self.peers().contains_key(found.unwrap()) ==> self.target_is(
                target@,
                found.unwrap(),
            ),
    {
        match parse_uuid(target) {
            Some(id) => Some(id),
            None => self.get_peer_id_by_name(target),
        }
    }

    /// A connected peer that still lets this node store `size` bytes on
    /// it, if there is one.
    pub fn get_available_peer(&self, size: u64) -> (found: Option<u128>)
        ensures
            found.is_some() ==> ({
                &&& self.peers().contains_key(found.unwrap())
                &&& remaining_offer(self.peers()[found.unwrap()]) >= size
            }),
            found.is_none() ==>
                forall|id: u128|
                    #[trigger] self.peers().contains_key(id) ==>
                        remaining_offer(self.peers()[id]) < size,
    {
        let ids = table_keys(&self.peers);
        let mut i: usize = 0;
        while i < ids.len()
            invariant
                i <= ids@.len(),
                forall|j: int|
                    0 <= j < ids@.len() ==> self.peers.entries().contains_key(#[trigger] ids@[j]),
                forall|j: int|
                    0 <= j < i ==> remaining_offer(self.peers.entries()[#[trigger] ids@[j]]) < size,
            decreases ids@.len() - i,
        {
            let id = ids[i];
            assert(self.peers.entries().contains_key(ids@[i as int]));
            match table_get(&self.peers, &id) {
                Some(info) => {
                    let remaining = if info.remote_quota >= info.used_memory {
                        info.remote_quota - info.used_memory
                    } else {
                        0
                    };
                    if remaining >= size {
                        return Some(id);
                    }
                },
                None => {},
            }
            i = i + 1;
        }
        proof {
            assert forall|id: u128|
                #[trigger] self.peers().contains_key(id) implies
                    remaining_offer(self.peers()[id]) < size by {
                let j = choose|j: int| 0 <= j < ids@.len() && (#[trigger] ids@[j])@ == id;
                assert(ids@[j] == id);
            }
        }
        None
    }

    /// The ids of the connected peers, each once, in no promised order.
    pub fn peer_ids(&self) -> (ids: Vec<u128>)
        ensures
            forall|i: int| 0 <= i < ids@.len() ==> self.peers().contains_key(#[trigger] ids@[i]),
            forall|id: u128|
                self.peers().contains_key(id) ==>
                    exists|i: int| 0 <= i < ids@.len() && #[trigger] ids@[i] == id,
            forall|i: int, j: int| 0 <= i < j < ids@.len() ==> ids@[i] != ids@[j],
    {
        let ids = table_keys(&self.peers);
        proof {
            assert forall|id: u128|
                self.peers().contains_key(id) implies
                    exists|i: int| 0 <= i < ids@.len() && #[trigger] ids@[i] == id by {
                let j = choose|j: int| 0 <= j < ids@.len() && (#[trigger] ids@[j])@ == id;
                assert(ids@[j] == id);
            }
            assert forall|i: int|
                0 <= i < ids@.len() implies self.peers().contains_key(#[trigger] ids@[i]) by {
                assert(self.peers.entries().dom().contains(ids@[i]@));
            }
        }
        ids
    }

    /// The number of connected peers.
    pub fn peer_count(&self) -> (n: usize)
        ensures
            self.peers().dom().finite(),
            n == self.peers().dom().len(),
    {
        let ids = self.peer_ids();
        proof {
            lemma_listed_once(ids@, self.peers().dom());
        }
        ids.len()
    }

    /// One line for each connected peer: its id, its name in brackets, and
    /// its address after an at sign.
    #[verifier::rlimit(40)]
    pub fn list_peers(&self) -> (lines: Vec<String>)
        ensures
            forall|i: int|
                0 <= i < lines@.len() ==> is_peer_line(self.peers(), #[trigger] lines@[i]@),
            forall|id: u128|
                #[trigger] self.peers().contains_key(id) ==>
                    exists|i: int|
                        0 <= i < lines@.len()
                            && #[trigger] lines@[i]@ == peer_line(self.peers()[id]),
            self.peers().dom().finite(),
            lines@.len() == self.peers().dom().len(),
    {
        let ids = self.peer_ids();
        let mut lines: Vec<String> = Vec::new();
        let mut i: usize = 0;
        while i < ids.len()
            invariant
                i <= ids@.len(),
                lines@.len() == i,
                forall|j: int|
                    0 <= j < i ==> (#[trigger] lines@[j])@ == peer_line(self.peers()[ids@[j]]),
                forall|j: int|
                    0 <= j < ids@.len() ==> self.peers().contains_key(#[trigger] ids@[j]),
                forall|k: int|
                    0 <= k < lines@.len() ==> is_peer_line(self.peers(), #[trigger] lines@[k]@),
            decreases ids@.len() - i,
        {
            let id = ids[i];
            match self.get_peer(id) {
                Some(info) => {
                    let mut line = format_uuid(info.id);
                    line.append(" (");
                    line.append(info.name.as_str());
                    line.append(") @ ");
                    line.append(info.addr.as_str());
                    let ghost before = lines@;
                    lines.push(line);
                    proof {
                        assert(self.peers().contains_key(id)
                            && line@ == peer_line(self.peers()[id]));
                        assert forall|k: int|
                            0 <= k < lines@.len() implies
                                is_peer_line(self.peers(), #[trigger] lines@[k]@) by {
                            if k < before.len() {
                                assert(lines@[k] == before[k]);
                            }
                        }
                        assert forall|j: int|
                            0 <= j < i + 1 implies
                                (#[trigger] lines@[j])@ == peer_line(self.peers()[ids@[j]]) by {
                            if j < i {
                                assert(lines@[j] == before[j]);
                            }
                        }
                    }
                },
                None => {
                    assert(self.peers().contains_key(ids@[i as int]));
                    assert(false);
                },
            }
            i = i + 1;
        }
        proof {
            lemma_listed_once(ids@, self.peers().dom());
            assert forall|id: u128|
                #[trigger] self.peers().contains_key(id) implies
                    exists|i: int|
                        0 <= i < lines@.len()
                            && #[trigger] lines@[i]@ == peer_line(self.peers()[id]) by {
                let j = choose|j: int| 0 <= j < ids@.len() && #[trigger] ids@[j] == id;
                assert(lines@[j]@ == peer_line(self.peers()[id]));
            }
        }
        lines
    }

    /// Every connected peer as a client sees it.
    #[verifier::rlimit(40)]
    pub fn get_peer_metadata_list(&self) -> (list: Vec<PeerMetadata>)
        ensures
            forall|i: int|
                0 <= i < list@.len() ==> is_peer_metadata(self.peers(), #[trigger] list@[i]),
            forall|id: u128|
                #[trigger] self.peers().contains_key(id) ==>
                    exists|i: int|
                        0 <= i < list@.len()
                            && metadata_matches(#[trigger] list@[i], self.peers()[id]),
            self.peers().dom().finite(),
            list@.len() == self.peers().dom().len(),
    {
        let ids = self.peer_ids();
        let mut list: Vec<PeerMetadata> = Vec::new();
        let mut i: usize = 0;
        while i < ids.len()
            invariant
                i <= ids@.len(),
                list@.len() == i,
                forall|j: int|
                    0 <= j < i ==> metadata_matches(#[trigger] list@[j], self.peers()[ids@[j]]),
                forall|j: int|
                    0 <= j < ids@.len() ==> self.peers().contains_key(#[trigger] ids@[j]),
                forall|k: int|
                    0 <= k < list@.len() ==> is_peer_metadata(self.peers(), #[trigger] list@[k]),
            decreases ids@.len() - i,
        {
            let id = ids[i];
            match self.get_peer(id) {
                Some(info) => {
                    let meta = metadata_of(&info);
                    let ghost before = list@;
                    list.push(meta);
                    proof {
                        assert(self.peers().contains_key(id)
                            && metadata_matches(meta, self.peers()[id]));
                        assert forall|k: int|
                            0 <= k < list@.len() implies
                                is_peer_metadata(self.peers(), #[trigger] list@[k]) by {
                            if k < before.len() {
                                assert(list@[k] == before[k]);
                            }
                        }
                        assert forall|j: int|
                            0 <= j < i + 1 implies
                                metadata_matches(#[trigger] list@[j], self.peers()[ids@[j]]) by {
                            if j < i {
                                assert(list@[j] == before[j]);
                            }
                        }
                    }
                },
                None => {
                    assert(self.peers().contains_key(ids@[i as int]));
                    assert(false);
                },
            }
            i = i + 1;
        }
        proof {
            lemma_listed_once(ids@, self.peers().dom());
            assert forall|id: u128|
                #[trigger] self.peers().contains_key(id) implies
                    exists|i: int|
                        0 <= i < list@.len()
                            && metadata_matches(#[trigger] list@[i], self.peers()[id]) by {
                let j = choose|j: int| 0 <= j < ids@.len() && #[trigger] ids@[j] == id;
                assert(metadata_matches(list@[j], self.peers()[id]));
            }
        }
        list
    }
}

/// A set whose members are listed, each once, is finite and as large as
/// the list is long.
pub proof fn lemma_listed_once(ids: Seq<u128>, set: Set<u128>)
    requires
        forall|i: int| 0 <= i < ids.len() ==> set.contains(#[trigger] ids[i]),
        forall|id: u128|
            set.contains(id) ==> exists|i: int| 0 <= i < ids.len() && #[trigger] ids[i] == id,
        forall|i: int, j: int| 0 <= i < j < ids.len() ==> ids[i] != ids[j],
    ensures
        set.finite(),
        set.len() == ids.len(),
{
    assert(ids.no_duplicates());
    ids.unique_seq_to_set();
    assert(ids.to_set() =~= set) by {
        assert forall|id: u128| ids.to_set().contains(id) == set.contains(id) by {
            if set.contains(id) {
                let i = choose|i: int| 0 <= i < ids.len() && #[trigger] ids[i] == id;
                assert(ids.contains(id));
            }
            if ids.to_set().contains(id) {
                assert(ids.contains(id));
                let i = choose|i: int| 0 <= i < ids.len() && ids[i] == id;
                assert(set.contains(ids[i]));
            }
        }
    }
}

/// The peer as a client of the control socket sees it.
pub fn metadata_of(info: &PeerInfo) -> (meta: PeerMetadata)
    ensures
        metadata_matches(meta, *info),
{
    PeerMetadata {
        id: format_uuid(info.id),
        name: info.name.clone(),
        addr: info.addr.clone(),
        total_memory: info.total_memory,
        used_memory: info.used_memory,
        quota: info.remote_quota,
        allowed_quota: info.ram_quota,
    }
}

} // verus!
