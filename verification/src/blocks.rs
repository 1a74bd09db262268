//! The block and key store of a node: blocks by id, keys bound to blocks,
//! the peers that hold blocks for this node, and the uploads in progress.

use dashmap::DashMap;
use vstd::prelude::*;

use crate::bytes::append_bytes;
use crate::crypto::random_u64;
use crate::crypto::uuid_parse;
use crate::glob::glob_match;
use crate::glob::glob_matches;
use crate::net::Message;
use crate::pack::opt_text;
use crate::peers::remaining_offer;
use crate::peers::PeerManager;
use crate::size::chars_of;
use crate::table::block_index;
use crate::table::new_block_table;
use crate::table::new_location_table;
use crate::table::new_text_table;
use crate::table::new_upload_table;
use crate::table::table_clear;
use crate::table::table_contains;
use crate::table::table_get;
use crate::table::table_insert;
use crate::table::table_keys;
use crate::table::table_len;
use crate::table::table_remove;
use crate::table::Table;

verus! {

/// The identifier of a block: 64 bits, drawn at random when the block is stored.
pub type BlockId = u64;

/// Whether a block may be reclaimed when memory runs short.
#[derive(Debug, Clone, Copy, PartialEq, Eq, Structural)]
pub enum Durability {
    /// Never evicted to make room.
    Pinned,
    /// May be evicted to make room for another cache block.
    Cache,
}

/// A byte payload stored under a block id.
#[derive(Debug, Clone)]
pub struct Block {
    pub id: BlockId,
    pub data: Vec<u8>,
    pub durability: Durability,
    /// When the block was last stored or read, in seconds since the epoch.
    pub last_accessed: u64,
}

/// Why the store refuses a request.
#[derive(Debug, Clone, Copy, PartialEq, Eq, Structural)]
pub enum StoreError {
    /// A block with this id is already held, here or on a peer.
    DuplicateId,
    /// The block does not fit the memory of this node.
    MemoryLimit,
    /// No upload with this stream id is in progress.
    UnknownStream,
    /// No peer can take the block.
    NoPeer,
    /// The peer that was named is not connected.
    PeerNotConnected,
}

/// What the store does with a request for the value of a key.
#[derive(Debug)]
pub enum KeyLookup {
    /// The key is bound to a block that is held here, with these bytes.
    Local(Vec<u8>),
    /// The key is bound to a block that this peer holds.
    Remote { peer: u128, id: u64 },
    /// The key is not bound here: the peers are to be asked.
    Broadcast,
}

/// The number of bytes that the blocks of a table hold together.
pub open spec fn total_bytes(m: Map<u64, Block>) -> nat
    decreases m.dom().len(),
    when m.dom().finite()
    via total_bytes_decreases
{
    if m.dom().len() == 0 {
        0
    } else {
        let k = m.dom().choose();
        m[k].data@.len() + total_bytes(m.remove(k))
    }
}

#[via_fn]
proof fn total_bytes_decreases(m: Map<u64, Block>) {
    if m.dom().len() != 0 {
        let k = m.dom().choose();
        vstd::set_lib::axiom_is_empty_len0(m.dom());
        assert(m.dom().contains(k));
        assert(m.remove(k).dom() =~= m.dom().remove(k));
    }
}

/// The bytes of a table are those of any one of its blocks and those of the rest.
pub proof fn lemma_total_remove(m: Map<u64, Block>, k: u64)
    requires
        m.dom().finite(),
        m.contains_key(k),
    ensures
        total_bytes(m) == m[k].data@.len() + total_bytes(m.remove(k)),
    decreases m.dom().len(),
{
    let c = m.dom().choose();
    vstd::set_lib::axiom_is_empty_len0(m.dom());
    assert(m.dom().contains(c));
    if c != k {
        let mc = m.remove(c);
        let mk = m.remove(k);
        assert(mc.dom() =~= m.dom().remove(c));
        assert(mk.dom() =~= m.dom().remove(k));
        lemma_total_remove(mc, k);
        lemma_total_remove(mk, c);
        assert(mc.remove(k) =~= mk.remove(c));
    }
}

/// A block added under a new id adds its bytes to those of the table.
pub proof fn lemma_total_insert(m: Map<u64, Block>, k: u64, b: Block)
    requires
        m.dom().finite(),
        !m.contains_key(k),
    ensures
        total_bytes(m.insert(k, b)) == total_bytes(m) + b.data@.len(),
{
    let n = m.insert(k, b);
    assert(n.dom() =~= m.dom().insert(k));
    lemma_total_remove(n, k);
    assert(n.remove(k) =~= m);
}

/// A block that a peer holds for this node is never also held here.
pub proof fn lemma_remote_is_not_local(store: &InMemoryBlockManager, id: u64)
    requires
        store.wf(),
        store.remote().contains_key(id),
    ensures
        !store.blocks().contains_key(id),
{
}

/// Every key is bound to a block that is held either here or on a peer,
/// and not both.
pub proof fn lemma_key_is_bound_once(store: &InMemoryBlockManager, key: Seq<char>)
    requires
        store.wf(),
        store.keys().contains_key(key),
    ensures
        store.blocks().contains_key(store.keys()[key]) != store.remote().contains_key(
            store.keys()[key],
        ),
{
    assert(is_held(store.blocks(), store.remote(), store.keys()[key]));
}

/// A block that was stored is the block that a read of its id finds.
pub proof fn lemma_put_then_get(
    before: &InMemoryBlockManager,
    block: Block,
    after: &InMemoryBlockManager,
    r: Result<(), StoreError>,
)
    requires
        before.wf(),
        before.put_outcome(block, after, r),
        r is Ok,
    ensures
        after.lookup(block.id) == Lookup::Local(block),
{
}

/// A value that was stored under a key is the value that a read of the
/// key finds here.
pub proof fn lemma_set_then_get(
    before: &InMemoryBlockManager,
    key: Seq<char>,
    block: Block,
    after: &InMemoryBlockManager,
)
    requires
        before.wf(),
        before.named_put_ok(key, block, after),
    ensures
        after.key_lookup(key) == KeyLookup::Local(block.data),
{
}

/// Where a block is stored under a key, every other key keeps its
/// binding as long as its block is still held, and is unbound where its
/// block was evicted to make room. Where the block fits without
/// eviction, every other key keeps its binding.
pub proof fn lemma_named_put_keeps_other_keys(
    before: &InMemoryBlockManager,
    key: Seq<char>,
    block: Block,
    after: &InMemoryBlockManager,
    other: Seq<char>,
)
    requires
        before.wf(),
        before.named_put_ok(key, block, after),
        other != key,
    ensures
        after.keys().contains_key(key) && after.keys()[key] == block.id,
        after.keys().contains_key(other) ==> ({
            &&& before.keys().contains_key(other)
            &&& after.keys()[other] == before.keys()[other]
        }),
        after.keys().contains_key(other)
            <==> before.keys().contains_key(other)
                && is_held(after.blocks().remove(block.id), before.remote(), before.keys()[other]),
        before.used() + block.data@.len() <= before.max() ==> after.keys() == before.keys().insert(
            key,
            block.id,
        ),
{
    if before.used() + block.data@.len() <= before.max() {
        let kept = after.blocks().remove(block.id);
        assert(keys_of_held(before.keys(), kept, before.remote()) =~= before.keys());
    }
}

/// Whether `stores` are the states that a store goes through while the
/// chunks are uploaded: in the first the upload is open and empty, as
/// `open_stream` leaves it, and each next one holds one more chunk, as
/// `append_stream` leaves it.
pub open spec fn uploading(
    stores: Seq<InMemoryBlockManager>,
    stream_id: u64,
    chunks: Seq<Seq<u8>>,
) -> bool {
    &&& stores.len() == chunks.len() + 1
    &&& stores[0].uploads().contains_key(stream_id)
    &&& stores[0].uploads()[stream_id]@ == Seq::<u8>::empty()
    &&& forall|i: int|
        #![trigger stores[i + 1]]
        0 <= i < chunks.len() ==> {
            &&& stores[i + 1].uploads().contains_key(stream_id)
            &&& stores[i + 1].uploads()[stream_id]@ == stores[i].uploads()[stream_id]@ + chunks[i]
        }
}

/// While chunks are uploaded, the upload holds the chunks that have been
/// appended so far, joined in their order.
pub proof fn lemma_upload_joins_chunks(
    stores: Seq<InMemoryBlockManager>,
    stream_id: u64,
    chunks: Seq<Seq<u8>>,
    n: int,
)
    requires
        uploading(stores, stream_id, chunks),
        0 <= n <= chunks.len(),
    ensures
        stores[n].uploads().contains_key(stream_id),
        stores[n].uploads()[stream_id]@ == chunks.take(n).flatten(),
    decreases n,
{
    if n == 0 {
        assert(chunks.take(0) =~= Seq::<Seq<u8>>::empty());
        assert(chunks.take(0).flatten() =~= Seq::<u8>::empty());
    } else {
        lemma_upload_joins_chunks(stores, stream_id, chunks, n - 1);
        assert(stores[(n - 1) + 1].uploads().contains_key(stream_id));
        chunks.take(n - 1).lemma_flatten_push(chunks[n - 1]);
        assert(chunks.take(n - 1).push(chunks[n - 1]) =~= chunks.take(n));
    }
}

/// An upload that is finished and stored is read back as the chunks that
/// were appended to it, joined in their order. `stores` are the states
/// during the upload; `buffer` is what `finalize_stream` hands out of the
/// last of them, and `closed` the state that it leaves; `block` holds the
/// buffer, and `stored` is the state after the block was put.
pub proof fn lemma_stream_roundtrip(
    stores: Seq<InMemoryBlockManager>,
    stream_id: u64,
    chunks: Seq<Seq<u8>>,
    buffer: Vec<u8>,
    closed: &InMemoryBlockManager,
    block: Block,
    stored: &InMemoryBlockManager,
    r: Result<(), StoreError>,
)
    requires
        uploading(stores, stream_id, chunks),
        buffer == stores.last().uploads()[stream_id],
        block.data == buffer,
        closed.wf(),
        closed.put_outcome(block, stored, r),
        r is Ok,
    ensures
        stored.lookup(block.id) is Local,
        stored.lookup(block.id)->Local_0.data@ == chunks.flatten(),
{
    lemma_upload_joins_chunks(stores, stream_id, chunks, chunks.len() as int);
    assert(chunks.take(chunks.len() as int) =~= chunks);
}

/// What the store does with a request for a block.
#[derive(Debug)]
pub enum Lookup {
    /// The block is held here.
    Local(Block),
    /// The block is held by this peer, which is to be asked for it.
    Remote { peer: u128 },
    /// Nobody is known to hold the block.
    Missing,
}

/// The operations of a block store.
pub trait BlockManager {
    /// What the store holds, by block id.
    spec fn held(&self) -> Map<u64, Block>;

    /// What holds of every store.
    spec fn valid(&self) -> bool;

    /// Stores a block. Fails, and changes nothing, where the id is in use;
    /// where the block does not fit, see the implementation.
    fn put_block(&mut self, block: Block) -> (r: Result<(), StoreError>)
        requires
            old(self).valid(),
        ensures
            final(self).valid(),
            r is Ok ==> ({
                &&& final(self).held().contains_key(block.id)
                &&& final(self).held()[block.id] == block
            }),
            r is Ok ==> !old(self).held().contains_key(block.id),
    ;

    /// The block with this id, if it is held here.
    fn get_block(&self, id: BlockId) -> (r: Result<Option<Block>, StoreError>)
        requires
            self.valid(),
        ensures
            r is Ok,
            r.unwrap().is_some() == self.held().contains_key(id),
            r.unwrap().is_some() ==> r.unwrap().unwrap() == self.held()[id],
    ;

    /// Removes the block with this id and returns it, if it is held here.
    fn evict_block(&mut self, id: BlockId) -> (r: Result<Option<Block>, StoreError>)
        requires
            old(self).valid(),
        ensures
            final(self).valid(),
            r is Ok,
            final(self).held() == old(self).held().remove(id),
            r.unwrap().is_some() == old(self).held().contains_key(id),
            r.unwrap().is_some() ==> r.unwrap().unwrap() == old(self).held()[id],
    ;

    /// The number of bytes that can still be stored.
    fn free_space(&self) -> (n: u64)
        requires
            self.valid(),
    ;

    /// The number of bytes that are stored.
    fn used_space(&self) -> (n: u64)
        requires
            self.valid(),
        ensures
            n == total_bytes(self.held()),
    ;
}

/// The block and key store of a node, in memory.
pub struct InMemoryBlockManager {
    blocks: DashMap<u64, Block>,
    key_index: DashMap<String, u64>,
    remote_locations: DashMap<u64, u128>,
    current_memory: u64,
    max_memory: u64,
    active_uploads: DashMap<u64, Vec<u8>>,
}

/// Whether a block id is held, here or on a peer.
pub open spec fn is_held(blocks: Map<u64, Block>, remote: Map<u64, u128>, id: u64) -> bool {
    blocks.contains_key(id) || remote.contains_key(id)
}

/// What holds of the tables of every store: each block stands under its
/// own id; no block is both here and on a peer; every key is bound to a
/// block that is held, here or on a peer; and no two keys are bound to the
/// same block.
pub open spec fn tables_wf(
    blocks: Map<u64, Block>,
    keys: Map<Seq<char>, u64>,
    remote: Map<u64, u128>,
) -> bool {
    &&& blocks.dom().finite()
    &&& forall|id: u64| #[trigger] blocks.contains_key(id) ==> blocks[id].id == id
    &&& forall|id: u64| #[trigger] remote.contains_key(id) ==> !blocks.contains_key(id)
    &&& forall|k: Seq<char>| #[trigger] keys.contains_key(k) ==> is_held(blocks, remote, keys[k])
    &&& forall|k1: Seq<char>, k2: Seq<char>|
        #[trigger] keys.contains_key(k1)
            && #[trigger] keys.contains_key(k2)
            && keys[k1] == keys[k2] ==>
            k1 == k2
}

/// The keys that are left when every key bound to `id` is unbound.
pub open spec fn unbound(keys: Map<Seq<char>, u64>, id: u64) -> Map<Seq<char>, u64> {
    keys.restrict(Set::new(|k: Seq<char>| keys.contains_key(k) && keys[k] != id))
}

/// What storing a cache block may do to the blocks that were held when
/// memory was short. `kept` is what is left of them. Nothing is added or
/// changed; no pinned block goes; and whatever goes was used no later than
/// any cache block that stays.
pub open spec fn made_room(before: Map<u64, Block>, kept: Map<u64, Block>) -> bool {
    &&& forall|i: u64|
        #[trigger] kept.contains_key(i) ==> before.contains_key(i) && kept[i] == before[i]
    &&& forall|i: u64|
        #[trigger] before.contains_key(i) && before[i].durability == Durability::Pinned ==>
            kept.contains_key(i)
    &&& forall|e: u64, s: u64|
        #[trigger] before.contains_key(e)
            && !kept.contains_key(e)
            && #[trigger] kept.contains_key(s)
            && kept[s].durability == Durability::Cache ==>
            before[e].last_accessed <= before[s].last_accessed
}

/// The keys that are left when the blocks held here shrink to `kept`: those
/// whose block is still held, here or on a peer.
pub open spec fn keys_of_held(
    keys: Map<Seq<char>, u64>,
    kept: Map<u64, Block>,
    remote: Map<u64, u128>,
) -> Map<Seq<char>, u64> {
    keys.restrict(Set::new(|k: Seq<char>| keys.contains_key(k) && is_held(kept, remote, keys[k])))
}

/// The remote locations that are left when a peer has gone.
pub open spec fn without_peer(remote: Map<u64, u128>, peer: u128) -> Map<u64, u128> {
    remote.restrict(Set::new(|id: u64| remote.contains_key(id) && remote[id] != peer))
}

/// Whether no more was evicted than was needed: some block that went
/// would not fit beside what is held now.
pub open spec fn no_more_than_needed(
    before: Map<u64, Block>,
    kept: Map<u64, Block>,
    used: u64,
    max: u64,
) -> bool {
    exists|e: u64|
        #![trigger before.contains_key(e)]
        before.contains_key(e) && !kept.contains_key(e) && used + before[e].data@.len() > max
}

/// Whether a table holds no cache block.
pub open spec fn no_cache_block(blocks: Map<u64, Block>) -> bool {
    forall|i: u64| #[trigger] blocks.contains_key(i) ==> blocks[i].durability == Durability::Pinned
}

/// The result of a store without the id that it gives on success.
pub open spec fn without_id(r: Result<BlockId, StoreError>) -> Result<(), StoreError> {
    match r {
        Ok(_) => Ok(()),
        Err(e) => Err(e),
    }
}

/// What storing a value under a key does: on success the block is stored
/// and the key bound to it, and the id of the block is the answer; on
/// failure the store is left as `put_block` leaves it.
pub open spec fn set_outcome(
    before: &InMemoryBlockManager,
    key: Seq<char>,
    block: Block,
    after: &InMemoryBlockManager,
    r: Result<BlockId, StoreError>,
) -> bool {
    match r {
        Ok(id) => id == block.id && before.named_put_ok(key, block, after),
        Err(e) => before.put_outcome(block, after, Err(e)),
    }
}

impl InMemoryBlockManager {
    /// The blocks held here, by id.
    pub closed spec fn blocks(&self) -> Map<u64, Block> {
        self.blocks.entries()
    }

    /// The block that each key is bound to.
    pub closed spec fn keys(&self) -> Map<Seq<char>, u64> {
        self.key_index.entries()
    }

    /// The peer that holds each block stored remotely.
    pub closed spec fn remote(&self) -> Map<u64, u128> {
        self.remote_locations.entries()
    }

    /// The buffer of each upload in progress, by stream id.
    pub closed spec fn uploads(&self) -> Map<u64, Vec<u8>> {
        self.active_uploads.entries()
    }

    /// The number of bytes stored here.
    pub closed spec fn used(&self) -> u64 {
        self.current_memory
    }

    /// The number of bytes that may be stored here.
    pub closed spec fn max(&self) -> u64 {
        self.max_memory
    }

    /// What holds of every store: what `tables_wf` says of its tables, and
    /// the bytes in use are those of the blocks held here and do not pass
    /// the limit.
    pub open spec fn wf(&self) -> bool {
        &&& tables_wf(self.blocks(), self.keys(), self.remote())
        &&& self.used() == total_bytes(self.blocks())
        &&& self.used() <= self.max()
    }

    /// Whether two stores differ in nothing but their uploads.
    pub open spec fn same_store(&self, other: &InMemoryBlockManager) -> bool {
        &&& self.blocks() == other.blocks()
        &&& self.keys() == other.keys()
        &&& self.remote() == other.remote()
        &&& self.used() == other.used()
        &&& self.max() == other.max()
    }

    /// Whether two stores differ in nothing.
    pub open spec fn unchanged(&self, other: &InMemoryBlockManager) -> bool {
        self.same_store(other) && self.uploads() == other.uploads()
    }

    /// An empty store that may hold `max_memory` bytes.
    pub fn new(max_memory: u64) -> (store: InMemoryBlockManager)
        ensures
            store.wf(),
            store.blocks() =~= Map::empty(),
            store.keys() =~= Map::empty(),
            store.remote() =~= Map::empty(),
            store.uploads() =~= Map::empty(),
            store.used() == 0,
            store.max() == max_memory,
    {
        let store = InMemoryBlockManager {
            blocks: new_block_table(),
            key_index: new_text_table(),
            remote_locations: new_location_table(),
            current_memory: 0,
            max_memory,
            active_uploads: new_upload_table(),
        };
        proof {
            assert(store.blocks().dom() =~= Set::empty());
        }
        store
    }

    /// The number of blocks held here.
    pub fn block_count(&self) -> (n: usize)
        requires
            self.wf(),
        ensures
            n == self.blocks().dom().len(),
    {
        table_len(&self.blocks)
    }

    /// The number of bytes that may be stored here.
    pub fn get_max_memory(&self) -> (n: u64)
        ensures
            n == self.max(),
    {
        self.max_memory
    }

    /// The block that a key is bound to.
    pub fn get_named_block_id(&self, key: &str) -> (id: Option<BlockId>)
        ensures
            id == (if self.keys().contains_key(key@) { Some(self.keys()[key@]) } else { None }),
    {
        let owned = key.to_owned();
        table_get(&self.key_index, &owned)
    }

    /// Unbinds every key that is bound to `id`.
    #[verifier::rlimit(40)]
    fn unbind(&mut self, id: u64)
        ensures
            final(self).blocks() == old(self).blocks(),
            final(self).remote() == old(self).remote(),
            final(self).uploads() == old(self).uploads(),
            final(self).used() == old(self).used(),
            final(self).max() == old(self).max(),
            final(self).keys() == unbound(old(self).keys(), id),
    {
        let names = table_keys(&self.key_index);
        let ghost before = self.key_index.entries();
        let mut i: usize = 0;
        while i < names.len()
            invariant
                i <= names@.len(),
                self.blocks == old(self).blocks,
                self.remote_locations == old(self).remote_locations,
                self.active_uploads == old(self).active_uploads,
                self.current_memory == old(self).current_memory,
                self.max_memory == old(self).max_memory,
                before == old(self).key_index.entries(),
                forall|j: int|
                    0 <= j < names@.len() ==> before.contains_key((#[trigger] names@[j])@),
                forall|k: Seq<char>|
                    self.key_index.entries().contains_key(k) <==> (
                        #[trigger] before.contains_key(k)
                            && !(
                                before[k] == id
                                    && exists|j: int| 0 <= j < i && (#[trigger] names@[j])@ == k
                            )
                    ),
                forall|k: Seq<char>|
                    #[trigger] self.key_index.entries().contains_key(k) ==>
                        self.key_index.entries()[k] == before[k],
            decreases names@.len() - i,
        {
            let ghost a = names@[i as int]@;
            let bound = table_get(&self.key_index, &names[i]);
            let hit = match bound {
                Some(b) => b == id,
                None => false,
            };
            if hit {
                let _ = table_remove(&mut self.key_index, &names[i]);
            }
            proof {
                assert(before.contains_key(a));
                assert forall|k: Seq<char>|
                    self.key_index.entries().contains_key(k) <==> (#[trigger] before.contains_key(k)
                        && !(before[k] == id && exists|j: int|
                        0 <= j < i + 1 && (#[trigger] names@[j])@ == k)) by {
                    if k == a {
                        assert(names@[i as int]@ == k);
                    } else {
                        if exists|j: int| 0 <= j < i + 1 && (#[trigger] names@[j])@ == k {
                            let j = choose|j: int| 0 <= j < i + 1 && (#[trigger] names@[j])@ == k;
                            assert(j < i);
                        }
                    }
                }
            }
            i = i + 1;
        }
        proof {
            let left = unbound(before, id);
            assert forall|k: Seq<char>|
                self.key_index.entries().contains_key(k) <==> #[trigger] left.contains_key(k) by {
                if before.contains_key(k) {
                    let j = choose|j: int| 0 <= j < names@.len() && (#[trigger] names@[j])@ == k;
                    assert(0 <= j < i);
                }
            }
            assert(self.key_index.entries() =~= unbound(before, id));
        }
    }

    /// What `put_block` does. A block whose id is held, here or on a peer,
    /// is refused as a duplicate. A block that fits is stored. A pinned
    /// block that does not fit is refused, and so is a block that is larger
    /// than the whole memory. For any other cache block that does not fit,
    /// cache blocks are evicted, least recently used first, until it fits;
    /// if none is left and it still does not fit, it is refused. Keys
    /// whose block was evicted are unbound. A refusal as duplicate, of a
    /// pinned block or of a block larger than the memory changes nothing.
    pub open spec fn put_outcome(
        &self,
        block: Block,
        after: &InMemoryBlockManager,
        r: Result<(), StoreError>,
    ) -> bool {
        let id = block.id;
        &&& after.max() == self.max()
        &&& after.remote() == self.remote()
        &&& after.uploads() == self.uploads()
        &&& if is_held(self.blocks(), self.remote(), id) {
            r == Err::<(), StoreError>(StoreError::DuplicateId) && after.same_store(self)
        } else if self.used() + block.data@.len() <= self.max() {
            &&& r is Ok
            &&& after.blocks() == self.blocks().insert(id, block)
            &&& after.keys() == self.keys()
            &&& after.used() == self.used() + block.data@.len()
        } else if block.durability == Durability::Pinned || block.data@.len() > self.max() {
            r == Err::<(), StoreError>(StoreError::MemoryLimit) && after.same_store(self)
        } else {
            let kept = if r is Ok {
                after.blocks().remove(id)
            } else {
                after.blocks()
            };
            &&& made_room(self.blocks(), kept)
            &&& after.keys() == keys_of_held(self.keys(), kept, self.remote())
            &&& r is Ok ==> after.blocks().contains_key(id) && after.blocks()[id] == block
            &&& r is Ok ==> no_more_than_needed(self.blocks(), kept, after.used(), self.max())
            &&& r is Err ==> ({
                &&& r == Err::<(), StoreError>(StoreError::MemoryLimit)
                &&& no_cache_block(after.blocks())
            })
        }
    }

    /// The cache block that was used least recently, if there is a cache block.
    #[verifier::rlimit(40)]
    fn lru_victim(&self) -> (victim: Option<u64>)
        ensures
            victim.is_none() ==> no_cache_block(self.blocks()),
            victim.is_some() ==> ({
                &&& self.blocks().contains_key(victim.unwrap())
                &&& self.blocks()[victim.unwrap()].durability == Durability::Cache
            }),
            victim.is_some() ==>
                forall|s: u64|
                    #[trigger] self.blocks().contains_key(s)
                        && self.blocks()[s].durability == Durability::Cache ==>
                        self.blocks()[victim.unwrap()].last_accessed
                            <= self.blocks()[s].last_accessed,
    {
        let index = block_index(&self.blocks);
        let ghost blocks = self.blocks.entries();
        let mut best: Option<(u64, u64)> = None;
        let mut i: usize = 0;
        while i < index.len()
            invariant
                i <= index@.len(),
                blocks == self.blocks.entries(),
                forall|j: int|
                    0 <= j < index@.len() ==> ({
                        &&& blocks.contains_key((#[trigger] index@[j]).0)
                        &&& blocks[index@[j].0].durability == index@[j].1
                        &&& blocks[index@[j].0].last_accessed == index@[j].2
                    }),
                best.is_none() ==>
                    forall|j: int| 0 <= j < i ==> (#[trigger] index@[j]).1 == Durability::Pinned,
                best.is_some() ==> ({
                    &&& blocks.contains_key(best.unwrap().0)
                    &&& blocks[best.unwrap().0].durability == Durability::Cache
                    &&& blocks[best.unwrap().0].last_accessed == best.unwrap().1
                }),
                best.is_some() ==>
                    forall|j: int|
                        0 <= j < i && (#[trigger] index@[j]).1 == Durability::Cache ==>
                            best.unwrap().1 <= index@[j].2,
            decreases index@.len() - i,
        {
            let (id, durability, used_at) = index[i];
            match durability {
                Durability::Cache => {
                    let better = match best {
                        None => true,
                        Some(b) => used_at < b.1,
                    };
                    if better {
                        best = Some((id, used_at));
                    }
                },
                Durability::Pinned => {},
            }
            i = i + 1;
        }
        proof {
            assert forall|s: u64|
                #[trigger] blocks.contains_key(s) implies
                    (best.is_none() ==> blocks[s].durability == Durability::Pinned)
                        && (
                            best.is_some() && blocks[s].durability == Durability::Cache ==>
                                best.unwrap().1 <= blocks[s].last_accessed
                        ) by {
                let j = choose|j: int| 0 <= j < index@.len() && (#[trigger] index@[j]).0 == s;
                assert(index@[j].0 == s);
            }
        }
        match best {
            None => None,
            Some(b) => Some(b.0),
        }
    }

    /// Removes the block with this id, if it is held here, and unbinds the
    /// keys that were bound to it.
    #[verifier::rlimit(40)]
    fn remove_local(&mut self, id: BlockId) -> (removed: Option<Block>)
        requires
            old(self).wf(),
        ensures
            final(self).wf(),
            final(self).max() == old(self).max(),
            final(self).remote() == old(self).remote(),
            final(self).uploads() == old(self).uploads(),
            final(self).blocks() == old(self).blocks().remove(id),
            final(self).keys() == keys_of_held(
                old(self).keys(),
                old(self).blocks().remove(id),
                old(self).remote(),
            ),
            removed.is_some() == old(self).blocks().contains_key(id),
            removed.is_some() ==> removed.unwrap() == old(self).blocks()[id],
            removed.is_some() ==>
                final(self).used() + removed.unwrap().data@.len() == old(self).used(),
            removed.is_none() ==> final(self).used() == old(self).used(),
    {
        let ghost keys0 = self.keys();
        let ghost blocks0 = self.blocks();
        let ghost remote0 = self.remote();
        match table_remove(&mut self.blocks, &id) {
            None => {
                proof {
                    assert(self.blocks.entries() =~= blocks0);
                    assert(keys_of_held(keys0, blocks0.remove(id), remote0) =~= keys0);
                }
                None
            },
            Some(block) => {
                proof {
                    lemma_total_remove(blocks0, id);
                }
                self.current_memory = self.current_memory - block.data.len() as u64;
                self.unbind(id);
                proof {
                    let kept = blocks0.remove(id);
                    assert(kept.dom() =~= blocks0.dom().remove(id));
                    assert(unbound(keys0, id) =~= keys_of_held(keys0, kept, remote0)) by {
                        assert forall|k: Seq<char>|
                            #[trigger] keys0.contains_key(k) implies
                                (keys0[k] != id <==> is_held(kept, remote0, keys0[k])) by {
                            assert(is_held(blocks0, remote0, keys0[k]));
                            if remote0.contains_key(id) {
                                assert(!blocks0.contains_key(id));
                            }
                        }
                    }
                    assert(tables_wf(self.blocks(), self.keys(), self.remote()));
                }
                Some(block)
            },
        }
    }

    /// Drops what the store knows of a block: the block itself where it is
    /// held here, or else the note of the peer that holds it. The keys
    /// bound to the block are unbound. Returns whether the block was held.
    #[verifier::rlimit(40)]
    pub fn free(&mut self, id: BlockId) -> (freed: bool)
        requires
            old(self).wf(),
        ensures
            final(self).wf(),
            final(self).max() == old(self).max(),
            final(self).uploads() == old(self).uploads(),
            freed == is_held(old(self).blocks(), old(self).remote(), id),
            final(self).blocks() == old(self).blocks().remove(id),
            final(self).remote() == old(self).remote().remove(id),
            final(self).keys() == unbound(old(self).keys(), id),
    {
        let ghost keys0 = self.keys();
        let ghost blocks0 = self.blocks();
        let ghost remote0 = self.remote();
        match self.remove_local(id) {
            Some(_) => {
                proof {
                    assert(remote0.remove(id) =~= remote0);
                    let left = blocks0.remove(id);
                    assert(unbound(keys0, id) =~= keys_of_held(keys0, left, remote0)) by {
                        assert forall|k: Seq<char>|
                            #[trigger] keys0.contains_key(k) implies
                                (
                                    keys0[k] != id
                                        <==> is_held(blocks0.remove(id), remote0, keys0[k])
                                ) by {
                            assert(is_held(blocks0, remote0, keys0[k]));
                            if remote0.contains_key(id) {
                                assert(!blocks0.contains_key(id));
                            }
                        }
                    }
                }
                true
            },
            None => {
                proof {
                    assert(blocks0.remove(id) =~= blocks0);
                    assert(keys_of_held(keys0, blocks0, remote0) =~= keys0);
                }
                let was_remote = table_remove(&mut self.remote_locations, &id).is_some();
                self.unbind(id);
                proof {
                    if !was_remote {
                        assert(remote0.remove(id) =~= remote0);
                    }
                    assert(tables_wf(self.blocks(), self.keys(), self.remote())) by {
                        assert forall|k: Seq<char>|
                            #[trigger] self.keys().contains_key(k) implies
                                is_held(self.blocks(), self.remote(), self.keys()[k]) by {
                            assert(keys0.contains_key(k));
                        }
                    }
                }
                was_remote
            },
        }
    }

    /// Notes that the block with this id was used at `now`. A block that
    /// is not held here changes nothing.
    pub fn touch(&mut self, id: BlockId, now: u64)
        requires
            old(self).wf(),
        ensures
            final(self).wf(),
            final(self).keys() == old(self).keys(),
            final(self).remote() == old(self).remote(),
            final(self).uploads() == old(self).uploads(),
            final(self).used() == old(self).used(),
            final(self).max() == old(self).max(),
            !old(self).blocks().contains_key(id) ==> final(self).blocks() == old(self).blocks(),
            old(self).blocks().contains_key(id) ==>
                final(self).blocks() == old(self).blocks().insert(
                    id,
                    (Block { last_accessed: now, ..old(self).blocks()[id] }),
                ),
    {
        let ghost blocks0 = self.blocks();
        match table_remove(&mut self.blocks, &id) {
            None => {
                assert(self.blocks.entries() =~= blocks0);
            },
            Some(block) => {
                let mut block = block;
                block.last_accessed = now;
                proof {
                    let rest = blocks0.remove(id);
                    assert(rest.dom() =~= blocks0.dom().remove(id));
                    lemma_total_remove(blocks0, id);
                    lemma_total_insert(rest, id, block);
                    assert(rest.insert(id, block) =~= blocks0.insert(id, block));
                }
                let _ = table_insert(&mut self.blocks, id, block);
                assert(self.blocks.entries() =~= blocks0.insert(id, block));
                assert(self.blocks().dom() =~= blocks0.dom());
            },
        }
    }

    /// What `put_named_block` does when it succeeds: the block is stored as
    /// `put_block` stores it, with no more evicted than is needed, and the
    /// key is bound to it.
    pub open spec fn named_put_ok(
        &self,
        key: Seq<char>,
        block: Block,
        after: &InMemoryBlockManager,
    ) -> bool {
        let kept = after.blocks().remove(block.id);
        &&& !is_held(self.blocks(), self.remote(), block.id)
        &&& made_room(self.blocks(), kept)
        &&& self.used() + block.data@.len() <= self.max() ==> kept == self.blocks()
        &&& self.used() + block.data@.len() > self.max() ==> ({
            &&& block.durability == Durability::Cache
            &&& no_more_than_needed(self.blocks(), kept, after.used(), self.max())
        })
        &&& after.blocks() == kept.insert(block.id, block)
        &&& after.keys() == keys_of_held(self.keys(), kept, self.remote()).insert(key, block.id)
        &&& after.remote() == self.remote()
        &&& after.uploads() == self.uploads()
        &&& after.max() == self.max()
    }

    /// Stores a block and binds a key to it. Where the block is refused,
    /// the key is left as it was.
    #[verifier::rlimit(40)]
    pub fn put_named_block(&mut self, key: String, block: Block) -> (r: Result<(), StoreError>)
        requires
            old(self).wf(),
        ensures
            final(self).wf(),
            r is Err ==> old(self).put_outcome(block, final(self), r),
            r is Ok ==> old(self).named_put_ok(key@, block, final(self)),
    {
        let id = block.id;
        let ghost pre = *old(self);
        match self.put_block(block) {
            Err(e) => Err(e),
            Ok(()) => {
                let ghost mid_keys = self.keys();
                let ghost kept = self.blocks().remove(id);
                let _ = table_insert(&mut self.key_index, key, id);
                proof {
                    assert(self.blocks() =~= kept.insert(id, block));
                    if pre.used() + block.data@.len() <= pre.max() {
                        assert(kept =~= pre.blocks());
                        assert(pre.keys() =~= keys_of_held(pre.keys(), kept, pre.remote()));
                    }
                    assert forall|k: Seq<char>|
                        #[trigger] mid_keys.contains_key(k) implies mid_keys[k] != id by {
                        assert(pre.keys().contains_key(k));
                        assert(is_held(pre.blocks(), pre.remote(), pre.keys()[k]));
                    }
                    assert(tables_wf(self.blocks(), self.keys(), self.remote())) by {
                        assert forall|k: Seq<char>|
                            #[trigger] self.keys().contains_key(k) implies
                                is_held(self.blocks(), self.remote(), self.keys()[k]) by {
                            if k != key@ {
                                assert(mid_keys.contains_key(k));
                            }
                        }
                        assert forall|k1: Seq<char>, k2: Seq<char>|
                            #[trigger] self.keys().contains_key(k1)
                                && #[trigger] self.keys().contains_key(k2)
                                && self.keys()[k1] == self.keys()[k2] implies
                                k1 == k2 by {
                            if k1 != key@ {
                                assert(mid_keys.contains_key(k1));
                            }
                            if k2 != key@ {
                                assert(mid_keys.contains_key(k2));
                            }
                        }
                    }
                }
                Ok(())
            },
        }
    }

    /// Stores `data` as a new block under the given id and binds `key` to
    /// it; returns the id.
    pub fn set_with_id(
        &mut self,
        key: String,
        id: BlockId,
        data: Vec<u8>,
        durability: Durability,
        now: u64,
    ) -> (r: Result<BlockId, StoreError>)
        requires
            old(self).wf(),
        ensures
            final(self).wf(),
            set_outcome(
                old(self),
                key@,
                (Block { id: id, data: data, durability: durability, last_accessed: now }),
                final(self),
                r,
            ),
    {
        let block = Block { id, data, durability, last_accessed: now };
        match self.put_named_block(key, block) {
            Ok(()) => Ok(id),
            Err(e) => Err(e),
        }
    }

    /// Stores `data` as a new block under an id drawn at random and binds
    /// `key` to it; returns the id.
    pub fn set(
        &mut self,
        key: String,
        data: Vec<u8>,
        durability: Durability,
        now: u64,
    ) -> (r: Result<BlockId, StoreError>)
        requires
            old(self).wf(),
        ensures
            final(self).wf(),
            exists|id: u64|
                set_outcome(
                    old(self),
                    key@,
                    (Block { id: id, data: data, durability: durability, last_accessed: now }),
                    final(self),
                    r,
                ),
    {
        let id = random_u64();
        self.set_with_id(key, id, data, durability, now)
    }

    /// Stores `data` as a new block under an id drawn at random; returns the id.
    pub fn store(
        &mut self,
        data: Vec<u8>,
        durability: Durability,
        now: u64,
    ) -> (r: Result<BlockId, StoreError>)
        requires
            old(self).wf(),
        ensures
            final(self).wf(),
            exists|id: u64|
                old(self).put_outcome(
                    (Block { id: id, data: data, durability: durability, last_accessed: now }),
                    final(self),
                    without_id(r),
                )
                    && (r is Ok ==> r.unwrap() == id),
    {
        let id = random_u64();
        let block = Block { id, data, durability, last_accessed: now };
        let stored = self.put_block(block);
        let ghost was = stored;
        let r = match stored {
            Ok(_) => Ok(id),
            Err(e) => Err(e),
        };
        proof {
            assert(without_id(r) == was) by {
                match was {
                    Ok(u) => {
                        assert(u == ());
                    },
                    Err(e) => {},
                }
            }
            assert(old(self).put_outcome(block, self, without_id(r)) && (r is Ok ==> r.unwrap()
                == id));
        }
        r
    }

    /// Where the block with this id is to be had: here, from the peer that
    /// holds it, or nowhere. What is held here is looked at first.
    pub open spec fn lookup(&self, id: BlockId) -> Lookup {
        if self.blocks().contains_key(id) {
            Lookup::Local(self.blocks()[id])
        } else if self.remote().contains_key(id) {
            Lookup::Remote { peer: self.remote()[id] }
        } else {
            Lookup::Missing
        }
    }

    /// Where the value of a key is to be had: here, where the key is bound
    /// to a block held here; from the peer that holds the block that the
    /// key is bound to; or else from whichever peer answers a broadcast.
    pub open spec fn key_lookup(&self, key: Seq<char>) -> KeyLookup {
        if !self.keys().contains_key(key) {
            KeyLookup::Broadcast
        } else if self.blocks().contains_key(self.keys()[key]) {
            KeyLookup::Local(self.blocks()[self.keys()[key]].data)
        } else {
            KeyLookup::Remote { peer: self.remote()[self.keys()[key]], id: self.keys()[key] }
        }
    }

    /// Where the block with this id is to be had; see `lookup`.
    pub fn get_block_async(&self, id: BlockId) -> (found: Lookup)
        requires
            self.wf(),
        ensures
            found == self.lookup(id),
    {
        match table_get(&self.blocks, &id) {
            Some(block) => Lookup::Local(block),
            None => match table_get(&self.remote_locations, &id) {
                Some(peer) => Lookup::Remote { peer },
                None => Lookup::Missing,
            },
        }
    }

    /// Where the value of a key is to be had; see `key_lookup`.
    pub fn get_distributed_key(&self, key: &str) -> (found: KeyLookup)
        requires
            self.wf(),
        ensures
            found == self.key_lookup(key@),
    {
        match self.get_named_block_id(key) {
            None => KeyLookup::Broadcast,
            Some(id) => match self.get_block_async(id) {
                Lookup::Local(block) => KeyLookup::Local(block.data),
                Lookup::Remote { peer } => KeyLookup::Remote { peer, id },
                Lookup::Missing => {
                    proof {
                        assert(is_held(self.blocks(), self.remote(), self.keys()[key@]));
                    }
                    KeyLookup::Broadcast
                },
            },
        }
    }

    /// The keys that match a pattern, each once, in no promised order.
    #[verifier::rlimit(40)]
    pub fn list_keys(&self, pattern: &str) -> (found: Vec<String>)
        ensures
            forall|i: int|
                0 <= i < found@.len() ==> ({
                    &&& self.keys().contains_key((#[trigger] found@[i])@)
                    &&& glob_matches(pattern@, found@[i]@)
                }),
            forall|k: Seq<char>|
                self.keys().contains_key(k) && glob_matches(pattern@, k) ==>
                    exists|i: int| 0 <= i < found@.len() && (#[trigger] found@[i])@ == k,
            forall|i: int, j: int|
                0 <= i < j < found@.len() ==> (#[trigger] found@[i])@ != (#[trigger] found@[j])@,
    {
        let names = table_keys(&self.key_index);
        let pat = chars_of(pattern);
        let mut found: Vec<String> = Vec::new();
        let ghost mut origin: Seq<int> = Seq::empty();
        let mut i: usize = 0;
        while i < names.len()
            invariant
                i <= names@.len(),
                pat@ == pattern@,
                origin.len() == found@.len(),
                forall|j: int|
                    0 <= j < names@.len() ==> self.key_index.entries().contains_key(
                        (#[trigger] names@[j])@,
                    ),
                forall|a: int, b: int|
                    0 <= a < b < names@.len() ==>
                        (#[trigger] names@[a])@ != (#[trigger] names@[b])@,
                forall|j: int|
                    0 <= j < found@.len() ==> ({
                        &&& 0 <= #[trigger] origin[j] < i
                        &&& found@[j]@ == names@[origin[j]]@
                        &&& glob_matches(pattern@, found@[j]@)
                    }),
                forall|a: int, b: int|
                    0 <= a < b < found@.len() ==> #[trigger] origin[a] < #[trigger] origin[b],
                forall|j: int|
                    0 <= j < i && glob_matches(pattern@, (#[trigger] names@[j])@) ==>
                        exists|f: int|
                            0 <= f < found@.len() && (#[trigger] found@[f])@ == names@[j]@,
            decreases names@.len() - i,
        {
            let name_chars = chars_of(names[i].as_str());
            let ghost before = found@;
            if glob_match(&pat, &name_chars) {
                found.push(names[i].clone());
                proof {
                    origin = origin.push(i as int);
                    assert(forall|j: int| 0 <= j < before.len() ==> found@[j] == before[j]);
                    assert(found@[before.len() as int]@ == names@[i as int]@);
                }
            }
            proof {
                assert forall|j: int|
                    0 <= j < i + 1 && glob_matches(pattern@, (#[trigger] names@[j])@) implies
                        exists|f: int|
                            0 <= f < found@.len() && (#[trigger] found@[f])@ == names@[j]@ by {
                    if j < i {
                        let f = choose|f: int|
                            0 <= f < before.len() && (#[trigger] before[f])@ == names@[j]@;
                        assert(found@[f]@ == names@[j]@);
                    } else {
                        assert(found@[before.len() as int]@ == names@[j]@);
                    }
                }
            }
            i = i + 1;
        }
        proof {
            assert forall|k: Seq<char>|
                self.keys().contains_key(k) && glob_matches(pattern@, k) implies
                    exists|f: int| 0 <= f < found@.len() && (#[trigger] found@[f])@ == k by {
                let j = choose|j: int| 0 <= j < names@.len() && (#[trigger] names@[j])@ == k;
                assert(glob_matches(pattern@, names@[j]@));
            }
            assert forall|f: int|
                0 <= f < found@.len() implies
                    self.keys().contains_key((#[trigger] found@[f])@)
                        && glob_matches(pattern@, found@[f]@) by {
                assert(0 <= origin[f] < i);
                assert(self.key_index.entries().contains_key(names@[origin[f]]@));
            }
            assert forall|a: int, b: int|
                0 <= a < b < found@.len() implies
                    (#[trigger] found@[a])@ != (#[trigger] found@[b])@ by {
                assert(origin[a] < origin[b]);
                assert(names@[origin[a]]@ != names@[origin[b]]@);
            }
        }
        found
    }

    /// What opening an upload under a stream id does: an id that is in
    /// use is refused, and nothing changes; under any other id an upload
    /// with an empty buffer is entered, beside the uploads that there are,
    /// and the id is the answer.
    pub open spec fn stream_opened(
        &self,
        stream_id: u64,
        after: &InMemoryBlockManager,
        r: Result<u64, StoreError>,
    ) -> bool {
        &&& after.same_store(self)
        &&& if self.uploads().contains_key(stream_id) {
            &&& r == Err::<u64, StoreError>(StoreError::DuplicateId)
            &&& after.uploads() == self.uploads()
        } else {
            &&& r == Ok::<u64, StoreError>(stream_id)
            &&& after.uploads().dom() == self.uploads().dom().insert(stream_id)
            &&& after.uploads()[stream_id]@ == Seq::<u8>::empty()
            &&& forall|other: u64|
                other != stream_id && #[trigger] self.uploads().contains_key(other) ==>
                    after.uploads()[other] == self.uploads()[other]
        }
    }

    /// Opens an upload under the given stream id; see `stream_opened`.
    pub fn open_stream(
        &mut self,
        stream_id: u64,
        size_hint: Option<u64>,
    ) -> (r: Result<u64, StoreError>)
        ensures
            old(self).stream_opened(stream_id, final(self), r),
    {
        if table_contains(&self.active_uploads, &stream_id) {
            return Err(StoreError::DuplicateId);
        }
        let buffer: Vec<u8> = Vec::new();
        let _ = table_insert(&mut self.active_uploads, stream_id, buffer);
        proof {
            assert(self.uploads().dom() =~= old(self).uploads().dom().insert(stream_id));
        }
        Ok(stream_id)
    }

    /// Opens an upload under a stream id drawn at random, as `open_stream`
    /// opens it under that id; returns the id.
    pub fn start_stream(&mut self, size_hint: Option<u64>) -> (r: Result<u64, StoreError>)
        ensures
            exists|stream_id: u64| old(self).stream_opened(stream_id, final(self), r),
    {
        let stream_id = random_u64();
        self.open_stream(stream_id, size_hint)
    }

    /// Appends a chunk to the buffer of an upload. An unknown stream id is
    /// refused, and nothing changes.
    pub fn append_stream(&mut self, stream_id: u64, data: Vec<u8>) -> (r: Result<(), StoreError>)
        ensures
            final(self).same_store(old(self)),
            final(self).uploads().dom() == old(self).uploads().dom(),
            forall|other: u64|
                other != stream_id && #[trigger] old(self).uploads().contains_key(other) ==>
                    final(self).uploads()[other] == old(self).uploads()[other],
            !old(self).uploads().contains_key(stream_id) ==> ({
                &&& r == Err::<(), StoreError>(StoreError::UnknownStream)
                &&& final(self).uploads() == old(self).uploads()
            }),
            old(self).uploads().contains_key(stream_id) ==> ({
                &&& r is Ok
                &&& final(self).uploads()[stream_id]@ == old(self).uploads()[stream_id]@ + data@
            }),
    {
        match table_remove(&mut self.active_uploads, &stream_id) {
            None => {
                assert(self.uploads() =~= old(self).uploads());
                Err(StoreError::UnknownStream)
            },
            Some(buffer) => {
                let mut buffer = buffer;
                append_bytes(&mut buffer, data.as_slice());
                let _ = table_insert(&mut self.active_uploads, stream_id, buffer);
                assert(self.uploads().dom() =~= old(self).uploads().dom());
                Ok(())
            },
        }
    }

    /// Closes an upload and returns what was appended to it, in order. An
    /// unknown stream id is refused, and nothing changes.
    pub fn finalize_stream(&mut self, stream_id: u64) -> (r: Result<Vec<u8>, StoreError>)
        ensures
            final(self).same_store(old(self)),
            final(self).uploads() == old(self).uploads().remove(stream_id),
            !old(self).uploads().contains_key(stream_id) ==> r == Err::<Vec<u8>, StoreError>(
                StoreError::UnknownStream,
            ),
            old(self).uploads().contains_key(stream_id) ==> r == Ok::<Vec<u8>, StoreError>(
                old(self).uploads()[stream_id],
            ),
    {
        match table_remove(&mut self.active_uploads, &stream_id) {
            None => Err(StoreError::UnknownStream),
            Some(buffer) => Ok(buffer),
        }
    }

    /// What `put_block_remote` decides. Without a target, a peer that
    /// still offers room for the block is picked, and there must be one.
    /// A target that spells an id names the peer with that id, which must
    /// be connected; any other target names a connected peer by its name,
    /// and there must be one. The block must not be held already.
    pub open spec fn remote_plan(
        &self,
        peers: &PeerManager,
        block: Block,
        target: Option<Seq<char>>,
        r: Result<(u128, Message), StoreError>,
    ) -> bool {
        let held = is_held(self.blocks(), self.remote(), block.id);
        let request = Message::PutBlock { id: block.id, data: block.data };
        let refused = |e: StoreError| r == Err::<(u128, Message), StoreError>(e);
        match target {
            None => if forall|id: u128| #[trigger]
                peers.peers().contains_key(id) ==> remaining_offer(peers.peers()[id])
                    < block.data@.len() {
                refused(StoreError::NoPeer)
            } else if held {
                refused(StoreError::DuplicateId)
            } else {
                &&& r is Ok
                &&& r.unwrap().1 == request
                &&& peers.peers().contains_key(r.unwrap().0)
                &&& remaining_offer(peers.peers()[r.unwrap().0]) >= block.data@.len()
            },
            Some(t) => if !peers.reaches(t) {
                if uuid_parse(t).is_some() {
                    refused(StoreError::PeerNotConnected)
                } else {
                    refused(StoreError::NoPeer)
                }
            } else if held {
                refused(StoreError::DuplicateId)
            } else {
                &&& r is Ok
                &&& r.unwrap().1 == request
                &&& peers.peers().contains_key(r.unwrap().0)
                &&& peers.target_is(t, r.unwrap().0)
            },
        }
    }

    /// The peer that is to take a block, and the message that hands the
    /// block to it; see `remote_plan`. The store itself is not changed: the
    /// block is noted with `record_remote` once the message has gone out.
    pub fn put_block_remote(
        &self,
        peers: &PeerManager,
        block: Block,
        target: Option<String>,
    ) -> (r: Result<(u128, Message), StoreError>)
        requires
            self.wf(),
        ensures
            self.remote_plan(peers, block, opt_text(target), r),
    {
        let size = block.data.len() as u64;
        let chosen = match target {
            Some(t) => peers.resolve_target(t.as_str()),
            None => peers.get_available_peer(size),
        };
        match chosen {
            None => Err(StoreError::NoPeer),
            Some(peer) => {
                if !peers.is_connected(peer) {
                    Err(StoreError::PeerNotConnected)
                } else if table_contains(&self.blocks, &block.id) || table_contains(
                    &self.remote_locations,
                    &block.id,
                ) {
                    Err(StoreError::DuplicateId)
                } else {
                    Ok((peer, Message::PutBlock { id: block.id, data: block.data }))
                }
            },
        }
    }

    /// The peer that is to be told to drop what it stores, and the message
    /// that tells it. The target names the peer with the id that it spells,
    /// which must be connected, or else a connected peer by its name, and
    /// there must be one.
    pub fn flush_remote(
        &self,
        peers: &PeerManager,
        target: &str,
    ) -> (r: Result<(u128, Message), StoreError>)
        ensures
            peers.reaches(target@) ==> ({
                &&& r is Ok
                &&& peers.peers().contains_key(r.unwrap().0)
                &&& peers.target_is(target@, r.unwrap().0)
                &&& r.unwrap().1 is Flush
            }),
            !peers.reaches(target@) && uuid_parse(target@).is_some() ==>
                r == Err::<(u128, Message), StoreError>(StoreError::PeerNotConnected),
            !peers.reaches(target@) && uuid_parse(target@).is_none() ==>
                r == Err::<(u128, Message), StoreError>(StoreError::NoPeer),
    {
        match peers.resolve_target(target) {
            None => Err(StoreError::NoPeer),
            Some(peer) => {
                if peers.is_connected(peer) {
                    Ok((peer, Message::Flush))
                } else {
                    Err(StoreError::PeerNotConnected)
                }
            },
        }
    }

    /// Notes that a peer holds the block with this id. An id that is held
    /// already, here or on a peer, is refused, and nothing changes.
    pub fn record_remote(&mut self, id: BlockId, peer: u128) -> (r: Result<(), StoreError>)
        requires
            old(self).wf(),
        ensures
            final(self).wf(),
            final(self).blocks() == old(self).blocks(),
            final(self).keys() == old(self).keys(),
            final(self).uploads() == old(self).uploads(),
            final(self).used() == old(self).used(),
            final(self).max() == old(self).max(),
            is_held(old(self).blocks(), old(self).remote(), id) ==> ({
                &&& r == Err::<(), StoreError>(StoreError::DuplicateId)
                &&& final(self).remote() == old(self).remote()
            }),
            !is_held(old(self).blocks(), old(self).remote(), id) ==> ({
                &&& r is Ok
                &&& final(self).remote() == old(self).remote().insert(id, peer)
            }),
    {
        if table_contains(&self.blocks, &id) || table_contains(&self.remote_locations, &id) {
            return Err(StoreError::DuplicateId);
        }
        let _ = table_insert(&mut self.remote_locations, id, peer);
        proof {
            assert(tables_wf(self.blocks(), self.keys(), self.remote())) by {
                assert forall|k: Seq<char>|
                    #[trigger] self.keys().contains_key(k) implies
                        is_held(self.blocks(), self.remote(), self.keys()[k]) by {
                    assert(is_held(old(self).blocks(), old(self).remote(), old(self).keys()[k]));
                }
            }
        }
        Ok(())
    }

    /// Notes that a peer holds, under this id, the value that was written
    /// to it for `key`, and binds the key to that id for routing. An id
    /// that is held already is refused, and nothing changes.
    #[verifier::rlimit(40)]
    pub fn bind_remote(
        &mut self,
        key: String,
        id: BlockId,
        peer: u128,
    ) -> (r: Result<BlockId, StoreError>)
        requires
            old(self).wf(),
        ensures
            final(self).wf(),
            final(self).blocks() == old(self).blocks(),
            final(self).uploads() == old(self).uploads(),
            final(self).used() == old(self).used(),
            final(self).max() == old(self).max(),
            is_held(old(self).blocks(), old(self).remote(), id) ==> ({
                &&& r == Err::<BlockId, StoreError>(StoreError::DuplicateId)
                &&& final(self).remote() == old(self).remote()
                &&& final(self).keys() == old(self).keys()
            }),
            !is_held(old(self).blocks(), old(self).remote(), id) ==> ({
                &&& r == Ok::<BlockId, StoreError>(id)
                &&& final(self).remote() == old(self).remote().insert(id, peer)
                &&& final(self).keys() == old(self).keys().insert(key@, id)
            }),
    {
        match self.record_remote(id, peer) {
            Err(e) => Err(e),
            Ok(()) => {
                let ghost mid_keys = self.keys();
                let _ = table_insert(&mut self.key_index, key, id);
                proof {
                    assert forall|k: Seq<char>|
                        #[trigger] mid_keys.contains_key(k) implies mid_keys[k] != id by {
                        assert(is_held(old(self).blocks(), old(self).remote(), mid_keys[k]));
                    }
                    assert(tables_wf(self.blocks(), self.keys(), self.remote())) by {
                        assert forall|k: Seq<char>|
                            #[trigger] self.keys().contains_key(k) implies
                                is_held(self.blocks(), self.remote(), self.keys()[k]) by {
                            if k != key@ {
                                assert(mid_keys.contains_key(k));
                            }
                        }
                        assert forall|k1: Seq<char>, k2: Seq<char>|
                            #[trigger] self.keys().contains_key(k1)
                                && #[trigger] self.keys().contains_key(k2)
                                && self.keys()[k1] == self.keys()[k2] implies
                                k1 == k2 by {
                            if k1 != key@ {
                                assert(mid_keys.contains_key(k1));
                            }
                            if k2 != key@ {
                                assert(mid_keys.contains_key(k2));
                            }
                        }
                    }
                }
                Ok(id)
            },
        }
    }

    /// Forgets what a peer that has gone held for this node: the notes of
    /// the blocks on that peer, and the keys bound to those blocks.
    #[verifier::rlimit(40)]
    pub fn forget_peer(&mut self, peer: u128)
        requires
            old(self).wf(),
        ensures
            final(self).wf(),
            final(self).blocks() == old(self).blocks(),
            final(self).uploads() == old(self).uploads(),
            final(self).used() == old(self).used(),
            final(self).max() == old(self).max(),
            final(self).remote() == without_peer(old(self).remote(), peer),
            final(self).keys() == keys_of_held(
                old(self).keys(),
                old(self).blocks(),
                without_peer(old(self).remote(), peer),
            ),
    {
        let ids = table_keys(&self.remote_locations);
        let ghost remote0 = self.remote();
        let ghost keys0 = self.keys();
        let ghost blocks0 = self.blocks();
        let mut i: usize = 0;
        proof {
            assert(keys0 =~= keys_of_held(keys0, blocks0, remote0));
        }
        while i < ids.len()
            invariant
                i <= ids@.len(),
                old(self).wf(),
                remote0 == old(self).remote(),
                keys0 == old(self).keys(),
                blocks0 == old(self).blocks(),
                self.blocks() == blocks0,
                self.uploads() == old(self).uploads(),
                self.used() == old(self).used(),
                self.max() == old(self).max(),
                forall|j: int| 0 <= j < ids@.len() ==> remote0.contains_key((#[trigger] ids@[j])@),
                forall|k: u64|
                    self.remote().contains_key(k) <==> (
                        #[trigger] remote0.contains_key(k)
                            && !(
                                remote0[k] == peer
                                    && exists|j: int| 0 <= j < i && (#[trigger] ids@[j])@ == k
                            )
                    ),
                forall|k: u64|
                    #[trigger] self.remote().contains_key(k) ==> self.remote()[k] == remote0[k],
                self.keys() == keys_of_held(keys0, blocks0, self.remote()),
            decreases ids@.len() - i,
        {
            let id = ids[i];
            let ghost cur_remote = self.remote();
            let ghost cur_keys = self.keys();
            let holder = table_get(&self.remote_locations, &id);
            let gone = match holder {
                Some(h) => h == peer,
                None => false,
            };
            if gone {
                let _ = table_remove(&mut self.remote_locations, &id);
                self.unbind(id);
                proof {
                    assert(remote0.contains_key(id));
                    assert(!blocks0.contains_key(id));
                    assert(self.keys() =~= keys_of_held(keys0, blocks0, self.remote()));
                }
            }
            proof {
                assert(remote0.contains_key(id));
                assert forall|k: u64|
                    self.remote().contains_key(k) <==> (#[trigger] remote0.contains_key(k) && !(
                    remote0[k] == peer && exists|j: int|
                        0 <= j < i + 1 && (#[trigger] ids@[j])@ == k)) by {
                    if k == id {
                        assert(ids@[i as int]@ == k);
                    } else {
                        if exists|j: int| 0 <= j < i + 1 && (#[trigger] ids@[j])@ == k {
                            let j = choose|j: int| 0 <= j < i + 1 && (#[trigger] ids@[j])@ == k;
                            assert(j < i);
                        }
                    }
                }
            }
            i = i + 1;
        }
        proof {
            let left = without_peer(remote0, peer);
            assert forall|k: u64|
                self.remote().contains_key(k) <==> #[trigger] left.contains_key(k) by {
                if remote0.contains_key(k) {
                    let j = choose|j: int| 0 <= j < ids@.len() && (#[trigger] ids@[j])@ == k;
                    assert(0 <= j < i);
                }
            }
            assert(self.remote() =~= without_peer(remote0, peer));
            assert(tables_wf(self.blocks(), self.keys(), self.remote())) by {
                assert forall|k: Seq<char>|
                    #[trigger] self.keys().contains_key(k) implies
                        is_held(self.blocks(), self.remote(), self.keys()[k]) by {
                    assert(keys0.contains_key(k));
                }
                assert forall|k1: Seq<char>, k2: Seq<char>|
                    #[trigger] self.keys().contains_key(k1)
                        && #[trigger] self.keys().contains_key(k2)
                        && self.keys()[k1] == self.keys()[k2] implies
                        k1 == k2 by {
                    assert(keys0.contains_key(k1) && keys0.contains_key(k2));
                }
                assert forall|id: u64|
                    #[trigger] self.remote().contains_key(id) implies
                        !self.blocks().contains_key(id) by {
                    assert(remote0.contains_key(id));
                }
            }
        }
    }

    /// Drops everything: blocks, keys, remote locations and uploads.
    pub fn flush(&mut self)
        ensures
            final(self).wf(),
            final(self).blocks() =~= Map::empty(),
            final(self).keys() =~= Map::empty(),
            final(self).remote() =~= Map::empty(),
            final(self).uploads() =~= Map::empty(),
            final(self).used() == 0,
            final(self).max() == old(self).max(),
    {
        table_clear(&mut self.blocks);
        table_clear(&mut self.key_index);
        table_clear(&mut self.remote_locations);
        table_clear(&mut self.active_uploads);
        self.current_memory = 0;
        proof {
            assert(self.blocks().dom() =~= Set::empty());
        }
    }
}

impl BlockManager for InMemoryBlockManager {
    open spec fn held(&self) -> Map<u64, Block> {
        self.blocks()
    }

    open spec fn valid(&self) -> bool {
        self.wf()
    }

    /// Stores a block here; see `put_outcome` for what becomes of it.
    #[verifier::rlimit(40)]
    fn put_block(&mut self, block: Block) -> (r: Result<(), StoreError>)
        ensures
            old(self).put_outcome(block, final(self), r),
    {
        let id = block.id;
        let size = block.data.len();
        let ghost pre = *old(self);
        if table_contains(&self.blocks, &id) || table_contains(&self.remote_locations, &id) {
            return Err(StoreError::DuplicateId);
        }
        let fits = size as u64 <= self.max_memory - self.current_memory;
        if !fits {
            match block.durability {
                Durability::Pinned => {
                    return Err(StoreError::MemoryLimit);
                },
                Durability::Cache => {},
            }
            if size as u64 > self.max_memory {
                return Err(StoreError::MemoryLimit);
            }
        }
        let ghost mut last: Option<u64> = None;
        while size as u64 > self.max_memory - self.current_memory
            invariant
                self.wf(),
                last.is_none() ==> self.used() == pre.used(),
                last.is_some() ==> ({
                    &&& pre.blocks().contains_key(last.unwrap())
                    &&& !self.blocks().contains_key(last.unwrap())
                    &&& self.used() + size + pre.blocks()[last.unwrap()].data@.len() > pre.max()
                }),
                self.max() == pre.max(),
                self.remote() == pre.remote(),
                self.uploads() == pre.uploads(),
                pre == *old(self),
                pre.wf(),
                id == block.id,
                size == block.data@.len(),
                !is_held(pre.blocks(), pre.remote(), id),
                !fits ==> ({
                    &&& block.durability == Durability::Cache
                    &&& pre.used() + size > pre.max()
                    &&& size <= pre.max()
                }),
                fits ==> pre.used() + size <= pre.max() && self.same_store(&pre),
                made_room(pre.blocks(), self.blocks()),
                self.keys() == keys_of_held(pre.keys(), self.blocks(), pre.remote()),
            decreases self.blocks().dom().len(),
        {
            let ghost cur_blocks = self.blocks();
            let ghost cur_keys = self.keys();
            match self.lru_victim() {
                None => {
                    return Err(StoreError::MemoryLimit);
                },
                Some(victim) => {
                    let _ = self.remove_local(victim);
                    proof {
                        last = Some(victim);
                        assert(pre.blocks().contains_key(victim));
                        assert(cur_blocks[victim] == pre.blocks()[victim]);
                        assert(self.blocks().dom() =~= cur_blocks.dom().remove(victim));
                        assert(made_room(pre.blocks(), self.blocks())) by {
                            assert forall|e: u64, s: u64|
                                #[trigger] pre.blocks().contains_key(e)
                                    && !self.blocks().contains_key(e)
                                    && #[trigger] self.blocks().contains_key(s)
                                    && self.blocks()[s].durability == Durability::Cache implies
                                    pre.blocks()[e].last_accessed
                                        <= pre.blocks()[s].last_accessed by {
                                assert(cur_blocks.contains_key(s));
                                if e != victim {
                                    assert(!cur_blocks.contains_key(e));
                                }
                            }
                            assert forall|i: u64|
                                #[trigger] pre.blocks().contains_key(i)
                                    && pre.blocks()[i].durability == Durability::Pinned implies
                                    self.blocks().contains_key(i) by {
                                assert(cur_blocks.contains_key(i));
                            }
                        }
                        assert(self.keys() =~= keys_of_held(
                            pre.keys(),
                            self.blocks(),
                            pre.remote(),
                        ));
                    }
                },
            }
        }
        proof {
            lemma_total_insert(self.blocks(), id, block);
            assert(!self.blocks().contains_key(id));
            assert(self.blocks().insert(id, block).dom() =~= self.blocks().dom().insert(id));
        }
        let ghost kept = self.blocks();
        let ghost key_now = self.keys();
        self.current_memory = self.current_memory + size as u64;
        let _ = table_insert(&mut self.blocks, id, block);
        proof {
            assert(self.blocks().remove(id) =~= kept);
            assert(tables_wf(self.blocks(), self.keys(), self.remote())) by {
                assert forall|k: Seq<char>|
                    #[trigger] self.keys().contains_key(k) implies
                        is_held(self.blocks(), self.remote(), self.keys()[k]) by {
                    assert(is_held(kept, pre.remote(), key_now[k]));
                }
            }
            if fits {
                assert(key_now == pre.keys());
            } else {
                assert(last.is_some());
                assert(pre.blocks().contains_key(last.unwrap()) && !kept.contains_key(
                    last.unwrap(),
                ));
            }
        }
        Ok(())
    }

    fn get_block(&self, id: BlockId) -> (r: Result<Option<Block>, StoreError>) {
        Ok(table_get(&self.blocks, &id))
    }

    /// Removes the block with this id, if it is held here. The keys that
    /// were bound to it are unbound.
    fn evict_block(&mut self, id: BlockId) -> (r: Result<Option<Block>, StoreError>)
        ensures
            final(self).max() == old(self).max(),
            final(self).remote() == old(self).remote(),
            final(self).uploads() == old(self).uploads(),
            final(self).keys() == keys_of_held(
                old(self).keys(),
                old(self).blocks().remove(id),
                old(self).remote(),
            ),
    {
        Ok(self.remove_local(id))
    }

    /// The number of bytes that can still be stored: the limit less what is in use.
    fn free_space(&self) -> (n: u64)
        ensures
            n == self.max() - self.used(),
    {
        self.max_memory - self.current_memory
    }

    fn used_space(&self) -> (n: u64)
        ensures
            n == self.used(),
    {
        self.current_memory
    }
}

} // verus!
