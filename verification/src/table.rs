//! Concurrent hash tables of the node, as `dashmap::DashMap`, together with
//! the model that the rest of the crate reasons about: a finite map from
//! keys to values.
//!
//! Nothing in this file is proved. Each function calls one method of
//! `DashMap` and states what that method does to the table's contents.

use dashmap::DashMap;
use std::hash::Hash;
use vstd::prelude::*;

use crate::blocks::Block;
use crate::blocks::Durability;
use crate::peers::HandshakeEntry;
use crate::peers::PeerInfo;

verus! {

/// `dashmap::DashMap`, taken as it is: a value of this type is opaque, and
/// only the functions below say anything of what it holds.
#[verifier::external_type_specification]
#[verifier::external_body]
#[verifier::reject_recursive_types(K)]
#[verifier::reject_recursive_types(V)]
#[verifier::reject_recursive_types(S)]
pub struct ExDashMap<K, V, S>(DashMap<K, V, S>);

/// The blocks that a block table holds, by block id.
pub uninterp spec fn block_entries(m: DashMap<u64, Block>) -> Map<u64, Block>;

/// The number that a table binds to each text: a key's block id, or a
/// count of waiters.
pub uninterp spec fn text_entries(m: DashMap<String, u64>) -> Map<Seq<char>, u64>;

/// The peer that holds each remotely stored block, by block id.
pub uninterp spec fn location_entries(m: DashMap<u64, u128>) -> Map<u64, u128>;

/// The buffers of the uploads in progress, by stream id.
pub uninterp spec fn upload_entries(m: DashMap<u64, Vec<u8>>) -> Map<u64, Vec<u8>>;

/// The records of the connected peers, by node id.
pub uninterp spec fn peer_entries(m: DashMap<u128, PeerInfo>) -> Map<u128, PeerInfo>;

/// The number of waiters registered for each block id.
pub uninterp spec fn waiter_entries(m: DashMap<u64, u64>) -> Map<u64, u64>;

/// Each outgoing handshake, by destination address.
pub uninterp spec fn handshake_entries(
    m: DashMap<String, HandshakeEntry>,
) -> Map<Seq<char>, HandshakeEntry>;

/// A table seen as the finite map it holds.
pub trait Table<K: View, V> {
    spec fn entries(&self) -> Map<K::V, V>;
}

impl Table<u64, Block> for DashMap<u64, Block> {
    open spec fn entries(&self) -> Map<u64, Block> {
        block_entries(*self)
    }
}

impl Table<String, u64> for DashMap<String, u64> {
    open spec fn entries(&self) -> Map<Seq<char>, u64> {
        text_entries(*self)
    }
}

impl Table<u64, u128> for DashMap<u64, u128> {
    open spec fn entries(&self) -> Map<u64, u128> {
        location_entries(*self)
    }
}

impl Table<u64, Vec<u8>> for DashMap<u64, Vec<u8>> {
    open spec fn entries(&self) -> Map<u64, Vec<u8>> {
        upload_entries(*self)
    }
}

impl Table<u128, PeerInfo> for DashMap<u128, PeerInfo> {
    open spec fn entries(&self) -> Map<u128, PeerInfo> {
        peer_entries(*self)
    }
}

impl Table<u64, u64> for DashMap<u64, u64> {
    open spec fn entries(&self) -> Map<u64, u64> {
        waiter_entries(*self)
    }
}

impl Table<String, HandshakeEntry> for DashMap<String, HandshakeEntry> {
    open spec fn entries(&self) -> Map<Seq<char>, HandshakeEntry> {
        handshake_entries(*self)
    }
}

/// `DashMap::new` for a block table: the new table holds nothing.
#[verifier::external_body]
pub(crate) fn new_block_table() -> (m: DashMap<u64, Block>)
    ensures
        block_entries(m) =~= Map::empty(),
{
    DashMap::new()
}

/// `DashMap::new` for a table from text to number: the new table holds nothing.
#[verifier::external_body]
pub(crate) fn new_text_table() -> (m: DashMap<String, u64>)
    ensures
        text_entries(m) =~= Map::empty(),
{
    DashMap::new()
}

/// `DashMap::new` for a table of remote locations: the new table holds nothing.
#[verifier::external_body]
pub(crate) fn new_location_table() -> (m: DashMap<u64, u128>)
    ensures
        location_entries(m) =~= Map::empty(),
{
    DashMap::new()
}

/// `DashMap::new` for a table of upload buffers: the new table holds nothing.
#[verifier::external_body]
pub(crate) fn new_upload_table() -> (m: DashMap<u64, Vec<u8>>)
    ensures
        upload_entries(m) =~= Map::empty(),
{
    DashMap::new()
}

/// `DashMap::new` for a peer table: the new table holds nothing.
#[verifier::external_body]
pub(crate) fn new_peer_table() -> (m: DashMap<u128, PeerInfo>)
    ensures
        peer_entries(m) =~= Map::empty(),
{
    DashMap::new()
}

/// `DashMap::new` for a table of waiters: the new table holds nothing.
#[verifier::external_body]
pub(crate) fn new_waiter_table() -> (m: DashMap<u64, u64>)
    ensures
        waiter_entries(m) =~= Map::empty(),
{
    DashMap::new()
}

/// `DashMap::new` for a table of outgoing handshakes: the new table holds nothing.
#[verifier::external_body]
pub(crate) fn new_handshake_table() -> (m: DashMap<String, HandshakeEntry>)
    ensures
        handshake_entries(m) =~= Map::empty(),
{
    DashMap::new()
}

/// `DashMap::insert`: binds the key to the value, replacing any earlier
/// binding of that key and leaving every other key as it was. Returns the
/// value that the key had before, if it had one.
#[verifier::external_body]
pub(crate) fn table_insert<K: View + Eq + Hash, V>(
    m: &mut DashMap<K, V>,
    k: K,
    v: V,
) -> (prev: Option<V>) where DashMap<K, V>: Table<K, V>
    ensures
        final(m).entries() == old(m).entries().insert(k@, v),
        prev.is_some() == old(m).entries().dom().contains(k@),
        prev.is_some() ==> prev.unwrap() == old(m).entries()[k@],
{
    m.insert(k, v)
}

/// `DashMap::get`, with the value found cloned out of the table: the value
/// bound to the key, or nothing when the key is not bound.
#[verifier::external_body]
pub(crate) fn table_get<K: View + Eq + Hash, V: Clone>(
    m: &DashMap<K, V>,
    k: &K,
) -> (found: Option<V>) where DashMap<K, V>: Table<K, V>
    ensures
        found.is_some() == m.entries().dom().contains(k@),
        found.is_some() ==> found.unwrap() == m.entries()[k@],
{
    m.get(k).map(|r| r.value().clone())
}

/// `DashMap::remove`: unbinds the key, leaving every other key as it was.
/// Returns the value that the key had, if it had one.
#[verifier::external_body]
pub(crate) fn table_remove<K: View + Eq + Hash, V>(
    m: &mut DashMap<K, V>,
    k: &K,
) -> (prev: Option<V>) where DashMap<K, V>: Table<K, V>
    ensures
        final(m).entries() == old(m).entries().remove(k@),
        prev.is_some() == old(m).entries().dom().contains(k@),
        prev.is_some() ==> prev.unwrap() == old(m).entries()[k@],
{
    m.remove(k).map(|kv| kv.1)
}

/// `DashMap::contains_key`: whether the key is bound.
#[verifier::external_body]
pub(crate) fn table_contains<K: View + Eq + Hash, V>(
    m: &DashMap<K, V>,
    k: &K,
) -> (found: bool) where DashMap<K, V>: Table<K, V>
    ensures
        found == m.entries().dom().contains(k@),
{
    m.contains_key(k)
}

/// `DashMap::clear`: the table holds nothing afterwards.
#[verifier::external_body]
pub(crate) fn table_clear<K: View + Eq + Hash, V>(
    m: &mut DashMap<K, V>,
) where DashMap<K, V>: Table<K, V>
    ensures
        final(m).entries() =~= Map::empty(),
{
    m.clear()
}

/// `DashMap::len`: the number of keys that are bound.
#[verifier::external_body]
pub(crate) fn table_len<K: View + Eq + Hash, V>(
    m: &DashMap<K, V>,
) -> (n: usize) where DashMap<K, V>: Table<K, V>
    ensures
        m.entries().dom().finite() ==> n == m.entries().dom().len(),
{
    m.len()
}

/// `DashMap::iter`, keeping a clone of each key: every bound key exactly
/// once, in an order that the table does not promise.
#[verifier::external_body]
pub(crate) fn table_keys<K: View + Eq + Hash + Clone, V>(
    m: &DashMap<K, V>,
) -> (keys: Vec<K>) where DashMap<K, V>: Table<K, V>
    ensures
        forall|i: int| 0 <= i < keys@.len() ==> m.entries().dom().contains((#[trigger] keys@[i])@),
        forall|k: K::V|
            m.entries().dom().contains(k) ==>
                exists|i: int| 0 <= i < keys@.len() && (#[trigger] keys@[i])@ == k,
        forall|i: int, j: int|
            0 <= i < j < keys@.len() ==> (#[trigger] keys@[i])@ != (#[trigger] keys@[j])@,
{
    m.iter().map(|e| e.key().clone()).collect()
}

/// `DashMap::iter` on a block table, keeping of each block its id, its
/// durability and when it was last used: every block of the table, in an
/// order that the table does not promise.
#[verifier::external_body]
pub(crate) fn block_index(m: &DashMap<u64, Block>) -> (index: Vec<(u64, Durability, u64)>)
    ensures
        forall|i: int|
            0 <= i < index@.len() ==> ({
                &&& block_entries(*m).dom().contains((#[trigger] index@[i]).0)
                &&& block_entries(*m)[index@[i].0].durability == index@[i].1
                &&& block_entries(*m)[index@[i].0].last_accessed == index@[i].2
            }),
        forall|id: u64|
            block_entries(*m).dom().contains(id) ==>
                exists|i: int| 0 <= i < index@.len() && (#[trigger] index@[i]).0 == id,
{
    m.iter().map(|e| (*e.key(), e.value().durability, e.value().last_accessed)).collect()
}

} // verus!
