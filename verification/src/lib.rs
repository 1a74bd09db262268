//! MemCloud: the verified core of a peer-to-peer in-memory data fabric.
//!
//! The crate holds the rules of the node: framing and sealed streams, the
//! handshake, trust and consent, the peer registry with its quotas, the block
//! and key store, the two message dispatchers and the wire formats. Sockets,
//! tasks and timers live with the caller, which hands bytes and events in and
//! carries bytes and actions out.
//!
//! Every function states what it returns and changes, and is proved to do
//! so. What is not proved is what the crate takes from elsewhere: the
//! cryptography and a few conversions in `crypto`, the hash tables in
//! `table`, and what Unicode says of characters in `size`. Each of those
//! functions says what is believed of it.

pub mod auth;
pub mod blocks;
pub mod bytes;
pub mod client;
pub mod consent;
pub mod control;
pub mod crypto;
pub mod discovery;
pub mod framing;
pub mod glob;
pub mod net;
pub mod pack;
pub mod peers;
pub mod rpc;
pub mod secure_stream;
pub mod size;
pub mod string_id;
pub mod table;
pub mod transcript;
pub mod trust;
pub mod wire;
