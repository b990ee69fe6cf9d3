//! A sans-IO core for synchronising collaborative documents between peers.
//!
//! The crate holds the pure parts of the repository: hierarchical storage keys
//! and the layout they map to on disk, the wire protocol spoken between peers,
//! the connection handshake state machine, the hub bookkeeping of connections
//! and document actors, and the loaders that drive storage I/O.

use vstd::prelude::*;

pub mod cbor;
pub mod conn_loop;
pub mod connection;
pub mod doc_actor_result;
pub mod document_actor;
pub mod harness;
pub mod hashes;
pub mod ephemera;
pub mod hex;
pub mod hub;
pub mod hub_results;
pub mod ids;
pub mod io;
pub mod load;
pub mod loader;
pub mod memory_storage;
pub mod messages;
pub mod network;
pub mod on_disk_state;
pub mod runtime;
pub mod storage;
pub mod storage_key;
pub mod timestamp;
pub mod wire_decode;
pub mod wire_protocol;
pub mod wire_roundtrip;

pub use storage_key::StorageKey;
pub use timestamp::UnixTimestamp;

verus! {

} // verus!
