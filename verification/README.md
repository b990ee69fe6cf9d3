# samod

The sans-IO core of a repository of automerge documents shared between
peers, written in Verus and proved against its contracts: storage layout,
wire protocol, connection handshakes, the hub that routes connections and
document actors, and each document's load, saves and stop. The sync protocol
that exchanges document changes with peers is not held here.

- `storage_key`, `storage`, `memory_storage`: hierarchical storage keys, the
  on-disk layout they map to, the storage interface and an in-memory store.
- `cbor`, `wire_protocol`, `wire_decode`, `wire_roundtrip`: the messages peers
  exchange, their CBOR encoding and decoding, and the proof that decoding an
  encoded well-formed message (its fields fit their length limits and no
  storage ID occurs twice among its remote heads) gives it back.
- `connection`, `network`, `ephemera`: the per-connection handshake state
  machine, connection monitoring, and numbering of ephemeral messages.
- `hub`, `hub_results`, `messages`: the hub that routes commands, connections
  and document actors, and what each of its steps hands back.
- `loader`, `load`, `on_disk_state`, `doc_actor_result`: loading a repository
  and a document from storage, and what a document knows of its files,
  including compaction.
- `document_actor`: a document's lifecycle: its load, its saves, the
  announce policy of each peer, and its stop once its writes are done.
- `conn_loop`: the decisions of the loop that carries one connection's
  traffic between a transport and the hub.
- `harness`: a driver that runs a hub against in-memory storage and a
  simulated network.

`app/` holds what touches the machine: the system clock, file-system I/O for
the storages in the layout the library computes, and the thread loop that
carries one connection's traffic.
