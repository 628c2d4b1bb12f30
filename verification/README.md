# routinechain

A ledger for commerce trust, replicated by a small fixed set of validators:
participants with a trust score, settlements, escrows, disputes with arbiters,
reward tokens (RCW), and anchors of batches that are kept elsewhere. The library
is written in Verus: the functions state what they do, and what they state is
proved; of the clock and of random keys nothing is stated.

- `src/` is the library. `types` holds the data, `wire` their form in bytes,
  `store` the records under their keys and the state root, `state` what
  transactions and blocks do, `consensus`, `roster`, `votes` and `message` how
  nodes agree, `node` what a node decides in each turn, `rpc` what clients are
  answered, and `crypto` and `text` hashes, signatures and numbers in text.
  `laws` states what holds of the whole: replay protection, conservation of
  tokens, what a refusal leaves, how an escrow moves, agreement of nodes, what the
  state root tells apart, and more.
- `app/` is the program `rcw`: command line, configuration, disk, network and the
  node's loop.
- `tests/` runs the library.

Calls into other crates (blake3, ed25519-dalek, bincode, serde, hex, serde_json)
stand behind small functions marked `external_body`; the comment above each says
what is claimed of the call.
