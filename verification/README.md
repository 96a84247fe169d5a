# kasane

The storage layer of Kasane, a database that keeps values attached to spatial IDs,
written in Verus: the byte layouts of its keys and values, and the decisions its two
backends (a single-node store and a distributed transactional store) take around
them, each with a contract proved by Verus. Three calls into outside code (a
checksum, the operating system's random numbers, and UTF-8 decoding) stand behind
small wrappers whose contracts are trusted rather than proved.

## Layout

- `src/bytes.rs`, `src/keymap.rs`: byte strings as keys, their order, and an ordered
  map keyed by byte strings.
- `src/models.rs`: identifiers, roles, value types and errors.
- `src/encoding/`: layouts shared by both backends: access-control rows, names owned
  by a database, shard entries and the value index.
- `src/constraints.rs`: table constraints, how updates merge into them, and the
  numbering of enum choices.
- `src/privileges.rs`: privilege rules between their named and stored forms.
- `src/requests.rs`: the checks catalog requests make on their names.
- `src/text.rs`: trimming, splitting and number parsing for settings.
- `src/database/`: the single-node store: its keys, the replies of its write
  batches, which rows a copied table gets, when shrunk leaves merge, how the parts of
  a read are joined by value, and its settings
  and the checks made when its files are opened.
- `src/tikv/`: the distributed backend: its key space, the frame of stored shards,
  the changes a transaction stages and how reads see them, batched reads, the write
  retry loop and a runner for it, merging of shrunk shards, the shard cache's freshness rule, catalog rows
  and settings.
- `app/`: reading settings from the process environment and checking certificate
  files on disk.
- `tests/`: tests of the library on concrete values.
