# Ledger history

Verified read side of a ledger history that is kept in a key-value store.

- `src/` is the library, verified with Verus. It decides which keys each query reads
  and what the records read mean. `laws.rs` states what holds between the queries.
- `app/` is the asynchronous interface over RocksDB: it fetches the records.
- `tests/` runs the queries against a store in memory.

## Records

| key | record |
| --- | --- |
| variant (4 bytes), block digest (32 bytes) | variant (4 bytes), section |
| `best_tip` | key of the tip's header |

Variant 0 is a header: identifier, parent, height. Variant 1 is a body: length, bytes.
Integers are little-endian. Keys and sections are the bytes of `bincode`'s fixed-width
format.
