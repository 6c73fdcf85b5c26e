# blockchain_unleashed

A small content-addressed blockchain with a record store anchored in it.

Each block is named by the lowercase hex SHA-256 hash of its compact JSON
text, and names the block before it; a chain is checked by walking from its
newest block back to the first. Records are saved beside the chain: each
save appends a block that names the record's id and the hash of the
record's own block text, and a record is only loaded while that anchor
still matches.

- `src/` is the verified library (Verus): block text and hashes
  (`blockchain`, `digest`, `text`), the chain's state and the walk that
  checks it, the record store's decisions (`storage`), and a few small
  utilities (`buffers`, `devices`, `words`). The laws it proves are the
  `lemma_*` proof functions of `blockchain` and `storage`.
- `app/` is the program around it: files, JSON values, the clock-driven
  demo programs and `main`.
- `tests/` runs the library on concrete values.
