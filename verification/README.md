# b1t_indexer

The verified core of a B1T-20 token indexer (a BRC-20 style token standard
on the B1T chain), written in Verus.

- `src/` is the library. Every function there carries a contract that
  Verus proves: the block index records of the node's LevelDB and the choice
  of the best chain among them (`block_index`, `chain`, `chain_index`,
  `varint`, `reader`, `range`, `options`), output scripts and addresses
  (`script`, `address`, `hashes`, `fullhash`), token ticks, transaction and
  inscription ids (`tokens`, `text`), the byte encodings of stored keys and
  values (`pebble`), the undo history kept for reorganisations (`reorg`),
  the previous outputs a block creates and spends (`prevouts`), the
  inscription offset search (`searcher`), the numbering of a block's
  token history entries (`history`) and what the REST endpoints compute
  (`queries`, `docs`): the token list's filter, tick search, stable
  ordering by deploy time, holders or transactions, and its pages; the
  holder and event pages.
- Calls into `bellscoin`, `byteorder`, `hex` and `serde_json` stand behind
  small trusted wrappers whose contracts name what the call returns.
- `app/` reads the block index from LevelDB and holds the serde forms of the
  library's types.
- `tests/` runs the library on concrete values.
