//! Verified core of a B1T-20 token indexer: the node's on-disk block index
//! format and the choice of the chain, script and address handling, token
//! ticks and inscription ids, the previous outputs a block creates and
//! spends, the byte encodings of stored keys and values, the undo history
//! kept for chain reorganisations, the numbering of a block's token history
//! entries, and what the REST endpoints compute from their arguments (the
//! token list's filter, search, order and pages among them).
pub mod reader;
pub mod varint;
pub mod range;
pub mod block_index;
pub mod chain;
pub mod chain_index;
pub mod searcher;
pub mod hashes;
pub mod reorg;
pub mod text;
pub mod address;
pub mod script;
pub mod tokens;
pub mod fullhash;
pub mod docs;
pub mod pebble;
pub mod options;
pub mod queries;
pub mod prevouts;
pub mod history;
