//! What a scan of the chain is set up with.
use vstd::prelude::*;
use crate::address::CoinType;
use crate::range::BlockHeightRange;

verus! {

/// Where the chain's files are and which heights a scan covers.
pub struct ChainOptions {
    /// The directory of the block files, if not the coin's default.
    pub blockchain_dir: Option<String>,
    /// The heights the scan covers.
    pub range: BlockHeightRange,
    /// The network's address parameters.
    pub coin: CoinType,
    /// The directory of the block index, if not inside the block directory.
    pub index_dir_path: Option<String>,
}

/// The view of an optional path.
pub open spec fn opt_path(p: Option<&str>) -> Option<Seq<char>> {
    match p {
        Some(s) => Some(s@),
        None => None,
    }
}

/// The view of an optional owned path.
pub open spec fn opt_string(p: Option<String>) -> Option<Seq<char>> {
    match p {
        Some(s) => Some(s@),
        None => None,
    }
}

fn owned_path(p: Option<&str>) -> (r: Option<String>)
    ensures
        opt_string(r) == opt_path(p),
{
    match p {
        Some(s) => Some(s.to_owned()),
        None => None,
    }
}

impl ChainOptions {
    /// Options for a scan from `last_height` to the tip.
    pub fn new(path: Option<&str>, index_dir_path: Option<&str>, coin: CoinType, last_height: u32) -> (r: ChainOptions)
        ensures
            opt_string(r.blockchain_dir) == opt_path(path),
            opt_string(r.index_dir_path) == opt_path(index_dir_path),
            r.coin == coin,
            r.range.start == last_height as u64,
            r.range.end is None,
    {
        let dir = owned_path(path);
        let index_dir = owned_path(index_dir_path);
        let range = match BlockHeightRange::new(last_height as u64, None) {
            Ok(r) => r,
            Err(_) => vstd::pervasive::unreached(),
        };
        ChainOptions { blockchain_dir: dir, coin, range, index_dir_path: index_dir }
    }
}

/// What loading blocks is asked for: the block and index directories, the
/// first height, the network's name and how many of the newest blocks to
/// leave alone while they may still be reorganised.
pub struct LoadBlocksArgs<'a> {
    pub path: Option<&'a str>,
    pub index_dir_path: Option<&'a str>,
    pub from_height: Option<u64>,
    pub network: &'a str,
    pub reorg_len: u64,
}

} // verus!
