//! The index of the chosen chain: where each block is stored, and the last
//! height that each block file holds.
use vstd::prelude::*;
use std::collections::HashMap;
use crate::block_index::BlockIndexRecordSmall;
use crate::range::BlockHeightRange;

verus! {

broadcast use vstd::std_specs::hash::group_hash_axioms;

/// The largest height among `s`, or 0 when there is none.
pub open spec fn max_key(s: Seq<(u64, BlockIndexRecordSmall)>) -> u64
    decreases s.len(),
{
    if s.len() == 0 {
        0
    } else {
        let m = max_key(s.drop_last());
        if s.last().0 > m { s.last().0 } else { m }
    }
}

/// No height occurs twice.
pub open spec fn distinct_heights(s: Seq<(u64, BlockIndexRecordSmall)>) -> bool {
    forall|i: int, j: int| 0 <= i < j < s.len() ==> s[i].0 != s[j].0
}

proof fn lemma_max_key(s: Seq<(u64, BlockIndexRecordSmall)>)
    ensures
        forall|i: int| 0 <= i < s.len() ==> s[i].0 <= max_key(s),
        s.len() > 0 ==> exists|i: int| 0 <= i < s.len() && s[i].0 == max_key(s),
    decreases s.len(),
{
    if s.len() > 0 {
        lemma_max_key(s.drop_last());
        let m = max_key(s.drop_last());
        assert forall|i: int| 0 <= i < s.len() implies s[i].0 <= max_key(s) by {
            if i < s.len() - 1 {
                assert(s[i] == s.drop_last()[i]);
            }
        }
        if s.last().0 <= m && s.len() > 1 {
            let k = choose|i: int| 0 <= i < s.drop_last().len() && s.drop_last()[i].0 == m;
            assert(s[k] == s.drop_last()[k]);
        }
    }
}

/// Holds the index of the longest valid chain.
pub struct ChainIndex {
    max_height: u64,
    pub block_index: HashMap<u64, BlockIndexRecordSmall>,
    max_height_blk_index: HashMap<u64, u64>,
}

impl ChainIndex {
    /// The block location at each height.
    pub closed spec fn blocks(&self) -> Map<u64, BlockIndexRecordSmall> {
        self.block_index@
    }

    /// For each block file, the highest height it holds.
    pub closed spec fn file_tops(&self) -> Map<u64, u64> {
        self.max_height_blk_index@
    }

    /// The highest height the scan goes to.
    pub closed spec fn top(&self) -> u64 {
        self.max_height
    }

    /// Builds the index from the chosen chain (`(height, location)` pairs, as
    /// `select_chain` gives them) for the given range: every pair is
    /// indexed by its height, each block file gets the highest height it
    /// holds, and the scan goes up to the highest known height, or to the
    /// range's end if that is lower.
    pub fn new(entries: Vec<(u64, BlockIndexRecordSmall)>, range: &BlockHeightRange) -> (r: ChainIndex)
        requires
            distinct_heights(entries@),
        ensures
            forall|h: u64| #[trigger]
                r.blocks().contains_key(h) <==> exists|i: int| 0 <= i < entries@.len() && entries@[i].0 == h,
            forall|i: int| 0 <= i < entries@.len() ==> #[trigger] r.blocks()[entries@[i].0] == entries@[i].1,
            forall|b: u64| #[trigger]
                r.file_tops().contains_key(b) <==> exists|i: int|
                    0 <= i < entries@.len() && entries@[i].1.blk_index == b,
            forall|i: int| 0 <= i < entries@.len() ==> entries@[i].0 <= #[trigger] r.file_tops()[entries@[i].1.blk_index],
            forall|b: u64| #[trigger]
                r.file_tops().contains_key(b) ==> exists|i: int|
                    0 <= i < entries@.len() && entries@[i].1.blk_index == b && entries@[i].0 == r.file_tops()[b],
            r.top() == match range.end {
                Some(e) if e < max_key(entries@) => e,
                _ => max_key(entries@),
            },
    {
        let ghost s = entries@;
        let mut block_index: HashMap<u64, BlockIndexRecordSmall> = HashMap::new();
        let mut tops: HashMap<u64, u64> = HashMap::new();
        let mut known: u64 = 0;
        let n = entries.len();
        let mut i: usize = 0;
        while i < n
            invariant
                n == s.len(),
                s == entries@,
                distinct_heights(s),
                0 <= i <= n,
                known == max_key(s.take(i as int)),
                forall|h: u64| #[trigger]
                    block_index@.contains_key(h) <==> exists|k: int| 0 <= k < i && s[k].0 == h,
                forall|k: int| 0 <= k < i ==> #[trigger] block_index@[s[k].0] == s[k].1,
                forall|b: u64| #[trigger]
                    tops@.contains_key(b) <==> exists|k: int| 0 <= k < i && s[k].1.blk_index == b,
                forall|k: int| 0 <= k < i ==> s[k].0 <= #[trigger] tops@[s[k].1.blk_index],
                forall|b: u64| #[trigger]
                    tops@.contains_key(b) ==> exists|k: int| 0 <= k < i && s[k].1.blk_index == b && s[k].0 == tops@[b],
            decreases n - i,
        {
            let (height, rec) = entries[i];
            block_index.insert(height, rec);
            let b = rec.blk_index;
            match tops.get(&b) {
                Some(cur) => {
                    if height > *cur {
                        tops.insert(b, height);
                    }
                },
                None => {
                    tops.insert(b, height);
                },
            }
            if height > known {
                known = height;
            }
            proof {
                assert(s.take(i + 1).drop_last() =~= s.take(i as int));
                assert forall|k: int| 0 <= k < i + 1 implies #[trigger] block_index@[s[k].0] == s[k].1 by {
                    if k < i {
                        assert(s[k].0 != s[i as int].0);
                    }
                }
                assert forall|b2: u64| #[trigger] tops@.contains_key(b2) implies exists|k: int|
                    0 <= k < i + 1 && s[k].1.blk_index == b2 && s[k].0 == tops@[b2] by {
                    if b2 == b && tops@[b2] == height {
                        assert(s[i as int].1.blk_index == b2);
                    }
                }
            }
            i = i + 1;
        }
        proof {
            assert(s.take(n as int) =~= s);
        }
        let max_height = match range.end {
            Some(e) if e < known => e,
            _ => known,
        };
        ChainIndex { max_height, block_index, max_height_blk_index: tops }
    }

    /// The location of the block at the given height.
    pub fn get(&self, height: u64) -> (r: Option<&BlockIndexRecordSmall>)
        ensures
            match r {
                Some(v) => self.blocks().contains_key(height) && *v == self.blocks()[height],
                None => !self.blocks().contains_key(height),
            },
    {
        self.block_index.get(&height)
    }

    /// The highest height the scan goes to.
    pub fn max_height(&self) -> (r: u64)
        ensures
            r == self.top(),
    {
        self.max_height
    }

    /// The highest height found in the given block file; `requires` keeps to
    /// files that hold a block of the chain.
    pub fn max_height_by_blk(&self, blk_index: u64) -> (r: u64)
        requires
            self.file_tops().contains_key(blk_index),
        ensures
            r == self.file_tops()[blk_index],
    {
        *self.max_height_blk_index.get(&blk_index).unwrap()
    }
}

/// Every height in the index is at most the highest known height, which
/// holds a block unless the index is empty.
pub proof fn law_max_key_is_highest(s: Seq<(u64, BlockIndexRecordSmall)>)
    ensures
        forall|i: int| 0 <= i < s.len() ==> s[i].0 <= max_key(s),
        s.len() > 0 ==> exists|i: int| 0 <= i < s.len() && s[i].0 == max_key(s),
{
    lemma_max_key(s);
}

} // verus!
