//! Choosing the best chain out of every block the node's index knows:
//! from the highest height that holds a single candidate, follow the
//! previous-block hashes down, one block per height.
use vstd::prelude::*;
use std::collections::HashMap;
use crate::block_index::{
    hash_eq, small_of, BlockIndexRecord, BlockIndexRecordSmall, BLOCK_FAILED_MASK,
    BLOCK_VALID_MASK,
};
use crate::range::BlockHeightRange;

verus! {

broadcast use vstd::std_specs::hash::group_hash_axioms;

/// Why no chain could be chosen.
#[derive(Debug, Clone, Copy, PartialEq, Eq)]
pub enum ChainError {
    /// No record at `height` is the parent of the block chosen above it
    /// (the node's chain state must be rebuilt).
    MissingParent { height: u64 },
}

/// A record takes part in the choice when its height is in the range and its
/// status says it is valid and not failed.
pub open spec fn kept(r: BlockIndexRecord, range: BlockHeightRange) -> bool {
    &&& range.low() <= r.height <= range.high()
    &&& r.status & BLOCK_VALID_MASK != 0
    &&& r.status & BLOCK_FAILED_MASK == 0
}

/// The kept records at height `h`, in the order the index lists them.
pub open spec fn at_height(recs: Seq<BlockIndexRecord>, range: BlockHeightRange, h: int) -> Seq<
    BlockIndexRecord,
> {
    recs.filter(|r: BlockIndexRecord| kept(r, range) && r.height == h)
}

/// Index of the first record of `g`, from `i` on, whose hash is `hash`.
pub open spec fn first_match_from(g: Seq<BlockIndexRecord>, hash: Seq<u8>, i: int) -> Option<int>
    decreases g.len() - i,
{
    if i < 0 || i >= g.len() {
        None
    } else if g[i].block_hash@ == hash {
        Some(i)
    } else {
        first_match_from(g, hash, i + 1)
    }
}

/// Puts `prefix` in front of a chain, if there is one.
pub open spec fn prepend(
    prefix: Seq<(u64, BlockIndexRecordSmall)>,
    o: Result<Seq<(u64, BlockIndexRecordSmall)>, u64>,
) -> Result<Seq<(u64, BlockIndexRecordSmall)>, u64> {
    match o {
        Ok(rest) => Ok(prefix + rest),
        Err(h) => Err(h),
    }
}

/// The chain from height `h` down, given the hash `prev` of the parent that
/// the block above needs: at each height that holds records, the first one
/// with that hash, then on to its own parent. The error is the first height
/// (from the top) that holds records of which none is the parent.
pub open spec fn chain_below(recs: Seq<BlockIndexRecord>, range: BlockHeightRange, h: int, prev: Seq<
    u8,
>) -> Result<Seq<(u64, BlockIndexRecordSmall)>, u64>
    decreases h + 1,
{
    if h < 0 {
        Ok(Seq::empty())
    } else {
        let g = at_height(recs, range, h);
        if g.len() == 0 {
            chain_below(recs, range, h - 1, prev)
        } else {
            match first_match_from(g, prev, 0) {
                None => Err(h as u64),
                Some(i) => prepend(
                    seq![(h as u64, small_of(g[i]))],
                    chain_below(recs, range, h - 1, g[i].prev_hash@),
                ),
            }
        }
    }
}

/// From height `h` down: skip heights until one holds exactly one record;
/// the chain is what lies below that record (the record itself is left out).
pub open spec fn chain_top(recs: Seq<BlockIndexRecord>, range: BlockHeightRange, h: int) -> Result<
    Seq<(u64, BlockIndexRecordSmall)>,
    u64,
>
    decreases h + 1,
{
    if h < 0 {
        Ok(Seq::empty())
    } else {
        let g = at_height(recs, range, h);
        if g.len() == 1 {
            chain_below(recs, range, h - 1, g[0].prev_hash@)
        } else {
            chain_top(recs, range, h - 1)
        }
    }
}

/// The chain chosen out of the index records `recs` for `range`: pairs of
/// height and block location, highest first; the error is the height at
/// which the parent of the block above is missing.
pub open spec fn chain_selection(recs: Seq<BlockIndexRecord>, range: BlockHeightRange) -> Result<
    Seq<(u64, BlockIndexRecordSmall)>,
    u64,
> {
    chain_top(recs, range, u64::MAX as int)
}

/// Heights are strictly decreasing, and all at most `h`.
pub open spec fn descending_below(s: Seq<(u64, BlockIndexRecordSmall)>, h: int) -> bool {
    &&& forall|i: int, j: int| 0 <= i < j < s.len() ==> s[i].0 > s[j].0
    &&& forall|i: int| 0 <= i < s.len() ==> s[i].0 <= h
}

proof fn lemma_first_match_bounds(g: Seq<BlockIndexRecord>, hash: Seq<u8>, i: int)
    ensures
        first_match_from(g, hash, i) matches Some(k) ==> 0 <= k < g.len() && g[k].block_hash@ == hash,
    decreases g.len() - i,
{
    if 0 <= i < g.len() && g[i].block_hash@ != hash {
        lemma_first_match_bounds(g, hash, i + 1);
    }
}

proof fn lemma_chain_below_descending(recs: Seq<BlockIndexRecord>, range: BlockHeightRange, h: int, prev: Seq<u8>)
    requires
        h <= u64::MAX,
    ensures
        chain_below(recs, range, h, prev) matches Ok(s) ==> descending_below(s, h),
    decreases h + 1,
{
    if h >= 0 {
        let g = at_height(recs, range, h);
        if g.len() == 0 {
            lemma_chain_below_descending(recs, range, h - 1, prev);
        } else {
            lemma_first_match_bounds(g, prev, 0);
            if let Some(i) = first_match_from(g, prev, 0) {
                lemma_chain_below_descending(recs, range, h - 1, g[i].prev_hash@);
                if let Ok(rest) = chain_below(recs, range, h - 1, g[i].prev_hash@) {
                    let s = seq![(h as u64, small_of(g[i]))] + rest;
                    assert forall|a: int, b: int| 0 <= a < b < s.len() implies s[a].0 > s[b].0 by {
                        if a > 0 {
                            assert(s[a] == rest[a - 1]);
                        }
                        assert(s[b] == rest[b - 1]);
                    }
                    assert forall|a: int| 0 <= a < s.len() implies s[a].0 <= h by {
                        if a > 0 {
                            assert(s[a] == rest[a - 1]);
                        }
                    }
                }
            }
        }
    }
}

proof fn lemma_chain_top_descending(recs: Seq<BlockIndexRecord>, range: BlockHeightRange, h: int)
    requires
        h <= u64::MAX,
    ensures
        chain_top(recs, range, h) matches Ok(s) ==> descending_below(s, h),
    decreases h + 1,
{
    if h >= 0 {
        let g = at_height(recs, range, h);
        if g.len() == 1 {
            lemma_chain_below_descending(recs, range, h - 1, g[0].prev_hash@);
        } else {
            lemma_chain_top_descending(recs, range, h - 1);
        }
    }
}

/// The chosen chain holds one block per height, highest first.
pub proof fn law_chain_one_block_per_height(recs: Seq<BlockIndexRecord>, range: BlockHeightRange)
    ensures
        chain_selection(recs, range) matches Ok(s) ==> forall|i: int, j: int|
            0 <= i < j < s.len() ==> s[i].0 > s[j].0,
{
    lemma_chain_top_descending(recs, range, u64::MAX as int);
}

/// Below a block that names `prev` as its parent, the chain goes on with a
/// block whose hash is `prev` (the chain below each chosen block starts with
/// that block's parent).
pub proof fn law_chain_links(recs: Seq<BlockIndexRecord>, range: BlockHeightRange, h: int, prev: Seq<u8>)
    ensures
        chain_below(recs, range, h, prev) matches Ok(s) ==> (s.len() > 0 ==> s[0].1.block_hash@
            == prev),
    decreases h + 1,
{
    if h >= 0 {
        let g = at_height(recs, range, h);
        if g.len() == 0 {
            law_chain_links(recs, range, h - 1, prev);
        } else {
            lemma_first_match_bounds(g, prev, 0);
        }
    }
}

proof fn lemma_nothing_below(recs: Seq<BlockIndexRecord>, range: BlockHeightRange, h: int, prev: Seq<u8>)
    requires
        forall|k: int| k <= h ==> #[trigger] at_height(recs, range, k).len() == 0,
    ensures
        chain_below(recs, range, h, prev) == Ok::<Seq<(u64, BlockIndexRecordSmall)>, u64>(Seq::empty()),
        chain_top(recs, range, h) == Ok::<Seq<(u64, BlockIndexRecordSmall)>, u64>(Seq::empty()),
    decreases h + 1,
{
    if h >= 0 {
        assert(at_height(recs, range, h).len() == 0);
        lemma_nothing_below(recs, range, h - 1, prev);
    }
}

proof fn lemma_nothing_above(recs: Seq<BlockIndexRecord>, range: BlockHeightRange, h: int, top: int)
    requires
        0 <= top <= h,
        forall|k: int| top < k ==> #[trigger] at_height(recs, range, k).len() == 0,
    ensures
        chain_top(recs, range, h) == chain_top(recs, range, top),
    decreases h - top,
{
    if h > top {
        assert(at_height(recs, range, h).len() == 0);
        lemma_nothing_above(recs, range, h - 1, top);
    }
}

/// Chooses the best chain out of the block index records, as the node's
/// LevelDB index lists them, for the given height range.
///
/// Records outside the range, not valid, or failed are dropped. Going down
/// from the highest height, heights are skipped until one holds a single
/// record; below it, each height contributes the first of its records whose
/// hash is the previous-block hash of the block chosen above. The result
/// lists `(height, location)` pairs, highest first; the topmost single
/// record itself is not part of it. Fails when a height holds records but
/// none of them is the parent that the block above names.
pub fn select_chain(records: &Vec<BlockIndexRecord>, range: &BlockHeightRange) -> (res: Result<
    Vec<(u64, BlockIndexRecordSmall)>,
    ChainError,
>)
    ensures
        match chain_selection(records@, *range) {
            Ok(s) => res matches Ok(v) && v@ == s,
            Err(h) => res == Err::<Vec<(u64, BlockIndexRecordSmall)>, ChainError>(
                ChainError::MissingParent { height: h },
            ),
        },
{
    let ghost recs = records@;
    let mut groups: HashMap<u64, Vec<BlockIndexRecord>> = HashMap::new();
    let mut any = false;
    let mut min_h: u64 = 0;
    let mut max_h: u64 = 0;
    let n = records.len();
    let mut i: usize = 0;
    while i < n
        invariant
            n == recs.len(),
            recs == records@,
            0 <= i <= n,
            forall|h: u64| #[trigger]
                groups@.contains_key(h) <==> at_height(recs.take(i as int), *range, h as int).len() > 0,
            forall|h: u64| #[trigger]
                groups@.contains_key(h) ==> groups@[h]@ == at_height(recs.take(i as int), *range, h as int),
            forall|h: int| (h < 0 || h > u64::MAX) ==> #[trigger] at_height(recs.take(i as int), *range, h).len() == 0,
            any ==> min_h <= max_h,
            forall|h: int| (!any || h < min_h || h > max_h) ==> #[trigger] at_height(recs.take(i as int), *range, h).len() == 0,
            any ==> at_height(recs.take(i as int), *range, max_h as int).len() > 0,
        decreases n - i,
    {
        let r = records[i];
        let ghost pre = recs.take(i as int);
        proof {
            assert(recs.take(i + 1) =~= pre.push(r));
            assert forall|h: int| #[trigger] at_height(recs.take(i + 1), *range, h) == if kept(r, *range) && r.height == h {
                at_height(pre, *range, h).push(r)
            } else {
                at_height(pre, *range, h)
            } by {
                pre.lemma_filter_push(r, |x: BlockIndexRecord| kept(x, *range) && x.height == h);
            }
        }
        let lo = if range.start == 0 { 0 } else { range.start - 1 };
        let hi = match range.end { Some(e) => e, None => u64::MAX };
        let keep = lo <= r.height && r.height <= hi && r.status & BLOCK_VALID_MASK != 0
            && r.status & BLOCK_FAILED_MASK == 0;
        if keep {
            let mut bucket = match groups.remove(&r.height) {
                Some(b) => b,
                None => Vec::new(),
            };
            bucket.push(r);
            groups.insert(r.height, bucket);
            if !any {
                min_h = r.height;
                max_h = r.height;
                any = true;
            } else {
                if r.height < min_h {
                    min_h = r.height;
                }
                if r.height > max_h {
                    max_h = r.height;
                }
            }
        }
        i = i + 1;
        proof {
            assert forall|h: u64| #[trigger] groups@.contains_key(h) implies groups@[h]@ == at_height(recs.take(i as int), *range, h as int) by {
                if h != r.height {
                    assert(at_height(recs.take(i as int), *range, h as int) == at_height(pre, *range, h as int));
                }
            }
            assert forall|h: u64| #[trigger] groups@.contains_key(h) <==> at_height(recs.take(i as int), *range, h as int).len() > 0 by {
                if h != r.height {
                    assert(at_height(recs.take(i as int), *range, h as int) == at_height(pre, *range, h as int));
                }
            }
        }
    }
    proof {
        assert(recs.take(n as int) =~= recs);
    }
    let mut result: Vec<(u64, BlockIndexRecordSmall)> = Vec::new();
    if !any {
        proof {
            lemma_nothing_below(recs, *range, u64::MAX as int, Seq::empty());
        }
        return Ok(result);
    }
    proof {
        lemma_nothing_above(recs, *range, u64::MAX as int, max_h as int);
    }
    let mut prev: Option<[u8; 32]> = None;
    let mut h: u64 = max_h;
    let ghost target = chain_selection(recs, *range);
    loop
        invariant
            recs == records@,
            min_h <= h <= max_h,
            forall|k: u64| #[trigger] groups@.contains_key(k) <==> at_height(recs, *range, k as int).len() > 0,
            forall|k: u64| #[trigger] groups@.contains_key(k) ==> groups@[k]@ == at_height(recs, *range, k as int),
            forall|k: int| (k < min_h || k > max_h) ==> #[trigger] at_height(recs, *range, k).len() == 0,
            target == chain_selection(recs, *range),
            prev is None ==> result@.len() == 0 && target == chain_top(recs, *range, h as int),
            prev matches Some(p) ==> target == prepend(result@, chain_below(recs, *range, h as int, p@)),
        decreases h,
    {
        let ghost g = at_height(recs, *range, h as int);
        match groups.get(&h) {
            None => {
                proof {
                    assert(g.len() == 0);
                }
            },
            Some(bucket) => {
                match prev {
                    None => {
                        if bucket.len() == 1 {
                            prev = Some(bucket[0].prev_hash);
                        }
                    },
                    Some(p) => {
                        let mut j: usize = 0;
                        let mut found = false;
                        while j < bucket.len()
                            invariant_except_break
                                bucket@ == g,
                                !found,
                                0 <= j <= bucket.len(),
                                first_match_from(g, p@, 0) == first_match_from(g, p@, j as int),
                            ensures
                                bucket@ == g,
                                found ==> 0 <= j < bucket.len() && first_match_from(g, p@, 0) == Some(j as int),
                                !found ==> first_match_from(g, p@, 0) is None,
                            decreases bucket.len() - j,
                        {
                            if hash_eq(&bucket[j].block_hash, &p) {
                                assert(g[j as int].block_hash@ == p@);
                                assert(first_match_from(g, p@, j as int) == Some(j as int));
                                found = true;
                                break;
                            }
                            j = j + 1;
                        }
                        if !found {
                            return Err(ChainError::MissingParent { height: h });
                        }
                        let chosen = bucket[j];
                        let ghost before = result@;
                        result.push((h, BlockIndexRecordSmall::from(chosen)));
                        prev = Some(chosen.prev_hash);
                        proof {
                            assert(result@ =~= before + seq![(h, small_of(g[j as int]))]);
                            let below = chain_below(recs, *range, h - 1, g[j as int].prev_hash@);
                            match below {
                                Ok(rest) => {
                                    assert(before + (seq![(h, small_of(g[j as int]))] + rest) =~= result@ + rest);
                                },
                                Err(_) => {},
                            }
                        }
                    },
                }
            },
        }
        if h == min_h {
            proof {
                lemma_nothing_below(recs, *range, h - 1, match prev { Some(p) => p@, None => Seq::empty() });
                if let Some(p) = prev {
                    assert(result@ + Seq::<(u64, BlockIndexRecordSmall)>::empty() =~= result@);
                }
            }
            return Ok(result);
        }
        h = h - 1;
    }
}

} // verus!
