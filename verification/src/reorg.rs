//! Undo history for the most recent blocks, so that a chain reorganisation
//! can roll the indexer's state back block by block: the cache of undo
//! entries, the decisions taken before each block, and the undo entries of a
//! batch of writes.
use vstd::prelude::*;

verus! {

/// How many recent blocks keep their undo history.
pub const REORG_CACHE_MAX_LEN: usize = 30;

/// The undo entries recorded while one block was indexed, in the order they
/// were recorded.
pub struct ReorgHistoryBlock<T, O> {
    token_history: Vec<T>,
    ordinals_history: Vec<O>,
}

impl<T, O> ReorgHistoryBlock<T, O> {
    /// The token entries and the ordinals entries.
    pub closed spec fn view_pair(&self) -> (Seq<T>, Seq<O>) {
        (self.token_history@, self.ordinals_history@)
    }

    /// A block with no entries yet.
    pub fn new() -> (r: ReorgHistoryBlock<T, O>)
        ensures
            r.view_pair() == (Seq::<T>::empty(), Seq::<O>::empty()),
    {
        ReorgHistoryBlock { token_history: Vec::new(), ordinals_history: Vec::new() }
    }
}

/// What undoing one block asks of the indexer's database: the last block
/// becomes `height - 1`, the block's info is removed, and the token entries,
/// then the ordinals entries, are applied in the order given here (the
/// reverse of the order they were recorded in).
pub struct RestoreStep<T, O> {
    pub height: u32,
    pub new_last_block: u32,
    pub token_entries: Vec<T>,
    pub ordinals_entries: Vec<O>,
}

/// The recorded history of one block: its height and its two entry lists.
pub type BlockHistory<T, O> = (u32, Seq<T>, Seq<O>);

/// Heights strictly increase along the sequence.
pub open spec fn ascending<T, O>(s: Seq<BlockHistory<T, O>>) -> bool {
    forall|i: int, j: int| 0 <= i < j < s.len() ==> s[i].0 < s[j].0
}

/// How many entries (from the front) have a height below `h`.
pub open spec fn count_below<T, O>(s: Seq<BlockHistory<T, O>>, h: u32) -> int
    decreases s.len(),
{
    if s.len() == 0 || s[0].0 >= h {
        0
    } else {
        1 + count_below(s.drop_first(), h)
    }
}

/// How many entries (from the front) have a height of at most `h`.
pub open spec fn count_upto<T, O>(s: Seq<BlockHistory<T, O>>, h: u32) -> int
    decreases s.len(),
{
    if s.len() == 0 || s[0].0 > h {
        0
    } else {
        1 + count_upto(s.drop_first(), h)
    }
}

/// `s` with a fresh, empty history at height `h`: put in its place by
/// height, replacing any history that height had.
pub open spec fn with_fresh_block<T, O>(s: Seq<BlockHistory<T, O>>, h: u32) -> Seq<BlockHistory<T, O>> {
    let k = count_below(s, h);
    let fresh: BlockHistory<T, O> = (h, Seq::empty(), Seq::empty());
    if k < s.len() && s[k].0 == h {
        s.take(k) + seq![fresh] + s.skip(k + 1)
    } else {
        s.take(k) + seq![fresh] + s.skip(k)
    }
}

/// The steps that undo the histories `s`, last block first, each with its
/// entries in reverse order.
pub open spec fn undo_steps<T, O>(s: Seq<BlockHistory<T, O>>) -> Seq<(u32, u32, Seq<T>, Seq<O>)> {
    Seq::new(
        s.len(),
        |i: int|
            {
                let b = s[s.len() - 1 - i];
                (b.0, (b.0 - 1) as u32, b.1.reverse(), b.2.reverse())
            },
    )
}

/// The view of a list of restore steps.
pub open spec fn steps_view<T, O>(v: Seq<RestoreStep<T, O>>) -> Seq<(u32, u32, Seq<T>, Seq<O>)> {
    v.map_values(|r: RestoreStep<T, O>| (r.height, r.new_last_block, r.token_entries@, r.ordinals_entries@))
}

proof fn lemma_count_below<T, O>(s: Seq<BlockHistory<T, O>>, h: u32)
    requires
        ascending(s),
    ensures
        0 <= count_below(s, h) <= s.len(),
        forall|i: int| 0 <= i < count_below(s, h) ==> s[i].0 < h,
        forall|i: int| count_below(s, h) <= i < s.len() ==> s[i].0 >= h,
    decreases s.len(),
{
    if s.len() > 0 && s[0].0 < h {
        let t = s.drop_first();
        lemma_count_below(t, h);
        assert forall|i: int| 0 <= i < count_below(s, h) implies s[i].0 < h by {
            if i > 0 {
                assert(s[i] == t[i - 1]);
            }
        }
        assert forall|i: int| count_below(s, h) <= i < s.len() implies s[i].0 >= h by {
            assert(s[i] == t[i - 1]);
        }
    }
}

proof fn lemma_count_upto<T, O>(s: Seq<BlockHistory<T, O>>, h: u32)
    requires
        ascending(s),
    ensures
        0 <= count_upto(s, h) <= s.len(),
        forall|i: int| 0 <= i < count_upto(s, h) ==> s[i].0 <= h,
        forall|i: int| count_upto(s, h) <= i < s.len() ==> s[i].0 > h,
    decreases s.len(),
{
    if s.len() > 0 && s[0].0 <= h {
        let t = s.drop_first();
        lemma_count_upto(t, h);
        assert forall|i: int| 0 <= i < count_upto(s, h) implies s[i].0 <= h by {
            if i > 0 {
                assert(s[i] == t[i - 1]);
            }
        }
        assert forall|i: int| count_upto(s, h) <= i < s.len() implies s[i].0 > h by {
            assert(s[i] == t[i - 1]);
        }
    }
}

/// The undo history of the most recent blocks, at most `REORG_CACHE_MAX_LEN`
/// of them, kept in order of height.
pub struct ReorgCache<T, O> {
    blocks: Vec<(u32, ReorgHistoryBlock<T, O>)>,
    len: usize,
}

/// Reverses a vector.
fn reversed<X>(v: Vec<X>) -> (r: Vec<X>)
    ensures
        r@ == v@.reverse(),
{
    let mut v = v;
    let ghost orig = v@;
    let mut r: Vec<X> = Vec::new();
    while v.len() > 0
        invariant
            v@ == orig.take(v@.len() as int),
            r@ == orig.skip(v@.len() as int).reverse(),
            v@.len() <= orig.len(),
        decreases v@.len(),
    {
        let ghost before = v@.len();
        let x = v.pop().unwrap();
        r.push(x);
        proof {
            assert(v@ =~= orig.take(v@.len() as int));
            assert(r@ =~= orig.skip(v@.len() as int).reverse());
        }
    }
    assert(r@ =~= orig.reverse());
    r
}

impl<T, O> ReorgCache<T, O> {
    /// The recorded histories, lowest height first.
    pub closed spec fn entries(&self) -> Seq<BlockHistory<T, O>> {
        self.blocks@.map_values(|b: (u32, ReorgHistoryBlock<T, O>)| (b.0, b.1.view_pair().0, b.1.view_pair().1))
    }

    /// The cache's own invariant: at most `REORG_CACHE_MAX_LEN` blocks, in
    /// strictly increasing order of height.
    pub closed spec fn wf(&self) -> bool {
        &&& self.len == REORG_CACHE_MAX_LEN
        &&& self.blocks@.len() <= self.len
        &&& ascending(self.entries())
    }

    /// What the invariant gives callers: the histories are in strictly
    /// increasing order of height and there are at most
    /// `REORG_CACHE_MAX_LEN` of them.
    pub proof fn lemma_wf_entries(&self)
        requires
            self.wf(),
        ensures
            ascending(self.entries()),
            self.entries().len() <= REORG_CACHE_MAX_LEN,
    {
    }

    /// An empty cache.
    pub fn new() -> (r: ReorgCache<T, O>)
        ensures
            r.wf(),
            r.entries() == Seq::<BlockHistory<T, O>>::empty(),
    {
        let r = ReorgCache { blocks: Vec::new(), len: REORG_CACHE_MAX_LEN };
        assert(r.entries() =~= Seq::<BlockHistory<T, O>>::empty());
        r
    }

    /// Whether no block has history.
    pub fn is_empty(&self) -> (r: bool)
        ensures
            r == (self.entries().len() == 0),
    {
        self.blocks.len() == 0
    }

    /// Forgets every block's history.
    pub fn clear(&mut self)
        requires
            old(self).wf(),
        ensures
            final(self).wf(),
            final(self).entries() == Seq::<BlockHistory<T, O>>::empty(),
    {
        self.blocks.clear();
        assert(self.entries() =~= Seq::<BlockHistory<T, O>>::empty());
    }

    /// The highest height with history.
    pub fn last_height(&self) -> (r: Option<u32>)
        ensures
            self.entries().len() == 0 ==> r is None,
            self.entries().len() > 0 ==> r == Some(self.entries().last().0),
    {
        if self.blocks.len() == 0 {
            None
        } else {
            Some(self.blocks[self.blocks.len() - 1].0)
        }
    }

    /// Starts the history of a new block: when the cache is full the lowest
    /// block is forgotten first; then the block gets an empty history, in
    /// its place by height (replacing any history at that height).
    pub fn new_block(&mut self, block_height: u32)
        requires
            old(self).wf(),
        ensures
            final(self).wf(),
            final(self).entries() == with_fresh_block(room_for_block(old(self).entries()), block_height),
            final(self).entries().len() <= REORG_CACHE_MAX_LEN,
    {
        if self.blocks.len() == self.len {
            self.blocks.remove(0);
            assert(self.entries() =~= old(self).entries().drop_first());
        }
        let ghost s = self.entries();
        proof {
            lemma_count_below(s, block_height);
        }
        let mut idx: usize = 0;
        while idx < self.blocks.len() && self.blocks[idx].0 < block_height
            invariant
                s == self.entries(),
                0 <= idx <= s.len(),
                idx <= count_below(s, block_height),
                ascending(s),
                forall|i: int| 0 <= i < count_below(s, block_height) ==> s[i].0 < block_height,
                forall|i: int| count_below(s, block_height) <= i < s.len() ==> s[i].0 >= block_height,
            decreases s.len() - idx,
        {
            assert(s[idx as int].0 == self.blocks@[idx as int].0);
            idx = idx + 1;
        }
        if idx < self.blocks.len() {
            assert(s[idx as int].0 == self.blocks@[idx as int].0);
        }
        assert(idx == count_below(s, block_height));
        let fresh = (block_height, ReorgHistoryBlock::new());
        if idx < self.blocks.len() && self.blocks[idx].0 == block_height {
            self.blocks.remove(idx);
        }
        self.blocks.insert(idx, fresh);
        proof {
            let w = with_fresh_block(s, block_height);
            assert(self.entries() =~= w);
            assert forall|i: int, j: int| 0 <= i < j < w.len() implies w[i].0 < w[j].0 by {
                let k = idx as int;
                if i < k && j > k {
                } else if i == k {
                } else if j == k {
                }
            }
        }
    }

    /// Records a token undo entry for the newest block; `requires` a block to record it for.
    pub fn push_token_entry(&mut self, data: T)
        requires
            old(self).wf(),
            old(self).entries().len() > 0,
        ensures
            final(self).wf(),
            ({
                let s = old(self).entries();
                let b = s.last();
                final(self).entries() == s.update(s.len() - 1, (b.0, b.1.push(data), b.2))
            }),
    {
        let (h, mut b) = self.blocks.pop().unwrap();
        b.token_history.push(data);
        self.blocks.push((h, b));
        proof {
            let s = old(self).entries();
            let last = s.last();
            assert(self.entries() =~= s.update(s.len() - 1, (last.0, last.1.push(data), last.2)));
        }
    }

    /// Records an ordinals undo entry for the newest block; `requires` a block to record it for.
    pub fn push_ordinals_entry(&mut self, data: O)
        requires
            old(self).wf(),
            old(self).entries().len() > 0,
        ensures
            final(self).wf(),
            ({
                let s = old(self).entries();
                let b = s.last();
                final(self).entries() == s.update(s.len() - 1, (b.0, b.1, b.2.push(data)))
            }),
    {
        let (h, mut b) = self.blocks.pop().unwrap();
        b.ordinals_history.push(data);
        self.blocks.push((h, b));
        proof {
            let s = old(self).entries();
            let last = s.last();
            assert(self.entries() =~= s.update(s.len() - 1, (last.0, last.1, last.2.push(data))));
        }
    }

    /// Takes out the history of every block above `block_height` and returns
    /// what undoing them asks of the database, highest block first.
    pub fn restore(&mut self, block_height: u32) -> (steps: Vec<RestoreStep<T, O>>)
        requires
            old(self).wf(),
        ensures
            final(self).wf(),
            final(self).entries() == old(self).entries().take(count_upto(old(self).entries(), block_height)),
            steps_view(steps@) == undo_steps(old(self).entries().skip(count_upto(old(self).entries(), block_height))),
            forall|i: int| 0 <= i < final(self).entries().len() ==> #[trigger] final(self).entries()[i].0 <= block_height,
    {
        let ghost s = self.entries();
        proof {
            lemma_count_upto(s, block_height);
        }
        let ghost k = count_upto(s, block_height);
        let mut steps: Vec<RestoreStep<T, O>> = Vec::new();
        while self.blocks.len() > 0 && block_height < self.blocks[self.blocks.len() - 1].0
            invariant
                self.len == REORG_CACHE_MAX_LEN,
                0 <= k <= s.len(),
                forall|i: int| 0 <= i < k ==> s[i].0 <= block_height,
                forall|i: int| k <= i < s.len() ==> s[i].0 > block_height,
                k <= self.entries().len() <= s.len(),
                self.entries() == s.take(self.entries().len() as int),
                steps_view(steps@) == undo_steps(s.skip(self.entries().len() as int)),
                ascending(s),
            decreases self.blocks@.len(),
        {
            let ghost n = self.entries().len();
            let ghost bb = self.blocks@;
            assert(self.entries()[n - 1].0 == bb[n - 1].0);
            let (height, block) = self.blocks.pop().unwrap();
            let ReorgHistoryBlock { token_history, ordinals_history } = block;
            proof {
                assert(bb[n - 1] == (height, ReorgHistoryBlock { token_history, ordinals_history }));
                assert(s.take(n as int)[n - 1] == s[n - 1]);
                assert(s[n - 1] == (height, token_history@, ordinals_history@));
            }
            let token_entries = reversed(token_history);
            let ordinals_entries = reversed(ordinals_history);
            steps.push(RestoreStep { height, new_last_block: height - 1, token_entries, ordinals_entries });
            proof {
                assert(self.entries() =~= s.take(n - 1));
                let u = s.skip(n - 1);
                let w = s.skip(n as int);
                let prev_view = undo_steps(w);
                let step_view = (height, (height - 1) as u32, token_history@.reverse(), ordinals_history@.reverse());
                assert(steps_view(steps@) =~= prev_view.push(step_view));
                assert(undo_steps(u) =~= prev_view.push(step_view)) by {
                    assert forall|i: int| 0 <= i < u.len() implies #[trigger] undo_steps(u)[i] == prev_view.push(step_view)[i] by {
                        if i < u.len() - 1 {
                            assert(u[u.len() - 1 - i] == w[w.len() - 1 - i]);
                        } else {
                            assert(u[0] == s[n - 1]);
                        }
                    }
                }
            }
        }
        proof {
            let m = self.entries().len() as int;
            if m > k {
                assert(self.entries()[m - 1].0 == self.blocks@[m - 1].0);
                assert(s.take(m)[m - 1] == s[m - 1]);
                assert(s[m - 1].0 > block_height);
            }
            assert(self.entries().len() == k);
            assert forall|i: int, j: int| 0 <= i < j < self.entries().len() implies self.entries()[i].0 < self.entries()[j].0 by {
                assert(self.entries()[i] == s[i]);
                assert(self.entries()[j] == s[j]);
            }
        }
        steps
    }

    /// Takes out every block's history above height zero (see `restore`).
    pub fn restore_all(&mut self) -> (steps: Vec<RestoreStep<T, O>>)
        requires
            old(self).wf(),
        ensures
            final(self).wf(),
            final(self).entries() == old(self).entries().take(count_upto(old(self).entries(), 0)),
            steps_view(steps@) == undo_steps(old(self).entries().skip(count_upto(old(self).entries(), 0))),
    {
        self.restore(0)
    }
}

/// What the indexer does around one block from the chain, decided before
/// the block is indexed.
pub struct BlockPlan<T, O> {
    /// Whether the block is recent enough for its undo history to be kept.
    pub handle_reorgs: bool,
    /// The height the chain was rolled back to, when the event reported a
    /// reorganisation.
    pub restore_height: Option<u32>,
    /// The undo steps of that roll-back, highest block first.
    pub restore: Vec<RestoreStep<T, O>>,
}

/// Why the indexer stops before a block.
#[derive(Debug, Clone, Copy, PartialEq, Eq)]
pub enum IndexError {
    /// The newest block with history is not the block below the new one:
    /// `Wrong reorg cache tip height. Expected {expected}, got {got}`.
    WrongReorgTip { expected: u64, got: u32 },
}

/// Whether a block at `height`, with the chain's tip at `tip`, is among the
/// blocks whose undo history is kept.
pub open spec fn keeps_history(height: u64, tip: u64) -> bool {
    height > tip - REORG_CACHE_MAX_LEN
}

/// The height the indexer rolls back to when `reorg_len` blocks were
/// reorganised after it indexed `prev_height`.
pub open spec fn restore_target(prev_height: Option<u64>, reorg_len: u64) -> u32 {
    let prev: u64 = match prev_height {
        Some(p) => p,
        None => 0,
    };
    (if prev >= reorg_len { prev - reorg_len } else { 0 }) as u32
}

impl<T, O> ReorgCache<T, O> {
    /// The decisions the indexer makes when the chain hands it the block at
    /// `height` (with the tip at `tip`, after a reorganisation of `reorg_len`
    /// blocks, the previous block indexed being `prev_height`): history is kept
    /// only for the newest blocks, so older blocks clear the cache; a
    /// reorganisation rolls the cache back to `restore_target`; then the newest
    /// block with history must be the one just below `height`.
    pub fn prepare_block(
        &mut self,
        prev_height: Option<u64>,
        height: u64,
        tip: u64,
        reorg_len: u64,
    ) -> (r: Result<BlockPlan<T, O>, IndexError>)
        requires
            old(self).wf(),
            tip >= REORG_CACHE_MAX_LEN,
        ensures
            final(self).wf(),
            ({
                let handle = keeps_history(height, tip);
                let s1 = if !handle {
                    Seq::<BlockHistory<T, O>>::empty()
                } else {
                    old(self).entries()
                };
                let rh = restore_target(prev_height, reorg_len);
                let k = count_upto(s1, rh);
                let s2 = if reorg_len > 0 { s1.take(k) } else { s1 };
                &&& final(self).entries() == s2
                &&& match r {
                    Ok(plan) => {
                        &&& plan.handle_reorgs == handle
                        &&& plan.restore_height == (if reorg_len > 0 { Some(rh) } else { None::<u32> })
                        &&& steps_view(plan.restore@) == (if reorg_len > 0 {
                            undo_steps(s1.skip(k))
                        } else {
                            Seq::empty()
                        })
                        &&& (s2.len() > 0 ==> s2.last().0 + 1 == height as u32)
                    },
                    Err(e) => {
                        &&& s2.len() > 0
                        &&& s2.last().0 + 1 != height as u32
                        &&& e == IndexError::WrongReorgTip {
                            expected: (s2.last().0 + 1) as u64,
                            got: height as u32,
                        }
                    },
                }
            }),
    {
        let handle_reorgs = height > tip - REORG_CACHE_MAX_LEN as u64;
        if !self.is_empty() && !handle_reorgs {
            self.clear();
        }
        proof {
            if !handle_reorgs {
                assert(self.entries() =~= Seq::<BlockHistory<T, O>>::empty());
            }
        }
        let mut restore: Vec<RestoreStep<T, O>> = Vec::new();
        let mut restore_height: Option<u32> = None;
        if reorg_len > 0 {
            let prev: u64 = match prev_height {
                Some(p) => p,
                None => 0,
            };
            let target = prev.saturating_sub(reorg_len) as u32;
            restore = self.restore(target);
            restore_height = Some(target);
        }
        proof {
            if reorg_len == 0 {
                assert(steps_view(restore@) =~= Seq::empty());
            }
        }
        match self.last_height() {
            Some(last) => {
                if last as u64 + 1 != (height as u32) as u64 {
                    return Err(IndexError::WrongReorgTip { expected: last as u64 + 1, got: height as u32 });
                }
            },
            None => {},
        }
        Ok(BlockPlan { handle_reorgs, restore_height, restore })
    }
}

/// Starting a new block above every block with history and then rolling back
/// to the height below it gives back exactly the earlier histories, with one
/// step that undoes the new, still empty, block.
pub proof fn law_restore_undoes_new_block<T, O>(s: Seq<BlockHistory<T, O>>, h: u32)
    requires
        ascending(s),
        h > 0,
        forall|i: int| 0 <= i < s.len() ==> #[trigger] s[i].0 < h,
    ensures
        ({
            let w = with_fresh_block(s, h);
            let k = count_upto(w, (h - 1) as u32);
            &&& w.take(k) == s
            &&& undo_steps(w.skip(k)) == seq![(h, (h - 1) as u32, Seq::<T>::empty(), Seq::<O>::empty())]
        }),
{
    lemma_count_below(s, h);
    let k0 = count_below(s, h);
    if k0 < s.len() {
        assert(s[k0].0 < h);
    }
    assert(k0 == s.len());
    let w = with_fresh_block(s, h);
    assert(w =~= s.push((h, Seq::<T>::empty(), Seq::<O>::empty())));
    assert(ascending(w));
    lemma_count_upto(w, (h - 1) as u32);
    let k = count_upto(w, (h - 1) as u32);
    if k < s.len() {
        assert(w[k] == s[k]);
        assert(s[k].0 < h);
    }
    if k > s.len() {
        assert(w[s.len() as int].0 == h);
    }
    assert(k == s.len());
    assert(w.take(k) =~= s);
    assert(w.skip(k) =~= seq![(h, Seq::<T>::empty(), Seq::<O>::empty())]);
    assert(Seq::<T>::empty().reverse() =~= Seq::<T>::empty());
    assert(Seq::<O>::empty().reverse() =~= Seq::<O>::empty());
    assert(undo_steps(w.skip(k)) =~= seq![(h, (h - 1) as u32, Seq::<T>::empty(), Seq::<O>::empty())]);
}

/// A whole block undone: on a cache of fewer than `REORG_CACHE_MAX_LEN`
/// blocks, all below `h`, start block `h`, record as its one entry the undo
/// of its batch of writes to a store, and roll back to `h - 1`. The cache
/// gets back exactly its earlier histories; the one step handed back is for
/// block `h` and holds exactly that entry; and applying the entry to the
/// written store (remove the keys it created, write back the earlier
/// values) gives the store from before the block.
pub proof fn law_undo_block<K, V, O>(
    s: Seq<BlockHistory<(Seq<(K, V)>, Seq<K>), O>>,
    h: u32,
    store: Map<K, V>,
    writes: Seq<(K, V)>,
    before: Seq<Option<V>>,
)
    requires
        ascending(s),
        s.len() < REORG_CACHE_MAX_LEN,
        h > 0,
        forall|i: int| 0 <= i < s.len() ==> #[trigger] s[i].0 < h,
        before.len() == writes.len(),
        forall|i: int|
            0 <= i < writes.len() ==> #[trigger] before[i] == (if store.contains_key(writes[i].0) {
                Some(store[writes[i].0])
            } else {
                None
            }),
    ensures
        ({
            let entry = (restore_pairs(writes, before), created_keys(writes, before));
            let w0 = with_fresh_block(room_for_block(s), h);
            let last = w0.last();
            let w = w0.update(w0.len() - 1, (last.0, last.1.push(entry), last.2));
            let k = count_upto(w, (h - 1) as u32);
            let steps = undo_steps(w.skip(k));
            &&& w0.len() > 0
            &&& w.take(k) == s
            &&& steps == seq![(h, (h - 1) as u32, seq![entry], Seq::<O>::empty())]
            &&& apply_writes(
                apply_removals(apply_writes(store, writes), steps[0].2[0].1),
                steps[0].2[0].0,
            ) == store
        }),
{
    let entry = (restore_pairs(writes, before), created_keys(writes, before));
    assert(room_for_block(s) == s);
    lemma_count_below(s, h);
    let k0 = count_below(s, h);
    if k0 < s.len() {
        assert(s[k0].0 < h);
    }
    assert(k0 == s.len());
    let w0 = with_fresh_block(s, h);
    assert(w0 =~= s.push((h, Seq::<(Seq<(K, V)>, Seq<K>)>::empty(), Seq::<O>::empty())));
    let last = w0.last();
    let w = w0.update(w0.len() - 1, (last.0, last.1.push(entry), last.2));
    assert(Seq::<(Seq<(K, V)>, Seq<K>)>::empty().push(entry) =~= seq![entry]);
    assert(w =~= s.push((h, seq![entry], Seq::<O>::empty())));
    assert(ascending(w));
    lemma_count_upto(w, (h - 1) as u32);
    let k = count_upto(w, (h - 1) as u32);
    if k < s.len() {
        assert(w[k] == s[k]);
        assert(s[k].0 < h);
    }
    if k > s.len() {
        assert(w[s.len() as int].0 == h);
    }
    assert(k == s.len());
    assert(w.take(k) =~= s);
    assert(w.skip(k) =~= seq![(h, seq![entry], Seq::<O>::empty())]);
    assert(seq![entry].reverse() =~= seq![entry]);
    assert(Seq::<O>::empty().reverse() =~= Seq::<O>::empty());
    assert(undo_steps(w.skip(k)) =~= seq![(h, (h - 1) as u32, seq![entry], Seq::<O>::empty())]);
    law_undo_restores_store(store, writes, before);
}

/// What a fresh block's history does to an ordered list of histories.
#[verifier::spinoff_prover]
#[verifier::rlimit(40)]
proof fn lemma_with_fresh_block<T, O>(t: Seq<BlockHistory<T, O>>, h: u32)
    requires
        ascending(t),
    ensures
        ({
            let w = with_fresh_block(t, h);
            &&& w.len() <= t.len() + 1
            &&& ascending(w)
            &&& exists|k: int| 0 <= k < w.len() && w[k] == (h, Seq::<T>::empty(), Seq::<O>::empty())
            &&& forall|i: int| 0 <= i < t.len() && t[i].0 != h ==> w.contains(t[i])
            &&& forall|j: int| 0 <= j < w.len() && w[j].0 != h ==> t.contains(w[j])
        }),
{
    lemma_count_below(t, h);
    let k = count_below(t, h);
    let fresh: BlockHistory<T, O> = (h, Seq::empty(), Seq::empty());
    let w = with_fresh_block(t, h);
    let replaced = k < t.len() && t[k].0 == h;
    let skip = if replaced { k + 1 } else { k };
    assert(w == t.take(k) + seq![fresh] + t.skip(skip));
    assert(w[k] == fresh);
    assert forall|i: int| 0 <= i < t.len() && t[i].0 != h implies w.contains(t[i]) by {
        if i < k {
            assert(w[i] == t[i]);
        } else {
            assert(w[i - skip + k + 1] == t[i]);
        }
    }
    assert forall|j: int| 0 <= j < w.len() && w[j].0 != h implies t.contains(w[j]) by {
        if j < k {
            assert(w[j] == t[j]);
        } else {
            assert(w[j] == t[j - k - 1 + skip]);
        }
    }
    assert forall|a: int, b: int| 0 <= a < b < w.len() implies w[a].0 < w[b].0 by {
        if b < k {
            assert(w[a] == t[a] && w[b] == t[b]);
        } else if b == k {
            assert(w[a] == t[a]);
        } else if a < k {
            assert(w[a] == t[a] && w[b] == t[b - k - 1 + skip]);
        } else if a == k {
            assert(w[b] == t[b - k - 1 + skip]);
        } else {
            assert(w[a] == t[a - k - 1 + skip] && w[b] == t[b - k - 1 + skip]);
        }
    }
}

/// The histories left once the lowest block is forgotten from a full cache.
pub open spec fn room_for_block<T, O>(s: Seq<BlockHistory<T, O>>) -> Seq<BlockHistory<T, O>> {
    if s.len() == REORG_CACHE_MAX_LEN {
        s.drop_first()
    } else {
        s
    }
}

/// Starting a block's history on a cache of at most `REORG_CACHE_MAX_LEN`
/// blocks (what `new_block` does): the cache stays within that size and in
/// order; the block has a fresh, empty history; every other block kept
/// keeps its history; and on a full cache the lowest block is forgotten.
pub proof fn law_new_block<T, O>(s: Seq<BlockHistory<T, O>>, h: u32)
    requires
        ascending(s),
        s.len() <= REORG_CACHE_MAX_LEN,
    ensures
        with_fresh_block(room_for_block(s), h).len() <= REORG_CACHE_MAX_LEN,
        ascending(with_fresh_block(room_for_block(s), h)),
        exists|k: int|
            0 <= k < with_fresh_block(room_for_block(s), h).len()
                && #[trigger] with_fresh_block(room_for_block(s), h)[k] == (
                h,
                Seq::<T>::empty(),
                Seq::<O>::empty(),
            ),
        forall|i: int|
            0 <= i < room_for_block(s).len() && #[trigger] room_for_block(s)[i].0 != h
                ==> with_fresh_block(room_for_block(s), h).contains(room_for_block(s)[i]),
        forall|j: int|
            0 <= j < with_fresh_block(room_for_block(s), h).len()
                && #[trigger] with_fresh_block(room_for_block(s), h)[j].0 != h
                ==> room_for_block(s).contains(with_fresh_block(room_for_block(s), h)[j]),
        s.len() == REORG_CACHE_MAX_LEN ==> forall|j: int|
            0 <= j < with_fresh_block(room_for_block(s), h).len() && s[0].0 != h
                ==> #[trigger] with_fresh_block(room_for_block(s), h)[j].0 != s[0].0,
{
    let t = room_for_block(s);
    assert(ascending(t)) by {
        if s.len() == REORG_CACHE_MAX_LEN {
            assert forall|i: int, j: int| 0 <= i < j < t.len() implies t[i].0 < t[j].0 by {
                assert(t[i] == s[i + 1] && t[j] == s[j + 1]);
            }
        }
    }
    lemma_with_fresh_block(t, h);
    let w = with_fresh_block(t, h);
    assert(w.len() <= REORG_CACHE_MAX_LEN);
    if s.len() == REORG_CACHE_MAX_LEN {
        assert forall|j: int| 0 <= j < w.len() && s[0].0 != h implies #[trigger] w[j].0 != s[0].0 by {
            if w[j].0 != h {
                assert(t.contains(w[j]));
                let i = choose|i: int| 0 <= i < t.len() && t[i] == w[j];
                assert(t[i] == s[i + 1]);
                assert(s[0].0 < s[i + 1].0);
            }
        }
    }
}

/// The pairs that put back the earlier values of written keys: for each
/// write whose key had a value before (`before[i]`), the key and that value,
/// in the order of the writes.
pub open spec fn restore_pairs<K, V>(writes: Seq<(K, V)>, before: Seq<Option<V>>) -> Seq<(K, V)>
    decreases writes.len(),
{
    if writes.len() == 0 {
        Seq::empty()
    } else {
        let rest = restore_pairs(writes.drop_last(), before.take(writes.len() - 1));
        match before[writes.len() - 1] {
            Some(v) => rest.push((writes.last().0, v)),
            None => rest,
        }
    }
}

/// The keys that a batch of writes created: those that had no value before.
pub open spec fn created_keys<K, V>(writes: Seq<(K, V)>, before: Seq<Option<V>>) -> Seq<K>
    decreases writes.len(),
{
    if writes.len() == 0 {
        Seq::empty()
    } else {
        let rest = created_keys(writes.drop_last(), before.take(writes.len() - 1));
        match before[writes.len() - 1] {
            Some(_) => rest,
            None => rest.push(writes.last().0),
        }
    }
}

/// A store after a batch of writes, applied in order.
pub open spec fn apply_writes<K, V>(s: Map<K, V>, w: Seq<(K, V)>) -> Map<K, V>
    decreases w.len(),
{
    if w.len() == 0 {
        s
    } else {
        apply_writes(s, w.drop_last()).insert(w.last().0, w.last().1)
    }
}

/// A store after a batch of keys is removed.
pub open spec fn apply_removals<K, V>(s: Map<K, V>, ks: Seq<K>) -> Map<K, V>
    decreases ks.len(),
{
    if ks.len() == 0 {
        s
    } else {
        apply_removals(s, ks.drop_last()).remove(ks.last())
    }
}

/// The undo entries of a batch of writes, given what each written key held
/// before the batch (`None` where it held nothing): the pairs that restore
/// the earlier values, and the keys that the batch created.
pub fn undo_of_writes<K: Copy, V: Copy>(writes: &Vec<(K, V)>, before: &Vec<Option<V>>) -> (r: (
    Vec<(K, V)>,
    Vec<K>,
))
    requires
        before@.len() == writes@.len(),
    ensures
        r.0@ == restore_pairs(writes@, before@),
        r.1@ == created_keys(writes@, before@),
{
    let mut restore: Vec<(K, V)> = Vec::new();
    let mut created: Vec<K> = Vec::new();
    let mut i: usize = 0;
    while i < writes.len()
        invariant
            i <= writes@.len() == before@.len(),
            restore@ == restore_pairs(writes@.take(i as int), before@.take(i as int)),
            created@ == created_keys(writes@.take(i as int), before@.take(i as int)),
        decreases writes@.len() - i,
    {
        let (k, _) = writes[i];
        proof {
            let w1 = writes@.take(i + 1);
            let b1 = before@.take(i + 1);
            assert(w1.drop_last() =~= writes@.take(i as int));
            assert(b1.take(i as int) =~= before@.take(i as int));
        }
        match before[i] {
            Some(v) => restore.push((k, v)),
            None => created.push(k),
        }
        i = i + 1;
    }
    assert(writes@.take(writes@.len() as int) =~= writes@);
    assert(before@.take(before@.len() as int) =~= before@);
    (restore, created)
}

/// What a store holds for `k` after a batch of writes: the value of some
/// write to `k`, or, when none writes to `k`, what it held before.
proof fn lemma_apply_writes<K, V>(s: Map<K, V>, w: Seq<(K, V)>, k: K)
    ensures
        (exists|i: int| 0 <= i < w.len() && w[i].0 == k) ==> apply_writes(s, w).contains_key(k) && exists|i: int|
            0 <= i < w.len() && w[i].0 == k && apply_writes(s, w)[k] == w[i].1,
        (forall|i: int| 0 <= i < w.len() ==> w[i].0 != k) ==> (apply_writes(s, w).contains_key(k)
            == s.contains_key(k) && (s.contains_key(k) ==> apply_writes(s, w)[k] == s[k])),
    decreases w.len(),
{
    if w.len() > 0 {
        let p = w.drop_last();
        lemma_apply_writes(s, p, k);
        let n = w.len() - 1;
        if w[n].0 == k {
            assert(apply_writes(s, w)[k] == w[n].1);
        } else {
            if exists|i: int| 0 <= i < w.len() && w[i].0 == k {
                let i = choose|i: int| 0 <= i < w.len() && w[i].0 == k;
                assert(p[i] == w[i]);
                let j = choose|j: int| 0 <= j < p.len() && p[j].0 == k && apply_writes(s, p)[k] == p[j].1;
                assert(w[j] == p[j]);
            }
            if forall|i: int| 0 <= i < w.len() ==> w[i].0 != k {
                assert forall|i: int| 0 <= i < p.len() implies p[i].0 != k by {
                    assert(p[i] == w[i]);
                }
            }
        }
    }
}

/// What a store holds for `k` after a batch of removals.
proof fn lemma_apply_removals<K, V>(s: Map<K, V>, ks: Seq<K>, k: K)
    ensures
        apply_removals(s, ks).contains_key(k) == (s.contains_key(k) && !ks.contains(k)),
        apply_removals(s, ks).contains_key(k) ==> apply_removals(s, ks)[k] == s[k],
    decreases ks.len(),
{
    if ks.len() > 0 {
        let p = ks.drop_last();
        lemma_apply_removals(s, p, k);
        if p.contains(k) {
            let i = choose|i: int| 0 <= i < p.len() && p[i] == k;
            assert(ks[i] == k);
        }
        if ks.contains(k) && ks.last() != k {
            let i = choose|i: int| 0 <= i < ks.len() && ks[i] == k;
            assert(p[i] == k);
        }
    }
}

/// Which keys the restore pairs and the created keys hold, and with what.
proof fn lemma_undo_entries<K, V>(writes: Seq<(K, V)>, before: Seq<Option<V>>, k: K)
    requires
        before.len() == writes.len(),
    ensures
        created_keys(writes, before).contains(k) <==> exists|i: int|
            0 <= i < writes.len() && writes[i].0 == k && before[i] is None,
        forall|j: int|
            0 <= j < restore_pairs(writes, before).len() && restore_pairs(writes, before)[j].0 == k ==> exists|
                i: int,
            | 0 <= i < writes.len() && writes[i].0 == k && before[i] == Some(restore_pairs(writes, before)[j].1),
        forall|i: int|
            0 <= i < writes.len() && writes[i].0 == k && before[i] is Some ==> exists|j: int|
                0 <= j < restore_pairs(writes, before).len() && restore_pairs(writes, before)[j].0 == k,
    decreases writes.len(),
{
    if writes.len() > 0 {
        let n = writes.len() - 1;
        let pw = writes.drop_last();
        let pb = before.take(n);
        lemma_undo_entries(pw, pb, k);
        let r0 = restore_pairs(pw, pb);
        let c0 = created_keys(pw, pb);
        let r = restore_pairs(writes, before);
        let c = created_keys(writes, before);
        assert forall|i: int| 0 <= i < pw.len() implies pw[i] == writes[i] && pb[i] == before[i] by {}
        assert(c.contains(k) <==> exists|i: int| 0 <= i < writes.len() && writes[i].0 == k && before[i] is None) by {
            if c.contains(k) {
                let j = choose|j: int| 0 <= j < c.len() && c[j] == k;
                if j < c0.len() {
                    assert(c0[j] == k);
                    assert(c0.contains(k));
                    let i = choose|i: int| 0 <= i < pw.len() && pw[i].0 == k && pb[i] is None;
                    assert(writes[i].0 == k && before[i] is None);
                } else {
                    assert(writes[n].0 == k && before[n] is None);
                }
            }
            if exists|i: int| 0 <= i < writes.len() && writes[i].0 == k && before[i] is None {
                let i = choose|i: int| 0 <= i < writes.len() && writes[i].0 == k && before[i] is None;
                if i < n {
                    assert(pw[i].0 == k && pb[i] is None);
                    assert(c0.contains(k));
                    let j = choose|j: int| 0 <= j < c0.len() && c0[j] == k;
                    assert(c[j] == k);
                } else {
                    assert(c[c.len() - 1] == k);
                }
            }
        }
        assert forall|j: int|
            0 <= j < r.len() && r[j].0 == k implies exists|i: int|
                0 <= i < writes.len() && writes[i].0 == k && before[i] == Some(r[j].1) by {
            if j < r0.len() {
                assert(r[j] == r0[j]);
                let i = choose|i: int| 0 <= i < pw.len() && pw[i].0 == k && pb[i] == Some(r0[j].1);
                assert(writes[i].0 == k && before[i] == Some(r[j].1));
            } else {
                assert(writes[n].0 == k && before[n] == Some(r[j].1));
            }
        }
        assert forall|i: int|
            0 <= i < writes.len() && writes[i].0 == k && before[i] is Some implies exists|j: int|
                0 <= j < r.len() && r[j].0 == k by {
            if i < n {
                assert(pw[i].0 == k && pb[i] is Some);
                let j = choose|j: int| 0 <= j < r0.len() && r0[j].0 == k;
                assert(r[j] == r0[j]);
            } else {
                assert(r[r.len() - 1].0 == k);
            }
        }
    }
}

/// Undoing a block's batch of writes puts the store back as it was: after
/// the writes, removing the keys they created and writing back the earlier
/// values (in either order) gives the store from before the batch.
pub proof fn law_undo_restores_store<K, V>(s: Map<K, V>, writes: Seq<(K, V)>, before: Seq<Option<V>>)
    requires
        before.len() == writes.len(),
        forall|i: int|
            0 <= i < writes.len() ==> #[trigger] before[i] == (if s.contains_key(writes[i].0) {
                Some(s[writes[i].0])
            } else {
                None
            }),
    ensures
        apply_writes(apply_removals(apply_writes(s, writes), created_keys(writes, before)), restore_pairs(writes, before)) == s,
        apply_removals(apply_writes(apply_writes(s, writes), restore_pairs(writes, before)), created_keys(writes, before)) == s,
{
    let m = apply_writes(s, writes);
    let r = restore_pairs(writes, before);
    let c = created_keys(writes, before);
    let a = apply_writes(apply_removals(m, c), r);
    let b = apply_removals(apply_writes(m, r), c);
    assert forall|k: K| #[trigger] a.contains_key(k) == s.contains_key(k) && (a.contains_key(k) ==> a[k] == s[k])
        && b.contains_key(k) == s.contains_key(k) && (b.contains_key(k) ==> b[k] == s[k]) by {
        lemma_undo_entries(writes, before, k);
        lemma_apply_writes(s, writes, k);
        lemma_apply_removals(m, c, k);
        lemma_apply_writes(apply_removals(m, c), r, k);
        lemma_apply_writes(m, r, k);
        lemma_apply_removals(apply_writes(m, r), c, k);
        if exists|i: int| 0 <= i < writes.len() && writes[i].0 == k {
            let i = choose|i: int| 0 <= i < writes.len() && writes[i].0 == k;
            assert(before[i] == (if s.contains_key(k) { Some(s[k]) } else { None }));
            if s.contains_key(k) {
                assert forall|j: int| 0 <= j < r.len() && r[j].0 == k implies r[j].1 == s[k] by {
                    let i2 = choose|i2: int| 0 <= i2 < writes.len() && writes[i2].0 == k && before[i2] == Some(r[j].1);
                    assert(before[i2] == Some(s[k]));
                }
                assert(!c.contains(k)) by {
                    if c.contains(k) {
                        let i3 = choose|i3: int| 0 <= i3 < writes.len() && writes[i3].0 == k && before[i3] is None;
                        assert(before[i3] == Some(s[k]));
                    }
                }
                let j = choose|j: int| 0 <= j < r.len() && r[j].0 == k;
                assert(exists|j: int| 0 <= j < r.len() && r[j].0 == k);
            } else {
                assert(c.contains(k));
                assert forall|j: int| 0 <= j < r.len() implies r[j].0 != k by {
                    if r[j].0 == k {
                        let i2 = choose|i2: int| 0 <= i2 < writes.len() && writes[i2].0 == k && before[i2] == Some(r[j].1);
                        assert(before[i2] is None);
                    }
                }
            }
        } else {
            assert(!c.contains(k));
            assert forall|j: int| 0 <= j < r.len() implies r[j].0 != k by {
                if r[j].0 == k {
                    let i2 = choose|i2: int| 0 <= i2 < writes.len() && writes[i2].0 == k && before[i2] == Some(r[j].1);
                }
            }
        }
    }
    assert(a =~= s);
    assert(b =~= s);
}

} // verus!
