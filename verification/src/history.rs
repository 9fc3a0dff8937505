//! The numbering of the token history entries a block adds: each action
//! takes the next id for its recipient, and a send takes one more for its
//! sender, whose entry comes first.
use vstd::prelude::*;

verus! {

/// What an entry of an address's token history records of an action.
#[derive(Clone, Copy, Debug, PartialEq, Eq)]
pub enum HistoryRole {
    /// The action itself, on its recipient's history.
    Own,
    /// A send, on the sender's history.
    Sender,
    /// What a send gives, on the recipient's history.
    Receiver,
}

/// One history entry: the index of its action, its role and its id.
#[derive(Clone, Copy, Debug, PartialEq, Eq)]
pub struct HistoryEntry {
    pub action: usize,
    pub role: HistoryRole,
    pub id: u64,
}

/// How many ids the actions take: one each, and one more for each send.
pub open spec fn ids_needed(is_send: Seq<bool>) -> nat
    decreases is_send.len(),
{
    if is_send.len() == 0 {
        0
    } else {
        ids_needed(is_send.drop_last()) + if is_send.last() {
            2nat
        } else {
            1nat
        }
    }
}

/// The entries of the actions (`is_send` says which are sends), numbered
/// on from `last`, as `(action, role, id)`.
pub open spec fn history_entries(is_send: Seq<bool>, last: int) -> Seq<(int, HistoryRole, int)>
    decreases is_send.len(),
{
    if is_send.len() == 0 {
        Seq::empty()
    } else {
        let p = history_entries(is_send.drop_last(), last);
        let i = is_send.len() - 1;
        let l = last + ids_needed(is_send.drop_last());
        if is_send.last() {
            p + seq![(i, HistoryRole::Sender, l + 2), (i, HistoryRole::Receiver, l + 1)]
        } else {
            p.push((i, HistoryRole::Own, l + 1))
        }
    }
}

/// The view of a list of entries.
pub open spec fn entries_view(v: Seq<HistoryEntry>) -> Seq<(int, HistoryRole, int)> {
    v.map_values(|e: HistoryEntry| (e.action as int, e.role, e.id as int))
}

/// Numbers the history entries of a block's actions, in order, on from the
/// last id given so far: an action's recipient gets the next id; a send's
/// sender then gets one more, and the sender's entry comes before the
/// recipient's. Also returns the new last id. `requires` that the ids fit
/// in a `u64`.
pub fn number_history(is_send: &Vec<bool>, last_history_id: u64) -> (r: (Vec<HistoryEntry>, u64))
    requires
        last_history_id + ids_needed(is_send@) <= u64::MAX,
    ensures
        entries_view(r.0@) == history_entries(is_send@, last_history_id as int),
        r.1 == last_history_id + ids_needed(is_send@),
{
    let mut out: Vec<HistoryEntry> = Vec::new();
    let mut last: u64 = last_history_id;
    let mut i: usize = 0;
    while i < is_send.len()
        invariant
            i <= is_send@.len(),
            last_history_id + ids_needed(is_send@) <= u64::MAX,
            last == last_history_id + ids_needed(is_send@.take(i as int)),
            entries_view(out@) == history_entries(is_send@.take(i as int), last_history_id as int),
        decreases is_send@.len() - i,
    {
        proof {
            let t = is_send@.take(i + 1);
            assert(t.drop_last() =~= is_send@.take(i as int));
            lemma_ids_needed_prefix(is_send@, i + 1);
        }
        let ghost before = entries_view(out@);
        last = last + 1;
        let own = last;
        if is_send[i] {
            last = last + 1;
            out.push(HistoryEntry { action: i, role: HistoryRole::Sender, id: last });
            out.push(HistoryEntry { action: i, role: HistoryRole::Receiver, id: own });
            assert(entries_view(out@) =~= before + seq![
                (i as int, HistoryRole::Sender, last as int),
                (i as int, HistoryRole::Receiver, own as int),
            ]);
        } else {
            out.push(HistoryEntry { action: i, role: HistoryRole::Own, id: own });
            assert(entries_view(out@) =~= before.push((i as int, HistoryRole::Own, own as int)));
        }
        i = i + 1;
    }
    assert(is_send@.take(is_send@.len() as int) =~= is_send@);
    (out, last)
}

/// The ids of a prefix are no more than those of the whole.
proof fn lemma_ids_needed_prefix(s: Seq<bool>, n: int)
    requires
        0 <= n <= s.len(),
    ensures
        ids_needed(s.take(n)) <= ids_needed(s),
    decreases s.len() - n,
{
    if n < s.len() {
        lemma_ids_needed_prefix(s, n + 1);
        assert(s.take(n + 1).drop_last() =~= s.take(n));
    } else {
        assert(s.take(n) =~= s);
    }
}

/// A block's history entries take the ids after `last` up to
/// `last + ids_needed`, each exactly once.
pub proof fn law_history_ids(is_send: Seq<bool>, last: int)
    ensures
        history_entries(is_send, last).len() == ids_needed(is_send),
        forall|k: int|
            0 <= k < history_entries(is_send, last).len() ==> last < #[trigger] history_entries(is_send, last)[k].2
                <= last + ids_needed(is_send),
        forall|a: int, b: int|
            0 <= a < b < history_entries(is_send, last).len() ==> history_entries(is_send, last)[a].2
                != history_entries(is_send, last)[b].2,
    decreases is_send.len(),
{
    if is_send.len() > 0 {
        let q = is_send.drop_last();
        law_history_ids(q, last);
        let p = history_entries(q, last);
        let e = history_entries(is_send, last);
        assert forall|k: int| 0 <= k < p.len() implies e[k] == p[k] by {}
        assert forall|k: int| 0 <= k < e.len() implies last < #[trigger] e[k].2 <= last + ids_needed(is_send) by {
            if k < p.len() {
                assert(e[k] == p[k]);
            }
        }
        assert forall|a: int, b: int| 0 <= a < b < e.len() implies e[a].2 != e[b].2 by {
            if b < p.len() {
                assert(e[a] == p[a] && e[b] == p[b]);
            } else if a < p.len() {
                assert(e[a] == p[a]);
            }
        }
    }
}

} // verus!
