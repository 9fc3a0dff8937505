//! The previous outputs a block deals with: the outputs it creates (all but
//! the provably unspendable ones), the outputs its inputs spend (each once),
//! and where the value of each spent output is found.
use vstd::prelude::*;
use crate::block_index::hash_eq;
use crate::script::{check_unspendable, is_provable_unspendable};
use crate::tokens::{OutPoint, Txid};

verus! {

broadcast use vstd::array::group_array_axioms;

/// A transaction output: its value and the script it pays to.
#[derive(Clone)]
pub struct TxOutput {
    pub value: u64,
    pub script_pubkey: Vec<u8>,
}

/// What the bookkeeping of previous outputs reads of a transaction.
pub struct BlockTx {
    pub txid: Txid,
    pub is_coinbase: bool,
    pub inputs: Vec<OutPoint>,
    pub outputs: Vec<TxOutput>,
}

/// Whether two outputs are the same.
pub fn outpoint_eq(a: &OutPoint, b: &OutPoint) -> (r: bool)
    ensures
        r == (*a == *b),
{
    let same = hash_eq(&a.txid.0, &b.txid.0);
    proof {
        if same {
            assert(a.txid.0 =~= b.txid.0);
        }
    }
    same && a.vout == b.vout
}

/// The outputs in `s`, each once, in the order they first occur.
pub open spec fn first_occurrences(s: Seq<OutPoint>) -> Seq<OutPoint>
    decreases s.len(),
{
    if s.len() == 0 {
        Seq::empty()
    } else {
        let p = first_occurrences(s.drop_last());
        if s.drop_last().contains(s.last()) {
            p
        } else {
            p.push(s.last())
        }
    }
}

/// Whether `v` holds `x`.
fn holds(v: &Vec<OutPoint>, x: &OutPoint) -> (r: bool)
    ensures
        r == v@.contains(*x),
{
    let mut i: usize = 0;
    while i < v.len()
        invariant
            i <= v@.len(),
            forall|j: int| 0 <= j < i ==> v@[j] != *x,
        decreases v@.len() - i,
    {
        if outpoint_eq(&v[i], x) {
            assert(v@[i as int] == *x);
            return true;
        }
        i = i + 1;
    }
    false
}

/// First occurrences hold exactly what the sequence holds.
proof fn lemma_first_occurrences_contains(s: Seq<OutPoint>, x: OutPoint)
    ensures
        first_occurrences(s).contains(x) == s.contains(x),
    decreases s.len(),
{
    if s.len() > 0 {
        let p = s.drop_last();
        lemma_first_occurrences_contains(p, x);
        if s.contains(x) && x != s.last() {
            let i = choose|i: int| 0 <= i < s.len() && s[i] == x;
            assert(p[i] == x);
        }
        if p.contains(x) {
            let i = choose|i: int| 0 <= i < p.len() && p[i] == x;
            assert(s[i] == x);
        }
        let f = first_occurrences(p);
        if !p.contains(s.last()) && f.push(s.last()).contains(x) && x != s.last() {
            let i = choose|i: int| 0 <= i < f.push(s.last()).len() && f.push(s.last())[i] == x;
            assert(f[i] == x);
        }
        if f.contains(x) {
            let i = choose|i: int| 0 <= i < f.len() && f[i] == x;
            assert(f.push(s.last())[i] == x);
        }
        if x == s.last() && !p.contains(s.last()) {
            assert(f.push(s.last())[f.len() as int] == x);
        }
    }
}

/// The outputs in `keys`, each once, in the order they first occur.
pub fn unique_outpoints(keys: &Vec<OutPoint>) -> (r: Vec<OutPoint>)
    ensures
        r@ == first_occurrences(keys@),
{
    let mut out: Vec<OutPoint> = Vec::new();
    let mut i: usize = 0;
    while i < keys.len()
        invariant
            i <= keys@.len(),
            out@ == first_occurrences(keys@.take(i as int)),
        decreases keys@.len() - i,
    {
        let x = keys[i];
        proof {
            lemma_first_occurrences_contains(keys@.take(i as int), x);
            assert(keys@.take(i + 1).drop_last() =~= keys@.take(i as int));
            assert(keys@.take(i + 1).last() == x);
        }
        if !holds(&out, &x) {
            out.push(x);
        }
        i = i + 1;
    }
    assert(keys@.take(keys@.len() as int) =~= keys@);
    out
}

/// The outputs that the inputs of the block's transactions spend, coinbase
/// transactions left out, in order.
pub open spec fn spent_inputs(txs: Seq<BlockTx>) -> Seq<OutPoint>
    decreases txs.len(),
{
    if txs.len() == 0 {
        Seq::empty()
    } else {
        spent_inputs(txs.drop_last()) + if txs.last().is_coinbase {
            Seq::empty()
        } else {
            txs.last().inputs@
        }
    }
}

/// The outputs that a block's inputs spend, each once, in the order they
/// are first spent (coinbase inputs spend nothing).
pub fn spent_outpoints(txs: &Vec<BlockTx>) -> (r: Vec<OutPoint>)
    ensures
        r@ == first_occurrences(spent_inputs(txs@)),
{
    let mut all: Vec<OutPoint> = Vec::new();
    let mut i: usize = 0;
    while i < txs.len()
        invariant
            i <= txs@.len(),
            all@ == spent_inputs(txs@.take(i as int)),
        decreases txs@.len() - i,
    {
        let tx = &txs[i];
        proof {
            assert(txs@.take(i + 1).drop_last() =~= txs@.take(i as int));
            assert(txs@.take(i + 1).last() == *tx);
        }
        if !tx.is_coinbase {
            let ghost before = all@;
            let mut j: usize = 0;
            while j < tx.inputs.len()
                invariant
                    j <= tx.inputs@.len(),
                    all@ == before + tx.inputs@.take(j as int),
                decreases tx.inputs@.len() - j,
            {
                all.push(tx.inputs[j]);
                j = j + 1;
                assert(all@ =~= before + tx.inputs@.take(j as int));
            }
            assert(tx.inputs@.take(tx.inputs@.len() as int) =~= tx.inputs@);
        } else {
            assert(all@ =~= all@ + Seq::<OutPoint>::empty());
        }
        i = i + 1;
    }
    assert(txs@.take(txs@.len() as int) =~= txs@);
    unique_outpoints(&all)
}

/// The outputs a transaction creates that can be spent: each with its
/// outpoint, value and script.
pub open spec fn output_prevouts(txid: Txid, outs: Seq<TxOutput>) -> Seq<(OutPoint, u64, Seq<u8>)>
    decreases outs.len(),
{
    if outs.len() == 0 {
        Seq::empty()
    } else {
        let p = output_prevouts(txid, outs.drop_last());
        let o = outs.last();
        if is_provable_unspendable(o.script_pubkey@) {
            p
        } else {
            p.push((OutPoint { txid, vout: (outs.len() - 1) as u32 }, o.value, o.script_pubkey@))
        }
    }
}

/// The spendable outputs a block creates, transaction by transaction.
pub open spec fn created_prevouts(txs: Seq<BlockTx>) -> Seq<(OutPoint, u64, Seq<u8>)>
    decreases txs.len(),
{
    if txs.len() == 0 {
        Seq::empty()
    } else {
        created_prevouts(txs.drop_last()) + output_prevouts(txs.last().txid, txs.last().outputs@)
    }
}

/// The view of a list of outputs with their outpoints.
pub open spec fn prevouts_view(v: Seq<(OutPoint, TxOutput)>) -> Seq<(OutPoint, u64, Seq<u8>)> {
    v.map_values(|p: (OutPoint, TxOutput)| (p.0, p.1.value, p.1.script_pubkey@))
}

fn copy_output(o: &TxOutput) -> (r: TxOutput)
    ensures
        r.value == o.value,
        r.script_pubkey@ == o.script_pubkey@,
{
    let script = o.script_pubkey.clone();
    assert(script@ =~= o.script_pubkey@);
    TxOutput { value: o.value, script_pubkey: script }
}

/// The spendable outputs a block creates: every output of every
/// transaction, with its outpoint, except those that are provably unspendable.
pub fn block_prevouts(txs: &Vec<BlockTx>) -> (r: Vec<(OutPoint, TxOutput)>)
    ensures
        prevouts_view(r@) == created_prevouts(txs@),
{
    let mut out: Vec<(OutPoint, TxOutput)> = Vec::new();
    let mut i: usize = 0;
    while i < txs.len()
        invariant
            i <= txs@.len(),
            prevouts_view(out@) == created_prevouts(txs@.take(i as int)),
        decreases txs@.len() - i,
    {
        let tx = &txs[i];
        proof {
            assert(txs@.take(i + 1).drop_last() =~= txs@.take(i as int));
            assert(txs@.take(i + 1).last() == *tx);
        }
        let ghost before = prevouts_view(out@);
        let mut j: usize = 0;
        while j < tx.outputs.len()
            invariant
                j <= tx.outputs@.len(),
                prevouts_view(out@) == before + output_prevouts(tx.txid, tx.outputs@.take(j as int)),
            decreases tx.outputs@.len() - j,
        {
            let o = &tx.outputs[j];
            proof {
                assert(tx.outputs@.take(j + 1).drop_last() =~= tx.outputs@.take(j as int));
                assert(tx.outputs@.take(j + 1).last() == *o);
            }
            if !check_unspendable(o.script_pubkey.as_slice()) {
                let ghost prev = out@;
                out.push((OutPoint { txid: tx.txid, vout: j as u32 }, copy_output(o)));
                assert(prevouts_view(out@) =~= prevouts_view(prev).push(
                    (OutPoint { txid: tx.txid, vout: j as u32 }, o.value, o.script_pubkey@),
                ));
            }
            j = j + 1;
            assert(prevouts_view(out@) =~= before + output_prevouts(tx.txid, tx.outputs@.take(j as int)));
        }
        assert(tx.outputs@.take(tx.outputs@.len() as int) =~= tx.outputs@);
        i = i + 1;
    }
    assert(txs@.take(txs@.len() as int) =~= txs@);
    out
}

/// The value a block's created outputs give for `k`: that of the last pair
/// with that outpoint.
pub open spec fn created_value<V>(created: Seq<(OutPoint, V)>, k: OutPoint) -> Option<V>
    decreases created.len(),
{
    if created.len() == 0 {
        None
    } else if created.last().0 == k {
        Some(created.last().1)
    } else {
        created_value(created.drop_last(), k)
    }
}

/// Where the value of each spent output comes from: the store (`from_db`,
/// aligned with `keys`), else the outputs the block itself created; the
/// first key found in neither is the error.
pub open spec fn resolve_spec<V>(keys: Seq<OutPoint>, from_db: Seq<Option<V>>, created: Seq<(OutPoint, V)>) -> Result<
    Seq<(OutPoint, V)>,
    OutPoint,
>
    decreases keys.len(),
{
    if keys.len() == 0 {
        Ok(Seq::empty())
    } else {
        let n = keys.len() - 1;
        match resolve_spec(keys.drop_last(), from_db.take(n), created) {
            Err(k) => Err(k),
            Ok(p) => {
                let k = keys.last();
                match from_db[n] {
                    Some(v) => Ok(p.push((k, v))),
                    None => match created_value(created, k) {
                        Some(v) => Ok(p.push((k, v))),
                        None => Err(k),
                    },
                }
            },
        }
    }
}

/// The previous output of each spent outpoint: what the store holds for it
/// (`from_db`, one entry per key), else what the block itself created; the
/// first outpoint found in neither is returned as the error.
pub fn resolve_prevouts<V: Copy>(keys: &Vec<OutPoint>, from_db: &Vec<Option<V>>, created: &Vec<(OutPoint, V)>) -> (r:
    Result<Vec<(OutPoint, V)>, OutPoint>)
    requires
        from_db@.len() == keys@.len(),
    ensures
        match resolve_spec(keys@, from_db@, created@) {
            Ok(s) => r matches Ok(v) && v@ == s,
            Err(k) => r == Err::<Vec<(OutPoint, V)>, OutPoint>(k),
        },
{
    let mut out: Vec<(OutPoint, V)> = Vec::new();
    let mut i: usize = 0;
    while i < keys.len()
        invariant
            i <= keys@.len() == from_db@.len(),
            resolve_spec(keys@.take(i as int), from_db@.take(i as int), created@) == Ok::<
                Seq<(OutPoint, V)>,
                OutPoint,
            >(out@),
        decreases keys@.len() - i,
    {
        let k = keys[i];
        proof {
            assert(keys@.take(i + 1).drop_last() =~= keys@.take(i as int));
            assert(from_db@.take(i + 1).take(i as int) =~= from_db@.take(i as int));
            assert(keys@.take(i + 1).last() == k);
            assert(from_db@.take(i + 1)[i as int] == from_db@[i as int]);
        }
        match from_db[i] {
            Some(v) => {
                out.push((k, v));
            },
            None => {
                let mut j: usize = created.len();
                let mut found: Option<V> = None;
                proof {
                    assert(created@.take(created@.len() as int) =~= created@);
                }
                while j > 0 && found.is_none()
                    invariant
                        j <= created@.len(),
                        found matches Some(v) ==> created_value(created@, k) == Some(v),
                        found is None ==> created_value(created@, k) == created_value(created@.take(j as int), k),
                    decreases j,
                {
                    proof {
                        assert(created@.take(j as int).drop_last() =~= created@.take(j - 1));
                        assert(created@.take(j as int).last() == created@[j - 1]);
                    }
                    if outpoint_eq(&created[j - 1].0, &k) {
                        found = Some(created[j - 1].1);
                    }
                    j = j - 1;
                }
                match found {
                    Some(v) => out.push((k, v)),
                    None => {
                        proof {
                            assert(created@.take(0) =~= Seq::<(OutPoint, V)>::empty());
                        }
                        proof {
                            lemma_resolve_err_stays(keys@, from_db@, created@, i as int);
                        }
                        return Err(k);
                    },
                }
            },
        }
        i = i + 1;
    }
    assert(keys@.take(keys@.len() as int) =~= keys@);
    assert(from_db@.take(from_db@.len() as int) =~= from_db@);
    Ok(out)
}

/// Once a key cannot be resolved, the whole resolution fails with it.
proof fn lemma_resolve_err_stays<V>(keys: Seq<OutPoint>, from_db: Seq<Option<V>>, created: Seq<(OutPoint, V)>, i: int)
    requires
        0 <= i < keys.len(),
        from_db.len() == keys.len(),
        resolve_spec(keys.take(i + 1), from_db.take(i + 1), created) == Err::<Seq<(OutPoint, V)>, OutPoint>(keys[i]),
    ensures
        resolve_spec(keys, from_db, created) == Err::<Seq<(OutPoint, V)>, OutPoint>(keys[i]),
    decreases keys.len() - i,
{
    if i + 1 < keys.len() {
        let n = keys.len() - 1;
        let k2 = keys.drop_last();
        let d2 = from_db.take(n);
        assert(k2.take(i + 1) =~= keys.take(i + 1));
        assert(d2.take(i + 1) =~= from_db.take(i + 1));
        lemma_resolve_err_stays(k2, d2, created, i);
        assert(k2[i] == keys[i]);
    } else {
        assert(keys.take(i + 1) =~= keys);
        assert(from_db.take(i + 1) =~= from_db);
    }
}

/// What a block records of previous outputs: the spendable outputs it
/// creates, to be written, and the outputs its inputs spend, to be removed
/// (and looked up before that).
pub struct PrevoutsRecord {
    pub to_write: Vec<(OutPoint, TxOutput)>,
    pub to_remove: Vec<OutPoint>,
}

/// The previous-output record of a block.
pub fn prevouts_record(txs: &Vec<BlockTx>) -> (r: PrevoutsRecord)
    ensures
        prevouts_view(r.to_write@) == created_prevouts(txs@),
        r.to_remove@ == first_occurrences(spent_inputs(txs@)),
{
    let to_write = block_prevouts(txs);
    let to_remove = spent_outpoints(txs);
    PrevoutsRecord { to_write, to_remove }
}

/// The created outputs' outpoints, each with the value the caller made of
/// that output (one per created output, in order).
pub open spec fn keyed_values<V>(created: Seq<(OutPoint, u64, Seq<u8>)>, vals: Seq<V>) -> Seq<(OutPoint, V)> {
    Seq::new(vals.len(), |i: int| (created[i].0, vals[i]))
}

/// The previous outputs of a block: looks up every output its inputs spend
/// in the store's answers (`from_db`, one per spent outpoint in the order
/// of `spent_outpoints`), else among the outputs the block itself creates
/// (`values`, one per created output in the order of `block_prevouts`).
/// Only when every one is found is the block's record appended to
/// `data_to_write`; otherwise the first outpoint found nowhere is returned
/// and `data_to_write` is left as it was.
pub fn process_prevouts<V: Copy>(
    txs: &Vec<BlockTx>,
    from_db: &Vec<Option<V>>,
    values: &Vec<V>,
    data_to_write: &mut Vec<PrevoutsRecord>,
) -> (r: Result<Vec<(OutPoint, V)>, OutPoint>)
    requires
        from_db@.len() == first_occurrences(spent_inputs(txs@)).len(),
        values@.len() == created_prevouts(txs@).len(),
    ensures
        match resolve_spec(
            first_occurrences(spent_inputs(txs@)),
            from_db@,
            keyed_values(created_prevouts(txs@), values@),
        ) {
            Ok(s) => {
                &&& r matches Ok(v) && v@ == s
                &&& final(data_to_write)@.len() == old(data_to_write)@.len() + 1
                &&& final(data_to_write)@.drop_last() == old(data_to_write)@
                &&& prevouts_view(final(data_to_write)@.last().to_write@) == created_prevouts(txs@)
                &&& final(data_to_write)@.last().to_remove@ == first_occurrences(spent_inputs(txs@))
            },
            Err(k) => {
                &&& r == Err::<Vec<(OutPoint, V)>, OutPoint>(k)
                &&& final(data_to_write)@ == old(data_to_write)@
            },
        },
{
    let record = prevouts_record(txs);
    let mut created: Vec<(OutPoint, V)> = Vec::new();
    let mut i: usize = 0;
    while i < values.len()
        invariant
            i <= values@.len() == record.to_write@.len(),
            prevouts_view(record.to_write@) == created_prevouts(txs@),
            created@ == keyed_values(created_prevouts(txs@), values@.take(i as int)),
        decreases values@.len() - i,
    {
        proof {
            assert(prevouts_view(record.to_write@)[i as int].0 == record.to_write@[i as int].0);
        }
        created.push((record.to_write[i].0, values[i]));
        i = i + 1;
        proof {
            assert(created@ =~= keyed_values(created_prevouts(txs@), values@.take(i as int)));
        }
    }
    assert(values@.take(values@.len() as int) =~= values@);
    let found = resolve_prevouts(&record.to_remove, from_db, &created);
    match found {
        Ok(v) => {
            data_to_write.push(record);
            proof {
                assert(data_to_write@.drop_last() =~= old(data_to_write)@);
            }
            Ok(v)
        },
        Err(k) => Err(k),
    }
}

} // verus!
