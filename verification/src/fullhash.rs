//! Full hashes (the SHA-256 of an output script): the addresses a block's
//! outputs make known under them, and the text shown for a full hash, its
//! address when one is known, else a fixed name for burned or non-standard
//! scripts.
use vstd::prelude::*;
use crate::hashes::{sha256, sha256_hash};
use crate::block_index::hash_eq;

verus! {

/// Name shown for outputs burned with `OP_RETURN`.
pub const OP_RETURN_ADDRESS: &'static str = "BURNED";

/// Name shown for scripts that have no address.
pub const NON_STANDARD_ADDRESS: &'static str = "NON_STANDARD";

/// The SHA-256 of an output script.
#[derive(Clone, Copy, PartialEq, Eq, Hash)]
pub struct FullHash(pub [u8; 32]);

/// The full hash that stands for burned outputs: that of the script made
/// of `OP_RETURN` alone.
pub open spec fn op_return_hash() -> Seq<u8> {
    sha256(seq![0x6au8])
}

impl FullHash {
    /// Whether this is the full hash of burned outputs.
    pub fn is_op_return_hash(&self) -> (r: bool)
        ensures
            r == (self.0@ == op_return_hash()),
    {
        let script: [u8; 1] = [0x6a];
        assert(script@ =~= seq![0x6au8]);
        let h = sha256_hash(script.as_slice());
        hash_eq(&self.0, &h)
    }
}

/// The text for a full hash: the known address, else the burned or
/// non-standard name.
pub open spec fn fullhash_text(hash: Seq<u8>, value: Option<Seq<char>>) -> Seq<char> {
    match value {
        Some(v) => v,
        None => if hash == op_return_hash() {
            OP_RETURN_ADDRESS@
        } else {
            NON_STANDARD_ADDRESS@
        },
    }
}

/// The text for a full hash, given the address known for it, if any.
pub fn fullhash_to_address_str(hash: &FullHash, value: Option<String>) -> (r: String)
    ensures
        r@ == fullhash_text(hash.0@, match value {
            Some(v) => Some(v@),
            None => None,
        }),
{
    if let Some(value) = value {
        return value;
    }
    if hash.is_op_return_hash() {
        OP_RETURN_ADDRESS.to_owned()
    } else {
        NON_STANDARD_ADDRESS.to_owned()
    }
}

/// The address a list of pairs gives for a hash: the last pair with that hash wins.
pub open spec fn lookup(pairs: Seq<(Seq<u8>, Seq<char>)>, hash: Seq<u8>) -> Option<Seq<char>>
    decreases pairs.len(),
{
    if pairs.len() == 0 {
        None
    } else if pairs.last().0 == hash {
        Some(pairs.last().1)
    } else {
        lookup(pairs.drop_last(), hash)
    }
}

/// No hash occurs twice.
pub open spec fn distinct_hashes(pairs: Seq<(Seq<u8>, Seq<char>)>) -> bool {
    forall|i: int, j: int| 0 <= i < j < pairs.len() ==> pairs[i].0 != pairs[j].0
}

/// With distinct hashes, the address given for a hash is that of its pair.
pub proof fn lemma_lookup_distinct(pairs: Seq<(Seq<u8>, Seq<char>)>, hash: Seq<u8>)
    requires
        distinct_hashes(pairs),
    ensures
        forall|j: int| 0 <= j < pairs.len() && pairs[j].0 == hash ==> lookup(pairs, hash) == Some(pairs[j].1),
        (forall|j: int| 0 <= j < pairs.len() ==> pairs[j].0 != hash) ==> lookup(pairs, hash) is None,
    decreases pairs.len(),
{
    if pairs.len() > 0 {
        let p = pairs.drop_last();
        assert(distinct_hashes(p)) by {
            assert forall|i: int, j: int| 0 <= i < j < p.len() implies p[i].0 != p[j].0 by {
                assert(p[i] == pairs[i] && p[j] == pairs[j]);
            }
        }
        lemma_lookup_distinct(p, hash);
        assert forall|j: int| 0 <= j < pairs.len() && pairs[j].0 == hash implies lookup(pairs, hash) == Some(
            pairs[j].1,
        ) by {
            if j < pairs.len() - 1 {
                assert(p[j] == pairs[j]);
                assert(pairs[j].0 != pairs[pairs.len() - 1].0);
            }
        }
        if forall|j: int| 0 <= j < pairs.len() ==> pairs[j].0 != hash {
            assert forall|j: int| 0 <= j < p.len() implies p[j].0 != hash by {
                assert(p[j] == pairs[j]);
            }
            assert(pairs[pairs.len() - 1].0 != hash);
        }
    }
}

/// Known addresses by full hash, each hash once.
pub struct AddressesFullHash(Vec<(FullHash, String)>);

impl AddressesFullHash {
    /// The known pairs of hash and address, in the order they were given.
    pub closed spec fn pairs(&self) -> Seq<(Seq<u8>, Seq<char>)> {
        self.0@.map_values(|p: (FullHash, String)| (p.0.0@, p.1@))
    }

    /// Each hash once.
    #[verifier::type_invariant]
    closed spec fn distinct(&self) -> bool {
        distinct_hashes(self.pairs())
    }

    /// The addresses known for hashes; `requires` that each hash comes once,
    /// as the keys of a map do.
    pub fn new(v: Vec<(FullHash, String)>) -> (r: AddressesFullHash)
        requires
            distinct_hashes(v@.map_values(|p: (FullHash, String)| (p.0.0@, p.1@))),
        ensures
            r.pairs() == v@.map_values(|p: (FullHash, String)| (p.0.0@, p.1@)),
    {
        AddressesFullHash(v)
    }

    /// The text for a hash: its known address, else the burned or
    /// non-standard name.
    pub fn get(&self, hash: &FullHash) -> (r: String)
        ensures
            r@ == fullhash_text(hash.0@, lookup(self.pairs(), hash.0@)),
    {
        let mut i: usize = self.0.len();
        let ghost ps = self.pairs();
        assert(ps.take(ps.len() as int) =~= ps);
        while i > 0
            invariant
                0 <= i <= self.0@.len(),
                ps == self.pairs(),
                ps.len() == self.0@.len(),
                lookup(ps, hash.0@) == lookup(ps.take(i as int), hash.0@),
            decreases i,
        {
            let ghost t = ps.take(i as int);
            assert(t.drop_last() =~= ps.take(i - 1));
            assert(t.last() == ps[i - 1]);
            if hash_eq(&self.0[i - 1].0.0, &hash.0) {
                let v = self.0[i - 1].1.clone();
                return fullhash_to_address_str(hash, Some(v));
            }
            i = i - 1;
        }
        fullhash_to_address_str(hash, None)
    }
}

/// The full hash and address of each output that has an address, in order.
pub open spec fn output_fullhashes(outputs: Seq<(Seq<u8>, Option<Seq<char>>)>) -> Seq<(Seq<u8>, Seq<char>)>
    decreases outputs.len(),
{
    if outputs.len() == 0 {
        Seq::empty()
    } else {
        let p = output_fullhashes(outputs.drop_last());
        match outputs.last().1 {
            Some(a) => p.push((sha256(outputs.last().0), a)),
            None => p,
        }
    }
}

/// The view of outputs given by script and address.
pub open spec fn outputs_view(v: Seq<(Vec<u8>, Option<String>)>) -> Seq<(Seq<u8>, Option<Seq<char>>)> {
    v.map_values(|o: (Vec<u8>, Option<String>)| (o.0@, match o.1 {
        Some(a) => Some(a@),
        None => None,
    }))
}

/// The view of a list of hash and address pairs.
pub open spec fn pairs_view(v: Seq<(FullHash, String)>) -> Seq<(Seq<u8>, Seq<char>)> {
    v.map_values(|p: (FullHash, String)| (p.0.0@, p.1@))
}

/// The addresses a block's outputs make known, as a map from full hash
/// (the script's SHA-256) to address: each hash once, with the address of
/// the last output of that script.
pub fn fullhash_addresses(outputs: &Vec<(Vec<u8>, Option<String>)>) -> (r: Vec<(FullHash, String)>)
    ensures
        distinct_hashes(pairs_view(r@)),
        forall|h: Seq<u8>| #[trigger] lookup(pairs_view(r@), h) == lookup(output_fullhashes(outputs_view(outputs@)), h),
{
    let mut out: Vec<(FullHash, String)> = Vec::new();
    let mut i: usize = 0;
    while i < outputs.len()
        invariant
            i <= outputs@.len(),
            distinct_hashes(pairs_view(out@)),
            forall|h: Seq<u8>| #[trigger] lookup(pairs_view(out@), h) == lookup(
                output_fullhashes(outputs_view(outputs@).take(i as int)),
                h,
            ),
        decreases outputs@.len() - i,
    {
        let ghost before = pairs_view(out@);
        let ghost all = output_fullhashes(outputs_view(outputs@).take(i as int));
        proof {
            assert(outputs_view(outputs@).take(i + 1).drop_last() =~= outputs_view(outputs@).take(i as int));
        }
        match &outputs[i].1 {
            Some(a) => {
                let h = sha256_hash(outputs[i].0.as_slice());
                let ghost next = all.push((h@, a@));
                assert(output_fullhashes(outputs_view(outputs@).take(i + 1)) == next);
                let mut j: usize = 0;
                while j < out.len() && !hash_eq(&out[j].0.0, &h)
                    invariant
                        j <= out@.len(),
                        pairs_view(out@) == before,
                        forall|q: int| 0 <= q < j ==> before[q].0 != h@,
                    decreases out@.len() - j,
                {
                    j = j + 1;
                }
                if j < out.len() {
                    out.set(j, (FullHash(h), a.clone()));
                    proof {
                        let now = pairs_view(out@);
                        assert(now =~= before.update(j as int, (h@, a@)));
                        assert(distinct_hashes(now)) by {
                            assert forall|x: int, y: int| 0 <= x < y < now.len() implies now[x].0 != now[y].0 by {
                                assert(now[x].0 == before[x].0 && now[y].0 == before[y].0);
                            }
                        }
                        assert forall|hh: Seq<u8>| #[trigger] lookup(now, hh) == lookup(next, hh) by {
                            assert(next.drop_last() =~= all);
                            assert(lookup(before, hh) == lookup(all, hh));
                            lemma_lookup_distinct(now, hh);
                            lemma_lookup_distinct(before, hh);
                            if hh != h@ {
                                if exists|q: int| 0 <= q < before.len() && before[q].0 == hh {
                                    let q = choose|q: int| 0 <= q < before.len() && before[q].0 == hh;
                                    assert(now[q] == before[q]);
                                } else {
                                    assert forall|q: int| 0 <= q < now.len() implies now[q].0 != hh by {
                                        if q != j {
                                            assert(now[q] == before[q]);
                                        }
                                    }
                                }
                            } else {
                                assert(now[j as int].0 == hh);
                            }
                        }
                    }
                } else {
                    out.push((FullHash(h), a.clone()));
                    proof {
                        let now = pairs_view(out@);
                        assert(now =~= before.push((h@, a@)));
                        assert(distinct_hashes(now)) by {
                            assert forall|x: int, y: int| 0 <= x < y < now.len() implies now[x].0 != now[y].0 by {
                                if y < before.len() {
                                    assert(now[x] == before[x] && now[y] == before[y]);
                                } else {
                                    assert(now[x] == before[x]);
                                }
                            }
                        }
                        assert forall|hh: Seq<u8>| #[trigger] lookup(now, hh) == lookup(next, hh) by {
                            assert(now.drop_last() =~= before);
                            assert(next.drop_last() =~= all);
                            assert(lookup(before, hh) == lookup(all, hh));
                        }
                    }
                }
            },
            None => {},
        }
        i = i + 1;
    }
    assert(outputs_view(outputs@).take(outputs@.len() as int) =~= outputs_view(outputs@));
    out
}

} // verus!
