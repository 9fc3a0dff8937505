//! Hashing: SHA-256 and double SHA-256 from the coin's hash library, and
//! the merkle root of a block's transactions.
use vstd::prelude::*;

verus! {

/// The SHA-256 digest of `data`.
pub uninterp spec fn sha256(data: Seq<u8>) -> Seq<u8>;

/// The double SHA-256 digest of `data` (SHA-256 applied twice).
pub uninterp spec fn sha256d(data: Seq<u8>) -> Seq<u8>;

/// `bellscoin::hashes::sha256::Hash::hash`: the digest of `data`, named `sha256`.
#[verifier::external_body]
pub(crate) fn sha256_hash(data: &[u8]) -> (r: [u8; 32])
    ensures
        r@ == sha256(data@),
{
    let h = <bellscoin::hashes::sha256::Hash as bellscoin::hashes::Hash>::hash(data);
    <bellscoin::hashes::sha256::Hash as bellscoin::hashes::Hash>::to_byte_array(h)
}

/// `bellscoin::hashes::sha256d::Hash::hash`: the digest of `data`, named `sha256d`.
#[verifier::external_body]
pub(crate) fn sha256d_hash(data: &[u8]) -> (r: [u8; 32])
    ensures
        r@ == sha256d(data@),
{
    let h = <bellscoin::hashes::sha256d::Hash as bellscoin::hashes::Hash>::hash(data);
    <bellscoin::hashes::sha256d::Hash as bellscoin::hashes::Hash>::to_byte_array(h)
}

/// One level of the merkle tree: each pair of hashes is hashed together;
/// an odd last hash is paired with itself.
pub open spec fn merkle_level(h: Seq<Seq<u8>>) -> Seq<Seq<u8>> {
    Seq::new(
        ((h.len() + 1) / 2) as nat,
        |i: int|
            if 2 * i + 1 < h.len() {
                sha256d(h[2 * i] + h[2 * i + 1])
            } else {
                sha256d(h[2 * i] + h[2 * i])
            },
    )
}

/// The merkle root: levels are built until one hash is left.
pub open spec fn merkle(h: Seq<Seq<u8>>) -> Seq<u8>
    decreases h.len(),
{
    if h.len() <= 1 {
        h[0]
    } else {
        merkle(merkle_level(h))
    }
}

/// The views of a list of hashes.
pub open spec fn hash_views(v: Seq<[u8; 32]>) -> Seq<Seq<u8>> {
    v.map_values(|x: [u8; 32]| x@)
}

fn concat_hash(a: &[u8; 32], b: &[u8; 32]) -> (r: Vec<u8>)
    ensures
        r@ == a@ + b@,
{
    let mut buf: Vec<u8> = Vec::with_capacity(64);
    buf.extend_from_slice(a.as_slice());
    buf.extend_from_slice(b.as_slice());
    buf
}

/// The merkle root of a block's transaction hashes; see
/// https://en.bitcoin.it/wiki/Protocol_documentation#Merkle_Trees
/// `requires` leaves out the empty list, which has no root.
pub fn merkle_root(hashes: Vec<[u8; 32]>) -> (r: [u8; 32])
    requires
        hashes@.len() > 0,
    ensures
        r@ == merkle(hash_views(hashes@)),
{
    let mut hashes = hashes;
    let ghost target = merkle(hash_views(hashes@));
    while hashes.len() > 1
        invariant
            hashes@.len() > 0,
            merkle(hash_views(hashes@)) == target,
        decreases hashes@.len(),
    {
        let n = hashes.len();
        let mut next: Vec<[u8; 32]> = Vec::new();
        let mut i: usize = 0;
        while i + 1 < n
            invariant
                n == hashes@.len(),
                n > 1,
                i % 2 == 0,
                i <= n,
                next@.len() == i / 2,
                forall|k: int| 0 <= k < next@.len() ==> #[trigger] next@[k]@ == merkle_level(hash_views(hashes@))[k],
            decreases n - i,
        {
            let buf = concat_hash(&hashes[i], &hashes[i + 1]);
            let h = sha256d_hash(buf.as_slice());
            next.push(h);
            i = i + 2;
        }
        if n % 2 == 1 {
            let buf = concat_hash(&hashes[n - 1], &hashes[n - 1]);
            let h = sha256d_hash(buf.as_slice());
            next.push(h);
        }
        proof {
            assert(hash_views(next@) =~= merkle_level(hash_views(hashes@)));
        }
        hashes = next;
    }
    hashes[0]
}

} // verus!
