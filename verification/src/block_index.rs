//! Records of the node's LevelDB block index: where each block is stored,
//! its status, and the header that links it to its parent.
use vstd::prelude::*;
use vstd::bytes::spec_u32_from_le_bytes;
use crate::reader::{ByteReader, ReadError};
use crate::varint::{decode_varint, leveldb_varint, VarintOutcome, VarintStep};

verus! {

pub const BLOCK_HAVE_DATA: u64 = 8;
pub const BLOCK_HAVE_UNDO: u64 = 16;
pub const BLOCK_VALID_RESERVED: u64 = 1;
pub const BLOCK_VALID_TREE: u64 = 2;
pub const BLOCK_VALID_CHAIN: u64 = 4;
pub const BLOCK_VALID_TRANSACTIONS: u64 = 3;
pub const BLOCK_VALID_SCRIPTS: u64 = 5;
pub const BLOCK_VALID_MASK: u64 = BLOCK_VALID_RESERVED | BLOCK_VALID_TREE | BLOCK_VALID_TRANSACTIONS
    | BLOCK_VALID_CHAIN | BLOCK_VALID_SCRIPTS;
pub const BLOCK_FAILED_VALID: u64 = 32;
pub const BLOCK_FAILED_CHILD: u64 = 64;
pub const BLOCK_FAILED_MASK: u64 = BLOCK_FAILED_VALID | BLOCK_FAILED_CHILD;

/// Copies a 32-byte slice into an array.
pub fn to_hash32(s: &[u8]) -> (r: [u8; 32])
    requires
        s@.len() == 32,
    ensures
        r@ == s@,
{
    let mut a = [0u8; 32];
    let mut i: usize = 0;
    while i < 32
        invariant
            s@.len() == 32,
            0 <= i <= 32,
            forall|j: int| 0 <= j < i ==> a@[j] == s@[j],
        decreases 32 - i,
    {
        a[i] = s[i];
        i = i + 1;
    }
    assert(a@ =~= s@);
    a
}

/// Whether two hashes are byte for byte the same.
pub fn hash_eq(a: &[u8; 32], b: &[u8; 32]) -> (r: bool)
    ensures
        r == (a@ == b@),
{
    let mut i: usize = 0;
    while i < 32
        invariant
            0 <= i <= 32,
            forall|j: int| 0 <= j < i ==> a@[j] == b@[j],
        decreases 32 - i,
    {
        if a[i] != b[i] {
            return false;
        }
        i = i + 1;
    }
    assert(a@ =~= b@);
    true
}

/// An 80-byte block header.
#[derive(Clone, Copy)]
pub struct BlockHeader {
    pub version: u32,
    pub prev_hash: [u8; 32],
    pub merkle_root: [u8; 32],
    pub timestamp: u32,
    pub bits: u32,
    pub nonce: u32,
}

/// `h` is what the 80 bytes `s` hold: version, previous hash, merkle root,
/// time, bits and nonce, the integers little-endian.
pub open spec fn header_of(h: BlockHeader, s: Seq<u8>) -> bool {
    &&& s.len() == 80
    &&& h.version == spec_u32_from_le_bytes(s.subrange(0, 4))
    &&& h.prev_hash@ == s.subrange(4, 36)
    &&& h.merkle_root@ == s.subrange(36, 68)
    &&& h.timestamp == spec_u32_from_le_bytes(s.subrange(68, 72))
    &&& h.bits == spec_u32_from_le_bytes(s.subrange(72, 76))
    &&& h.nonce == spec_u32_from_le_bytes(s.subrange(76, 80))
}

/// Reads a block header; fails when fewer than 80 bytes are left.
pub fn read_block_header(reader: &mut ByteReader) -> (res: Result<BlockHeader, ReadError>)
    ensures
        final(reader).data == old(reader).data,
        old(reader).rest().len() >= 80 ==> (res matches Ok(h) && header_of(h, old(reader).rest().take(80))
            && final(reader).rest() == old(reader).rest().skip(80)),
        old(reader).rest().len() < 80 ==> res is Err,
        old(reader).rest().len() >= 80 ==> (res matches Ok(h) && h.prev_hash@ == old(reader).rest().subrange(4, 36)),
{
    let ghost s = reader.rest();
    if reader.rest_len() < 80 {
        return Err(ReadError::UnexpectedEof);
    }
    let version = reader.read_u32_le()?;
    let prev = reader.read_slice(32)?;
    let prev_hash = to_hash32(prev);
    let merkle = reader.read_slice(32)?;
    let merkle_root = to_hash32(merkle);
    let timestamp = reader.read_u32_le()?;
    let bits = reader.read_u32_le()?;
    let nonce = reader.read_u32_le()?;
    let h = BlockHeader { version, prev_hash, merkle_root, timestamp, bits, nonce };
    proof {
        let t = s.take(80);
        assert(s.take(4) =~= t.subrange(0, 4));
        assert(s.skip(4).take(32) =~= t.subrange(4, 36));
        assert(s.skip(4).skip(32).take(32) =~= t.subrange(36, 68));
        assert(s.skip(4).skip(32).skip(32).take(4) =~= t.subrange(68, 72));
        assert(s.skip(4).skip(32).skip(32).skip(4).take(4) =~= t.subrange(72, 76));
        assert(s.skip(4).skip(32).skip(32).skip(4).skip(4).take(4) =~= t.subrange(76, 80));
        assert(s.skip(4).skip(32).skip(32).skip(4).skip(4).skip(4) =~= s.skip(80));
        assert(t.subrange(4, 36) =~= s.subrange(4, 36));
    }
    Ok(h)
}

/// A header's previous-block hash is its bytes 4 to 36 as stored, in the
/// same byte order as the block hashes that key the index.
pub proof fn law_header_prev_hash_stored_order(h: BlockHeader, s: Seq<u8>)
    requires
        header_of(h, s),
    ensures
        forall|i: int| 0 <= i < 32 ==> #[trigger] h.prev_hash@[i] == s[4 + i],
{
}

/// Where a block is stored and how it links to its parent, as the block index records it.
#[derive(Clone, Copy)]
pub struct BlockIndexRecord {
    pub block_hash: [u8; 32],
    pub blk_index: u64,
    pub data_offset: u64,
    pub height: u64,
    pub status: u64,
    pub prev_hash: [u8; 32],
}

/// The part of a record that locating the block needs.
#[derive(Clone, Copy)]
pub struct BlockIndexRecordSmall {
    pub block_hash: [u8; 32],
    pub blk_index: u64,
    pub data_offset: u64,
}

impl BlockIndexRecordSmall {
    /// Keeps the hash and the location of a record.
    pub fn from(value: BlockIndexRecord) -> (r: BlockIndexRecordSmall)
        ensures
            r == small_of(value),
    {
        BlockIndexRecordSmall {
            blk_index: value.blk_index,
            block_hash: value.block_hash,
            data_offset: value.data_offset,
        }
    }
}

/// The hash and location of a record.
pub open spec fn small_of(r: BlockIndexRecord) -> BlockIndexRecordSmall {
    BlockIndexRecordSmall { block_hash: r.block_hash, blk_index: r.blk_index, data_offset: r.data_offset }
}

/// What reading a record's value bytes comes to.
pub enum RecordParse {
    /// The record cannot be read (the node never writes such a record).
    Panics,
    /// The bytes end too early.
    Fails,
    /// The block's data is not stored.
    NoData,
    /// The record's fields.
    Parsed { height: u64, status: u64, blk_index: u64, data_offset: u64, prev_hash: Seq<u8> },
}

/// The varint at offset `i` of `v`.
pub open spec fn varint_at(v: Seq<u8>, i: int) -> VarintOutcome {
    leveldb_varint(v.skip(i))
}

/// The fields after the block file number, which stands before `p5`.
pub open spec fn record_tail(v: Seq<u8>, height: u64, status: u64, blk: u64, p5: int) -> RecordParse {
    let data = if status & BLOCK_HAVE_DATA != 0 { varint_at(v, p5) } else { VarintOutcome::Done(0, 0) };
    match data {
        VarintOutcome::Eof => RecordParse::Fails,
        VarintOutcome::TooLarge => RecordParse::Panics,
        VarintOutcome::Done(data_offset, k6) => {
            let p6 = p5 + k6;
            let undo = if status & BLOCK_HAVE_UNDO != 0 { varint_at(v, p6) } else { VarintOutcome::Done(0, 0) };
            match undo {
                VarintOutcome::Eof => RecordParse::Fails,
                VarintOutcome::TooLarge => RecordParse::Panics,
                VarintOutcome::Done(_, k7) => {
                    let p7 = p6 + k7;
                    if v.len() - p7 < 80 {
                        RecordParse::Fails
                    } else if status & BLOCK_HAVE_DATA == 0 {
                        RecordParse::Panics
                    } else {
                        RecordParse::Parsed {
                            height,
                            status,
                            blk_index: blk,
                            data_offset,
                            prev_hash: v.subrange(p7 + 4, p7 + 36),
                        }
                    }
                },
            }
        },
    }
}

/// Reading a record's value: varints for the client version, the height,
/// the status and the transaction count; when the status says the block's
/// data or undo data is stored, the file number and then the data and undo
/// offsets that the status announces; then the block header.
pub open spec fn record_parse(v: Seq<u8>) -> RecordParse {
    match varint_at(v, 0) {
        VarintOutcome::Eof => RecordParse::Fails,
        VarintOutcome::TooLarge => RecordParse::Panics,
        VarintOutcome::Done(_, k1) => match varint_at(v, k1 as int) {
            VarintOutcome::Eof => RecordParse::Fails,
            VarintOutcome::TooLarge => RecordParse::Panics,
            VarintOutcome::Done(height, k2) => {
                let p2: int = (k1 + k2) as int;
                match varint_at(v, p2) {
                    VarintOutcome::Eof => RecordParse::Fails,
                    VarintOutcome::TooLarge => RecordParse::Panics,
                    VarintOutcome::Done(status, k3) => {
                        let p3: int = p2 + k3;
                        match varint_at(v, p3) {
                            VarintOutcome::Eof => RecordParse::Fails,
                            VarintOutcome::TooLarge => RecordParse::Panics,
                            VarintOutcome::Done(_, k4) => {
                                let p4: int = p3 + k4;
                                if status & (BLOCK_HAVE_DATA | BLOCK_HAVE_UNDO) == 0 {
                                    RecordParse::NoData
                                } else {
                                    match varint_at(v, p4) {
                                        VarintOutcome::Eof => RecordParse::Fails,
                                        VarintOutcome::TooLarge => RecordParse::Panics,
                                        VarintOutcome::Done(blk, k5) => record_tail(v, height, status, blk, p4 + k5),
                                    }
                                }
                            },
                        }
                    },
                }
            },
        },
    }
}

/// The previous-block hash of a record read from the tail of a value.
proof fn lemma_tail_prev_hash(v: Seq<u8>, height: u64, status: u64, blk: u64, p5: int)
    requires
        0 <= p5,
    ensures
        record_tail(v, height, status, blk, p5) matches RecordParse::Parsed { prev_hash, .. } ==> exists|q: int|
            0 <= q && 80 <= v.skip(q).len() && prev_hash == #[trigger] v.skip(q).subrange(4, 36),
{
    let data = if status & BLOCK_HAVE_DATA != 0 { varint_at(v, p5) } else { VarintOutcome::Done(0, 0) };
    if let VarintOutcome::Done(_, k6) = data {
        let p6 = p5 + k6;
        let undo = if status & BLOCK_HAVE_UNDO != 0 { varint_at(v, p6) } else { VarintOutcome::Done(0, 0) };
        if let VarintOutcome::Done(_, k7) = undo {
            let p7 = p6 + k7;
            if v.len() - p7 >= 80 {
                assert(v.skip(p7).subrange(4, 36) =~= v.subrange(p7 + 4, p7 + 36));
            }
        }
    }
}

/// A record's previous-block hash is four to 36 bytes into an 80-byte block
/// header held in the value, in the order stored: reading a record does
/// not reorder the hash, so it matches the parent's key as the index
/// stores it.
pub proof fn law_record_prev_hash_stored_order(v: Seq<u8>)
    ensures
        record_parse(v) matches RecordParse::Parsed { prev_hash, .. } ==> exists|q: int|
            0 <= q && 80 <= v.skip(q).len() && prev_hash == #[trigger] v.skip(q).subrange(4, 36),
{
    if let VarintOutcome::Done(_, k1) = varint_at(v, 0) {
        if let VarintOutcome::Done(height, k2) = varint_at(v, k1 as int) {
            let p2: int = (k1 + k2) as int;
            if let VarintOutcome::Done(status, k3) = varint_at(v, p2) {
                let p3: int = p2 + k3;
                if let VarintOutcome::Done(_, k4) = varint_at(v, p3) {
                    let p4: int = p3 + k4;
                    if let VarintOutcome::Done(blk, k5) = varint_at(v, p4) {
                        lemma_tail_prev_hash(v, height, status, blk, p4 + k5);
                    }
                }
            }
        }
    }
}

/// The executable form of `record_parse`.
enum RecordStep {
    Panics,
    Fails,
    NoData,
    Parsed(BlockIndexRecord),
}

/// Reads one varint, in the shape the record reader needs.
fn step_varint(reader: &mut ByteReader, Ghost(v): Ghost<Seq<u8>>, Ghost(at): Ghost<int>) -> (res: VarintStep)
    requires
        old(reader).data@ == v,
        0 <= at <= v.len(),
        old(reader).rest() == v.skip(at),
    ensures
        final(reader).data == old(reader).data,
        match varint_at(v, at) {
            VarintOutcome::Eof => res is Eof,
            VarintOutcome::TooLarge => res is TooLarge,
            VarintOutcome::Done(x, k) => res == VarintStep::Done(x) && at + k <= v.len()
                && final(reader).rest() == v.skip(at + k),
        },
{
    proof {
        crate::varint::lemma_varint_bounds(v.skip(at));
        assert forall|k: int| 0 <= k <= v.skip(at).len() implies #[trigger] v.skip(at).skip(k) == v.skip(at + k) by {
            assert(v.skip(at).skip(k) =~= v.skip(at + k));
        }
    }
    decode_varint(reader)
}

fn parse_record(key: &[u8], values: &[u8]) -> (res: RecordStep)
    requires
        key@.len() == 32,
    ensures
        match record_parse(values@) {
            RecordParse::Panics => res is Panics,
            RecordParse::Fails => res is Fails,
            RecordParse::NoData => res is NoData,
            RecordParse::Parsed { height, status, blk_index, data_offset, prev_hash } => res
                matches RecordStep::Parsed(r) && r.height == height && r.status == status
                && r.blk_index == blk_index && r.data_offset == data_offset && r.prev_hash@ == prev_hash
                && r.block_hash@ == key@,
        },
{
    let ghost v = values@;
    let mut reader = ByteReader::new(values);
    assert(v.skip(0) =~= v);
    let k1 = match step_varint(&mut reader, Ghost(v), Ghost(0)) {
        VarintStep::Eof => return RecordStep::Fails,
        VarintStep::TooLarge => return RecordStep::Panics,
        VarintStep::Done(x) => x,
    };
    let ghost p1: int = match varint_at(v, 0) { VarintOutcome::Done(_, k) => k as int, _ => 0 };
    let height = match step_varint(&mut reader, Ghost(v), Ghost(p1)) {
        VarintStep::Eof => return RecordStep::Fails,
        VarintStep::TooLarge => return RecordStep::Panics,
        VarintStep::Done(x) => x,
    };
    let ghost p2: int = match varint_at(v, p1) { VarintOutcome::Done(_, k) => p1 + k, _ => 0 };
    let status = match step_varint(&mut reader, Ghost(v), Ghost(p2)) {
        VarintStep::Eof => return RecordStep::Fails,
        VarintStep::TooLarge => return RecordStep::Panics,
        VarintStep::Done(x) => x,
    };
    let ghost p3: int = match varint_at(v, p2) { VarintOutcome::Done(_, k) => p2 + k, _ => 0 };
    let _tx_count = match step_varint(&mut reader, Ghost(v), Ghost(p3)) {
        VarintStep::Eof => return RecordStep::Fails,
        VarintStep::TooLarge => return RecordStep::Panics,
        VarintStep::Done(x) => x,
    };
    let ghost p4: int = match varint_at(v, p3) { VarintOutcome::Done(_, k) => p3 + k, _ => 0 };
    if status & (BLOCK_HAVE_DATA | BLOCK_HAVE_UNDO) == 0 {
        return RecordStep::NoData;
    }
    let blk_index = match step_varint(&mut reader, Ghost(v), Ghost(p4)) {
        VarintStep::Eof => return RecordStep::Fails,
        VarintStep::TooLarge => return RecordStep::Panics,
        VarintStep::Done(x) => x,
    };
    let ghost p5: int = match varint_at(v, p4) { VarintOutcome::Done(_, k) => p4 + k, _ => 0 };
    let mut data_offset: Option<u64> = None;
    let ghost mut p6: int = p5;
    if status & BLOCK_HAVE_DATA != 0 {
        match step_varint(&mut reader, Ghost(v), Ghost(p5)) {
            VarintStep::Eof => return RecordStep::Fails,
            VarintStep::TooLarge => return RecordStep::Panics,
            VarintStep::Done(x) => {
                data_offset = Some(x);
            },
        }
        proof {
            p6 = match varint_at(v, p5) { VarintOutcome::Done(_, k) => p5 + k, _ => 0 };
        }
    }
    let ghost mut p7: int = p6;
    if status & BLOCK_HAVE_UNDO != 0 {
        match step_varint(&mut reader, Ghost(v), Ghost(p6)) {
            VarintStep::Eof => return RecordStep::Fails,
            VarintStep::TooLarge => return RecordStep::Panics,
            VarintStep::Done(_) => {},
        }
        proof {
            p7 = match varint_at(v, p6) { VarintOutcome::Done(_, k) => p6 + k, _ => 0 };
        }
    }
    let header = match read_block_header(&mut reader) {
        Ok(h) => h,
        Err(_) => return RecordStep::Fails,
    };
    proof {
        assert(v.skip(p7).take(80).subrange(4, 36) =~= v.subrange(p7 + 4, p7 + 36));
    }
    match data_offset {
        None => RecordStep::Panics,
        Some(data_offset) => RecordStep::Parsed(BlockIndexRecord {
            block_hash: to_hash32(key),
            height,
            status,
            blk_index,
            data_offset,
            prev_hash: header.prev_hash,
        }),
    }
}

impl BlockIndexRecord {
    /// Reads the record of the block whose hash is `key` from its LevelDB
    /// value: `Ok(None)` when the block's data is not stored, an error when
    /// the bytes end too early. `requires` leaves out what the node never
    /// writes: a key that is not a 32-byte hash, a number too large for a
    /// `u64`, and an undo offset without a data offset.
    pub fn from(key: &[u8], values: &[u8]) -> (res: Result<Option<BlockIndexRecord>, ReadError>)
        requires
            key@.len() == 32,
            !(record_parse(values@) is Panics),
        ensures
            match record_parse(values@) {
                RecordParse::Fails => res == Err::<Option<BlockIndexRecord>, ReadError>(
                    ReadError::UnexpectedEof,
                ),
                RecordParse::NoData => res == Ok::<Option<BlockIndexRecord>, ReadError>(None),
                RecordParse::Parsed { height, status, blk_index, data_offset, prev_hash } => res
                    matches Ok(Some(r)) && r.height == height && r.status == status && r.blk_index
                    == blk_index && r.data_offset == data_offset && r.prev_hash@ == prev_hash
                    && r.block_hash@ == key@,
                RecordParse::Panics => false,
            },
        res matches Ok(Some(r)) ==> exists|q: int|
            0 <= q && 80 <= values@.skip(q).len() && r.prev_hash@ == #[trigger] values@.skip(q).subrange(4, 36),
    {
        proof {
            law_record_prev_hash_stored_order(values@);
        }
        match parse_record(key, values) {
            RecordStep::Parsed(r) => Ok(Some(r)),
            RecordStep::NoData => Ok(None),
            _ => Err(ReadError::UnexpectedEof),
        }
    }

    /// Whether `from` must refuse these value bytes (see its `requires`).
    pub fn cannot_parse(values: &[u8]) -> (r: bool)
        ensures
            r == record_parse(values@) is Panics,
    {
        let key = [0u8; 32];
        match parse_record(&key, values) {
            RecordStep::Panics => true,
            _ => false,
        }
    }
}

/// Whether a LevelDB key is a block index entry (its first byte is `b`).
pub fn is_block_index_record(data: &[u8]) -> (r: bool)
    requires
        data@.len() >= 1,
    ensures
        r == (data@[0] == 0x62u8),
{
    data[0] == 0x62
}

/// Moves the last hash sent on to a block that comes right after it: the
/// block's header must name that hash as its previous one (a block out of
/// order is refused by `requires`; test it with `hash_eq` first).
pub fn check_ordering(last_sent_hash: &mut [u8; 32], hash: [u8; 32], header: &BlockHeader)
    requires
        old(last_sent_hash)@ == header.prev_hash@,
    ensures
        final(last_sent_hash)@ == hash@,
{
    *last_sent_hash = hash;
}

/// A block of the chain: its height and its hash.
#[derive(Clone, Copy, Debug, PartialEq, Eq, Hash)]
pub struct BlockId {
    pub height: u64,
    pub hash: [u8; 32],
}

impl Default for BlockId {
    /// Height zero and the all-zero hash.
    fn default() -> (r: BlockId)
        ensures
            r.height == 0,
            r.hash@ == Seq::new(32, |i: int| 0u8),
    {
        let r = BlockId { height: 0, hash: [0u8; 32] };
        assert(r.hash@ =~= Seq::new(32, |i: int| 0u8));
        r
    }
}

impl From<(u64, [u8; 32])> for BlockId {
    fn from(pair: (u64, [u8; 32])) -> (r: BlockId) {
        BlockId { height: pair.0, hash: pair.1 }
    }
}

impl vstd::std_specs::convert::FromSpecImpl<(u64, [u8; 32])> for BlockId {
    open spec fn obeys_from_spec() -> bool {
        true
    }

    open spec fn from_spec(pair: (u64, [u8; 32])) -> BlockId {
        BlockId { height: pair.0, hash: pair.1 }
    }
}

impl From<BlockId> for (u64, [u8; 32]) {
    fn from(id: BlockId) -> (r: (u64, [u8; 32])) {
        (id.height, id.hash)
    }
}

impl vstd::std_specs::convert::FromSpecImpl<BlockId> for (u64, [u8; 32]) {
    open spec fn obeys_from_spec() -> bool {
        true
    }

    open spec fn from_spec(id: BlockId) -> (u64, [u8; 32]) {
        (id.height, id.hash)
    }
}

} // verus!
