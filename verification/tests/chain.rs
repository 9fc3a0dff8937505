use b1t_indexer::block_index::{
    check_ordering, hash_eq, is_block_index_record, read_block_header, to_hash32, BlockHeader, BlockId,
    BlockIndexRecord, BlockIndexRecordSmall, BLOCK_FAILED_VALID, BLOCK_HAVE_DATA, BLOCK_HAVE_UNDO,
    BLOCK_VALID_TRANSACTIONS,
};
use b1t_indexer::chain::{select_chain, ChainError};
use b1t_indexer::chain_index::ChainIndex;
use b1t_indexer::options::{ChainOptions, LoadBlocksArgs};
use b1t_indexer::range::{BlockHeightRange, RangeError};
use b1t_indexer::address::CoinType;
use b1t_indexer::reader::{ByteReader, ReadError};

fn h(n: u8) -> [u8; 32] {
    [n; 32]
}

fn rec(height: u64, hash: u8, prev: u8, blk: u64, status: u64) -> BlockIndexRecord {
    BlockIndexRecord {
        block_hash: h(hash),
        blk_index: blk,
        data_offset: height * 100,
        height,
        status,
        prev_hash: h(prev),
    }
}

const OK: u64 = BLOCK_HAVE_DATA | BLOCK_VALID_TRANSACTIONS;

fn leveldb_varint(mut n: u64) -> Vec<u8> {
    let mut tmp = Vec::new();
    let mut first = true;
    loop {
        let b = (n & 0x7f) as u8 | if first { 0 } else { 0x80 };
        tmp.push(b);
        first = false;
        if n <= 0x7f {
            break;
        }
        n = (n >> 7) - 1;
    }
    tmp.reverse();
    tmp
}

fn record_bytes(height: u64, status: u64, blk: u64, data_pos: u64, undo_pos: Option<u64>, prev: [u8; 32]) -> Vec<u8> {
    let mut v = Vec::new();
    v.extend(leveldb_varint(250000));
    v.extend(leveldb_varint(height));
    v.extend(leveldb_varint(status));
    v.extend(leveldb_varint(3));
    v.extend(leveldb_varint(blk));
    v.extend(leveldb_varint(data_pos));
    if let Some(u) = undo_pos {
        v.extend(leveldb_varint(u));
    }
    v.extend_from_slice(&1u32.to_le_bytes());
    v.extend_from_slice(&prev);
    v.extend_from_slice(&[7u8; 32]);
    v.extend_from_slice(&1700000000u32.to_le_bytes());
    v.extend_from_slice(&0x1d00ffffu32.to_le_bytes());
    v.extend_from_slice(&42u32.to_le_bytes());
    v
}

#[test]
fn block_index_record_is_read_from_its_value() {
    let key = h(0xab);
    let value = record_bytes(1234, OK | BLOCK_HAVE_UNDO, 17, 5000, Some(600), h(0xcd));
    assert!(!BlockIndexRecord::cannot_parse(&value));
    let r = BlockIndexRecord::from(&key, &value).unwrap().unwrap();
    assert_eq!(r.height, 1234);
    assert_eq!(r.status, OK | BLOCK_HAVE_UNDO);
    assert_eq!(r.blk_index, 17);
    assert_eq!(r.data_offset, 5000);
    assert_eq!(r.prev_hash, h(0xcd));
    assert_eq!(r.block_hash, key);
    let small = BlockIndexRecordSmall::from(r);
    assert_eq!((small.block_hash, small.blk_index, small.data_offset), (key, 17, 5000));
}

#[test]
fn block_index_record_without_data_is_skipped() {
    let mut v = Vec::new();
    v.extend(leveldb_varint(250000));
    v.extend(leveldb_varint(5));
    v.extend(leveldb_varint(BLOCK_VALID_TRANSACTIONS));
    v.extend(leveldb_varint(1));
    assert!(!BlockIndexRecord::cannot_parse(&v));
    assert!(BlockIndexRecord::from(&h(1), &v).unwrap().is_none());
}

#[test]
fn block_index_record_truncated_fails() {
    let value = record_bytes(10, OK, 1, 2, None, h(3));
    let short = &value[..value.len() - 1];
    assert!(!BlockIndexRecord::cannot_parse(short));
    assert_eq!(BlockIndexRecord::from(&h(1), short).err(), Some(ReadError::UnexpectedEof));
}

#[test]
fn block_index_record_undo_without_data_cannot_be_read() {
    let mut v = Vec::new();
    v.extend(leveldb_varint(250000));
    v.extend(leveldb_varint(5));
    v.extend(leveldb_varint(BLOCK_HAVE_UNDO | BLOCK_VALID_TRANSACTIONS));
    v.extend(leveldb_varint(1));
    v.extend(leveldb_varint(1));
    v.extend(leveldb_varint(9));
    v.extend_from_slice(&[0u8; 80]);
    assert!(BlockIndexRecord::cannot_parse(&v));
}

#[test]
fn block_index_keys_start_with_b() {
    assert!(is_block_index_record(b"b1234"));
    assert!(!is_block_index_record(b"f1234"));
}

#[test]
fn block_header_fields() {
    let value = record_bytes(0, OK, 0, 0, None, h(9));
    let header_start = value.len() - 80;
    let mut r = ByteReader::new(&value[header_start..]);
    let header = read_block_header(&mut r).unwrap();
    assert_eq!(header.version, 1);
    assert_eq!(header.prev_hash, h(9));
    assert_eq!(header.merkle_root, [7u8; 32]);
    assert_eq!(header.timestamp, 1700000000);
    assert_eq!(header.bits, 0x1d00ffff);
    assert_eq!(header.nonce, 42);
    let mut short = ByteReader::new(&value[header_start + 1..]);
    assert!(read_block_header(&mut short).is_err());
}

#[test]
fn chain_follows_parents_from_the_top() {
    let records = vec![
        rec(8, 8, 7, 1, OK),
        rec(9, 0x99, 8, 1, OK),
        rec(9, 9, 8, 2, OK),
        rec(10, 10, 9, 2, OK),
    ];
    let range = BlockHeightRange::new(0, None).unwrap();
    let chain = select_chain(&records, &range).unwrap();
    let heights: Vec<u64> = chain.iter().map(|x| x.0).collect();
    assert_eq!(heights, vec![9, 8]);
    assert_eq!(chain[0].1.block_hash, h(9));
    assert_eq!(chain[0].1.blk_index, 2);
    assert_eq!(chain[1].1.block_hash, h(8));
}

#[test]
fn chain_skips_forked_tops_invalid_and_failed_records() {
    let records = vec![
        rec(12, 0xa1, 11, 3, OK),
        rec(12, 0xa2, 11, 3, OK),
        rec(11, 11, 10, 3, OK),
        rec(10, 10, 9, 3, OK),
        rec(10, 0xee, 9, 3, BLOCK_HAVE_DATA),
        rec(9, 9, 8, 3, OK | BLOCK_FAILED_VALID),
    ];
    let range = BlockHeightRange::new(0, None).unwrap();
    let chain = select_chain(&records, &range).unwrap();
    let heights: Vec<u64> = chain.iter().map(|x| x.0).collect();
    assert_eq!(heights, vec![10]);
}

#[test]
fn chain_missing_parent_is_an_error() {
    let records = vec![rec(5, 5, 4, 1, OK), rec(4, 0x44, 3, 1, OK)];
    let range = BlockHeightRange::new(0, None).unwrap();
    assert_eq!(select_chain(&records, &range).err(), Some(ChainError::MissingParent { height: 4 }));
}

#[test]
fn chain_respects_range() {
    let records = vec![rec(3, 3, 2, 1, OK), rec(4, 4, 3, 1, OK), rec(5, 5, 4, 1, OK), rec(6, 6, 5, 1, OK)];
    let range = BlockHeightRange::new(5, Some(5)).err();
    assert_eq!(range, Some(RangeError::StartNotBelowEnd));
    let range = BlockHeightRange::new(5, Some(6)).unwrap();
    let chain = select_chain(&records, &range).unwrap();
    let heights: Vec<u64> = chain.iter().map(|x| x.0).collect();
    assert_eq!(heights, vec![5, 4]);
}

#[test]
fn chain_index_tracks_heights_and_files() {
    let small = |hash: u8, blk: u64| BlockIndexRecordSmall { block_hash: h(hash), blk_index: blk, data_offset: 0 };
    let entries = vec![(9, small(9, 2)), (8, small(8, 1)), (7, small(7, 1)), (10, small(10, 2))];
    let range = BlockHeightRange::new(0, None).unwrap();
    let index = ChainIndex::new(entries.clone(), &range);
    assert_eq!(index.max_height(), 10);
    assert_eq!(index.max_height_by_blk(1), 8);
    assert_eq!(index.max_height_by_blk(2), 10);
    assert_eq!(index.get(7).map(|x| x.block_hash), Some(h(7)));
    assert!(index.get(11).is_none());
    let capped = ChainIndex::new(entries, &BlockHeightRange::new(0, Some(9)).unwrap());
    assert_eq!(capped.max_height(), 9);
}

#[test]
fn range_text() {
    assert_eq!(BlockHeightRange::new(10, Some(20)).unwrap().to_text(), "10..20");
    assert_eq!(BlockHeightRange::new(0, None).unwrap().to_text(), "0..HEAD");
}

#[test]
fn chain_options_start_at_last_height() {
    let coin = CoinType { pubkey_address: 0x19, script_address: 0x1e, bech32: String::from("bel") };
    let o = ChainOptions::new(Some("/data/blocks"), None, coin, 77);
    assert_eq!(o.blockchain_dir.as_deref(), Some("/data/blocks"));
    assert_eq!(o.index_dir_path, None);
    assert_eq!(o.range.start, 77);
    assert_eq!(o.range.end, None);
    assert_eq!(o.coin.bech32, "bel");
    let args = LoadBlocksArgs { path: None, index_dir_path: Some("/idx"), from_height: Some(3), network: "bellscoin", reorg_len: 6 };
    assert_eq!(args.from_height, Some(3));
}

#[test]
fn block_ids_convert_to_pairs() {
    let id = BlockId::from((5u64, h(5)));
    assert_eq!(id.height, 5);
    let pair: (u64, [u8; 32]) = id.into();
    assert_eq!(pair, (5, h(5)));
    let d = BlockId::default();
    assert_eq!((d.height, d.hash), (0, [0u8; 32]));
}

#[test]
fn ordering_moves_to_the_next_block() {
    let header = BlockHeader { version: 1, prev_hash: h(1), merkle_root: h(0), timestamp: 0, bits: 0, nonce: 0 };
    let mut last = h(1);
    assert!(hash_eq(&last, &header.prev_hash));
    check_ordering(&mut last, h(2), &header);
    assert_eq!(last, h(2));
    assert!(!hash_eq(&last, &header.prev_hash));
    assert_eq!(to_hash32(&[3u8; 32]), h(3));
}
