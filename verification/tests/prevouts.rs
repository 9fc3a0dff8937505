use b1t_indexer::prevouts::{
    block_prevouts, outpoint_eq, resolve_prevouts, spent_outpoints, unique_outpoints, BlockTx, TxOutput,
};
use b1t_indexer::tokens::{OutPoint, Txid};

fn op(t: u8, vout: u32) -> OutPoint {
    OutPoint { txid: Txid([t; 32]), vout }
}

fn out(value: u64, script: &[u8]) -> TxOutput {
    TxOutput { value, script_pubkey: script.to_vec() }
}

fn txs() -> Vec<BlockTx> {
    vec![
        BlockTx { txid: Txid([1; 32]), is_coinbase: true, inputs: vec![op(0, 0)], outputs: vec![out(50, &[0x51])] },
        BlockTx {
            txid: Txid([2; 32]),
            is_coinbase: false,
            inputs: vec![op(9, 1), op(9, 0)],
            outputs: vec![out(7, &[0x6a, 0x01, 0x00]), out(8, &[0x51])],
        },
        BlockTx {
            txid: Txid([3; 32]),
            is_coinbase: false,
            inputs: vec![op(9, 1), op(2, 1)],
            outputs: vec![out(3, &[0x00, 0x14]), out(4, &[])],
        },
    ]
}

#[test]
fn outpoints_compare() {
    assert!(outpoint_eq(&op(1, 2), &op(1, 2)));
    assert!(!outpoint_eq(&op(1, 2), &op(1, 3)));
    assert!(!outpoint_eq(&op(1, 2), &op(2, 2)));
    assert_eq!(op(4, 5).to_text(), format!("{}:5", "04".repeat(32)));
}

#[test]
fn spent_outpoints_skip_coinbase_and_repeats() {
    assert_eq!(spent_outpoints(&txs()), vec![op(9, 1), op(9, 0), op(2, 1)]);
    assert_eq!(unique_outpoints(&vec![op(1, 1), op(1, 1), op(2, 2), op(1, 1)]), vec![op(1, 1), op(2, 2)]);
    assert_eq!(unique_outpoints(&vec![]), vec![]);
}

#[test]
fn created_outputs_leave_out_unspendable_scripts() {
    let created = block_prevouts(&txs());
    let keys: Vec<OutPoint> = created.iter().map(|x| x.0).collect();
    assert_eq!(keys, vec![op(1, 0), op(2, 1), op(3, 0), op(3, 1)]);
    let values: Vec<u64> = created.iter().map(|x| x.1.value).collect();
    assert_eq!(values, vec![50, 8, 3, 4]);
    assert_eq!(created[2].1.script_pubkey, vec![0x00, 0x14]);
}

#[test]
fn spent_outputs_come_from_the_store_or_the_block() {
    let keys = vec![op(9, 1), op(9, 0), op(2, 1)];
    let from_db = vec![Some(100u64), Some(200), None];
    let created = vec![(op(2, 1), 8u64), (op(3, 0), 3)];
    assert_eq!(
        resolve_prevouts(&keys, &from_db, &created),
        Ok(vec![(op(9, 1), 100), (op(9, 0), 200), (op(2, 1), 8)])
    );
    let missing = vec![Some(1u64), None, None];
    assert_eq!(resolve_prevouts(&keys, &missing, &created), Err(op(9, 0)));
    let later_wins = vec![(op(2, 1), 1u64), (op(2, 1), 2)];
    assert_eq!(resolve_prevouts(&vec![op(2, 1)], &vec![None], &later_wins), Ok(vec![(op(2, 1), 2)]));
}

#[test]
fn prevouts_record_of_a_block() {
    let r = b1t_indexer::prevouts::prevouts_record(&txs());
    let keys: Vec<OutPoint> = r.to_write.iter().map(|x| x.0).collect();
    assert_eq!(keys, vec![op(1, 0), op(2, 1), op(3, 0), op(3, 1)]);
    assert_eq!(r.to_remove, vec![op(9, 1), op(9, 0), op(2, 1)]);
}

#[test]
fn process_prevouts_records_the_block_only_when_every_output_is_found() {
    let mut data = Vec::new();
    let r = b1t_indexer::prevouts::process_prevouts(&txs(), &vec![Some(100u64), Some(200), None], &vec![50u64, 8, 3, 4], &mut data);
    assert_eq!(r, Ok(vec![(op(9, 1), 100), (op(9, 0), 200), (op(2, 1), 8)]));
    assert_eq!(data.len(), 1);
    assert_eq!(data[0].to_remove, vec![op(9, 1), op(9, 0), op(2, 1)]);
    let keys: Vec<OutPoint> = data[0].to_write.iter().map(|x| x.0).collect();
    assert_eq!(keys, vec![op(1, 0), op(2, 1), op(3, 0), op(3, 1)]);
    let r = b1t_indexer::prevouts::process_prevouts(&txs(), &vec![Some(1u64), None, None], &vec![50u64, 8, 3, 4], &mut data);
    assert_eq!(r, Err(op(9, 0)));
    assert_eq!(data.len(), 1);
}
