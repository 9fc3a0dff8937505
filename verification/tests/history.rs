use b1t_indexer::history::{number_history, HistoryEntry, HistoryRole};

fn e(action: usize, role: HistoryRole, id: u64) -> HistoryEntry {
    HistoryEntry { action, role, id }
}

#[test]
fn sends_take_two_ids_sender_first() {
    let (entries, last) = number_history(&vec![false, true, false], 10);
    assert_eq!(
        entries,
        vec![
            e(0, HistoryRole::Own, 11),
            e(1, HistoryRole::Sender, 13),
            e(1, HistoryRole::Receiver, 12),
            e(2, HistoryRole::Own, 14),
        ]
    );
    assert_eq!(last, 14);
}

#[test]
fn no_actions_keep_the_last_id() {
    let (entries, last) = number_history(&vec![], 7);
    assert!(entries.is_empty());
    assert_eq!(last, 7);
}
