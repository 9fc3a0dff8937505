use std::collections::HashMap;
use b1t_indexer::reorg::{undo_of_writes, IndexError, ReorgCache, REORG_CACHE_MAX_LEN};

#[test]
fn restore_undoes_blocks_above_the_height_last_first() {
    let mut cache: ReorgCache<u32, char> = ReorgCache::new();
    assert!(cache.is_empty());
    cache.new_block(10);
    cache.push_token_entry(1);
    cache.push_token_entry(2);
    cache.push_ordinals_entry('a');
    cache.new_block(11);
    cache.push_token_entry(3);
    cache.push_ordinals_entry('b');
    cache.push_ordinals_entry('c');
    assert_eq!(cache.last_height(), Some(11));
    let steps = cache.restore(9);
    assert_eq!(steps.len(), 2);
    assert_eq!((steps[0].height, steps[0].new_last_block), (11, 10));
    assert_eq!(steps[0].token_entries, vec![3]);
    assert_eq!(steps[0].ordinals_entries, vec!['c', 'b']);
    assert_eq!((steps[1].height, steps[1].new_last_block), (10, 9));
    assert_eq!(steps[1].token_entries, vec![2, 1]);
    assert_eq!(steps[1].ordinals_entries, vec!['a']);
    assert!(cache.is_empty());
}

#[test]
fn restore_keeps_blocks_at_or_below_the_height() {
    let mut cache: ReorgCache<u8, u8> = ReorgCache::new();
    for h in 1..=5u32 {
        cache.new_block(h);
    }
    let steps = cache.restore(3);
    let heights: Vec<u32> = steps.iter().map(|s| s.height).collect();
    assert_eq!(heights, vec![5, 4]);
    assert_eq!(cache.last_height(), Some(3));
}

#[test]
fn restore_after_new_block_gives_back_one_empty_step() {
    let mut cache: ReorgCache<u8, u8> = ReorgCache::new();
    cache.new_block(7);
    cache.push_token_entry(1);
    cache.new_block(8);
    let steps = cache.restore(7);
    assert_eq!(steps.len(), 1);
    assert_eq!((steps[0].height, steps[0].new_last_block), (8, 7));
    assert!(steps[0].token_entries.is_empty() && steps[0].ordinals_entries.is_empty());
    assert_eq!(cache.last_height(), Some(7));
    let rest = cache.restore_all();
    assert_eq!(rest.len(), 1);
    assert_eq!(rest[0].token_entries, vec![1]);
}

#[test]
fn cache_keeps_the_newest_blocks_only() {
    let mut cache: ReorgCache<u8, u8> = ReorgCache::new();
    for h in 100..(100 + REORG_CACHE_MAX_LEN as u32 + 5) {
        cache.new_block(h);
    }
    let steps = cache.restore_all();
    assert_eq!(steps.len(), REORG_CACHE_MAX_LEN);
    assert_eq!(steps[0].height, 100 + REORG_CACHE_MAX_LEN as u32 + 4);
    assert_eq!(steps[steps.len() - 1].height, 105);
}

#[test]
fn new_block_replaces_an_existing_height() {
    let mut cache: ReorgCache<u8, u8> = ReorgCache::new();
    cache.new_block(3);
    cache.push_token_entry(9);
    cache.new_block(3);
    let steps = cache.restore_all();
    assert_eq!(steps.len(), 1);
    assert!(steps[0].token_entries.is_empty());
    cache.clear();
    assert!(cache.is_empty());
}

#[test]
fn blocks_far_below_the_tip_clear_the_cache() {
    let mut cache: ReorgCache<u8, u8> = ReorgCache::new();
    cache.new_block(10);
    let plan = cache.prepare_block(Some(10), 11, 100, 0).unwrap();
    assert!(!plan.handle_reorgs);
    assert!(plan.restore.is_empty() && plan.restore_height.is_none());
    assert!(cache.is_empty());
}

#[test]
fn recent_blocks_keep_history_and_must_follow_the_cache() {
    let mut cache: ReorgCache<u8, u8> = ReorgCache::new();
    cache.new_block(80);
    let plan = cache.prepare_block(Some(80), 81, 100, 0).unwrap();
    assert!(plan.handle_reorgs);
    cache.new_block(81);
    let err = cache.prepare_block(Some(81), 90, 100, 0).err();
    assert_eq!(err, Some(IndexError::WrongReorgTip { expected: 82, got: 90 }));
}

#[test]
fn reorganisations_roll_the_cache_back() {
    let mut cache: ReorgCache<u8, u8> = ReorgCache::new();
    for h in 80..=85u32 {
        cache.new_block(h);
        cache.push_token_entry(h as u8);
    }
    let plan = cache.prepare_block(Some(85), 84, 100, 2).unwrap();
    assert!(plan.handle_reorgs);
    assert_eq!(plan.restore_height, Some(83));
    let heights: Vec<u32> = plan.restore.iter().map(|s| s.height).collect();
    assert_eq!(heights, vec![85, 84]);
    assert_eq!(plan.restore[0].token_entries, vec![85]);
    assert_eq!(cache.last_height(), Some(83));
}

#[test]
fn undo_of_writes_restores_the_store() {
    let mut store: HashMap<u32, u64> = HashMap::from([(1, 10), (2, 20), (3, 30)]);
    let original = store.clone();
    let writes = vec![(2u32, 200u64), (4, 400), (1, 100), (5, 500)];
    let before: Vec<Option<u64>> = writes.iter().map(|(k, _)| store.get(k).copied()).collect();
    let (restore, created) = undo_of_writes(&writes, &before);
    assert_eq!(restore, vec![(2, 20), (1, 10)]);
    assert_eq!(created, vec![4, 5]);
    for (k, v) in &writes {
        store.insert(*k, *v);
    }
    for k in &created {
        store.remove(k);
    }
    for (k, v) in &restore {
        store.insert(*k, *v);
    }
    assert_eq!(store, original);
}

#[test]
fn undoing_a_whole_block_gives_back_the_cache_and_the_store() {
    let mut cache: ReorgCache<(Vec<(u32, u64)>, Vec<u32>), u8> = ReorgCache::new();
    cache.new_block(4);
    cache.new_block(5);
    let mut store: HashMap<u32, u64> = HashMap::from([(1, 10), (2, 20)]);
    let original = store.clone();
    cache.new_block(6);
    let writes = vec![(1u32, 11u64), (3, 33)];
    let before: Vec<Option<u64>> = writes.iter().map(|(k, _)| store.get(k).copied()).collect();
    cache.push_token_entry(undo_of_writes(&writes, &before));
    for (k, v) in &writes {
        store.insert(*k, *v);
    }
    let steps = cache.restore(5);
    assert_eq!(cache.last_height(), Some(5));
    assert_eq!(steps.len(), 1);
    assert_eq!((steps[0].height, steps[0].new_last_block), (6, 5));
    assert_eq!(steps[0].token_entries, vec![(vec![(1, 10)], vec![3])]);
    let (restore, created) = &steps[0].token_entries[0];
    for k in created {
        store.remove(k);
    }
    for (k, v) in restore {
        store.insert(*k, *v);
    }
    assert_eq!(store, original);
    let rest = cache.restore(3);
    let heights: Vec<u32> = rest.iter().map(|s| s.height).collect();
    assert_eq!(heights, vec![5, 4]);
}
