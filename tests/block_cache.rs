use wallet_sync::cache::{block_meta, BlockCache, BlockMeta, TxCounts};

fn meta(height: u32) -> BlockMeta {
    BlockMeta {
        height,
        block_hash: [height as u8; 32],
        block_time: 1000 + height,
        sapling_outputs_count: 0,
        orchard_actions_count: 0,
    }
}

fn heights(cache: &BlockCache, upto: u32) -> Vec<u32> {
    (0..=upto).filter(|h| cache.get(*h).is_some()).collect()
}

#[test]
fn block_meta_sums_outputs() {
    let txs = vec![
        TxCounts { sapling_outputs: 2, orchard_actions: 1 },
        TxCounts { sapling_outputs: 3, orchard_actions: 4 },
    ];
    let m = block_meta(7, [1; 32], 99, &txs).unwrap();
    assert_eq!(m.height, 7);
    assert_eq!(m.block_time, 99);
    assert_eq!(m.sapling_outputs_count, 5);
    assert_eq!(m.orchard_actions_count, 5);
    let none = block_meta(7, [1; 32], 99, &Vec::new()).unwrap();
    assert_eq!((none.sapling_outputs_count, none.orchard_actions_count), (0, 0));
}

#[test]
fn block_meta_refuses_overflowing_totals() {
    let txs = vec![
        TxCounts { sapling_outputs: u32::MAX, orchard_actions: 0 },
        TxCounts { sapling_outputs: 1, orchard_actions: 0 },
    ];
    assert!(block_meta(7, [0; 32], 0, &txs).is_none());
}

#[test]
fn write_replaces_record_at_same_height() {
    let mut cache = BlockCache::new();
    cache.write_block(meta(3));
    let mut other = meta(3);
    other.block_time = 5;
    cache.write_block(other);
    assert_eq!(cache.get(3).unwrap().block_time, 5);
    assert_eq!(cache.blocks.len(), 1);
}

#[test]
fn redownload_is_idempotent() {
    let batch: Vec<BlockMeta> = (10..20).map(meta).collect();
    let mut once = BlockCache::new();
    once.write_blocks(&batch);
    let mut thrice = BlockCache::new();
    for _ in 0..3 {
        thrice.write_blocks(&batch);
    }
    assert_eq!(heights(&once, 30), heights(&thrice, 30));
    assert_eq!(thrice.blocks.len(), 10);
    for h in 10..20 {
        assert_eq!(once.get(h).unwrap().block_hash, thrice.get(h).unwrap().block_hash);
    }
}

#[test]
fn truncate_removes_only_blocks_above() {
    let mut cache = BlockCache::new();
    cache.write_blocks(&(0..60).map(meta).collect());
    let mut removed: Vec<u32> = cache.truncate_to_height(45).iter().map(|m| m.height).collect();
    removed.sort();
    assert_eq!(removed, (46..60).collect::<Vec<u32>>());
    assert_eq!(heights(&cache, 100), (0..=45).collect::<Vec<u32>>());
    assert_eq!(cache.get(45).unwrap().block_time, 1045);
}

#[test]
fn truncate_above_everything_removes_nothing() {
    let mut cache = BlockCache::new();
    cache.write_blocks(&(0..5).map(meta).collect());
    assert!(cache.truncate_to_height(10).is_empty());
    assert_eq!(heights(&cache, 10), vec![0, 1, 2, 3, 4]);
}
