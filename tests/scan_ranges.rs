use wallet_sync::scan::{batch_ranges, batches_of, ScanPriority, ScanRange};

fn range(start: u32, end: u32, priority: ScanPriority) -> ScanRange {
    ScanRange::from_parts(start, end, priority).unwrap()
}

fn bounds(rs: &[ScanRange]) -> Vec<(u32, u32)> {
    rs.iter().map(|r| (r.start, r.end)).collect()
}

#[test]
fn from_parts_refuses_inverted_interval() {
    assert!(ScanRange::from_parts(5, 4, ScanPriority::Historic).is_none());
    let r = range(4, 4, ScanPriority::Historic);
    assert!(r.is_empty());
    assert_eq!(r.len(), 0);
}

#[test]
fn split_at_inside_and_at_edges() {
    let r = range(10, 20, ScanPriority::ChainTip);
    let (a, b) = r.split_at(15).unwrap();
    assert_eq!((a.start, a.end, a.priority), (10, 15, ScanPriority::ChainTip));
    assert_eq!((b.start, b.end, b.priority), (15, 20, ScanPriority::ChainTip));
    assert!(r.split_at(10).is_none());
    assert!(r.split_at(20).is_none());
    assert!(r.split_at(25).is_none());
}

#[test]
fn batches_cover_range_without_gaps() {
    let r = range(0, 100, ScanPriority::Historic);
    let bs = batches_of(&r, 30);
    assert_eq!(bounds(&bs), vec![(0, 30), (30, 60), (60, 90), (90, 100)]);
    assert!(bs.iter().all(|b| b.priority == ScanPriority::Historic));
}

#[test]
fn batches_of_exact_multiple() {
    let r = range(5, 25, ScanPriority::FoundNote);
    assert_eq!(bounds(&batches_of(&r, 10)), vec![(5, 15), (15, 25)]);
}

#[test]
fn batches_of_short_and_empty_ranges() {
    assert_eq!(bounds(&batches_of(&range(3, 7, ScanPriority::Historic), 10)), vec![(3, 7)]);
    assert!(batches_of(&range(7, 7, ScanPriority::Historic), 10).is_empty());
    assert_eq!(bounds(&batches_of(&range(0, 50, ScanPriority::Historic), 0)), vec![(0, 50)]);
}

#[test]
fn batches_near_height_limit() {
    let r = range(u32::MAX - 15, u32::MAX, ScanPriority::ChainTip);
    assert_eq!(
        bounds(&batches_of(&r, 10)),
        vec![(u32::MAX - 15, u32::MAX - 5), (u32::MAX - 5, u32::MAX)]
    );
}

#[test]
fn batch_ranges_keeps_order_and_priorities() {
    let rs = vec![range(100, 125, ScanPriority::ChainTip), range(0, 15, ScanPriority::Historic)];
    let bs = batch_ranges(&rs, 10);
    assert_eq!(bounds(&bs), vec![(100, 110), (110, 120), (120, 125), (0, 10), (10, 15)]);
    let ps: Vec<ScanPriority> = bs.iter().map(|b| b.priority).collect();
    assert_eq!(
        ps,
        vec![
            ScanPriority::ChainTip,
            ScanPriority::ChainTip,
            ScanPriority::ChainTip,
            ScanPriority::Historic,
            ScanPriority::Historic
        ]
    );
}

#[test]
fn priorities_are_ordered_with_verify_highest() {
    assert!(ScanPriority::Verify.outranks(&ScanPriority::ChainTip));
    assert!(ScanPriority::ChainTip.outranks(&ScanPriority::Historic));
    assert!(!ScanPriority::Historic.outranks(&ScanPriority::Historic));
    assert!(!ScanPriority::Ignored.outranks(&ScanPriority::Scanned));
    assert_eq!(ScanPriority::Verify.rank(), 6);
}
