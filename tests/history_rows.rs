use wallet_sync::history::{RowError, Transaction, TxStatus, MAX_MONEY};

fn row(mined: Option<u32>, txid_len: usize, fee: Option<u64>, time: Option<i64>, expired: bool) -> Result<Transaction, RowError> {
    Transaction::from_parts(mined, vec![7; txid_len], Some(120), fee, 1, 2, 3, time, expired)
}

#[test]
fn from_parts_keeps_fields() {
    let t = row(Some(100), 32, Some(1000), Some(1_700_000_000), false).unwrap();
    assert_eq!(t.mined_height, Some(100));
    assert_eq!(t.txid, vec![7; 32]);
    assert_eq!(t.expiry_height, Some(120));
    assert_eq!(t.fee_paid, Some(1000));
    assert_eq!((t.sent_note_count, t.received_note_count, t.memo_count), (1, 2, 3));
    assert_eq!(t.block_time, Some(1_700_000_000));
    assert!(!t.expired_unmined);
}

#[test]
fn from_parts_rejects_bad_txid() {
    assert_eq!(row(None, 31, None, None, false).unwrap_err(), RowError::InvalidTxId);
    assert_eq!(row(None, 33, Some(u64::MAX), None, false).unwrap_err(), RowError::InvalidTxId);
    assert_eq!(row(None, 0, None, None, false).unwrap_err(), RowError::InvalidTxId);
}

#[test]
fn from_parts_checks_fee_range() {
    assert_eq!(MAX_MONEY, 2_100_000_000_000_000);
    assert!(row(None, 32, Some(MAX_MONEY), None, false).is_ok());
    assert_eq!(row(None, 32, Some(MAX_MONEY + 1), None, false).unwrap_err(), RowError::FeeOutOfRange);
    assert!(row(None, 32, None, None, false).is_ok());
}

#[test]
fn status_of_rows() {
    let mined = row(Some(100), 32, None, Some(5), false).unwrap();
    assert_eq!(mined.status(), TxStatus::Mined { height: 100, block_time: 5 });
    let no_time = row(Some(100), 32, None, None, false).unwrap();
    assert_eq!(no_time.status(), TxStatus::Unmined { expiry_height: Some(120) });
    let expired = row(None, 32, None, Some(5), true).unwrap();
    assert_eq!(expired.status(), TxStatus::Expired { expiry_height: Some(120) });
}
