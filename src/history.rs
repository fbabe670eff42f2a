use vstd::prelude::*;

verus! {

/// Zatoshis in one coin.
pub const COIN: u64 = 100000000;

/// The most zatoshis that can ever exist: 21 million coins.
pub const MAX_MONEY: u64 = 21000000 * COIN;

/// Whether a fee, when known, is an amount that can exist.
pub open spec fn fee_in_range(fee: Option<u64>) -> bool {
    match fee {
        Some(f) => f <= MAX_MONEY,
        None => true,
    }
}

/// A transaction of the wallet's history, as read from the wallet store.
#[derive(Debug)]
pub struct Transaction {
    pub mined_height: Option<u32>,
    pub txid: Vec<u8>,
    pub expiry_height: Option<u32>,
    pub fee_paid: Option<u64>,
    pub sent_note_count: usize,
    pub received_note_count: usize,
    pub memo_count: usize,
    pub block_time: Option<i64>,
    pub expired_unmined: bool,
}

/// Why a row of the history cannot be read.
#[derive(Clone, Copy, Debug, PartialEq, Eq, Structural)]
pub enum RowError {
    /// The transaction id is not 32 bytes long.
    InvalidTxId,
    /// The fee is above `MAX_MONEY`.
    FeeOutOfRange,
}

/// Where a transaction stands on the chain.
#[derive(Clone, Copy, Debug, PartialEq, Eq, Structural)]
pub enum TxStatus {
    /// Mined at `height` in a block of time `block_time`.
    Mined { height: u32, block_time: i64 },
    /// Never mined, and expired at `expiry_height` if known.
    Expired { expiry_height: Option<u32> },
    /// Not mined yet; it expires at `expiry_height` if known.
    Unmined { expiry_height: Option<u32> },
}

impl Transaction {
    /// Reads a row of the history: the transaction id must hold 32 bytes and
    /// the fee, when known, must not exceed `MAX_MONEY`.
    pub fn from_parts(
        mined_height: Option<u32>,
        txid: Vec<u8>,
        expiry_height: Option<u32>,
        fee_paid: Option<u64>,
        sent_note_count: usize,
        received_note_count: usize,
        memo_count: usize,
        block_time: Option<i64>,
        expired_unmined: bool,
    ) -> (r: Result<Transaction, RowError>)
        ensures
            txid@.len() != 32 <==> r == Err::<Transaction, RowError>(RowError::InvalidTxId),
            txid@.len() == 32 && !fee_in_range(fee_paid) <==> r == Err::<
                Transaction,
                RowError,
            >(RowError::FeeOutOfRange),
            r matches Ok(t) ==> {
                &&& t.mined_height == mined_height
                &&& t.txid@ == txid@
                &&& t.expiry_height == expiry_height
                &&& t.fee_paid == fee_paid
                &&& t.sent_note_count == sent_note_count
                &&& t.received_note_count == received_note_count
                &&& t.memo_count == memo_count
                &&& t.block_time == block_time
                &&& t.expired_unmined == expired_unmined
            },
    {
        if txid.len() != 32 {
            return Err(RowError::InvalidTxId);
        }
        match fee_paid {
            Some(f) => {
                if f > MAX_MONEY {
                    return Err(RowError::FeeOutOfRange);
                }
            },
            None => {},
        }
        Ok(
            Transaction {
                mined_height,
                txid,
                expiry_height,
                fee_paid,
                sent_note_count,
                received_note_count,
                memo_count,
                block_time,
                expired_unmined,
            },
        )
    }

    /// The transaction is mined when both its height and its block time are
    /// known; otherwise it is expired or unmined as the store says.
    pub fn status(&self) -> (r: TxStatus)
        ensures
            r == (match (self.mined_height, self.block_time) {
                (Some(height), Some(block_time)) => TxStatus::Mined { height, block_time },
                _ => if self.expired_unmined {
                    TxStatus::Expired { expiry_height: self.expiry_height }
                } else {
                    TxStatus::Unmined { expiry_height: self.expiry_height }
                },
            }),
    {
        match (self.mined_height, self.block_time) {
            (Some(height), Some(block_time)) => TxStatus::Mined { height, block_time },
            _ => if self.expired_unmined {
                TxStatus::Expired { expiry_height: self.expiry_height }
            } else {
                TxStatus::Unmined { expiry_height: self.expiry_height }
            },
        }
    }
}

} // verus!
