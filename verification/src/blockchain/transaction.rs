//! Pruned transactions as plain values, and how they are read.

use monero_oxide::transaction::{Input, Output, Pruned, Timelock as LockUntil, Transaction};
use vstd::prelude::*;

use crate::blockchain::error::{BlockchainError, DbResult};

verus! {

/// Until when the outputs of a transaction are locked beyond the usual time.
#[derive(Clone, Copy, Debug, PartialEq, Eq, Structural)]
pub enum Timelock {
    /// Not at all.
    Unlocked,
    /// Until the block at this height.
    Block(usize),
    /// Until this many seconds since the epoch.
    Time(u64),
}

/// An input of a transaction.
#[derive(Debug, PartialEq, Eq)]
pub enum TxInput {
    /// The input of the miner transaction of the block at this height.
    Gen(usize),
    /// An input that spends the output with this key image.
    ToKey([u8; 32]),
}

/// The mathematical value of a [`TxInput`].
pub enum TxInputModel {
    Gen(usize),
    ToKey(Seq<u8>),
}

impl DeepView for TxInput {
    type V = TxInputModel;

    open spec fn deep_view(&self) -> TxInputModel {
        match self {
            TxInput::Gen(height) => TxInputModel::Gen(*height),
            TxInput::ToKey(key_image) => TxInputModel::ToKey(key_image@),
        }
    }
}

/// An output of a transaction.
#[derive(Debug, PartialEq, Eq)]
pub struct TxOutput {
    pub amount: Option<u64>,
    pub key: [u8; 32],
    pub view_tag: Option<u8>,
}

/// The mathematical value of a [`TxOutput`].
pub struct TxOutputModel {
    pub amount: Option<u64>,
    pub key: Seq<u8>,
    pub view_tag: Option<u8>,
}

impl DeepView for TxOutput {
    type V = TxOutputModel;

    open spec fn deep_view(&self) -> TxOutputModel {
        TxOutputModel { amount: self.amount, key: self.key@, view_tag: self.view_tag }
    }
}

/// What the tables take from a pruned transaction.
#[derive(Debug, PartialEq, Eq)]
pub struct PrunedTransaction {
    pub version: u8,
    pub additional_timelock: Timelock,
    pub inputs: Vec<TxInput>,
    pub outputs: Vec<TxOutput>,
}

/// The mathematical value of a [`PrunedTransaction`].
pub struct PrunedTxModel {
    pub version: u8,
    pub additional_timelock: Timelock,
    pub inputs: Seq<TxInputModel>,
    pub outputs: Seq<TxOutputModel>,
}

impl DeepView for PrunedTransaction {
    type V = PrunedTxModel;

    open spec fn deep_view(&self) -> PrunedTxModel {
        PrunedTxModel {
            version: self.version,
            additional_timelock: self.additional_timelock,
            inputs: self.inputs.deep_view(),
            outputs: self.outputs.deep_view(),
        }
    }
}

/// What `monero_oxide`'s `Transaction::<Pruned>::read` makes of a blob on a machine whose greatest
/// `usize` is `max_height`; `None` where it fails, as it does on a height beyond that.
pub uninterp spec fn pruned_tx_in(blob: Seq<u8>, max_height: usize) -> Option<PrunedTxModel>;

/// Reads a transaction without its prunable part with `Transaction::<Pruned>::read`, from the
/// start of `blob`; bytes that follow it are left. The contract says that the result depends on
/// the bytes and the width of a `usize` alone. Nothing is said of what the error holds.
#[verifier::external_body]
fn decode_pruned_transaction(blob: &[u8]) -> (read: Result<PrunedTransaction, std::io::Error>)
    ensures
        match read {
            Ok(tx) => pruned_tx_in(blob@, usize::MAX) == Some(tx.deep_view()),
            Err(_) => pruned_tx_in(blob@, usize::MAX) is None,
        },
{
    let tx = Transaction::<Pruned>::read(&mut &*blob)?;
    Ok(PrunedTransaction {
        version: tx.version(),
        additional_timelock: match tx.prefix().additional_timelock {
            LockUntil::None => Timelock::Unlocked,
            LockUntil::Block(height) => Timelock::Block(height),
            LockUntil::Time(time) => Timelock::Time(time),
        },
        inputs: tx.prefix().inputs.iter().map(|input| match input {
            Input::Gen(height) => TxInput::Gen(*height),
            Input::ToKey { key_image, .. } => TxInput::ToKey(key_image.to_bytes()),
        }).collect(),
        outputs: tx.prefix().outputs.iter().map(|Output { amount, key, view_tag }|
            TxOutput { amount: *amount, key: key.to_bytes(), view_tag: *view_tag }).collect(),
    })
}

/// Reads a pruned transaction from the start of `blob`.
pub fn read_pruned_transaction(blob: &[u8]) -> (read: DbResult<PrunedTransaction>)
    ensures
        match read {
            Ok(tx) => pruned_tx_in(blob@, usize::MAX) == Some(tx.deep_view()),
            Err(error) => error is IO && pruned_tx_in(blob@, usize::MAX) is None,
        },
{
    match decode_pruned_transaction(blob) {
        Ok(tx) => Ok(tx),
        Err(error) => Err(BlockchainError::IO(error)),
    }
}

} // verus!
