//! Synthetic blocks: miner-only blocks at any height, for stores that need blocks but no chain
//! that follows the consensus rules.

use monero_oxide::block::{Block, BlockHeader};
use monero_oxide::ed25519::CompressedPoint;
use monero_oxide::transaction::{
    Input, Output, Timelock as LockUntil, Transaction, TransactionPrefix,
};
use vstd::prelude::*;

use crate::blockchain::transaction::{PrunedTransaction, TxOutput, TxOutputModel};

verus! {

/// The coins that the miner of a synthetic block gets.
pub const SYNTHETIC_REWARD: u64 = 1_000_000_000;

/// The hard fork that a synthetic block follows and signals.
pub const SYNTHETIC_HARDFORK: u8 = 16;

/// The timestamp of the synthetic block at height zero.
pub const SYNTHETIC_GENESIS_TIME: u64 = 1_000;

/// For how many blocks the output of a synthetic block is locked.
pub const SYNTHETIC_LOCK: usize = 60;

/// A block with a V2 miner transaction, which has no proofs.
#[derive(Debug, PartialEq, Eq)]
pub struct MinerBlock {
    pub hardfork_version: u8,
    pub hardfork_signal: u8,
    pub timestamp: u64,
    pub previous: [u8; 32],
    pub nonce: u32,
    /// The height until which the outputs of the miner transaction are locked.
    pub unlock_height: usize,
    /// The height that the miner transaction names as its input.
    pub height: usize,
    pub outputs: Vec<TxOutput>,
    /// What the miner transaction holds beside its inputs and outputs.
    pub extra: Vec<u8>,
    /// The hashes of the transactions of the block but for that of the miner.
    pub transactions: Vec<[u8; 32]>,
}

/// The mathematical value of a [`MinerBlock`].
pub struct MinerBlockModel {
    pub hardfork_version: u8,
    pub hardfork_signal: u8,
    pub timestamp: u64,
    pub previous: Seq<u8>,
    pub nonce: u32,
    pub unlock_height: usize,
    pub height: usize,
    pub outputs: Seq<TxOutputModel>,
    pub extra: Seq<u8>,
    pub transactions: Seq<Seq<u8>>,
}

impl DeepView for MinerBlock {
    type V = MinerBlockModel;

    open spec fn deep_view(&self) -> MinerBlockModel {
        MinerBlockModel {
            hardfork_version: self.hardfork_version,
            hardfork_signal: self.hardfork_signal,
            timestamp: self.timestamp,
            previous: self.previous@,
            nonce: self.nonce,
            unlock_height: self.unlock_height,
            height: self.height,
            outputs: self.outputs.deep_view(),
            extra: self.extra@,
            transactions: self.transactions@.map_values(|hash: [u8; 32]| hash@),
        }
    }
}

/// What `monero_oxide`'s `Block::serialize` gives for a block with a V2 miner transaction without
/// proofs.
pub uninterp spec fn block_blob(block: MinerBlockModel) -> Seq<u8>;

/// What `monero_oxide`'s `Block::hash` gives for a block with a V2 miner transaction without
/// proofs.
pub uninterp spec fn block_hash(block: MinerBlockModel) -> Seq<u8>;

/// Serializes a block with `Block::serialize` and hashes it with `Block::hash`. `Block::new`, which
/// builds the block, gives one for every miner transaction with a single input that names a height,
/// so the contract promises both; of each it says that it depends on the block alone.
#[verifier::external_body]
fn encode_block(block: &MinerBlock) -> (encoded: Option<(Vec<u8>, [u8; 32])>)
    ensures
        encoded is Some,
        encoded->Some_0.0@ == block_blob(block.deep_view()),
        encoded->Some_0.1@ == block_hash(block.deep_view()),
{
    let MinerBlock { hardfork_version, hardfork_signal, timestamp, previous, nonce, .. } = *block;
    let header = BlockHeader { hardfork_version, hardfork_signal, timestamp, previous, nonce };
    let prefix = TransactionPrefix {
        additional_timelock: LockUntil::Block(block.unlock_height),
        inputs: vec![Input::Gen(block.height)],
        outputs: block.outputs.iter().map(|output| Output {
            amount: output.amount, key: CompressedPoint::from(output.key), view_tag: output.view_tag,
        }).collect(),
        extra: block.extra.clone(),
    };
    let miner_tx = Transaction::V2 { prefix, proofs: None };
    let built = Block::new(header, miner_tx, block.transactions.clone());
    built.map(|built| (built.serialize(), built.hash()))
}

/// A block with what the store keeps of it.
#[derive(Debug, PartialEq, Eq)]
pub struct VerifiedBlockInformation {
    pub block: MinerBlock,
    pub block_blob: Vec<u8>,
    pub block_hash: [u8; 32],
    /// The transactions of the block but for that of the miner.
    pub txs: Vec<PrunedTransaction>,
    pub pow_hash: [u8; 32],
    pub height: usize,
    pub generated_coins: u64,
    pub weight: usize,
    pub long_term_weight: usize,
    pub cumulative_difficulty: u128,
}

/// The output of a synthetic block.
pub open spec fn synthetic_output() -> TxOutputModel {
    TxOutputModel {
        amount: Some(SYNTHETIC_REWARD),
        key: Seq::new(32, |i: int| 1u8),
        view_tag: Some(1),
    }
}

/// The synthetic block at `height` on top of the block with the hash `previous`.
pub open spec fn synthetic_block(height: usize, previous: Seq<u8>) -> MinerBlockModel {
    MinerBlockModel {
        hardfork_version: SYNTHETIC_HARDFORK,
        hardfork_signal: SYNTHETIC_HARDFORK,
        timestamp: (SYNTHETIC_GENESIS_TIME + height) as u64,
        previous,
        nonce: 0,
        unlock_height: (height + SYNTHETIC_LOCK) as usize,
        height,
        outputs: seq![synthetic_output()],
        extra: Seq::empty(),
        transactions: Seq::empty(),
    }
}

/// Builds the synthetic miner-only block at `height` that extends `previous`.
pub fn mock_block(height: usize, previous: [u8; 32]) -> (made: VerifiedBlockInformation)
    requires
        SYNTHETIC_GENESIS_TIME + height <= u64::MAX,
        height + SYNTHETIC_LOCK <= usize::MAX,
    ensures
        made.block.deep_view() == synthetic_block(height, previous@),
        made.block_blob@ == block_blob(synthetic_block(height, previous@)),
        made.block_hash@ == block_hash(synthetic_block(height, previous@)),
        made.txs@.len() == 0,
        made.pow_hash@ == Seq::new(32, |i: int| 0u8),
        made.height == height,
        made.generated_coins == SYNTHETIC_REWARD,
        made.weight == 0,
        made.long_term_weight == 0,
        made.cumulative_difficulty == 1,
{
    let output = TxOutput { amount: Some(SYNTHETIC_REWARD), key: [1; 32], view_tag: Some(1) };
    let ghost output_model = output.deep_view();
    assert(output_model.key =~= synthetic_output().key);
    let mut outputs: Vec<TxOutput> = Vec::new();
    outputs.push(output);
    assert(outputs.deep_view() =~= seq![output_model]);
    let block = MinerBlock {
        hardfork_version: SYNTHETIC_HARDFORK,
        hardfork_signal: SYNTHETIC_HARDFORK,
        timestamp: SYNTHETIC_GENESIS_TIME + height as u64,
        previous,
        nonce: 0,
        unlock_height: height + SYNTHETIC_LOCK,
        height,
        outputs,
        extra: Vec::new(),
        transactions: Vec::new(),
    };
    assert(block.deep_view().transactions =~= Seq::empty());
    let (block_blob, block_hash) = encode_block(&block).unwrap();
    VerifiedBlockInformation {
        block,
        block_blob,
        block_hash,
        txs: Vec::new(),
        pow_hash: [0; 32],
        height,
        generated_coins: SYNTHETIC_REWARD,
        weight: 0,
        long_term_weight: 0,
        cumulative_difficulty: 1,
    }
}

/// A synthetic block names its height and its predecessor, is a second younger than the one below it
/// for each block in between, and locks its only output for sixty blocks. Blocks at two heights, or
/// on two predecessors, are different blocks.
pub proof fn law_synthetic_blocks(
    height: usize,
    previous: Seq<u8>,
    other_height: usize,
    other_previous: Seq<u8>,
)
    requires
        1_000 + height <= u64::MAX,
        1_000 + other_height <= u64::MAX,
        height + 60 <= usize::MAX,
        other_height + 60 <= usize::MAX,
    ensures
        synthetic_block(height, previous).height == height,
        synthetic_block(height, previous).previous == previous,
        synthetic_block(height, previous).timestamp - synthetic_block(
            other_height,
            other_previous,
        ).timestamp == height - other_height,
        synthetic_block(0, previous).timestamp == 1_000,
        synthetic_block(height, previous).unlock_height == height + 60,
        synthetic_block(height, previous).hardfork_version == 16,
        synthetic_block(height, previous).hardfork_signal == 16,
        synthetic_block(height, previous).nonce == 0,
        synthetic_block(height, previous).extra.len() == 0,
        synthetic_block(height, previous).transactions.len() == 0,
        synthetic_block(height, previous).outputs.len() == 1,
        synthetic_block(height, previous).outputs[0].amount == Some(1_000_000_000u64),
        synthetic_block(height, previous).outputs[0].view_tag == Some(1u8),
        synthetic_block(height, previous).outputs[0].key.len() == 32,
        forall|i: int|
            0 <= i < 32 ==> synthetic_block(height, previous).outputs[0].key[i] == 1,
        (height != other_height || previous != other_previous) ==> synthetic_block(height, previous)
            != synthetic_block(other_height, other_previous),
        SYNTHETIC_REWARD == 1_000_000_000,
{
}

} // verus!
