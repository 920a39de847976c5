//! The check that the tapes and the key-value tables of the store agree.
//!
//! The tapes are the source of truth; the tables are derived from them. The check asks for one
//! stored value after the other, and ends as soon as the values that it has seen decide.

use vstd::prelude::*;

use crate::blockchain::error::{BlockchainError, DbResult};
use crate::bytes::{le_u64, le_value};

verus! {

/// What the check asks for, or how it ends.
#[derive(Debug)]
pub enum CheckAction {
    /// Read the length of the block info tape.
    ReadBlockInfosLen,
    /// Count the entries of the block height table.
    ReadBlockHeightsLen,
    /// Read the length of the transaction info tape.
    ReadTxInfosLen,
    /// Count the entries of the transaction ID table.
    ReadTxIdsLen,
    /// Read the hash in the block info at this index.
    ReadBlockInfo { index: u64 },
    /// Look up the height stored for this block hash.
    LookUpBlockHeight { block_hash: [u8; 32] },
    /// Rebuild the tables from the tapes.
    Rebuild,
    /// The check has ended with this result.
    Return(DbResult<()>),
}

/// What came back for an action.
#[derive(Debug)]
pub enum CheckEvent {
    /// The length of a tape; `None` where there is no such tape.
    TapeLen(Option<u64>),
    /// The number of entries of a table.
    TableLen(DbResult<usize>),
    /// The hash in a block info; `None` past the end of the tape.
    BlockInfo(DbResult<Option<[u8; 32]>>),
    /// The bytes stored for a block hash; `None` where there are none.
    StoredHeight(DbResult<Option<Vec<u8>>>),
    /// How the rebuild ended.
    Rebuilt(DbResult<()>),
}

/// How far the check has come: what it waits for, and what it has to remember.
#[derive(Debug)]
pub enum ConsistencyCheck {
    BlockInfosLen,
    BlockHeightsLen { block_infos_len: u64 },
    TxInfosLen { block_infos_len: u64 },
    TxIdsLen { block_infos_len: u64, tx_infos_len: u64 },
    TopBlockInfo { block_infos_len: u64 },
    StoredHeight { block_infos_len: u64 },
    Rebuilding,
    Finished,
}

/// The check ends with `result`.
pub open spec fn finish(result: DbResult<()>) -> (ConsistencyCheck, CheckAction) {
    (ConsistencyCheck::Finished, CheckAction::Return(result))
}

/// The tables have to be rebuilt.
pub open spec fn rebuild() -> (ConsistencyCheck, CheckAction) {
    (ConsistencyCheck::Rebuilding, CheckAction::Rebuild)
}

impl ConsistencyCheck {
    /// What the check remembers makes sense: a top block is asked for only where there is one.
    pub open spec fn wf(self) -> bool {
        match self {
            ConsistencyCheck::TopBlockInfo { block_infos_len } => block_infos_len > 0,
            ConsistencyCheck::StoredHeight { block_infos_len } => block_infos_len > 0,
            _ => true,
        }
    }

    /// `event` is of the kind that the check waits for.
    pub open spec fn awaits(self, event: CheckEvent) -> bool {
        match self {
            ConsistencyCheck::BlockInfosLen => event is TapeLen,
            ConsistencyCheck::BlockHeightsLen { .. } => event is TableLen,
            ConsistencyCheck::TxInfosLen { .. } => event is TapeLen,
            ConsistencyCheck::TxIdsLen { .. } => event is TableLen,
            ConsistencyCheck::TopBlockInfo { .. } => event is BlockInfo,
            ConsistencyCheck::StoredHeight { .. } => event is StoredHeight,
            ConsistencyCheck::Rebuilding => event is Rebuilt,
            ConsistencyCheck::Finished => false,
        }
    }

    /// Where the check goes on `event`, and what it asks for then.
    pub open spec fn next(self, event: CheckEvent) -> (ConsistencyCheck, CheckAction) {
        match (self, event) {
            (ConsistencyCheck::BlockInfosLen, CheckEvent::TapeLen(None)) => finish(
                Err(BlockchainError::Corrupt("block_infos tape missing")),
            ),
            (ConsistencyCheck::BlockInfosLen, CheckEvent::TapeLen(Some(block_infos_len))) => (
                ConsistencyCheck::BlockHeightsLen { block_infos_len },
                CheckAction::ReadBlockHeightsLen,
            ),
            (
                ConsistencyCheck::BlockHeightsLen { block_infos_len },
                CheckEvent::TableLen(Ok(len)),
            ) => if len == block_infos_len {
                (ConsistencyCheck::TxInfosLen { block_infos_len }, CheckAction::ReadTxInfosLen)
            } else {
                rebuild()
            },
            (ConsistencyCheck::TxInfosLen { .. }, CheckEvent::TapeLen(None)) => finish(
                Err(BlockchainError::Corrupt("tx_infos tape missing")),
            ),
            (
                ConsistencyCheck::TxInfosLen { block_infos_len },
                CheckEvent::TapeLen(Some(tx_infos_len)),
            ) => (
                ConsistencyCheck::TxIdsLen { block_infos_len, tx_infos_len },
                CheckAction::ReadTxIdsLen,
            ),
            (
                ConsistencyCheck::TxIdsLen { block_infos_len, tx_infos_len },
                CheckEvent::TableLen(Ok(len)),
            ) => if len != tx_infos_len {
                rebuild()
            } else if block_infos_len == 0 {
                finish(Ok(()))
            } else {
                (
                    ConsistencyCheck::TopBlockInfo { block_infos_len },
                    CheckAction::ReadBlockInfo { index: (block_infos_len - 1) as u64 },
                )
            },
            (ConsistencyCheck::TopBlockInfo { .. }, CheckEvent::BlockInfo(Ok(None))) => finish(
                Err(BlockchainError::Corrupt("block_infos tail entry missing")),
            ),
            (
                ConsistencyCheck::TopBlockInfo { block_infos_len },
                CheckEvent::BlockInfo(Ok(Some(block_hash))),
            ) => (
                ConsistencyCheck::StoredHeight { block_infos_len },
                CheckAction::LookUpBlockHeight { block_hash },
            ),
            (ConsistencyCheck::StoredHeight { .. }, CheckEvent::StoredHeight(Ok(None))) => rebuild(),
            (
                ConsistencyCheck::StoredHeight { block_infos_len },
                CheckEvent::StoredHeight(Ok(Some(bytes))),
            ) => if bytes@.len() != 8 {
                finish(Err(BlockchainError::Corrupt("block_heights entry has invalid length")))
            } else if le_value(bytes@) == block_infos_len - 1 {
                finish(Ok(()))
            } else {
                rebuild()
            },
            (ConsistencyCheck::Rebuilding, CheckEvent::Rebuilt(result)) => finish(result),
            (_, CheckEvent::TableLen(Err(error))) => finish(Err(error)),
            (_, CheckEvent::BlockInfo(Err(error))) => finish(Err(error)),
            (_, CheckEvent::StoredHeight(Err(error))) => finish(Err(error)),
            _ => arbitrary(),
        }
    }

    /// A check that has seen nothing yet, and the first thing that it asks for.
    pub fn start() -> (started: (ConsistencyCheck, CheckAction))
        ensures
            started == (ConsistencyCheck::BlockInfosLen, CheckAction::ReadBlockInfosLen),
            started.0.wf(),
    {
        (ConsistencyCheck::BlockInfosLen, CheckAction::ReadBlockInfosLen)
    }

    /// Takes the check on by what came back for its last action.
    pub fn step(self, event: CheckEvent) -> (stepped: (ConsistencyCheck, CheckAction))
        requires
            self.wf(),
            self.awaits(event),
        ensures
            stepped == self.next(event),
            stepped.0.wf(),
    {
        match (self, event) {
            (ConsistencyCheck::BlockInfosLen, CheckEvent::TapeLen(len)) => match len {
                None => Self::end(Err(BlockchainError::Corrupt("block_infos tape missing"))),
                Some(block_infos_len) => (
                    ConsistencyCheck::BlockHeightsLen { block_infos_len },
                    CheckAction::ReadBlockHeightsLen,
                ),
            },
            (ConsistencyCheck::BlockHeightsLen { block_infos_len }, CheckEvent::TableLen(len)) => match len {
                Err(error) => Self::end(Err(error)),
                Ok(len) => if len as u64 == block_infos_len {
                    (ConsistencyCheck::TxInfosLen { block_infos_len }, CheckAction::ReadTxInfosLen)
                } else {
                    (ConsistencyCheck::Rebuilding, CheckAction::Rebuild)
                },
            },
            (ConsistencyCheck::TxInfosLen { block_infos_len }, CheckEvent::TapeLen(len)) => match len {
                None => Self::end(Err(BlockchainError::Corrupt("tx_infos tape missing"))),
                Some(tx_infos_len) => (
                    ConsistencyCheck::TxIdsLen { block_infos_len, tx_infos_len },
                    CheckAction::ReadTxIdsLen,
                ),
            },
            (
                ConsistencyCheck::TxIdsLen { block_infos_len, tx_infos_len },
                CheckEvent::TableLen(len),
            ) => match len {
                Err(error) => Self::end(Err(error)),
                Ok(len) => if len as u64 != tx_infos_len {
                    (ConsistencyCheck::Rebuilding, CheckAction::Rebuild)
                } else if block_infos_len == 0 {
                    Self::end(Ok(()))
                } else {
                    (
                        ConsistencyCheck::TopBlockInfo { block_infos_len },
                        CheckAction::ReadBlockInfo { index: block_infos_len - 1 },
                    )
                },
            },
            (ConsistencyCheck::TopBlockInfo { block_infos_len }, CheckEvent::BlockInfo(info)) => match info {
                Err(error) => Self::end(Err(error)),
                Ok(None) => Self::end(
                    Err(BlockchainError::Corrupt("block_infos tail entry missing")),
                ),
                Ok(Some(block_hash)) => (
                    ConsistencyCheck::StoredHeight { block_infos_len },
                    CheckAction::LookUpBlockHeight { block_hash },
                ),
            },
            (ConsistencyCheck::StoredHeight { block_infos_len }, CheckEvent::StoredHeight(stored)) => match stored {
                Err(error) => Self::end(Err(error)),
                Ok(None) => (ConsistencyCheck::Rebuilding, CheckAction::Rebuild),
                Ok(Some(bytes)) => if bytes.len() != 8 {
                    Self::end(
                        Err(BlockchainError::Corrupt("block_heights entry has invalid length")),
                    )
                } else if le_u64(bytes.as_slice()) == block_infos_len - 1 {
                    Self::end(Ok(()))
                } else {
                    (ConsistencyCheck::Rebuilding, CheckAction::Rebuild)
                },
            },
            (ConsistencyCheck::Rebuilding, CheckEvent::Rebuilt(result)) => Self::end(result),
            (_, _) => Self::end(Ok(())),
        }
    }

    fn end(result: DbResult<()>) -> (ended: (ConsistencyCheck, CheckAction))
        ensures
            ended == finish(result),
    {
        (ConsistencyCheck::Finished, CheckAction::Return(result))
    }
}

/// What the store holds, as far as the check reads it.
pub struct StoreModel {
    /// The block hashes of the block info tape, by height; `None` where there is no such tape.
    pub block_infos: Option<Seq<[u8; 32]>>,
    /// The block height table: the bytes stored for each block hash.
    pub block_heights: Map<[u8; 32], Seq<u8>>,
    /// The length of the transaction info tape; `None` where there is no such tape.
    pub tx_infos: Option<nat>,
    /// The number of entries of the transaction ID table.
    pub tx_ids: nat,
}

impl StoreModel {
    /// The tapes are there, and the tables have as many entries as they.
    pub open spec fn lengths_agree(self) -> bool {
        &&& self.block_infos matches Some(infos) && infos.len() == self.block_heights.len()
        &&& self.tx_infos == Some(self.tx_ids)
    }

    /// The bytes that are stored for the top block, where there is one.
    pub open spec fn top_height_bytes(self) -> Option<Seq<u8>> {
        let top = self.block_infos->Some_0.last();
        if self.block_heights.contains_key(top) {
            Some(self.block_heights[top])
        } else {
            None
        }
    }

    /// The tables match the tapes: they have the same lengths, and the top block is stored under
    /// its height.
    pub open spec fn in_sync(self) -> bool {
        &&& self.lengths_agree()
        &&& self.block_infos->Some_0.len() > 0 ==> (self.top_height_bytes() matches Some(bytes)
            && bytes.len() == 8 && le_value(bytes) == self.block_infos->Some_0.len() - 1)
    }

    /// The store contradicts itself in a way that a rebuild is not started for: a tape that is
    /// needed is missing, or what is stored for the top block is no height.
    pub open spec fn is_corrupt(self) -> bool {
        ||| self.block_infos is None
        ||| self.block_infos->Some_0.len() == self.block_heights.len() && self.tx_infos is None
        ||| self.lengths_agree() && self.block_infos->Some_0.len() > 0 && (self.top_height_bytes() matches Some(
            bytes,
        ) && bytes.len() != 8)
    }

    /// `event` is what this store gives back for `action`.
    pub open spec fn answers(self, action: CheckAction, event: CheckEvent) -> bool {
        match action {
            CheckAction::ReadBlockInfosLen => event matches CheckEvent::TapeLen(len) && match len {
                None => self.block_infos is None,
                Some(len) => self.block_infos matches Some(infos) && infos.len() == len,
            },
            CheckAction::ReadBlockHeightsLen => event matches CheckEvent::TableLen(Ok(len)) && len
                == self.block_heights.len(),
            CheckAction::ReadTxInfosLen => event matches CheckEvent::TapeLen(len) && match len {
                None => self.tx_infos is None,
                Some(len) => self.tx_infos == Some(len as nat),
            },
            CheckAction::ReadTxIdsLen => event matches CheckEvent::TableLen(Ok(len)) && len
                == self.tx_ids,
            CheckAction::ReadBlockInfo { index } => event matches CheckEvent::BlockInfo(Ok(info))
                && self.block_infos matches Some(infos) && info == if index < infos.len() {
                Some(infos[index as int])
            } else {
                None
            },
            CheckAction::LookUpBlockHeight { block_hash } => event matches CheckEvent::StoredHeight(
                Ok(stored),
            ) && match stored {
                None => !self.block_heights.contains_key(block_hash),
                Some(bytes) => self.block_heights.contains_key(block_hash)
                    && self.block_heights[block_hash] == bytes@,
            },
            CheckAction::Rebuild => false,
            CheckAction::Return(_) => false,
        }
    }
}

/// Where the check stands after these events.
pub open spec fn after(events: Seq<CheckEvent>) -> (ConsistencyCheck, CheckAction)
    decreases events.len(),
{
    if events.len() == 0 {
        (ConsistencyCheck::BlockInfosLen, CheckAction::ReadBlockInfosLen)
    } else {
        after(events.drop_last()).0.next(events.last())
    }
}

/// Each event is what `store` gives back for what the check asked for.
pub open spec fn answered(store: StoreModel, events: Seq<CheckEvent>) -> bool
    decreases events.len(),
{
    events.len() > 0 ==> answered(store, events.drop_last()) && store.answers(
        after(events.drop_last()).1,
        events.last(),
    )
}

/// What the check knows of the store in each of its states.
spec fn knows(store: StoreModel, at: (ConsistencyCheck, CheckAction), steps: nat) -> bool {
    let blocks = store.block_infos->Some_0;
    match at.0 {
        ConsistencyCheck::BlockInfosLen => steps == 0 && at.1 == CheckAction::ReadBlockInfosLen,
        ConsistencyCheck::BlockHeightsLen { block_infos_len } => {
            &&& steps == 1
            &&& at.1 == CheckAction::ReadBlockHeightsLen
            &&& store.block_infos is Some
            &&& blocks.len() == block_infos_len
        },
        ConsistencyCheck::TxInfosLen { block_infos_len } => {
            &&& steps == 2
            &&& at.1 == CheckAction::ReadTxInfosLen
            &&& store.block_infos is Some
            &&& blocks.len() == block_infos_len == store.block_heights.len()
        },
        ConsistencyCheck::TxIdsLen { block_infos_len, tx_infos_len } => {
            &&& steps == 3
            &&& at.1 == CheckAction::ReadTxIdsLen
            &&& store.block_infos is Some
            &&& blocks.len() == block_infos_len == store.block_heights.len()
            &&& store.tx_infos == Some(tx_infos_len as nat)
        },
        ConsistencyCheck::TopBlockInfo { block_infos_len } => {
            &&& steps == 4
            &&& at.1 == CheckAction::ReadBlockInfo { index: (block_infos_len - 1) as u64 }
            &&& store.lengths_agree()
            &&& blocks.len() == block_infos_len > 0
        },
        ConsistencyCheck::StoredHeight { block_infos_len } => {
            &&& steps == 5
            &&& at.1 == CheckAction::LookUpBlockHeight { block_hash: blocks.last() }
            &&& store.lengths_agree()
            &&& blocks.len() == block_infos_len > 0
        },
        ConsistencyCheck::Rebuilding => {
            &&& at.1 == CheckAction::Rebuild
            &&& !store.in_sync() && !store.is_corrupt()
        },
        ConsistencyCheck::Finished => match at.1 {
            CheckAction::Return(Ok(_)) => store.in_sync() && !store.is_corrupt(),
            CheckAction::Return(Err(error)) => error is Corrupt && store.is_corrupt()
                && !store.in_sync(),
            _ => false,
        },
    }
}

proof fn lemma_check_knows(store: StoreModel, events: Seq<CheckEvent>)
    requires
        answered(store, events),
    ensures
        knows(store, after(events), events.len()),
    decreases events.len(),
{
    if events.len() > 0 {
        lemma_check_knows(store, events.drop_last());
    }
}

/// On a store that is read without errors the check asks at most six questions. It ends well
/// exactly where the tables match the tapes, reports corruption exactly where the store
/// contradicts itself, and has the tables rebuilt exactly in all other cases.
pub proof fn law_check_decides(store: StoreModel, events: Seq<CheckEvent>)
    requires
        answered(store, events),
    ensures
        match after(events).1 {
            CheckAction::Return(Ok(_)) => store.in_sync(),
            CheckAction::Return(Err(error)) => error is Corrupt && store.is_corrupt(),
            CheckAction::Rebuild => !store.in_sync() && !store.is_corrupt(),
            _ => events.len() < 6,
        },
        !(store.in_sync() && store.is_corrupt()),
{
    lemma_check_knows(store, events);
}

/// An error of the store ends the check in every state, and is handed on as it came.
pub proof fn law_store_errors_are_handed_on(
    check: ConsistencyCheck,
    event: CheckEvent,
    error: BlockchainError,
)
    requires
        check.awaits(event),
        event == CheckEvent::TableLen(Err(error)) || event == CheckEvent::BlockInfo(Err(error))
            || event == CheckEvent::StoredHeight(Err(error)) || event == CheckEvent::Rebuilt(
            Err(error),
        ),
    ensures
        check.next(event) == finish(Err(error)),
{
}

/// What the check says of a store that is read without errors, in terms of what is stored. It ends
/// well only where both tables are as long as their tapes and the top block, if there is one, is
/// stored with its height, which is one less than the number of blocks, in eight bytes. It has the
/// tables rebuilt only where a length differs, or the top block is not stored, or is stored with
/// another height. It reports corruption, and names it, only where a tape is missing or what is
/// stored for the top block is not eight bytes.
pub proof fn law_check_compares_what_is_stored(store: StoreModel, events: Seq<CheckEvent>)
    requires
        answered(store, events),
    ensures
        ({
            let infos = store.block_infos->Some_0;
            let heights = store.block_heights;
            let top = infos.last();
            let lengths = store.block_infos is Some && infos.len() == heights.len()
                && store.tx_infos is Some && store.tx_infos->Some_0 == store.tx_ids;
            match after(events).1 {
                CheckAction::Return(Ok(_)) => {
                    &&& lengths
                    &&& infos.len() > 0 ==> heights.contains_key(top) && heights[top].len() == 8
                        && le_value(heights[top]) + 1 == infos.len()
                },
                CheckAction::Rebuild => {
                    &&& store.block_infos is Some
                    &&& !lengths || (infos.len() > 0 && (!heights.contains_key(top) || (
                    heights[top].len() == 8 && le_value(heights[top]) + 1 != infos.len())))
                },
                CheckAction::Return(Err(error)) => {
                    ||| store.block_infos is None && error == BlockchainError::Corrupt(
                        "block_infos tape missing",
                    )
                    ||| store.block_infos is Some && infos.len() == heights.len()
                        && store.tx_infos is None && error == BlockchainError::Corrupt(
                        "tx_infos tape missing",
                    )
                    ||| lengths && infos.len() > 0 && heights.contains_key(top) && heights[top].len()
                        != 8 && error == BlockchainError::Corrupt(
                        "block_heights entry has invalid length",
                    )
                },
                _ => events.len() < 6,
            }
        }),
    decreases events.len(),
{
    lemma_check_knows(store, events);
    if events.len() > 0 {
        lemma_check_knows(store, events.drop_last());
    }
}

/// While no answer decides, the check goes on: it asks for the two lengths of the blocks, then for
/// those of the transactions, then for the top block, and then for the height of the block with the
/// hash that it was told.
pub proof fn law_check_asks_in_order(
    len: u64,
    table_len: usize,
    tx_len: u64,
    tx_table_len: usize,
    hash: [u8; 32],
)
    requires
        table_len == len,
        tx_table_len == tx_len,
        len > 0,
    ensures
        ({
            let first = after(seq![]);
            let second = first.0.next(CheckEvent::TapeLen(Some(len)));
            let third = second.0.next(CheckEvent::TableLen(Ok(table_len)));
            let fourth = third.0.next(CheckEvent::TapeLen(Some(tx_len)));
            let fifth = fourth.0.next(CheckEvent::TableLen(Ok(tx_table_len)));
            let sixth = fifth.0.next(CheckEvent::BlockInfo(Ok(Some(hash))));
            &&& first.1 is ReadBlockInfosLen
            &&& second.1 is ReadBlockHeightsLen
            &&& third.1 is ReadTxInfosLen
            &&& fourth.1 is ReadTxIdsLen
            &&& fifth.1 == CheckAction::ReadBlockInfo { index: (len - 1) as u64 }
            &&& sixth.1 == CheckAction::LookUpBlockHeight { block_hash: hash }
            &&& fifth.0.next(CheckEvent::BlockInfo(Ok(None))).1 == CheckAction::Return(
                Err(BlockchainError::Corrupt("block_infos tail entry missing")),
            )
        }),
{
}

/// The check ends as the rebuild ended.
pub proof fn law_rebuild_ends_the_check(result: DbResult<()>)
    ensures
        ConsistencyCheck::Rebuilding.next(CheckEvent::Rebuilt(result)).1 == CheckAction::Return(
            result,
        ),
        ConsistencyCheck::Rebuilding.next(CheckEvent::Rebuilt(result)).0 is Finished,
{
}

} // verus!
