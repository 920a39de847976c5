//! The rebuild of the tables from the tapes.
//!
//! All tables are cleared, and with them the cache of what they hold. Then every block of the
//! tapes, from the first to the last, is entered into them again. The first operation that fails
//! ends the rebuild.

use vstd::prelude::*;

use crate::blockchain::error::{BlockchainError, DbResult};
use crate::blockchain::layout::{all_tables, table_at, Table, TABLE_COUNT};

verus! {

/// A batch of writes is committed after each block whose height is a multiple of this.
pub const COMMIT_INTERVAL: u64 = 1000;

/// What the rebuild does next, or how it ended.
#[derive(Debug)]
pub enum RebuildAction {
    /// Remove all entries of the table.
    Clear(Table),
    /// Forget the cached numbers of pre-RCT outputs: the table that they count is empty now.
    ClearOutputCounts,
    /// Start to read the transactions from the first on, and start the first batch of writes.
    OpenTransactions,
    /// Read the length of the block info tape.
    ReadBlockInfosLen,
    /// Read the block at this height.
    ReadBlock { height: u64 },
    /// Read the next transaction: the miner transaction of the block, which stands in the block
    /// too.
    SkipMinerTransaction,
    /// Enter the block, with as many of the next transactions as it has, into the tables.
    AddBlock { height: u64 },
    /// Commit the batch of writes and start another.
    CommitBatch,
    /// Commit the last batch of writes.
    CommitLastBatch,
    /// The rebuild has ended with this result.
    Return(DbResult<()>),
}

/// What came back for an action.
#[derive(Debug)]
pub enum RebuildEvent {
    /// How the action ended.
    Done(DbResult<()>),
    /// The length of the block info tape; `None` where there is no such tape.
    BlockInfosLen(Option<u64>),
}

/// How far the rebuild has come.
#[derive(Debug)]
pub enum Rebuild {
    Clearing { index: usize },
    ClearingOutputCounts,
    OpeningTransactions,
    ReadingLen,
    ReadingBlock { height: u64, len: u64 },
    SkippingMinerTransaction { height: u64, len: u64 },
    AddingBlock { height: u64, len: u64 },
    Committing { height: u64, len: u64 },
    CommittingLast,
    Finished,
}

/// The rebuild ends with `result`.
pub open spec fn finish(result: DbResult<()>) -> (Rebuild, RebuildAction) {
    (Rebuild::Finished, RebuildAction::Return(result))
}

/// The block at `height` of `len` is next, or the end of them.
pub open spec fn at_block(height: int, len: u64) -> (Rebuild, RebuildAction) {
    if height < len {
        (
            Rebuild::ReadingBlock { height: height as u64, len },
            RebuildAction::ReadBlock { height: height as u64 },
        )
    } else {
        (Rebuild::CommittingLast, RebuildAction::CommitLastBatch)
    }
}

/// The batch is committed after the block at `height`.
pub open spec fn commits_after(height: int) -> bool {
    height % COMMIT_INTERVAL as int == 0
}

impl Rebuild {
    /// The table or block that the rebuild is at is one that there is.
    pub open spec fn wf(self) -> bool {
        match self {
            Rebuild::Clearing { index } => index < TABLE_COUNT,
            Rebuild::ReadingBlock { height, len } => height < len,
            Rebuild::SkippingMinerTransaction { height, len } => height < len,
            Rebuild::AddingBlock { height, len } => height < len,
            Rebuild::Committing { height, len } => height < len,
            _ => true,
        }
    }

    /// `event` is of the kind that the rebuild waits for.
    pub open spec fn awaits(self, event: RebuildEvent) -> bool {
        match self {
            Rebuild::ReadingLen => event is BlockInfosLen,
            Rebuild::Finished => false,
            _ => event is Done,
        }
    }

    /// Where the rebuild goes when its last action has succeeded.
    pub open spec fn after_success(self) -> (Rebuild, RebuildAction) {
        match self {
            Rebuild::Clearing { index } => if index + 1 < TABLE_COUNT {
                (
                    Rebuild::Clearing { index: (index + 1) as usize },
                    RebuildAction::Clear(all_tables()[index + 1]),
                )
            } else {
                (Rebuild::ClearingOutputCounts, RebuildAction::ClearOutputCounts)
            },
            Rebuild::ClearingOutputCounts => (
                Rebuild::OpeningTransactions,
                RebuildAction::OpenTransactions,
            ),
            Rebuild::OpeningTransactions => (Rebuild::ReadingLen, RebuildAction::ReadBlockInfosLen),
            Rebuild::ReadingBlock { height, len } => (
                Rebuild::SkippingMinerTransaction { height, len },
                RebuildAction::SkipMinerTransaction,
            ),
            Rebuild::SkippingMinerTransaction { height, len } => (
                Rebuild::AddingBlock { height, len },
                RebuildAction::AddBlock { height },
            ),
            Rebuild::AddingBlock { height, len } => if commits_after(height as int) {
                (Rebuild::Committing { height, len }, RebuildAction::CommitBatch)
            } else {
                at_block(height + 1, len)
            },
            Rebuild::Committing { height, len } => at_block(height + 1, len),
            Rebuild::CommittingLast => finish(Ok(())),
            Rebuild::ReadingLen | Rebuild::Finished => arbitrary(),
        }
    }

    /// Where the rebuild goes on `event`, and what it does then.
    pub open spec fn next(self, event: RebuildEvent) -> (Rebuild, RebuildAction) {
        match event {
            RebuildEvent::Done(Ok(_)) => self.after_success(),
            RebuildEvent::Done(Err(error)) => finish(Err(error)),
            RebuildEvent::BlockInfosLen(None) => finish(
                Err(BlockchainError::Corrupt("block_infos tape missing")),
            ),
            RebuildEvent::BlockInfosLen(Some(len)) => at_block(0, len),
        }
    }

    /// A rebuild that has done nothing yet, and the first thing that it does.
    pub fn start() -> (started: (Rebuild, RebuildAction))
        ensures
            started == (Rebuild::Clearing { index: 0 }, RebuildAction::Clear(all_tables()[0])),
            started.0.wf(),
    {
        (Rebuild::Clearing { index: 0 }, RebuildAction::Clear(table_at(0)))
    }

    /// Takes the rebuild on by what came back for its last action.
    pub fn step(self, event: RebuildEvent) -> (stepped: (Rebuild, RebuildAction))
        requires
            self.wf(),
            self.awaits(event),
        ensures
            stepped == self.next(event),
            stepped.0.wf(),
    {
        match event {
            RebuildEvent::Done(Err(error)) => (Rebuild::Finished, RebuildAction::Return(Err(error))),
            RebuildEvent::BlockInfosLen(None) => (
                Rebuild::Finished,
                RebuildAction::Return(Err(BlockchainError::Corrupt("block_infos tape missing"))),
            ),
            RebuildEvent::BlockInfosLen(Some(len)) => Self::go_to_block(0, len),
            RebuildEvent::Done(Ok(_)) => match self {
                Rebuild::Clearing { index } => if index + 1 < TABLE_COUNT {
                    (
                        Rebuild::Clearing { index: index + 1 },
                        RebuildAction::Clear(table_at(index + 1)),
                    )
                } else {
                    (Rebuild::ClearingOutputCounts, RebuildAction::ClearOutputCounts)
                },
                Rebuild::ClearingOutputCounts => (
                    Rebuild::OpeningTransactions,
                    RebuildAction::OpenTransactions,
                ),
                Rebuild::OpeningTransactions => (
                    Rebuild::ReadingLen,
                    RebuildAction::ReadBlockInfosLen,
                ),
                Rebuild::ReadingBlock { height, len } => (
                    Rebuild::SkippingMinerTransaction { height, len },
                    RebuildAction::SkipMinerTransaction,
                ),
                Rebuild::SkippingMinerTransaction { height, len } => (
                    Rebuild::AddingBlock { height, len },
                    RebuildAction::AddBlock { height },
                ),
                Rebuild::AddingBlock { height, len } => if height % COMMIT_INTERVAL == 0 {
                    (Rebuild::Committing { height, len }, RebuildAction::CommitBatch)
                } else {
                    Self::go_to_block(height + 1, len)
                },
                Rebuild::Committing { height, len } => Self::go_to_block(height + 1, len),
                Rebuild::CommittingLast => (Rebuild::Finished, RebuildAction::Return(Ok(()))),
                Rebuild::ReadingLen | Rebuild::Finished => (
                    Rebuild::Finished,
                    RebuildAction::Return(Ok(())),
                ),
            },
        }
    }

    fn go_to_block(height: u64, len: u64) -> (gone: (Rebuild, RebuildAction))
        ensures
            gone == at_block(height as int, len),
            gone.0.wf(),
    {
        if height < len {
            (Rebuild::ReadingBlock { height, len }, RebuildAction::ReadBlock { height })
        } else {
            (Rebuild::CommittingLast, RebuildAction::CommitLastBatch)
        }
    }

    /// How many steps are left at most, on tapes of `len` blocks.
    pub open spec fn steps_left(self, len: u64) -> int {
        match self {
            Rebuild::Clearing { index } => 5 * len + 10 + TABLE_COUNT - index,
            Rebuild::ClearingOutputCounts => 5 * len + 10,
            Rebuild::OpeningTransactions => 5 * len + 9,
            Rebuild::ReadingLen => 5 * len + 8,
            Rebuild::ReadingBlock { height, .. } => 5 * (len - height) + 4,
            Rebuild::SkippingMinerTransaction { height, .. } => 5 * (len - height) + 3,
            Rebuild::AddingBlock { height, .. } => 5 * (len - height) + 2,
            Rebuild::Committing { height, .. } => 5 * (len - height) + 1,
            Rebuild::CommittingLast => 2,
            Rebuild::Finished => 0,
        }
    }

    /// The rebuild runs on tapes of `len` blocks.
    pub open spec fn is_on(self, len: u64) -> bool {
        match self {
            Rebuild::ReadingBlock { len: l, .. } => l == len,
            Rebuild::SkippingMinerTransaction { len: l, .. } => l == len,
            Rebuild::AddingBlock { len: l, .. } => l == len,
            Rebuild::Committing { len: l, .. } => l == len,
            _ => true,
        }
    }
}

/// What comes back for an action where nothing fails and the tapes hold `len` blocks.
pub open spec fn success(at: Rebuild, len: u64) -> RebuildEvent {
    if at is ReadingLen {
        RebuildEvent::BlockInfosLen(Some(len))
    } else {
        RebuildEvent::Done(Ok(()))
    }
}

/// The actions from here on, where nothing fails and the tapes hold `len` blocks.
pub open spec fn actions_from(at: (Rebuild, RebuildAction), len: u64) -> Seq<RebuildAction>
    decreases at.0.steps_left(len),
    when at.0.wf() && at.0.is_on(len)
{
    if at.0 is Finished {
        seq![at.1]
    } else {
        seq![at.1] + actions_from(at.0.next(success(at.0, len)), len)
    }
}

/// The actions for the blocks from `height` to `len`: each is read and entered once, in order,
/// and the writes are committed in batches.
pub open spec fn block_actions(height: int, len: u64) -> Seq<RebuildAction>
    decreases len - height,
{
    if height >= len {
        seq![RebuildAction::CommitLastBatch, RebuildAction::Return(Ok(()))]
    } else {
        seq![
            RebuildAction::ReadBlock { height: height as u64 },
            RebuildAction::SkipMinerTransaction,
            RebuildAction::AddBlock { height: height as u64 },
        ] + (if commits_after(height) {
            seq![RebuildAction::CommitBatch]
        } else {
            seq![]
        }) + block_actions(height + 1, len)
    }
}

/// The clearing of the tables from the one at `index` on.
pub open spec fn clear_actions(index: int) -> Seq<RebuildAction> {
    all_tables().skip(index).map_values(|table: Table| RebuildAction::Clear(table))
}

proof fn lemma_block_actions(height: int, len: u64)
    requires
        0 <= height <= len,
    ensures
        actions_from(at_block(height, len), len) == block_actions(height, len),
    decreases len - height,
{
    let at = at_block(height, len);
    let then = at.0.after_success();
    if height < len {
        let adding = then.0.after_success();
        let added = adding.0.after_success();
        lemma_block_actions(height + 1, len);
        let rest = block_actions(height + 1, len);
        if commits_after(height) {
            assert(added.0.next(success(added.0, len)) == at_block(height + 1, len));
            assert(actions_from(added, len) == seq![added.1] + rest);
        } else {
            assert(added == at_block(height + 1, len));
        }
        assert(actions_from(adding, len) == seq![adding.1] + actions_from(added, len));
        assert(actions_from(then, len) == seq![then.1] + actions_from(adding, len));
        assert(actions_from(at, len) == seq![at.1] + actions_from(then, len));
        assert(actions_from(at, len) =~= block_actions(height, len));
    } else {
        assert(then == finish(Ok(())));
        assert(actions_from(then, len) == seq![then.1]);
        assert(actions_from(at, len) == seq![at.1] + actions_from(then, len));
        assert(actions_from(at, len) =~= block_actions(height, len));
    }
}

proof fn lemma_clear_actions(index: usize, len: u64)
    requires
        index < TABLE_COUNT,
    ensures
        actions_from(
            (Rebuild::Clearing { index }, RebuildAction::Clear(all_tables()[index as int])),
            len,
        ) == clear_actions(index as int) + seq![
            RebuildAction::ClearOutputCounts,
            RebuildAction::OpenTransactions,
            RebuildAction::ReadBlockInfosLen,
        ] + block_actions(0, len),
    decreases TABLE_COUNT - index,
{
    let at = (Rebuild::Clearing { index }, RebuildAction::Clear(all_tables()[index as int]));
    let then = at.0.after_success();
    let tail = seq![
        RebuildAction::ClearOutputCounts,
        RebuildAction::OpenTransactions,
        RebuildAction::ReadBlockInfosLen,
    ] + block_actions(0, len);
    assert(actions_from(at, len) == seq![at.1] + actions_from(then, len));
    if index + 1 < TABLE_COUNT {
        lemma_clear_actions((index + 1) as usize, len);
        assert(clear_actions(index as int) =~= seq![at.1] + clear_actions(index + 1));
        assert(actions_from(at, len) =~= clear_actions(index as int) + tail);
    } else {
        let opening = then.0.after_success();
        let reading = opening.0.after_success();
        lemma_block_actions(0, len);
        assert(actions_from(reading, len) == seq![reading.1] + block_actions(0, len));
        assert(actions_from(opening, len) == seq![opening.1] + actions_from(reading, len));
        assert(actions_from(then, len) == seq![then.1] + actions_from(opening, len));
        assert(clear_actions(index as int) =~= seq![at.1]);
        assert(actions_from(at, len) =~= clear_actions(index as int) + tail);
    }
    assert(clear_actions(index as int) + tail =~= clear_actions(index as int) + seq![
        RebuildAction::ClearOutputCounts,
        RebuildAction::OpenTransactions,
        RebuildAction::ReadBlockInfosLen,
    ] + block_actions(0, len));
}

/// Where nothing fails, the rebuild clears every table once and the cache of output counts, then
/// enters every block once, in order of height, and ends well.
pub proof fn law_rebuild_enters_every_block(len: u64)
    ensures
        actions_from(
            (Rebuild::Clearing { index: 0 }, RebuildAction::Clear(all_tables()[0])),
            len,
        ) == all_tables().map_values(|table: Table| RebuildAction::Clear(table)) + seq![
            RebuildAction::ClearOutputCounts,
            RebuildAction::OpenTransactions,
            RebuildAction::ReadBlockInfosLen,
        ] + block_actions(0, len),
{
    lemma_clear_actions(0, len);
    assert(all_tables().skip(0) =~= all_tables());
}

/// Whatever the rebuild is at, an action that fails ends it, and its error is handed on as it
/// came.
pub proof fn law_first_failure_ends_the_rebuild(rebuild: Rebuild, error: BlockchainError)
    ensures
        rebuild.next(RebuildEvent::Done(Err(error))) == finish(Err(error)),
{
}

/// The end of a pruned transaction blob, as a position on the tape. It sticks at the greatest
/// position that there is.
pub open spec fn pruned_blob_end(pruned_blob_idx: u64, pruned_size: usize) -> int {
    if pruned_blob_idx + pruned_size > u64::MAX {
        u64::MAX as int
    } else {
        pruned_blob_idx + pruned_size
    }
}

/// Checks that a pruned transaction blob lies within the tape of pruned blobs, so that it can be
/// read. `blob_tape_len` is `None` where there is no such tape.
pub fn check_pruned_blob_range(
    pruned_blob_idx: u64,
    pruned_size: usize,
    blob_tape_len: Option<u64>,
) -> (checked: DbResult<()>)
    ensures
        checked == match blob_tape_len {
            None => Err::<(), BlockchainError>(BlockchainError::Corrupt("pruned_blobs tape missing")),
            Some(len) => if pruned_blob_end(pruned_blob_idx, pruned_size) > len {
                Err(BlockchainError::Corrupt("tx pruned blob range out of bounds"))
            } else {
                Ok(())
            },
        },
{
    match blob_tape_len {
        None => Err(BlockchainError::Corrupt("pruned_blobs tape missing")),
        Some(len) => if pruned_blob_idx.saturating_add(pruned_size as u64) > len {
            Err(BlockchainError::Corrupt("tx pruned blob range out of bounds"))
        } else {
            Ok(())
        },
    }
}

/// What the rebuild does fits where it is: the block that is read and the block that is entered are
/// the one that it has come to, each table is cleared in its turn, and writes are committed after
/// every thousandth block from the first on.
pub proof fn law_action_fits_the_place(rebuild: Rebuild, event: RebuildEvent)
    requires
        rebuild.wf(),
        rebuild.awaits(event),
    ensures
        match rebuild.next(event).0 {
            Rebuild::Clearing { index } => rebuild.next(event).1 == RebuildAction::Clear(
                all_tables()[index as int],
            ) && rebuild == (Rebuild::Clearing { index: (index - 1) as usize }) && index > 0,
            Rebuild::ClearingOutputCounts => rebuild.next(event).1
                == RebuildAction::ClearOutputCounts && rebuild == (Rebuild::Clearing { index: 10 }),
            Rebuild::OpeningTransactions => rebuild.next(event).1 == RebuildAction::OpenTransactions
                && rebuild is ClearingOutputCounts,
            Rebuild::ReadingLen => rebuild.next(event).1 == RebuildAction::ReadBlockInfosLen
                && rebuild is OpeningTransactions,
            Rebuild::ReadingBlock { height, len } => {
                &&& height < len
                &&& rebuild.next(event).1 == RebuildAction::ReadBlock { height }
                &&& height == 0 ==> event == RebuildEvent::BlockInfosLen(Some(len))
                &&& height > 0 && (height - 1) % 1000 == 0 ==> rebuild == (Rebuild::Committing {
                    height: (height - 1) as u64,
                    len,
                })
                &&& height > 0 && (height - 1) % 1000 != 0 ==> rebuild == (Rebuild::AddingBlock {
                    height: (height - 1) as u64,
                    len,
                }) || rebuild == (Rebuild::Committing { height: (height - 1) as u64, len })
            },
            Rebuild::SkippingMinerTransaction { height, len } => {
                &&& rebuild.next(event).1 == RebuildAction::SkipMinerTransaction
                &&& rebuild == Rebuild::ReadingBlock { height, len }
            },
            Rebuild::AddingBlock { height, len } => {
                &&& rebuild.next(event).1 == RebuildAction::AddBlock { height }
                &&& rebuild == Rebuild::SkippingMinerTransaction { height, len }
            },
            Rebuild::Committing { height, len } => {
                &&& rebuild.next(event).1 == RebuildAction::CommitBatch
                &&& rebuild == Rebuild::AddingBlock { height, len }
                &&& height % 1000 == 0
            },
            Rebuild::CommittingLast => {
                &&& rebuild.next(event).1 == RebuildAction::CommitLastBatch
                &&& match rebuild {
                    Rebuild::AddingBlock { height, len } => height + 1 == len && height % 1000 != 0,
                    Rebuild::Committing { height, len } => height + 1 == len,
                    _ => event == RebuildEvent::BlockInfosLen(Some(0)),
                }
            },
            Rebuild::Finished => match event {
                RebuildEvent::Done(Ok(_)) => rebuild is CommittingLast && rebuild.next(event).1
                    == RebuildAction::Return(Ok(())),
                RebuildEvent::Done(Err(error)) => rebuild.next(event).1 == RebuildAction::Return(
                    Err(error),
                ),
                RebuildEvent::BlockInfosLen(None) => rebuild.next(event).1
                    == RebuildAction::Return(
                    Err(BlockchainError::Corrupt("block_infos tape missing")),
                ),
                RebuildEvent::BlockInfosLen(Some(_)) => false,
            },
        },
{
}

/// A pruned blob lies within a tape exactly where it ends no further than the tape, whatever its
/// place and size. On the longest tape that there can be, every blob counts as within.
pub proof fn law_blob_range_is_that_of_the_tape(idx: u64, size: usize, len: u64)
    ensures
        len < u64::MAX ==> (pruned_blob_end(idx, size) <= len <==> idx + size <= len),
        pruned_blob_end(idx, size) <= u64::MAX,
{
}

} // verus!
