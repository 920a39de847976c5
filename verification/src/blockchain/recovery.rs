//! What a rebuild brings back: tables that match the tapes.
//!
//! The laws speak of the five tables that blocks are entered into, as [`crate::blockchain::tables`]
//! models them.

use vstd::prelude::*;

use crate::blockchain::consistency::{
    after, answered, law_check_decides, CheckAction, CheckEvent, StoreModel,
};
use crate::blockchain::layout::{all_tables, Table};
use crate::blockchain::rebuild::{
    actions_from, block_actions, commits_after, law_rebuild_enters_every_block, Rebuild,
    RebuildAction,
};
use crate::blockchain::tables::{
    enter_block, hashes_are_distinct, is_counted, lemma_block_without_stored,
    lemma_counted_is_stored, lemma_tx_stream, lemma_written_height_count, lemma_written_heights,
    lemma_written_is_counted, lemma_written_tx_ids, tx_hashes, tx_stream, written,
    OutputCounts, TableContents, TapeBlock, TapeTx,
};
use crate::bytes::{le_bytes, lemma_u64_fits_into_eight_bytes};

verus! {

/// The store during a rebuild.
#[verifier::ext_equal]
pub struct RebuildStore {
    /// What the tables hold.
    pub tables: TableContents,
    /// The writes that are not committed yet.
    pub batch: TableContents,
    /// The cache of the number of outputs of each amount.
    pub counts: OutputCounts,
    /// The ID of the next transaction.
    pub next_tx_id: nat,
    /// The block that was read last.
    pub read: Option<TapeBlock>,
    /// How many transactions were read from the tapes.
    pub place: nat,
}

/// What is entered for a block that was read: the block itself with its miner transaction, and as
/// many of the transactions on the tapes as it has hashes of, from `place` on.
pub open spec fn block_from(read: TapeBlock, stream: Seq<TapeTx>, place: nat) -> TapeBlock {
    TapeBlock {
        others: stream.subrange(place as int, (place + read.others.len()) as int),
        ..read
    }
}

/// The store after an action that succeeded. The block that is entered is the one that was read
/// last, with the next transactions on the tapes; the writes for it reach the tables when they are
/// committed.
pub open spec fn effect(
    store: RebuildStore,
    action: RebuildAction,
    blocks: Seq<TapeBlock>,
) -> RebuildStore {
    match action {
        RebuildAction::Clear(table) => RebuildStore {
            tables: cleared(store.tables, table),
            ..store
        },
        RebuildAction::ClearOutputCounts => RebuildStore { counts: Map::empty(), ..store },
        RebuildAction::OpenTransactions => RebuildStore {
            batch: TableContents::none(),
            next_tx_id: 0,
            place: 0,
            ..store
        },
        RebuildAction::ReadBlock { height } => RebuildStore {
            read: Some(blocks[height as int]),
            ..store
        },
        RebuildAction::SkipMinerTransaction => RebuildStore { place: store.place + 1, ..store },
        RebuildAction::AddBlock { height } => match store.read {
            None => store,
            Some(read) => {
                let stream = tx_stream(blocks, blocks.len() as int);
                let entered = enter_block(
                    store.counts,
                    store.tables,
                    block_from(read, stream, store.place),
                    height as int,
                    store.next_tx_id,
                );
                RebuildStore {
                    batch: store.batch.with_writes(entered.writes),
                    counts: entered.counts,
                    next_tx_id: entered.next_tx_id,
                    place: store.place + read.others.len(),
                    ..store
                }
            },
        },
        RebuildAction::CommitBatch | RebuildAction::CommitLastBatch => RebuildStore {
            tables: store.tables.with_writes(store.batch),
            batch: TableContents::none(),
            ..store
        },
        _ => store,
    }
}

/// The tables with one of them emptied.
pub open spec fn cleared(tables: TableContents, table: Table) -> TableContents {
    match table {
        Table::BlockHeights => TableContents { block_heights: Map::empty(), ..tables },
        Table::KeyImages => TableContents { key_images: Set::empty(), ..tables },
        Table::PreRctOutputs => TableContents { pre_rct_outputs: Map::empty(), ..tables },
        Table::TxIds => TableContents { tx_ids: Map::empty(), ..tables },
        Table::V1TxOutputs => TableContents { v1_tx_outputs: Map::empty(), ..tables },
        _ => tables,
    }
}

/// The store after these actions.
pub open spec fn effects(
    store: RebuildStore,
    actions: Seq<RebuildAction>,
    blocks: Seq<TapeBlock>,
) -> RebuildStore
    decreases actions.len(),
{
    if actions.len() == 0 {
        store
    } else {
        effect(effects(store, actions.drop_last(), blocks), actions.last(), blocks)
    }
}

/// All actions of a rebuild from these blocks, where nothing fails.
pub open spec fn rebuild_actions(blocks: Seq<TapeBlock>) -> Seq<RebuildAction> {
    actions_from(
        (Rebuild::Clearing { index: 0 }, RebuildAction::Clear(all_tables()[0])),
        blocks.len() as u64,
    )
}

/// The store after a rebuild from these blocks, where nothing fails.
pub open spec fn rebuilt(store: RebuildStore, blocks: Seq<TapeBlock>) -> RebuildStore {
    effects(store, rebuild_actions(blocks), blocks)
}

/// What stands before the first block in a rebuild.
pub open spec fn preparing_actions() -> Seq<RebuildAction> {
    all_tables().map_values(|table: Table| RebuildAction::Clear(table)) + seq![
        RebuildAction::ClearOutputCounts,
        RebuildAction::OpenTransactions,
        RebuildAction::ReadBlockInfosLen,
    ]
}

/// The actions for the block at `height`.
pub open spec fn one_block_actions(height: int) -> Seq<RebuildAction> {
    seq![
        RebuildAction::ReadBlock { height: height as u64 },
        RebuildAction::SkipMinerTransaction,
        RebuildAction::AddBlock { height: height as u64 },
    ] + (if commits_after(height) {
        seq![RebuildAction::CommitBatch]
    } else {
        seq![]
    })
}

/// The actions of a rebuild up to the block at `height`, which is not begun yet.
pub open spec fn actions_below(height: int) -> Seq<RebuildAction>
    decreases height,
{
    if height <= 0 {
        preparing_actions()
    } else {
        actions_below(height - 1) + one_block_actions(height - 1)
    }
}

proof fn lemma_effects_split(
    store: RebuildStore,
    first: Seq<RebuildAction>,
    second: Seq<RebuildAction>,
    blocks: Seq<TapeBlock>,
)
    ensures
        effects(store, first + second, blocks) == effects(
            effects(store, first, blocks),
            second,
            blocks,
        ),
    decreases second.len(),
{
    if second.len() == 0 {
        assert(first + second =~= first);
    } else {
        assert((first + second).drop_last() =~= first + second.drop_last());
        lemma_effects_split(store, first, second.drop_last(), blocks);
    }
}

proof fn lemma_effects_push(
    store: RebuildStore,
    actions: Seq<RebuildAction>,
    action: RebuildAction,
    blocks: Seq<TapeBlock>,
)
    ensures
        effects(store, actions.push(action), blocks) == effect(
            effects(store, actions, blocks),
            action,
            blocks,
        ),
{
    assert(actions.push(action).drop_last() =~= actions);
}

proof fn lemma_clear_effects(store: RebuildStore, blocks: Seq<TapeBlock>)
    ensures
        effects(
            store,
            all_tables().map_values(|table: Table| RebuildAction::Clear(table)),
            blocks,
        ).tables == TableContents::none(),
{
    let actions = all_tables().map_values(|table: Table| RebuildAction::Clear(table));
    reveal_with_fuel(effects, 12);
    assert(actions.len() == 11);
    assert(actions[0] == RebuildAction::Clear(Table::BlockHeights));
    assert(actions[1] == RebuildAction::Clear(Table::KeyImages));
    assert(actions[2] == RebuildAction::Clear(Table::PreRctOutputs));
    assert(actions[3] == RebuildAction::Clear(Table::TxIds));
    assert(actions[4] == RebuildAction::Clear(Table::V1TxOutputs));
    assert(actions[5] == RebuildAction::Clear(Table::AltChainInfos));
    assert(actions[6] == RebuildAction::Clear(Table::AltBlockHeights));
    assert(actions[7] == RebuildAction::Clear(Table::AltBlockInfos));
    assert(actions[8] == RebuildAction::Clear(Table::AltBlockBlobs));
    assert(actions[9] == RebuildAction::Clear(Table::AltTransactionBlobs));
    assert(actions[10] == RebuildAction::Clear(Table::AltTransactionInfos));
}

/// The store holds the blocks below `height`, those of them below `committed` in its tables and the
/// others in the writes that are not committed yet.
spec fn holds_blocks(
    store: RebuildStore,
    blocks: Seq<TapeBlock>,
    height: int,
    committed: int,
) -> bool {
    let w = written(blocks, height);
    &&& 0 <= committed <= height
    &&& store.tables == written(blocks, committed).writes
    &&& store.tables.with_writes(store.batch) == w.writes
    &&& store.counts == w.counts
    &&& store.next_tx_id == w.next_tx_id
    &&& store.place == tx_stream(blocks, height).len()
}

proof fn lemma_preparing_effects(store: RebuildStore, blocks: Seq<TapeBlock>)
    ensures
        holds_blocks(effects(store, preparing_actions(), blocks), blocks, 0, 0),
{
    let clears = all_tables().map_values(|table: Table| RebuildAction::Clear(table));
    lemma_clear_effects(store, blocks);
    let forget = clears.push(RebuildAction::ClearOutputCounts);
    let open = forget.push(RebuildAction::OpenTransactions);
    lemma_effects_push(store, clears, RebuildAction::ClearOutputCounts, blocks);
    lemma_effects_push(store, forget, RebuildAction::OpenTransactions, blocks);
    lemma_effects_push(store, open, RebuildAction::ReadBlockInfosLen, blocks);
    assert(preparing_actions() =~= open.push(RebuildAction::ReadBlockInfosLen));
    let prepared = effects(store, preparing_actions(), blocks);
    assert(prepared.tables.with_writes(prepared.batch) =~= TableContents::none());
}

/// Up to how many blocks are committed before the block at `height` is begun.
spec fn committed_below(height: int) -> int
    decreases height,
{
    if height <= 0 {
        0
    } else if commits_after(height - 1) {
        height
    } else {
        committed_below(height - 1)
    }
}

proof fn lemma_block_from(blocks: Seq<TapeBlock>, height: int, place: nat)
    requires
        0 <= height < blocks.len(),
        place == tx_stream(blocks, height).len() + 1,
    ensures
        block_from(blocks[height], tx_stream(blocks, blocks.len() as int), place)
            == blocks[height],
        place + blocks[height].others.len() == tx_stream(blocks, height + 1).len(),
{
    lemma_tx_stream(blocks, height, blocks.len() as int);
    let stream = tx_stream(blocks, blocks.len() as int);
    let block = blocks[height];
    let start = tx_stream(blocks, height).len() as int;
    let txs = stream.subrange(start, start + block.txs().len());
    assert(txs == block.txs());
    assert(stream.subrange(start + 1, start + 1 + block.others.len()) =~= txs.skip(1));
    assert(block.txs().skip(1) =~= block.others);
}

proof fn lemma_block_is_entered(
    begun: RebuildStore,
    blocks: Seq<TapeBlock>,
    at: int,
    committed: int,
) -> (held: RebuildStore)
    requires
        0 <= at < blocks.len() <= u64::MAX,
        holds_blocks(begun, blocks, at, committed),
    ensures
        held == effect(
            effect(
                effect(begun, RebuildAction::ReadBlock { height: at as u64 }, blocks),
                RebuildAction::SkipMinerTransaction,
                blocks,
            ),
            RebuildAction::AddBlock { height: at as u64 },
            blocks,
        ),
        holds_blocks(held, blocks, at + 1, committed),
{
    let skipped = effect(
        effect(begun, RebuildAction::ReadBlock { height: at as u64 }, blocks),
        RebuildAction::SkipMinerTransaction,
        blocks,
    );
    let held = effect(skipped, RebuildAction::AddBlock { height: at as u64 }, blocks);
    let before = written(blocks, at);
    lemma_block_from(blocks, at, skipped.place);
    lemma_written_is_counted(blocks, at);
    lemma_block_without_stored(before.counts, before.writes, blocks[at], at, before.next_tx_id);
    assert(forall|id: (u64, nat)| #[trigger]
        begun.tables.pre_rct_outputs.contains_key(id) ==> begun.tables.with_writes(
            begun.batch,
        ).pre_rct_outputs.contains_key(id));
    lemma_block_without_stored(before.counts, begun.tables, blocks[at], at, before.next_tx_id);
    let writes = enter_block(
        before.counts,
        before.writes,
        blocks[at],
        at,
        before.next_tx_id,
    ).writes;
    assert(held.tables.with_writes(held.batch) =~= begun.tables.with_writes(
        begun.batch,
    ).with_writes(writes));
    held
}

proof fn lemma_effects_below(store: RebuildStore, blocks: Seq<TapeBlock>, height: int)
    requires
        0 <= height <= blocks.len() <= u64::MAX,
    ensures
        holds_blocks(
            effects(store, actions_below(height), blocks),
            blocks,
            height,
            committed_below(height),
        ),
    decreases height,
{
    if height == 0 {
        lemma_preparing_effects(store, blocks);
    } else {
        let at = height - 1;
        lemma_effects_below(store, blocks, at);
        let begun = effects(store, actions_below(at), blocks);
        let held = lemma_block_is_entered(begun, blocks, at, committed_below(at));
        lemma_effects_split(store, actions_below(at), one_block_actions(at), blocks);
        let none = Seq::<RebuildAction>::empty();
        let read = none.push(RebuildAction::ReadBlock { height: at as u64 });
        let skip = read.push(RebuildAction::SkipMinerTransaction);
        let add_action = RebuildAction::AddBlock { height: at as u64 };
        let added = skip.push(add_action);
        lemma_effects_push(begun, none, RebuildAction::ReadBlock { height: at as u64 }, blocks);
        lemma_effects_push(begun, read, RebuildAction::SkipMinerTransaction, blocks);
        lemma_effects_push(begun, skip, add_action, blocks);
        if commits_after(at) {
            lemma_effects_push(begun, added, RebuildAction::CommitBatch, blocks);
            assert(one_block_actions(at) =~= added.push(RebuildAction::CommitBatch));
            let done = effects(begun, one_block_actions(at), blocks);
            assert(done.tables.with_writes(done.batch) =~= done.tables);
        } else {
            assert(one_block_actions(at) =~= added);
        }
    }
}

proof fn lemma_actions_below(blocks: Seq<TapeBlock>, height: int)
    requires
        0 <= height <= blocks.len() <= u64::MAX,
    ensures
        rebuild_actions(blocks) == actions_below(height) + block_actions(
            height,
            blocks.len() as u64,
        ),
    decreases height,
{
    let len = blocks.len() as u64;
    if height == 0 {
        law_rebuild_enters_every_block(len);
    } else {
        lemma_actions_below(blocks, height - 1);
        assert(block_actions(height - 1, len) =~= one_block_actions(height - 1) + block_actions(
            height,
            len,
        ));
        assert(actions_below(height - 1) + block_actions(height - 1, len) =~= actions_below(height)
            + block_actions(height, len));
    }
}

/// Where nothing fails, a rebuild leaves in the tables exactly what writing the blocks one at a time
/// to an empty store leaves there, and the same cache of output counts, whatever tables and cache
/// held before. No write stays uncommitted, and no transaction unread.
pub proof fn law_rebuild_restores_the_tables(store: RebuildStore, blocks: Seq<TapeBlock>)
    requires
        blocks.len() <= u64::MAX,
    ensures
        rebuilt(store, blocks) == (RebuildStore {
            tables: written(blocks, blocks.len() as int).writes,
            batch: TableContents::none(),
            counts: written(blocks, blocks.len() as int).counts,
            next_tx_id: written(blocks, blocks.len() as int).next_tx_id,
            place: tx_stream(blocks, blocks.len() as int).len(),
            read: rebuilt(store, blocks).read,
        }),
{
    let count = blocks.len() as int;
    let below = actions_below(count);
    let commit = below.push(RebuildAction::CommitLastBatch);
    let end = RebuildAction::Return(Ok(()));
    lemma_actions_below(blocks, count);
    lemma_effects_below(store, blocks, count);
    lemma_effects_push(store, below, RebuildAction::CommitLastBatch, blocks);
    lemma_effects_push(store, commit, end, blocks);
    assert(rebuild_actions(blocks) =~= commit.push(end));
}

/// After a rebuild in which nothing failed, each block is stored under its hash with its height and
/// each transaction under its hash with its place among all transactions as its ID, both as eight
/// bytes. No other block or transaction is stored.
pub proof fn law_rebuilt_heights_and_ids(store: RebuildStore, blocks: Seq<TapeBlock>)
    requires
        blocks.len() <= u64::MAX,
        hashes_are_distinct(blocks),
    ensures
        forall|hash: [u8; 32]| #[trigger]
            rebuilt(store, blocks).tables.block_heights.contains_key(hash) <==> exists|i: int|
                0 <= i < blocks.len() && #[trigger] blocks[i].hash == hash,
        forall|i: int|
            0 <= i < blocks.len() ==> rebuilt(store, blocks).tables.block_heights[
                #[trigger] blocks[i].hash
            ] == le_bytes(i as nat, 8),
        rebuilt(store, blocks).tables.tx_ids.dom() == tx_hashes(
            blocks,
            blocks.len() as int,
        ).to_set(),
        forall|i: int|
            0 <= i < tx_hashes(blocks, blocks.len() as int).len() ==> rebuilt(
                store,
                blocks,
            ).tables.tx_ids[#[trigger] tx_hashes(blocks, blocks.len() as int)[i]] == le_bytes(
                i as nat,
                8,
            ),
{
    law_rebuild_restores_the_tables(store, blocks);
    lemma_written_heights(blocks, blocks.len() as int);
    lemma_written_tx_ids(blocks, blocks.len() as int);
}

/// After a rebuild in which nothing failed, the cache has the number of outputs that are stored of
/// each amount that is in it, and those are numbered from zero on. Of an amount that is not in it,
/// none is stored.
pub proof fn law_rebuilt_output_counts(store: RebuildStore, blocks: Seq<TapeBlock>, amount: u64)
    requires
        blocks.len() <= u64::MAX,
    ensures
        is_counted(
            rebuilt(store, blocks).tables.pre_rct_outputs,
            rebuilt(store, blocks).counts,
        ),
        rebuilt(store, blocks).counts.contains_key(amount) ==> rebuilt(
            store,
            blocks,
        ).tables.stored_count(amount) == rebuilt(store, blocks).counts[amount],
{
    law_rebuild_restores_the_tables(store, blocks);
    lemma_written_is_counted(blocks, blocks.len() as int);
    if rebuilt(store, blocks).counts.contains_key(amount) {
        lemma_counted_is_stored(
            rebuilt(store, blocks).tables,
            rebuilt(store, blocks).counts,
            amount,
        );
    }
}

/// What the consistency check reads of a store with these blocks on its tapes and these contents
/// in its tables.
pub open spec fn store_of(blocks: Seq<TapeBlock>, tables: TableContents) -> StoreModel {
    StoreModel {
        block_infos: Some(blocks.map_values(|block: TapeBlock| block.hash)),
        block_heights: tables.block_heights,
        tx_infos: Some(tx_hashes(blocks, blocks.len() as int).len()),
        tx_ids: tables.tx_ids.dom().len(),
    }
}

/// Where nothing fails, a rebuild brings a store back into sync, whatever its tables held before.
pub proof fn law_rebuilt_store_is_in_sync(store: RebuildStore, blocks: Seq<TapeBlock>)
    requires
        blocks.len() <= u64::MAX,
        hashes_are_distinct(blocks),
    ensures
        store_of(blocks, rebuilt(store, blocks).tables).in_sync(),
{
    let count = blocks.len() as int;
    law_rebuild_restores_the_tables(store, blocks);
    lemma_written_heights(blocks, count);
    lemma_written_tx_ids(blocks, count);
    tx_hashes(blocks, count).unique_seq_to_set();
    if count > 0 {
        assert(blocks[count - 1].hash == store_of(
            blocks,
            rebuilt(store, blocks).tables,
        ).block_infos->Some_0.last());
        lemma_u64_fits_into_eight_bytes((count - 1) as u64);
    }
}

/// A store that was rebuilt where nothing failed is not rebuilt again: the consistency check on it
/// ends well, after at most six questions.
pub proof fn law_rebuilt_store_is_not_rebuilt_again(
    store: RebuildStore,
    blocks: Seq<TapeBlock>,
    events: Seq<CheckEvent>,
)
    requires
        blocks.len() <= u64::MAX,
        hashes_are_distinct(blocks),
        answered(store_of(blocks, rebuilt(store, blocks).tables), events),
    ensures
        match after(events).1 {
            CheckAction::Return(result) => result is Ok,
            CheckAction::Rebuild => false,
            _ => events.len() < 6,
        },
{
    law_rebuilt_store_is_in_sync(store, blocks);
    law_check_decides(store_of(blocks, rebuilt(store, blocks).tables), events);
}

/// The next consistency check on the store has the tables rebuilt, after at most six questions.
pub open spec fn is_rebuilt_next(events: Seq<CheckEvent>) -> bool {
    match after(events).1 {
        CheckAction::Return(_) => false,
        CheckAction::Rebuild => true,
        _ => events.len() < 6,
    }
}

proof fn lemma_nothing_committed_last(height: int)
    requires
        0 < height,
        !commits_after(height - 1),
    ensures
        committed_below(height) < height,
{
    lemma_committed_below(height - 1);
}

proof fn lemma_committed_below(height: int)
    requires
        0 <= height,
    ensures
        0 <= committed_below(height) <= height,
    decreases height,
{
    if height > 0 {
        lemma_committed_below(height - 1);
    }
}

/// A rebuild that fails at the block at `height`, whose predecessors went well, leaves at most the
/// blocks below that height in the tables. So does one that fails at the last commit, and where
/// blocks were still uncommitted then, the last is not among them. In each case the store is out of
/// sync, and the next consistency check has the tables rebuilt again.
pub proof fn law_failed_rebuild_is_repeated(
    store: RebuildStore,
    blocks: Seq<TapeBlock>,
    height: int,
    events: Seq<CheckEvent>,
)
    requires
        0 <= height <= blocks.len() <= u64::MAX,
        height == blocks.len() ==> height > 0 && !commits_after(height - 1),
        answered(
            store_of(blocks, effects(store, actions_below(height), blocks).tables),
            events,
        ),
    ensures
        rebuild_actions(blocks) == actions_below(height) + block_actions(
            height,
            blocks.len() as u64,
        ),
        effects(store, actions_below(height), blocks).tables.block_heights.dom().finite(),
        effects(store, actions_below(height), blocks).tables.block_heights.len() <= height,
        effects(store, actions_below(height), blocks).tables.block_heights.len() < blocks.len(),
        is_rebuilt_next(events),
{
    let left = effects(store, actions_below(height), blocks);
    lemma_actions_below(blocks, height);
    lemma_effects_below(store, blocks, height);
    lemma_written_height_count(blocks, committed_below(height));
    if height == blocks.len() {
        lemma_nothing_committed_last(height);
    }
    law_check_decides(store_of(blocks, left.tables), events);
}

proof fn lemma_no_heights_while_preparing(
    store: RebuildStore,
    blocks: Seq<TapeBlock>,
    steps: int,
)
    requires
        1 <= steps <= preparing_actions().len(),
    ensures
        effects(store, preparing_actions().take(steps), blocks).tables.block_heights == Map::<
            [u8; 32],
            Seq<u8>,
        >::empty(),
    decreases steps,
{
    let actions = preparing_actions();
    let last = actions[steps - 1];
    assert(actions.take(steps).drop_last() =~= actions.take(steps - 1));
    assert(actions.take(steps).last() == last);
    if steps == 1 {
        assert(actions[0] == RebuildAction::Clear(Table::BlockHeights));
    } else {
        lemma_no_heights_while_preparing(store, blocks, steps - 1);
        if steps <= all_tables().len() {
            assert(last == RebuildAction::Clear(all_tables()[steps - 1]));
        } else {
            let at = steps - 1 - all_tables().len();
            assert(last == seq![
                RebuildAction::ClearOutputCounts,
                RebuildAction::OpenTransactions,
                RebuildAction::ReadBlockInfosLen,
            ][at]);
        }
    }
}

/// A rebuild of a store with blocks that fails before the first of them, after the first table was
/// cleared, leaves the store out of sync: the next consistency check has the tables rebuilt again.
pub proof fn law_rebuild_that_fails_while_clearing_is_repeated(
    store: RebuildStore,
    blocks: Seq<TapeBlock>,
    steps: int,
    events: Seq<CheckEvent>,
)
    requires
        1 <= steps <= preparing_actions().len(),
        0 < blocks.len() <= u64::MAX,
        answered(
            store_of(blocks, effects(store, preparing_actions().take(steps), blocks).tables),
            events,
        ),
    ensures
        rebuild_actions(blocks).take(steps) == preparing_actions().take(steps),
        effects(store, preparing_actions().take(steps), blocks).tables.block_heights.len() == 0,
        is_rebuilt_next(events),
{
    let left = effects(store, preparing_actions().take(steps), blocks);
    lemma_actions_below(blocks, 0);
    assert(rebuild_actions(blocks).take(steps) =~= preparing_actions().take(steps));
    lemma_no_heights_while_preparing(store, blocks, steps);
    law_check_decides(store_of(blocks, left.tables), events);
}

} // verus!
