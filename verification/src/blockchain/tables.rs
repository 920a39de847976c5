//! A model of the tables that blocks are entered into: what each holds for the blocks on the tapes.
//!
//! The operations that enter a block are not part of this library. The model says what the layout
//! of the tables asks of them: under which keys a block is found, and with which values.

use std::collections::HashMap;

use vstd::prelude::*;

use crate::bytes::le_bytes;

verus! {

/// An output whose amount is known: one of a V1 transaction.
pub struct PreRctOutput {
    pub amount: u64,
    /// What the table of such outputs stores of it.
    pub data: Seq<u8>,
}

/// A transaction on the tapes, as far as the tables take from it.
pub struct TapeTx {
    pub hash: [u8; 32],
    /// The key images that it spends.
    pub key_images: Seq<[u8; 32]>,
    /// Its outputs where it is a V1 transaction. The outputs of later versions stand on a tape.
    pub v1_outputs: Option<Seq<PreRctOutput>>,
}

/// A block on the tapes, as far as the tables take from it.
pub struct TapeBlock {
    pub hash: [u8; 32],
    /// The transaction of the miner, which stands in the block itself.
    pub miner: TapeTx,
    /// The other transactions. The block itself holds their hashes alone.
    pub others: Seq<TapeTx>,
}

impl TapeBlock {
    /// Its transactions, that of the miner first.
    pub open spec fn txs(self) -> Seq<TapeTx> {
        seq![self.miner] + self.others
    }
}

/// The transactions of the first `count` blocks, as they stand on the tapes one after the other.
pub open spec fn tx_stream(blocks: Seq<TapeBlock>, count: int) -> Seq<TapeTx>
    decreases count,
{
    if count <= 0 {
        Seq::empty()
    } else {
        tx_stream(blocks, count - 1) + blocks[count - 1].txs()
    }
}

/// The transactions of the block at `height` stand on the tapes after those of the blocks below it.
pub proof fn lemma_tx_stream(blocks: Seq<TapeBlock>, height: int, count: int)
    requires
        0 <= height < count <= blocks.len(),
    ensures
        tx_stream(blocks, height).len() + blocks[height].txs().len() <= tx_stream(
            blocks,
            count,
        ).len(),
        tx_stream(blocks, count).subrange(
            tx_stream(blocks, height).len() as int,
            (tx_stream(blocks, height).len() + blocks[height].txs().len()) as int,
        ) == blocks[height].txs(),
    decreases count,
{
    let all = tx_stream(blocks, count);
    let before = tx_stream(blocks, height);
    let txs = blocks[height].txs();
    let end = (before.len() + txs.len()) as int;
    if height == count - 1 {
        assert(all.subrange(before.len() as int, end) =~= txs);
    } else {
        lemma_tx_stream(blocks, height, count - 1);
        let fewer = tx_stream(blocks, count - 1);
        assert(all.subrange(before.len() as int, end) =~= fewer.subrange(
            before.len() as int,
            end,
        ));
    }
}

/// The contents of the tables that blocks are entered into. The tables of alternative chains are
/// not among them: a rebuild leaves those empty.
#[verifier::ext_equal]
pub struct TableContents {
    /// From a block hash to the bytes of the block's height.
    pub block_heights: Map<[u8; 32], Seq<u8>>,
    /// The key images that are spent.
    pub key_images: Set<[u8; 32]>,
    /// From an amount and the number of an output among those of the amount to the output.
    pub pre_rct_outputs: Map<(u64, nat), Seq<u8>>,
    /// From a transaction hash to the bytes of the transaction's ID.
    pub tx_ids: Map<[u8; 32], Seq<u8>>,
    /// From the bytes of the ID of a V1 transaction to the numbers of its outputs.
    pub v1_tx_outputs: Map<Seq<u8>, Seq<nat>>,
}

impl TableContents {
    /// Nothing.
    pub open spec fn none() -> TableContents {
        TableContents {
            block_heights: Map::empty(),
            key_images: Set::empty(),
            pre_rct_outputs: Map::empty(),
            tx_ids: Map::empty(),
            v1_tx_outputs: Map::empty(),
        }
    }

    /// These contents with `writes` made on top of them.
    pub open spec fn with_writes(self, writes: TableContents) -> TableContents {
        TableContents {
            block_heights: self.block_heights.union_prefer_right(writes.block_heights),
            key_images: self.key_images.union(writes.key_images),
            pre_rct_outputs: self.pre_rct_outputs.union_prefer_right(writes.pre_rct_outputs),
            tx_ids: self.tx_ids.union_prefer_right(writes.tx_ids),
            v1_tx_outputs: self.v1_tx_outputs.union_prefer_right(writes.v1_tx_outputs),
        }
    }

    /// The keys of the outputs of this amount that are stored.
    pub open spec fn outputs_of(self, amount: u64) -> Set<(u64, nat)> {
        self.pre_rct_outputs.dom().filter(|id: (u64, nat)| id.0 == amount)
    }

    /// How many outputs of this amount are stored.
    pub open spec fn stored_count(self, amount: u64) -> nat {
        self.outputs_of(amount).len()
    }
}

/// The cache of the number of outputs of each amount. It is filled as amounts come up.
pub type OutputCounts = Map<u64, nat>;

/// The cache of output counts of a store that was just opened: nothing.
pub fn no_output_counts() -> (counts: HashMap<u64, u64>)
    ensures
        counts@ == Map::<u64, u64>::empty(),
{
    HashMap::new()
}

/// The number of outputs of an amount: from the cache, or else from the tables.
pub open spec fn count_of(counts: OutputCounts, stored: TableContents, amount: u64) -> nat {
    if counts.contains_key(amount) {
        counts[amount]
    } else {
        stored.stored_count(amount)
    }
}

/// The cache after these outputs were entered.
pub open spec fn counts_after(
    counts: OutputCounts,
    stored: TableContents,
    outputs: Seq<PreRctOutput>,
) -> OutputCounts
    decreases outputs.len(),
{
    if outputs.len() == 0 {
        counts
    } else {
        let before = counts_after(counts, stored, outputs.drop_last());
        let amount = outputs.last().amount;
        before.insert(amount, count_of(before, stored, amount) + 1)
    }
}

/// The number among those of its amount that the output at `i` gets.
pub open spec fn output_number(
    counts: OutputCounts,
    stored: TableContents,
    outputs: Seq<PreRctOutput>,
    i: int,
) -> nat {
    count_of(counts_after(counts, stored, outputs.take(i)), stored, outputs[i].amount)
}

/// What is written to the table of outputs for these.
pub open spec fn output_writes(
    counts: OutputCounts,
    stored: TableContents,
    outputs: Seq<PreRctOutput>,
) -> Map<(u64, nat), Seq<u8>>
    decreases outputs.len(),
{
    if outputs.len() == 0 {
        Map::empty()
    } else {
        let last = outputs.last();
        let before = counts_after(counts, stored, outputs.drop_last());
        output_writes(counts, stored, outputs.drop_last()).insert(
            (last.amount, count_of(before, stored, last.amount)),
            last.data,
        )
    }
}

/// What is written for a transaction with this ID.
pub open spec fn tx_writes(
    counts: OutputCounts,
    stored: TableContents,
    tx: TapeTx,
    id: nat,
) -> TableContents {
    let (outputs, numbers) = match tx.v1_outputs {
        None => (Map::empty(), Map::empty()),
        Some(outputs) => (
            output_writes(counts, stored, outputs),
            Map::empty().insert(
                le_bytes(id, 8),
                Seq::new(outputs.len(), |i: int| output_number(counts, stored, outputs, i)),
            ),
        ),
    };
    TableContents {
        block_heights: Map::empty(),
        key_images: tx.key_images.to_set(),
        pre_rct_outputs: outputs,
        tx_ids: Map::empty().insert(tx.hash, le_bytes(id, 8)),
        v1_tx_outputs: numbers,
    }
}

/// What becomes of the cache with a transaction.
pub open spec fn counts_after_tx(
    counts: OutputCounts,
    stored: TableContents,
    tx: TapeTx,
) -> OutputCounts {
    match tx.v1_outputs {
        None => counts,
        Some(outputs) => counts_after(counts, stored, outputs),
    }
}

/// What entering comes to: the writes, the cache, and the ID of the next transaction.
#[verifier::ext_equal]
pub struct Entered {
    pub writes: TableContents,
    pub counts: OutputCounts,
    pub next_tx_id: nat,
}

/// These transactions entered, with the ID `first_id` for the first.
pub open spec fn enter_txs(
    counts: OutputCounts,
    stored: TableContents,
    txs: Seq<TapeTx>,
    first_id: nat,
) -> Entered
    decreases txs.len(),
{
    if txs.len() == 0 {
        Entered { writes: TableContents::none(), counts, next_tx_id: first_id }
    } else {
        let before = enter_txs(counts, stored, txs.drop_last(), first_id);
        let tx = txs.last();
        Entered {
            writes: before.writes.with_writes(
                tx_writes(before.counts, stored, tx, before.next_tx_id),
            ),
            counts: counts_after_tx(before.counts, stored, tx),
            next_tx_id: before.next_tx_id + 1,
        }
    }
}

/// The block at `height` entered: its transactions, and its own hash with the height.
pub open spec fn enter_block(
    counts: OutputCounts,
    stored: TableContents,
    block: TapeBlock,
    height: int,
    first_id: nat,
) -> Entered {
    let entered = enter_txs(counts, stored, block.txs(), first_id);
    Entered {
        writes: TableContents {
            block_heights: Map::empty().insert(block.hash, le_bytes(height as nat, 8)),
            ..entered.writes
        },
        ..entered
    }
}

/// A store into which the first `count` blocks were written one at a time, each committed before
/// the next, from an empty store on. The writes are the contents of its tables.
pub open spec fn written(blocks: Seq<TapeBlock>, count: int) -> Entered
    decreases count,
{
    if count <= 0 {
        Entered { writes: TableContents::none(), counts: Map::empty(), next_tx_id: 0 }
    } else {
        let before = written(blocks, count - 1);
        let entered = enter_block(
            before.counts,
            before.writes,
            blocks[count - 1],
            count - 1,
            before.next_tx_id,
        );
        Entered { writes: before.writes.with_writes(entered.writes), ..entered }
    }
}

/// The hashes of these transactions, in order.
pub open spec fn hashes_of(txs: Seq<TapeTx>) -> Seq<[u8; 32]> {
    txs.map_values(|tx: TapeTx| tx.hash)
}

/// All transaction hashes of the first `count` blocks, in order.
pub open spec fn tx_hashes(blocks: Seq<TapeBlock>, count: int) -> Seq<[u8; 32]>
    decreases count,
{
    if count <= 0 {
        Seq::empty()
    } else {
        tx_hashes(blocks, count - 1) + hashes_of(blocks[count - 1].txs())
    }
}

/// Blocks on the tapes are told apart by their hashes, and so are transactions.
pub open spec fn hashes_are_distinct(blocks: Seq<TapeBlock>) -> bool {
    &&& forall|i: int, j: int|
        0 <= i < j < blocks.len() ==> #[trigger] blocks[i].hash != #[trigger] blocks[j].hash
    &&& tx_hashes(blocks, blocks.len() as int).no_duplicates()
}

/// Every amount that an output is stored of is in the cache.
pub open spec fn is_cached(outputs: Map<(u64, nat), Seq<u8>>, counts: OutputCounts) -> bool {
    forall|id: (u64, nat)| #[trigger] outputs.contains_key(id) ==> counts.contains_key(id.0)
}

/// The outputs of each amount are numbered from zero on without gaps, and the cache has their
/// number.
pub open spec fn is_counted(outputs: Map<(u64, nat), Seq<u8>>, counts: OutputCounts) -> bool {
    forall|id: (u64, nat)| #[trigger]
        outputs.contains_key(id) <==> counts.contains_key(id.0) && id.1 < counts[id.0]
}

proof fn lemma_count_without_stored(counts: OutputCounts, stored: TableContents, amount: u64)
    requires
        is_cached(stored.pre_rct_outputs, counts),
    ensures
        count_of(counts, stored, amount) == count_of(counts, TableContents::none(), amount),
        !counts.contains_key(amount) ==> count_of(counts, stored, amount) == 0,
{
    if !counts.contains_key(amount) {
        assert(stored.outputs_of(amount) =~= Set::empty());
        assert(TableContents::none().outputs_of(amount) =~= Set::empty());
    }
}

proof fn lemma_outputs_without_stored(
    counts: OutputCounts,
    stored: TableContents,
    outputs: Seq<PreRctOutput>,
)
    requires
        is_cached(stored.pre_rct_outputs, counts),
    ensures
        counts_after(counts, stored, outputs) == counts_after(
            counts,
            TableContents::none(),
            outputs,
        ),
        output_writes(counts, stored, outputs) == output_writes(
            counts,
            TableContents::none(),
            outputs,
        ),
        is_cached(stored.pre_rct_outputs, counts_after(counts, stored, outputs)),
    decreases outputs.len(),
{
    if outputs.len() > 0 {
        lemma_outputs_without_stored(counts, stored, outputs.drop_last());
        let before = counts_after(counts, stored, outputs.drop_last());
        lemma_count_without_stored(before, stored, outputs.last().amount);
    }
}

proof fn lemma_tx_without_stored(
    counts: OutputCounts,
    stored: TableContents,
    tx: TapeTx,
    id: nat,
)
    requires
        is_cached(stored.pre_rct_outputs, counts),
    ensures
        tx_writes(counts, stored, tx, id) == tx_writes(counts, TableContents::none(), tx, id),
        counts_after_tx(counts, stored, tx) == counts_after_tx(counts, TableContents::none(), tx),
        is_cached(stored.pre_rct_outputs, counts_after_tx(counts, stored, tx)),
{
    let none = TableContents::none();
    match tx.v1_outputs {
        None => {},
        Some(outputs) => {
            lemma_outputs_without_stored(counts, stored, outputs);
            assert forall|i: int| 0 <= i < outputs.len() implies output_number(
                counts,
                stored,
                outputs,
                i,
            ) == output_number(counts, none, outputs, i) by {
                lemma_outputs_without_stored(counts, stored, outputs.take(i));
                lemma_count_without_stored(
                    counts_after(counts, stored, outputs.take(i)),
                    stored,
                    outputs[i].amount,
                );
            }
            assert(Seq::new(outputs.len(), |i: int| output_number(counts, stored, outputs, i))
                =~= Seq::new(outputs.len(), |i: int| output_number(counts, none, outputs, i)));
        },
    }
}

proof fn lemma_txs_without_stored(
    counts: OutputCounts,
    stored: TableContents,
    txs: Seq<TapeTx>,
    first_id: nat,
)
    requires
        is_cached(stored.pre_rct_outputs, counts),
    ensures
        enter_txs(counts, stored, txs, first_id) == enter_txs(
            counts,
            TableContents::none(),
            txs,
            first_id,
        ),
        is_cached(stored.pre_rct_outputs, enter_txs(counts, stored, txs, first_id).counts),
    decreases txs.len(),
{
    if txs.len() > 0 {
        lemma_txs_without_stored(counts, stored, txs.drop_last(), first_id);
        let before = enter_txs(counts, stored, txs.drop_last(), first_id);
        lemma_tx_without_stored(before.counts, stored, txs.last(), before.next_tx_id);
    }
}

/// Where every stored amount is in the cache, what is entered for a block does not depend on what
/// is stored.
pub proof fn lemma_block_without_stored(
    counts: OutputCounts,
    stored: TableContents,
    block: TapeBlock,
    height: int,
    first_id: nat,
)
    requires
        is_cached(stored.pre_rct_outputs, counts),
    ensures
        enter_block(counts, stored, block, height, first_id) == enter_block(
            counts,
            TableContents::none(),
            block,
            height,
            first_id,
        ),
{
    lemma_txs_without_stored(counts, stored, block.txs(), first_id);
}

proof fn lemma_outputs_are_counted(
    stored: Map<(u64, nat), Seq<u8>>,
    counts: OutputCounts,
    outputs: Seq<PreRctOutput>,
)
    requires
        is_counted(stored, counts),
    ensures
        is_counted(
            stored.union_prefer_right(output_writes(counts, TableContents::none(), outputs)),
            counts_after(counts, TableContents::none(), outputs),
        ),
    decreases outputs.len(),
{
    let none = TableContents::none();
    if outputs.len() > 0 {
        lemma_outputs_are_counted(stored, counts, outputs.drop_last());
        let before = counts_after(counts, none, outputs.drop_last());
        let last = outputs.last();
        lemma_count_without_stored(before, none, last.amount);
        let earlier = output_writes(counts, none, outputs.drop_last());
        assert(stored.union_prefer_right(output_writes(counts, none, outputs))
            =~= stored.union_prefer_right(earlier).insert(
            (last.amount, count_of(before, none, last.amount)),
            last.data,
        ));
    } else {
        assert(stored.union_prefer_right(Map::empty()) =~= stored);
    }
}

proof fn lemma_txs_are_counted(
    stored: Map<(u64, nat), Seq<u8>>,
    counts: OutputCounts,
    txs: Seq<TapeTx>,
    first_id: nat,
)
    requires
        is_counted(stored, counts),
    ensures
        is_counted(
            stored.union_prefer_right(
                enter_txs(counts, TableContents::none(), txs, first_id).writes.pre_rct_outputs,
            ),
            enter_txs(counts, TableContents::none(), txs, first_id).counts,
        ),
    decreases txs.len(),
{
    let none = TableContents::none();
    if txs.len() > 0 {
        lemma_txs_are_counted(stored, counts, txs.drop_last(), first_id);
        let before = enter_txs(counts, none, txs.drop_last(), first_id);
        let so_far = stored.union_prefer_right(before.writes.pre_rct_outputs);
        let writes = tx_writes(before.counts, none, txs.last(), before.next_tx_id).pre_rct_outputs;
        match txs.last().v1_outputs {
            None => {
                assert(so_far.union_prefer_right(writes) =~= so_far);
            },
            Some(outputs) => {
                lemma_outputs_are_counted(so_far, before.counts, outputs);
            },
        }
        assert(so_far.union_prefer_right(writes) =~= stored.union_prefer_right(
            before.writes.pre_rct_outputs.union_prefer_right(writes),
        ));
    } else {
        assert(stored.union_prefer_right(Map::empty()) =~= stored);
    }
}

/// In a store that was written block by block, the cache has the number of outputs of each amount.
pub proof fn lemma_written_is_counted(blocks: Seq<TapeBlock>, count: int)
    ensures
        is_counted(written(blocks, count).writes.pre_rct_outputs, written(blocks, count).counts),
    decreases count,
{
    if count > 0 {
        lemma_written_is_counted(blocks, count - 1);
        let before = written(blocks, count - 1);
        let block = blocks[count - 1];
        lemma_block_without_stored(
            before.counts,
            before.writes,
            block,
            count - 1,
            before.next_tx_id,
        );
        lemma_txs_are_counted(
            before.writes.pre_rct_outputs,
            before.counts,
            block.txs(),
            before.next_tx_id,
        );
    }
}

proof fn lemma_numbers_below(amount: u64, count: nat)
    ensures
        Set::new(|id: (u64, nat)| id.0 == amount && id.1 < count).finite(),
        Set::new(|id: (u64, nat)| id.0 == amount && id.1 < count).len() == count,
    decreases count,
{
    let numbers = Set::new(|id: (u64, nat)| id.0 == amount && id.1 < count);
    if count == 0 {
        assert(numbers =~= Set::empty());
    } else {
        let fewer = Set::new(|id: (u64, nat)| id.0 == amount && id.1 < (count - 1) as nat);
        lemma_numbers_below(amount, (count - 1) as nat);
        assert(numbers =~= fewer.insert((amount, (count - 1) as nat)));
    }
}

/// Where the cache has the number of outputs of an amount, so many are stored.
pub proof fn lemma_counted_is_stored(tables: TableContents, counts: OutputCounts, amount: u64)
    requires
        is_counted(tables.pre_rct_outputs, counts),
        counts.contains_key(amount),
    ensures
        tables.stored_count(amount) == counts[amount],
{
    lemma_numbers_below(amount, counts[amount]);
    let below = Set::new(|id: (u64, nat)| id.0 == amount && id.1 < counts[amount]);
    assert(tables.outputs_of(amount) =~= below);
}

/// A store of `count` blocks has at most so many heights.
pub proof fn lemma_written_height_count(blocks: Seq<TapeBlock>, count: int)
    requires
        0 <= count,
    ensures
        written(blocks, count).writes.block_heights.dom().finite(),
        written(blocks, count).writes.block_heights.len() <= count,
    decreases count,
{
    if count > 0 {
        lemma_written_height_count(blocks, count - 1);
        let before = written(blocks, count - 1).writes.block_heights;
        let block = blocks[count - 1];
        let height = le_bytes((count - 1) as nat, 8);
        assert(written(blocks, count).writes.block_heights =~= before.insert(block.hash, height));
        assert(before.insert(block.hash, height).dom() =~= before.dom().insert(block.hash));
    }
}

/// Each block is stored under its hash with its height, and nothing else is.
pub proof fn lemma_written_heights(blocks: Seq<TapeBlock>, count: int)
    requires
        0 <= count <= blocks.len(),
        hashes_are_distinct(blocks),
    ensures
        written(blocks, count).writes.block_heights.dom().finite(),
        written(blocks, count).writes.block_heights.len() == count,
        forall|hash: [u8; 32]| #[trigger]
            written(blocks, count).writes.block_heights.contains_key(hash) <==> exists|i: int|
                0 <= i < count && #[trigger] blocks[i].hash == hash,
        forall|i: int|
            0 <= i < count ==> written(blocks, count).writes.block_heights[#[trigger] blocks[i].hash]
                == le_bytes(i as nat, 8),
    decreases count,
{
    if count > 0 {
        lemma_written_heights(blocks, count - 1);
        let before = written(blocks, count - 1).writes.block_heights;
        let block = blocks[count - 1];
        let height = le_bytes((count - 1) as nat, 8);
        let heights = written(blocks, count).writes.block_heights;
        assert(heights =~= before.insert(block.hash, height));
        assert(!before.contains_key(block.hash));
        assert(heights.dom() =~= before.dom().insert(block.hash));
        assert forall|hash: [u8; 32]| #[trigger] heights.contains_key(hash) <==> exists|i: int|
            0 <= i < count && #[trigger] blocks[i].hash == hash by {
            if before.contains_key(hash) {
                let i = choose|i: int| 0 <= i < count - 1 && #[trigger] blocks[i].hash == hash;
                assert(0 <= i < count && blocks[i].hash == hash);
            }
            if hash == block.hash {
                assert(blocks[count - 1].hash == hash);
            }
        }
    }
}

proof fn lemma_entered_tx_ids(
    counts: OutputCounts,
    stored: TableContents,
    txs: Seq<TapeTx>,
    first_id: nat,
)
    requires
        hashes_of(txs).no_duplicates(),
    ensures
        enter_txs(counts, stored, txs, first_id).next_tx_id == first_id + txs.len(),
        forall|hash: [u8; 32]| #[trigger]
            enter_txs(counts, stored, txs, first_id).writes.tx_ids.contains_key(hash)
                <==> hashes_of(txs).contains(hash),
        forall|i: int|
            0 <= i < txs.len() ==> enter_txs(counts, stored, txs, first_id).writes.tx_ids[
                #[trigger] hashes_of(txs)[i]
            ] == le_bytes((first_id + i) as nat, 8),
    decreases txs.len(),
{
    if txs.len() > 0 {
        let fewer = txs.drop_last();
        let hashes = hashes_of(txs);
        assert(hashes_of(fewer) =~= hashes.drop_last());
        assert forall|i: int, j: int| 0 <= i < j < fewer.len() implies hashes_of(fewer)[i]
            != hashes_of(fewer)[j] by {
            assert(hashes[i] != hashes[j]);
        }
        lemma_entered_tx_ids(counts, stored, fewer, first_id);
        let before = enter_txs(counts, stored, fewer, first_id).writes.tx_ids;
        let last = txs.last().hash;
        let ids = enter_txs(counts, stored, txs, first_id).writes.tx_ids;
        assert(ids =~= before.insert(last, le_bytes((first_id + fewer.len()) as nat, 8)));
        assert(hashes =~= hashes_of(fewer).push(last));
        crate::seqs::lemma_push_contains(hashes_of(fewer), last);
        assert forall|i: int| 0 <= i < txs.len() implies ids[#[trigger] hashes[i]] == le_bytes(
            (first_id + i) as nat,
            8,
        ) by {
            if i < fewer.len() {
                assert(hashes_of(fewer)[i] == hashes[i]);
                assert(hashes[i] != hashes[fewer.len() as int]);
            }
        }
    }
}

/// Each transaction is stored under its hash with its place among all transactions as its ID, and
/// nothing else is.
pub proof fn lemma_written_tx_ids(blocks: Seq<TapeBlock>, count: int)
    requires
        0 <= count <= blocks.len(),
        tx_hashes(blocks, count).no_duplicates(),
    ensures
        written(blocks, count).next_tx_id == tx_hashes(blocks, count).len(),
        written(blocks, count).writes.tx_ids.dom() == tx_hashes(blocks, count).to_set(),
        forall|i: int|
            0 <= i < tx_hashes(blocks, count).len() ==> written(blocks, count).writes.tx_ids[
                #[trigger] tx_hashes(blocks, count)[i]
            ] == le_bytes(i as nat, 8),
    decreases count,
{
    let all = tx_hashes(blocks, count);
    let ids = written(blocks, count).writes.tx_ids;
    if count > 0 {
        let before = written(blocks, count - 1);
        let earlier = tx_hashes(blocks, count - 1);
        let txs = blocks[count - 1].txs();
        let later = hashes_of(txs);
        assert forall|i: int, j: int| 0 <= i < j < earlier.len() implies earlier[i] != earlier[j] by {
            assert(all[i] != all[j]);
        }
        assert forall|i: int, j: int| 0 <= i < j < later.len() implies later[i] != later[j] by {
            assert(all[earlier.len() + i] != all[earlier.len() + j]);
        }
        lemma_written_tx_ids(blocks, count - 1);
        lemma_entered_tx_ids(before.counts, before.writes, txs, before.next_tx_id);
        let writes = enter_txs(before.counts, before.writes, txs, before.next_tx_id).writes.tx_ids;
        assert(ids == before.writes.tx_ids.union_prefer_right(writes));
        assert forall|hash: [u8; 32]| ids.dom().contains(hash) == all.to_set().contains(hash) by {
            if earlier.contains(hash) {
                let i = earlier.index_of(hash);
                assert(all[i] == hash);
            }
            if later.contains(hash) {
                let i = later.index_of(hash);
                assert(all[earlier.len() + i] == hash);
            }
            assert(before.writes.tx_ids.dom().contains(hash) == earlier.to_set().contains(hash));
            assert(writes.contains_key(hash) == later.contains(hash));
        }
        assert(ids.dom() =~= all.to_set());
        assert forall|i: int| 0 <= i < all.len() implies ids[#[trigger] all[i]] == le_bytes(
            i as nat,
            8,
        ) by {
            if i < earlier.len() {
                assert(earlier[i] == all[i]);
                if later.contains(all[i]) {
                    let j = later.index_of(all[i]);
                    assert(all[earlier.len() + j] == all[i]);
                }
                assert(!writes.contains_key(all[i]));
                assert(earlier.to_set().contains(all[i]));
            } else {
                assert(later[i - earlier.len()] == all[i]);
                assert(writes.contains_key(all[i]));
            }
        }
    } else {
        assert(ids.dom() =~= all.to_set());
    }
}

} // verus!
