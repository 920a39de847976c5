//! The blockchain store, on real tapes and a real key-value store.

use std::collections::HashMap;
use std::io::{self, Write};
use std::path::Path;
use std::sync::Mutex;

use cuprate_core::blockchain::consistency::{CheckAction, CheckEvent, ConsistencyCheck};
use cuprate_core::blockchain::error::{BlockchainError, DbResult};
use cuprate_core::blockchain::layout::{
    open_steps, table_at, CacheSizes, OpenStep, Table, Tape, TapeDir, TapeKind, TABLE_COUNT,
};
use cuprate_core::blockchain::rebuild::{
    check_pruned_blob_range, Rebuild, RebuildAction, RebuildEvent, COMMIT_INTERVAL,
};
use cuprate_core::blockchain::synthetic::{mock_block, VerifiedBlockInformation};
use cuprate_core::blockchain::tables::no_output_counts;
use cuprate_core::blockchain::transaction::{
    read_pruned_transaction, PrunedTransaction, Timelock, TxInput, TxOutput,
};
use cuprate_core::txpool::opening::PoolTable;
use fjall::{KeyspaceCreateOptions, PersistMode, Readable};
use monero_oxide::block::Block;
use tapes::{
    BlobTape, FixedSizedTape, Persistence, TapeOpenOptions, Tapes, TapesAppend, TapesRead,
};

const CACHE_SIZES: CacheSizes = CacheSizes {
    rct_outputs: 64,
    tx_infos: 64,
    block_infos: 64,
    pruned_blobs: 128,
    v1_prunable_blobs: 32,
    prunable_blobs: 16,
};

/// A block info: the hash of the block, then where its blob begins and how long it is.
type BlockInfo = [u8; 48];

/// A transaction info: where the pruned blob begins, and how long it is.
type TxInfo = [u64; 2];

struct Store {
    database: fjall::Database,
    tables: Vec<(Table, fjall::Keyspace)>,
    tapes: Tapes,
    block_infos: FixedSizedTape<BlockInfo>,
    tx_infos: FixedSizedTape<TxInfo>,
    pruned_blobs: BlobTape,
    other_tapes: Vec<BlobTape>,
    output_counts: Mutex<HashMap<u64, u64>>,
}

fn io<T>(result: io::Result<T>) -> DbResult<T> {
    result.map_err(BlockchainError::IO)
}

fn kv<T>(result: fjall::Result<T>) -> DbResult<T> {
    result.map_err(BlockchainError::Fjall)
}

impl Store {
    fn open(dir: &Path) -> DbResult<Store> {
        let database = kv(fjall::Database::builder(dir).open())?;
        let tape_dir = dir.join("tapes");
        let mut tables = Vec::new();
        let mut steps = open_steps(&CACHE_SIZES).into_iter();
        for step in steps.by_ref() {
            match step {
                OpenStep::OpenTable(table) => {
                    let options = KeyspaceCreateOptions::default;
                    tables.push((table, kv(database.keyspace(table.name(), options))?));
                }
                _ => break,
            }
        }

        let tapes = io(Tapes::open(&tape_dir))?;
        let mut append = tapes.append();
        let (mut block_infos, mut tx_infos, mut pruned_blobs) = (None, None, None);
        let mut other_tapes = Vec::new();
        for step in steps {
            let OpenStep::OpenTape(plan) = step else { break };
            let options = TapeOpenOptions {
                top_cache_size: plan.top_cache_size,
                dir: tape_dir.clone(),
            };
            match plan.tape {
                Tape::BlockInfos => {
                    block_infos = Some(io(append.open_fixed_sized_tape(plan.name, &options))?);
                }
                Tape::TxInfos => {
                    tx_infos = Some(io(append.open_fixed_sized_tape(plan.name, &options))?);
                }
                Tape::PrunedBlobs => {
                    pruned_blobs = Some(io(append.open_blob_tape(plan.name, &options))?);
                }
                _ => other_tapes.push(io(append.open_blob_tape(plan.name, &options))?),
            }
        }
        io(append.commit(Persistence::SyncAll))?;

        Ok(Store {
            database,
            tables,
            tapes,
            block_infos: block_infos.expect("block_infos tape"),
            tx_infos: tx_infos.expect("tx_infos tape"),
            pruned_blobs: pruned_blobs.expect("pruned_blobs tape"),
            other_tapes,
            output_counts: Mutex::new(no_output_counts()),
        })
    }

    fn table(&self, table: Table) -> &fjall::Keyspace {
        let found = self.tables.iter().find(|(name, _)| *name == table);
        &found.expect("all tables are open").1
    }

    fn len(&self, table: Table) -> usize {
        self.table(table).len().expect("table length")
    }

    fn tx_infos_len(&self) -> u64 {
        self.tapes.reader().fixed_sized_tape_len(&self.tx_infos).expect("tx_infos open")
    }

    /// Appends a block to the tapes.
    fn write_tapes(&self, block_hash: &[u8; 32], block_blob: &[u8], miner_tx: &[u8]) {
        let mut append = self.tapes.append();
        let block_idx = append.blob_tape_len(&self.pruned_blobs).expect("pruned_blobs open");
        append.append_bytes(&self.pruned_blobs, block_blob).expect("append block");
        append.append_bytes(&self.pruned_blobs, miner_tx).expect("append transaction");
        let mut info = [0; 48];
        info[..32].copy_from_slice(block_hash);
        info[32..40].copy_from_slice(&block_idx.to_le_bytes());
        info[40..].copy_from_slice(&(block_blob.len() as u64).to_le_bytes());
        append.append_entries(&self.block_infos, &[info]).expect("append block info");
        let tx_info = [block_idx + block_blob.len() as u64, miner_tx.len() as u64];
        append.append_entries(&self.tx_infos, &[tx_info]).expect("append tx info");
        append.commit(Persistence::Buffer).expect("tapes commit");
    }

    /// Appends a block to the tapes and enters it into the tables.
    fn write_block(&self, info: &VerifiedBlockInformation) {
        let tx_id = self.tx_infos_len();
        let block = Block::read(&mut info.block_blob.as_slice()).expect("block parses");
        let miner_tx = block.miner_transaction().clone().pruned_with_prunable().0;
        self.write_tapes(&info.block_hash, &info.block_blob, &miner_tx.serialize());
        let mut batch = self.database.batch().durability(Some(PersistMode::Buffer));
        self.enter(&mut batch, &block, info.height as u64, tx_id);
        batch.commit().expect("batch commit");
    }

    /// Enters a miner-only block into the tables.
    fn enter(&self, batch: &mut fjall::OwnedWriteBatch, block: &Block, height: u64, tx_id: u64) {
        batch.insert(self.table(Table::BlockHeights), block.hash(), height.to_le_bytes());
        let tx_hash = block.miner_transaction().hash();
        batch.insert(self.table(Table::TxIds), tx_hash, tx_id.to_le_bytes());
    }

    fn get_block(&self, height: u64) -> DbResult<Block> {
        let reader = self.tapes.reader();
        let info = io(reader.read_entry(&self.block_infos, height))?;
        let info = info.ok_or(BlockchainError::NotFound)?;
        let number =
            |at: usize| u64::from_le_bytes(info[at..at + 8].try_into().expect("eight bytes"));
        let mut blob = vec![0; number(40) as usize];
        io(reader.read_bytes(&self.pruned_blobs, number(32), &mut blob))?;
        io(Block::read(&mut blob.as_slice()))
    }

    fn get_transaction(&self, tx_id: u64) -> DbResult<Option<PrunedTransaction>> {
        let reader = self.tapes.reader();
        let Some([idx, size]) = io(reader.read_entry(&self.tx_infos, tx_id))? else {
            return Ok(None);
        };
        let tape_len = reader.blob_tape_len(&self.pruned_blobs);
        check_pruned_blob_range(idx, size as usize, tape_len)?;
        let mut blob = vec![0; size as usize];
        io(reader.read_bytes(&self.pruned_blobs, idx, &mut blob))?;
        read_pruned_transaction(&blob).map(Some)
    }

    fn make_consistent(&self) -> DbResult<()> {
        let reader = self.tapes.reader();
        let (mut check, mut action) = ConsistencyCheck::start();
        loop {
            let event = match action {
                CheckAction::ReadBlockInfosLen => {
                    CheckEvent::TapeLen(reader.fixed_sized_tape_len(&self.block_infos))
                }
                CheckAction::ReadBlockHeightsLen => {
                    CheckEvent::TableLen(kv(self.table(Table::BlockHeights).len()))
                }
                CheckAction::ReadTxInfosLen => {
                    CheckEvent::TapeLen(reader.fixed_sized_tape_len(&self.tx_infos))
                }
                CheckAction::ReadTxIdsLen => {
                    CheckEvent::TableLen(kv(self.table(Table::TxIds).len()))
                }
                CheckAction::ReadBlockInfo { index } => CheckEvent::BlockInfo(
                    io(reader.read_entry(&self.block_infos, index)).map(|info| {
                        info.map(|info| info[..32].try_into().expect("a hash"))
                    }),
                ),
                CheckAction::LookUpBlockHeight { block_hash } => {
                    let snapshot = self.database.snapshot();
                    let stored = snapshot.get(self.table(Table::BlockHeights), block_hash);
                    CheckEvent::StoredHeight(
                        kv(stored).map(|stored| stored.map(|bytes| bytes.to_vec())),
                    )
                }
                CheckAction::Rebuild => CheckEvent::Rebuilt(self.rebuild()),
                CheckAction::Return(result) => return result,
            };
            (check, action) = check.step(event);
        }
    }

    fn rebuild(&self) -> DbResult<()> {
        let mut batch = self.database.batch();
        let mut next_tx = 0;
        let mut block = None;
        let (mut rebuild, mut action) = Rebuild::start();
        loop {
            let event = match action {
                RebuildAction::Clear(table) => RebuildEvent::Done(kv(self.table(table).clear())),
                RebuildAction::ClearOutputCounts => {
                    self.output_counts.lock().expect("lock").clear();
                    RebuildEvent::Done(Ok(()))
                }
                RebuildAction::OpenTransactions => {
                    batch = self.database.batch();
                    next_tx = 0;
                    RebuildEvent::Done(Ok(()))
                }
                RebuildAction::ReadBlockInfosLen => RebuildEvent::BlockInfosLen(
                    self.tapes.reader().fixed_sized_tape_len(&self.block_infos),
                ),
                RebuildAction::ReadBlock { height } => {
                    RebuildEvent::Done(self.get_block(height).map(|read| block = Some(read)))
                }
                RebuildAction::SkipMinerTransaction => {
                    let read = self.get_transaction(next_tx);
                    next_tx += 1;
                    RebuildEvent::Done(read.map(|_| ()))
                }
                RebuildAction::AddBlock { height } => {
                    let block = block.take().expect("the block was read");
                    self.enter(&mut batch, &block, height, next_tx - 1);
                    RebuildEvent::Done(Ok(()))
                }
                RebuildAction::CommitBatch => {
                    let full = std::mem::replace(&mut batch, self.database.batch());
                    RebuildEvent::Done(kv(full.commit()))
                }
                RebuildAction::CommitLastBatch => {
                    let full = std::mem::replace(&mut batch, self.database.batch());
                    RebuildEvent::Done(kv(full.commit()))
                }
                RebuildAction::Return(result) => return result,
            };
            (rebuild, action) = rebuild.step(event);
        }
    }
}

fn tmp_db() -> (tempfile::TempDir, Store) {
    let tempdir = tempfile::tempdir().expect("tempdir");
    let store = Store::open(tempdir.path()).expect("db open");
    (tempdir, store)
}

/// Writes the synthetic blocks below `count` and hands back the last.
fn write_blocks(store: &Store, count: usize) -> VerifiedBlockInformation {
    let mut previous = [0; 32];
    let mut last_block = None;
    for height in 0..count {
        let block = mock_block(height, previous);
        previous = block.block_hash;
        store.write_block(&block);
        last_block = Some(block);
    }
    last_block.expect("last block")
}

#[test]
fn block_that_cannot_be_entered_ends_the_rebuild() {
    let adding = Rebuild::AddingBlock { height: 0, len: 1 };
    let (_, action) = adding.step(RebuildEvent::Done(Err(BlockchainError::Corrupt("boom"))));

    let RebuildAction::Return(result) = action else { panic!("the rebuild goes on") };
    assert!(result.is_err(), "expected iterator error to be returned");
    assert!(matches!(result, Err(BlockchainError::Corrupt("boom"))));
}

#[test]
fn rebuild_returns_err_on_corrupt_tape() {
    let tempdir = tempfile::tempdir().expect("tempdir");
    {
        let store = Store::open(tempdir.path()).expect("db open");
        write_blocks(&store, 3);
    }

    let tape_dir = tempdir.path().join("tapes");
    let mut corrupt = tempfile::NamedTempFile::new_in(&tape_dir).expect("new tape file");
    corrupt.write_all(b"corrupt").expect("corrupt pruned_blobs");
    corrupt.persist(tape_dir.join("pruned_blobs")).expect("pruned_blobs tape file");

    let reopen_result = Store::open(tempdir.path()).and_then(|store| {
        kv(store.table(Table::BlockHeights).clear())?;
        store.make_consistent()
    });

    assert!(
        reopen_result.is_err(),
        "rebuild should return Err rather than panic on corrupt tape data"
    );
}

#[test]
fn rebuild_returns_err_on_corrupt_block() {
    let (_tempdir, store) = tmp_db();
    write_blocks(&store, 3);
    store.write_tapes(&[7; 32], b"corrupt", b"corrupt");

    assert!(matches!(store.make_consistent(), Err(BlockchainError::IO(_))));
}

#[test]
fn make_consistent_detects_txid_mismatch() {
    let (_tempdir, db) = tmp_db();
    write_blocks(&db, 3);

    let tx_infos_len = db.tx_infos_len();
    assert_eq!(db.len(Table::TxIds) as u64, tx_infos_len);

    db.table(Table::TxIds).clear().expect("clear tx_ids");
    db.make_consistent().expect("make_consistent should repair tx_ids");

    assert_eq!(db.len(Table::TxIds) as u64, tx_infos_len);
}

#[test]
fn make_consistent_noop_on_consistent_db() {
    let (_tempdir, db) = tmp_db();
    let last_block = write_blocks(&db, 3);

    let tx_infos_len_before = db.tx_infos_len();
    let tx_ids_len_before = db.len(Table::TxIds);
    let block_heights_len_before = db.len(Table::BlockHeights);
    db.table(Table::AltChainInfos).insert(b"kept", b"kept").expect("insert");

    db.make_consistent().expect("consistent db should remain valid");

    assert_eq!(db.tx_infos_len(), tx_infos_len_before);
    assert_eq!(db.len(Table::TxIds), tx_ids_len_before);
    assert_eq!(db.len(Table::BlockHeights), block_heights_len_before);
    assert_eq!(db.len(Table::AltChainInfos), 1, "no table was cleared");

    let snapshot = db.database.snapshot();
    let stored_height = snapshot
        .get(db.table(Table::BlockHeights), last_block.block_hash)
        .expect("read block height")
        .expect("last block height exists");
    assert_eq!(
        usize::from_le_bytes(stored_height.as_ref().try_into().expect("height bytes")),
        last_block.height
    );

    let restored_block =
        db.get_block(last_block.height as u64).expect("read block after make_consistent");
    assert_eq!(restored_block.hash(), last_block.block_hash);
}

#[test]
fn rebuild_clears_alternative_chains_and_restores_blocks() {
    let (_tempdir, db) = tmp_db();
    let last_block = write_blocks(&db, 4);
    db.table(Table::AltBlockBlobs).insert(b"alt", b"alt").expect("insert");
    db.table(Table::BlockHeights).insert([5; 32], b"stray").expect("insert");

    db.make_consistent().expect("rebuild");

    assert_eq!(db.len(Table::AltBlockBlobs), 0);
    assert_eq!(db.len(Table::BlockHeights), 4);
    let stored = db.table(Table::BlockHeights).get(last_block.block_hash).expect("get");
    assert_eq!(stored.expect("stored").as_ref(), 3_u64.to_le_bytes());
    db.make_consistent().expect("a rebuilt store is consistent");
}

#[test]
fn rebuild_forgets_output_counts_and_restores_ids() {
    let (_tempdir, db) = tmp_db();
    write_blocks(&db, 3);
    assert!(db.output_counts.lock().expect("lock").is_empty());
    db.output_counts.lock().expect("lock").insert(5, 9);
    let entries = |table: Table| -> Vec<(Vec<u8>, Vec<u8>)> {
        db.table(table)
            .iter()
            .map(|entry| entry.into_inner().expect("entry"))
            .map(|(key, value)| (key.to_vec(), value.to_vec()))
            .collect()
    };
    let (heights, ids) = (entries(Table::BlockHeights), entries(Table::TxIds));
    for id in 0..3_u64 {
        assert!(ids.iter().any(|(_, value)| *value == id.to_le_bytes()));
    }
    db.table(Table::TxIds).clear().expect("clear");

    db.make_consistent().expect("rebuild");

    assert!(db.output_counts.lock().expect("lock").is_empty());
    assert_eq!(entries(Table::BlockHeights), heights);
    assert_eq!(entries(Table::TxIds), ids);
}

#[test]
fn failed_rebuild_is_repeated() {
    let (_tempdir, db) = tmp_db();
    write_blocks(&db, 3);
    db.write_tapes(&[7; 32], b"corrupt", b"corrupt");

    assert!(db.make_consistent().is_err());
    assert!(db.len(Table::BlockHeights) < 4);
    assert!(db.make_consistent().is_err(), "the tables do not match the tapes yet");
}

#[test]
fn reopened_store_holds_what_it_held() {
    let (tempdir, db) = tmp_db();
    write_blocks(&db, 2);
    db.table(Table::TxIds).clear().expect("clear");
    drop(db);

    let db = Store::open(tempdir.path()).expect("db open");
    assert_eq!(db.len(Table::BlockHeights), 2);
    assert_eq!(db.len(Table::TxIds), 0, "opening rebuilds nothing");
    assert_eq!(db.tx_infos_len(), 2);
}

#[test]
fn empty_store_is_consistent() {
    let (_tempdir, db) = tmp_db();
    db.make_consistent().expect("empty store");
    assert_eq!(db.len(Table::BlockHeights), 0);
}

#[test]
fn malformed_top_height_is_corrupt() {
    let (_tempdir, db) = tmp_db();
    let last_block = write_blocks(&db, 2);
    db.table(Table::BlockHeights).insert(last_block.block_hash, b"short").expect("insert");

    assert!(matches!(
        db.make_consistent(),
        Err(BlockchainError::Corrupt("block_heights entry has invalid length"))
    ));
}

#[test]
fn wrong_top_height_is_repaired() {
    let (_tempdir, db) = tmp_db();
    let last_block = write_blocks(&db, 2);
    let heights = db.table(Table::BlockHeights);
    heights.insert(last_block.block_hash, 9_u64.to_le_bytes()).expect("insert");

    db.make_consistent().expect("rebuild");

    let stored = heights.get(last_block.block_hash).expect("get").expect("stored");
    assert_eq!(stored.as_ref(), 1_u64.to_le_bytes());
}

#[test]
fn transaction_beyond_its_tape_is_corrupt() {
    let (_tempdir, db) = tmp_db();
    write_blocks(&db, 1);
    let mut append = db.tapes.append();
    append.append_entries(&db.tx_infos, &[[u64::MAX, 9]]).expect("append tx info");
    append.commit(Persistence::Buffer).expect("tapes commit");

    assert!(db.get_transaction(0).expect("first transaction").is_some());
    assert!(matches!(
        db.get_transaction(1),
        Err(BlockchainError::Corrupt("tx pruned blob range out of bounds"))
    ));
    assert!(db.get_transaction(2).expect("past the end").is_none());
}

#[test]
fn tables_and_tapes_are_opened_in_order() {
    let (_tempdir, db) = tmp_db();
    let names: Vec<&str> = db.tables.iter().map(|(table, _)| table.name()).collect();
    assert_eq!(
        names,
        vec![
            "block_heights",
            "key_images",
            "pre_rct_outputs",
            "tx_ids",
            "tx_outputs",
            "alt_chain_infos",
            "alt_block_heights",
            "alt_block_infos",
            "alt_block_blobs",
            "alt_transaction_blobs",
            "alt_transaction_infos",
        ]
    );
    assert_eq!(db.other_tapes.len(), 10);

    let steps = open_steps(&CACHE_SIZES);
    assert_eq!(steps.len(), TABLE_COUNT + 15);
    assert!(matches!(steps[TABLE_COUNT], OpenStep::OpenTapes));
    assert!(matches!(steps[TABLE_COUNT + 14], OpenStep::CommitTapes));
    let plans: Vec<(&str, TapeKind, TapeDir, u64)> = steps
        .iter()
        .filter_map(|step| match step {
            OpenStep::OpenTape(plan) => {
                Some((plan.name, plan.kind, plan.dir, plan.top_cache_size))
            }
            _ => None,
        })
        .collect();
    assert_eq!(
        plans,
        vec![
            ("rct_outputs", TapeKind::FixedSized, TapeDir::Index, 64),
            ("tx_infos", TapeKind::FixedSized, TapeDir::Index, 64),
            ("block_infos", TapeKind::FixedSized, TapeDir::Index, 64),
            ("pruned_blobs", TapeKind::Blob, TapeDir::Blob, 128),
            ("v1_prunable_blobs", TapeKind::Blob, TapeDir::Blob, 32),
            ("prunable1", TapeKind::Blob, TapeDir::Blob, 16),
            ("prunable2", TapeKind::Blob, TapeDir::Blob, 16),
            ("prunable3", TapeKind::Blob, TapeDir::Blob, 16),
            ("prunable4", TapeKind::Blob, TapeDir::Blob, 16),
            ("prunable5", TapeKind::Blob, TapeDir::Blob, 16),
            ("prunable6", TapeKind::Blob, TapeDir::Blob, 16),
            ("prunable7", TapeKind::Blob, TapeDir::Blob, 16),
            ("prunable8", TapeKind::Blob, TapeDir::Blob, 16),
        ]
    );
}

#[test]
fn tables_of_both_stores_have_names_of_their_own() {
    let pool = [
        PoolTable::TxBlobs,
        PoolTable::TxInfos,
        PoolTable::SpentKeyImages,
        PoolTable::KnownBlobHashes,
        PoolTable::Metadata,
    ];
    let mut names: Vec<&str> = (0..TABLE_COUNT).map(|index| table_at(index).name()).collect();
    names.extend(pool.iter().map(|table| table.name()));
    names.sort_unstable();
    names.dedup();
    assert_eq!(names.len(), TABLE_COUNT + pool.len());
}

#[test]
fn missing_tapes_are_reported() {
    let (check, _) = ConsistencyCheck::start();
    let (_, action) = check.step(CheckEvent::TapeLen(None));
    assert!(matches!(
        action,
        CheckAction::Return(Err(BlockchainError::Corrupt("block_infos tape missing")))
    ));

    let check = ConsistencyCheck::TxInfosLen { block_infos_len: 1 };
    let (_, action) = check.step(CheckEvent::TapeLen(None));
    assert!(matches!(
        action,
        CheckAction::Return(Err(BlockchainError::Corrupt("tx_infos tape missing")))
    ));

    let check = ConsistencyCheck::TopBlockInfo { block_infos_len: 1 };
    let (_, action) = check.step(CheckEvent::BlockInfo(Ok(None)));
    assert!(matches!(
        action,
        CheckAction::Return(Err(BlockchainError::Corrupt("block_infos tail entry missing")))
    ));

    let (_, action) = Rebuild::ReadingLen.step(RebuildEvent::BlockInfosLen(None));
    assert!(matches!(
        action,
        RebuildAction::Return(Err(BlockchainError::Corrupt("block_infos tape missing")))
    ));

    assert!(matches!(
        check_pruned_blob_range(0, 0, None),
        Err(BlockchainError::Corrupt("pruned_blobs tape missing"))
    ));
}

#[test]
fn store_errors_end_the_check() {
    let check = ConsistencyCheck::StoredHeight { block_infos_len: 4 };
    let (check, action) = check.step(CheckEvent::StoredHeight(Err(BlockchainError::NotFound)));
    assert!(matches!(action, CheckAction::Return(Err(BlockchainError::NotFound))));
    assert!(matches!(check, ConsistencyCheck::Finished));
}

#[test]
fn blob_ranges_end_with_the_tape() {
    assert!(check_pruned_blob_range(3, 4, Some(7)).is_ok());
    assert!(check_pruned_blob_range(3, 5, Some(7)).is_err());
    assert!(check_pruned_blob_range(u64::MAX, 1, Some(u64::MAX)).is_ok());
    assert!(check_pruned_blob_range(u64::MAX, 1, Some(u64::MAX - 1)).is_err());
}

#[test]
fn writes_are_committed_in_batches() {
    let (mut rebuild, mut action) = Rebuild::start();
    let (mut cleared, mut added, mut commits) = (Vec::new(), Vec::new(), Vec::new());
    loop {
        let event = match action {
            RebuildAction::ReadBlockInfosLen => RebuildEvent::BlockInfosLen(Some(2002)),
            RebuildAction::Return(result) => {
                assert!(result.is_ok());
                break;
            }
            RebuildAction::Clear(table) => {
                cleared.push(table);
                RebuildEvent::Done(Ok(()))
            }
            RebuildAction::AddBlock { height } => {
                added.push(height);
                RebuildEvent::Done(Ok(()))
            }
            RebuildAction::CommitBatch | RebuildAction::CommitLastBatch => {
                commits.push(added.len());
                RebuildEvent::Done(Ok(()))
            }
            _ => RebuildEvent::Done(Ok(())),
        };
        (rebuild, action) = rebuild.step(event);
    }

    assert_eq!(COMMIT_INTERVAL, 1000);
    assert_eq!(cleared, (0..TABLE_COUNT).map(table_at).collect::<Vec<Table>>());
    assert_eq!(added, (0..2002).collect::<Vec<u64>>());
    assert_eq!(commits, vec![1, 1001, 2001, 2002]);
}

#[test]
fn synthetic_blocks_are_what_they_say() {
    let made = mock_block(7, [3; 32]);
    let block = Block::read(&mut made.block_blob.as_slice()).expect("block parses");

    assert_eq!(block.hash(), made.block_hash);
    assert_eq!(block.number(), 7);
    assert_eq!(block.header.previous, [3; 32]);
    assert_eq!(block.header.timestamp, 1_007);
    assert_eq!(block.header.hardfork_version, 16);
    assert_eq!(block.header.hardfork_signal, 16);
    assert_eq!(block.header.nonce, 0);
    assert!(block.transactions.is_empty());
    assert!(block.miner_transaction().prefix().extra.is_empty());
    assert!(made.block.extra.is_empty() && made.block.transactions.is_empty());
    assert_eq!(block.serialize(), made.block_blob);
    assert_eq!(made.height, 7);
    assert_eq!(made.generated_coins, 1_000_000_000);
    assert_eq!(made.cumulative_difficulty, 1);
    assert_eq!(made.pow_hash, [0; 32]);
    assert_eq!((made.weight, made.long_term_weight, made.txs.len()), (0, 0, 0));
    assert_ne!(made.block_hash, mock_block(8, [3; 32]).block_hash);
    assert_ne!(made.block_hash, mock_block(7, [4; 32]).block_hash);
}

#[test]
fn pruned_transactions_are_read() {
    let (_tempdir, db) = tmp_db();
    write_blocks(&db, 2);

    assert_eq!(
        db.get_transaction(1).expect("second transaction"),
        Some(PrunedTransaction {
            version: 2,
            additional_timelock: Timelock::Block(61),
            inputs: vec![TxInput::Gen(1)],
            outputs: vec![TxOutput {
                amount: Some(1_000_000_000),
                key: [1; 32],
                view_tag: Some(1),
            }],
        })
    );
    assert!(matches!(read_pruned_transaction(b"corrupt"), Err(BlockchainError::IO(_))));
    assert!(matches!(read_pruned_transaction(&[]), Err(BlockchainError::IO(_))));
}
