//! The opening of the transaction pool store, on a real key-value store.

use cuprate_core::txpool::error::TxPoolError;
use cuprate_core::txpool::format_version::{
    check_format_version, format_version_stamp, DATABASE_FORMAT_VERSION, FORMAT_VERSION_KEY,
};
use cuprate_core::txpool::opening::{
    no_key_images_in_progress, PoolAction, PoolEvent, PoolOpening, PoolTable,
    BLOB_SEPARATION_THRESHOLD,
};
use fjall::{KeyspaceCreateOptions, KvSeparationOptions};

/// Opens the tables of a store and hands back its metadata table.
fn open_with_database(database: &fjall::Database) -> Result<fjall::Keyspace, TxPoolError> {
    let mut metadata = None;
    let (mut opening, mut action) = PoolOpening::start();
    loop {
        let event = match action {
            PoolAction::OpenTable(table) => {
                let opened = database.keyspace(table.name(), || {
                    KeyspaceCreateOptions::default().with_kv_separation(
                        table.separation_threshold().map(|threshold| {
                            KvSeparationOptions::default().separation_threshold(threshold)
                        }),
                    )
                });
                PoolEvent::Done(opened.map(|keyspace| {
                    if table == PoolTable::Metadata {
                        metadata = Some(keyspace);
                    }
                }))
            }
            PoolAction::ReadFormatVersion => {
                let keyspace = metadata.as_ref().expect("metadata is open");
                PoolEvent::FormatVersion(
                    keyspace
                        .get(FORMAT_VERSION_KEY)
                        .map(|stored| stored.map(|bytes| bytes.to_vec())),
                )
            }
            PoolAction::StampFormatVersion(bytes) => {
                let keyspace = metadata.as_ref().expect("metadata is open");
                PoolEvent::Done(keyspace.insert(FORMAT_VERSION_KEY, bytes))
            }
            PoolAction::Return(result) => {
                return result.map(|()| metadata.expect("metadata is open"));
            }
        };
        (opening, action) = opening.step(event);
    }
}

#[test]
fn open_with_database_stamps_format_version_on_fresh_db() {
    let dir = tempfile::tempdir().unwrap();
    let fjall = fjall::Database::builder(dir.path()).open().unwrap();
    let metadata = open_with_database(&fjall).unwrap();

    let stored = metadata.get(b"format_version").unwrap().unwrap();

    assert_eq!(stored.as_ref(), DATABASE_FORMAT_VERSION.to_le_bytes());
}

#[test]
fn open_with_database_allows_reopen_with_matching_format_version() {
    let dir = tempfile::tempdir().unwrap();
    let fjall = fjall::Database::builder(dir.path()).open().unwrap();
    let metadata = open_with_database(&fjall).unwrap();

    drop(metadata);
    drop(fjall);

    let fjall = fjall::Database::builder(dir.path()).open().unwrap();
    let reopened = open_with_database(&fjall);

    assert!(reopened.is_ok());
}

#[test]
fn open_with_database_rejects_mismatched_format_version() {
    let dir = tempfile::tempdir().unwrap();
    let fjall = fjall::Database::builder(dir.path()).open().unwrap();
    let metadata = fjall.keyspace("metadata", fjall::KeyspaceCreateOptions::default).unwrap();
    metadata.insert(b"format_version", 999_u64.to_le_bytes()).unwrap();

    match open_with_database(&fjall) {
        Err(TxPoolError::DbFormatVersionMismatch { expected, found }) => {
            assert_eq!(expected, DATABASE_FORMAT_VERSION);
            assert_eq!(found, 999);
        }
        Err(other) => panic!("unexpected error: {other:?}"),
        Ok(_) => panic!("expected format version mismatch error"),
    }
}

#[test]
fn open_with_database_rejects_malformed_format_version_value() {
    let dir = tempfile::tempdir().unwrap();
    let fjall = fjall::Database::builder(dir.path()).open().unwrap();
    let metadata = fjall.keyspace("metadata", fjall::KeyspaceCreateOptions::default).unwrap();
    metadata.insert(b"format_version", [1_u8, 2, 3]).unwrap();

    let result = open_with_database(&fjall);

    assert!(result.is_err());
    let stored = metadata.get(b"format_version").unwrap().unwrap();
    assert_eq!(stored.as_ref(), [1_u8, 2, 3], "a stored version is not written over");
}

fn mismatch(stored: &[u8]) -> (u64, u64) {
    match check_format_version(stored) {
        Err(TxPoolError::DbFormatVersionMismatch { expected, found }) => (expected, found),
        other => panic!("expected format version mismatch error, got {other:?}"),
    }
}

#[test]
fn malformed_versions_are_reported_as_far_as_they_go() {
    assert_eq!(mismatch(&[1, 2, 3]), (0, 0x03_02_01));
    assert_eq!(mismatch(&[]), (0, 0));
    assert_eq!(mismatch(&[0; 7]), (0, 0));
    assert_eq!(mismatch(&[0; 9]), (0, 0));
    assert_eq!(mismatch(&[0, 1, 0, 0, 0, 0, 0, 0, 7]), (0, 256));
    assert_eq!(mismatch(&[255; 8]), (0, u64::MAX));
}

#[test]
fn the_stamp_is_accepted() {
    assert_eq!(format_version_stamp(), DATABASE_FORMAT_VERSION.to_le_bytes());
    assert!(check_format_version(&format_version_stamp()).is_ok());
    assert!(check_format_version(&[0; 8]).is_ok());
}

#[test]
fn tables_are_opened_in_order() {
    let (mut opening, mut action) = PoolOpening::start();
    let mut names = Vec::new();
    while let PoolAction::OpenTable(table) = action {
        names.push((table.name(), table.separation_threshold()));
        (opening, action) = opening.step(PoolEvent::Done(Ok(())));
    }

    assert_eq!(
        names,
        vec![
            ("tx_blobs", Some(BLOB_SEPARATION_THRESHOLD)),
            ("tx_infos", None),
            ("spent_key_images", None),
            ("known_blob_hashes", None),
            ("metadata", None),
        ]
    );
    assert_eq!(BLOB_SEPARATION_THRESHOLD, 3_000);
    assert!(matches!(action, PoolAction::ReadFormatVersion));
    assert!(matches!(opening, PoolOpening::ReadingFormatVersion));
}

#[test]
fn store_errors_end_the_opening() {
    let (opening, _) = PoolOpening::start();
    let (opening, action) = opening.step(PoolEvent::Done(Err(fjall::Error::Poisoned)));
    assert!(matches!(
        action,
        PoolAction::Return(Err(TxPoolError::Fjall(fjall::Error::Poisoned)))
    ));
    assert!(matches!(opening, PoolOpening::Finished));

    let (_, action) =
        PoolOpening::ReadingFormatVersion.step(PoolEvent::FormatVersion(Err(fjall::Error::Poisoned)));
    assert!(matches!(
        action,
        PoolAction::Return(Err(TxPoolError::Fjall(fjall::Error::Poisoned)))
    ));
}

#[test]
fn reopened_pool_holds_what_it_held() {
    let dir = tempfile::tempdir().unwrap();
    let fjall = fjall::Database::builder(dir.path()).open().unwrap();
    let metadata = open_with_database(&fjall).unwrap();
    let blobs = fjall.keyspace("tx_blobs", fjall::KeyspaceCreateOptions::default).unwrap();
    blobs.insert(b"hash", b"blob").unwrap();
    metadata.insert(b"other", b"kept").unwrap();

    let metadata = open_with_database(&fjall).unwrap();

    assert_eq!(blobs.get(b"hash").unwrap().unwrap().as_ref(), b"blob");
    assert_eq!(blobs.len().unwrap(), 1);
    assert_eq!(metadata.get(b"other").unwrap().unwrap().as_ref(), b"kept");
    assert_eq!(metadata.len().unwrap(), 2);
    assert!(no_key_images_in_progress().is_empty());
}
