//! The opening of the store: its tables, then the check of its format version.
//!
//! The first operation that fails ends the opening.

use std::collections::HashMap;

use vstd::prelude::*;

use crate::blockchain::layout::{lemma_reveal_table_names, Table};
use crate::txpool::error::TxPoolError;
use crate::txpool::format_version::{
    check_format_version, format_version_stamp, law_only_the_stamp_is_accepted, stamp,
    version_check, FORMAT_VERSION_KEY,
};

verus! {

/// A table of the transaction pool store.
#[derive(Clone, Copy, Debug, PartialEq, Eq, Structural)]
pub enum PoolTable {
    /// The transactions.
    TxBlobs,
    /// What is known of each transaction.
    TxInfos,
    /// The key images that the transactions spend.
    SpentKeyImages,
    /// The hashes of the blobs that were seen.
    KnownBlobHashes,
    /// What is known of the store itself.
    Metadata,
}

/// The size in bytes from which on a transaction is stored apart from its key.
pub const BLOB_SEPARATION_THRESHOLD: u32 = 3_000;

impl PoolTable {
    /// The name under which the table is stored.
    pub open spec fn stored_name(self) -> &'static str {
        match self {
            PoolTable::TxBlobs => "tx_blobs",
            PoolTable::TxInfos => "tx_infos",
            PoolTable::SpentKeyImages => "spent_key_images",
            PoolTable::KnownBlobHashes => "known_blob_hashes",
            PoolTable::Metadata => "metadata",
        }
    }

    /// The name under which the table is stored.
    pub fn name(self) -> (name: &'static str)
        ensures
            name == self.stored_name(),
    {
        match self {
            PoolTable::TxBlobs => "tx_blobs",
            PoolTable::TxInfos => "tx_infos",
            PoolTable::SpentKeyImages => "spent_key_images",
            PoolTable::KnownBlobHashes => "known_blob_hashes",
            PoolTable::Metadata => "metadata",
        }
    }

    /// From which size on values of the table are stored apart from their keys, where they are.
    pub open spec fn separates_from(self) -> Option<u32> {
        if self is TxBlobs {
            Some(BLOB_SEPARATION_THRESHOLD)
        } else {
            None
        }
    }

    /// From which size on values of the table are stored apart from their keys, where they are.
    pub fn separation_threshold(self) -> (threshold: Option<u32>)
        ensures
            threshold == self.separates_from(),
    {
        match self {
            PoolTable::TxBlobs => Some(BLOB_SEPARATION_THRESHOLD),
            _ => None,
        }
    }

    /// The table that is opened after this one.
    pub open spec fn successor(self) -> Option<PoolTable> {
        match self {
            PoolTable::TxBlobs => Some(PoolTable::TxInfos),
            PoolTable::TxInfos => Some(PoolTable::SpentKeyImages),
            PoolTable::SpentKeyImages => Some(PoolTable::KnownBlobHashes),
            PoolTable::KnownBlobHashes => Some(PoolTable::Metadata),
            PoolTable::Metadata => None,
        }
    }
}

/// What the opening does next, or how it ended.
#[derive(Debug)]
pub enum PoolAction {
    /// Open the table, or create it.
    OpenTable(PoolTable),
    /// Read the format version from the metadata table.
    ReadFormatVersion,
    /// Store these bytes as the format version.
    StampFormatVersion(Vec<u8>),
    /// The opening has ended with this result.
    Return(Result<(), TxPoolError>),
}

/// What came back for an action.
#[derive(Debug)]
pub enum PoolEvent {
    /// How the action ended.
    Done(Result<(), fjall::Error>),
    /// The stored format version; `None` where there is none.
    FormatVersion(Result<Option<Vec<u8>>, fjall::Error>),
}

/// How far the opening has come.
#[derive(Debug)]
pub enum PoolOpening {
    OpeningTable(PoolTable),
    ReadingFormatVersion,
    StampingFormatVersion,
    Finished,
}

/// The opening ends with `result`.
pub open spec fn finish(result: Result<(), TxPoolError>) -> (PoolOpening, PoolAction) {
    (PoolOpening::Finished, PoolAction::Return(result))
}

impl PoolOpening {
    /// `event` is of the kind that the opening waits for.
    pub open spec fn awaits(self, event: PoolEvent) -> bool {
        match self {
            PoolOpening::OpeningTable(_) | PoolOpening::StampingFormatVersion => event is Done,
            PoolOpening::ReadingFormatVersion => event is FormatVersion,
            PoolOpening::Finished => false,
        }
    }

    /// `to` is where the opening goes on `event`, with what it does then.
    pub open spec fn goes_to(self, event: PoolEvent, to: (PoolOpening, PoolAction)) -> bool {
        match event {
            PoolEvent::Done(Err(error)) => to == finish(Err(TxPoolError::Fjall(error))),
            PoolEvent::FormatVersion(Err(error)) => to == finish(Err(TxPoolError::Fjall(error))),
            PoolEvent::Done(Ok(_)) => match self {
                PoolOpening::OpeningTable(table) => match table.successor() {
                    Some(next) => to == (
                        PoolOpening::OpeningTable(next),
                        PoolAction::OpenTable(next),
                    ),
                    None => to == (
                        PoolOpening::ReadingFormatVersion,
                        PoolAction::ReadFormatVersion,
                    ),
                },
                _ => to == finish(Ok(())),
            },
            PoolEvent::FormatVersion(Ok(None)) => {
                &&& to.0 is StampingFormatVersion
                &&& to.1 matches PoolAction::StampFormatVersion(bytes)
                &&& bytes@ == stamp()
            },
            PoolEvent::FormatVersion(Ok(Some(stored))) => to == finish(version_check(stored@)),
        }
    }

    /// An opening that has done nothing yet, and the first thing that it does.
    pub fn start() -> (started: (PoolOpening, PoolAction))
        ensures
            started == (
                PoolOpening::OpeningTable(PoolTable::TxBlobs),
                PoolAction::OpenTable(PoolTable::TxBlobs),
            ),
    {
        (
            PoolOpening::OpeningTable(PoolTable::TxBlobs),
            PoolAction::OpenTable(PoolTable::TxBlobs),
        )
    }

    /// Takes the opening on by what came back for its last action.
    pub fn step(self, event: PoolEvent) -> (stepped: (PoolOpening, PoolAction))
        requires
            self.awaits(event),
        ensures
            self.goes_to(event, stepped),
    {
        match event {
            PoolEvent::Done(Err(error)) | PoolEvent::FormatVersion(Err(error)) => (
                PoolOpening::Finished,
                PoolAction::Return(Err(TxPoolError::Fjall(error))),
            ),
            PoolEvent::Done(Ok(_)) => match self {
                PoolOpening::OpeningTable(table) => {
                    let next: PoolTable = match table {
                        PoolTable::TxBlobs => PoolTable::TxInfos,
                        PoolTable::TxInfos => PoolTable::SpentKeyImages,
                        PoolTable::SpentKeyImages => PoolTable::KnownBlobHashes,
                        PoolTable::KnownBlobHashes => PoolTable::Metadata,
                        PoolTable::Metadata => {
                            return (
                                PoolOpening::ReadingFormatVersion,
                                PoolAction::ReadFormatVersion,
                            );
                        },
                    };
                    (PoolOpening::OpeningTable(next), PoolAction::OpenTable(next))
                },
                _ => (PoolOpening::Finished, PoolAction::Return(Ok(()))),
            },
            PoolEvent::FormatVersion(Ok(None)) => (
                PoolOpening::StampingFormatVersion,
                PoolAction::StampFormatVersion(format_version_stamp()),
            ),
            PoolEvent::FormatVersion(Ok(Some(stored))) => (
                PoolOpening::Finished,
                PoolAction::Return(check_format_version(stored.as_slice())),
            ),
        }
    }
}

/// `run` is what an opening goes through on `events`.
pub open spec fn is_run(run: Seq<(PoolOpening, PoolAction)>, events: Seq<PoolEvent>) -> bool {
    &&& run.len() == events.len() + 1
    &&& run[0] == (
        PoolOpening::OpeningTable(PoolTable::TxBlobs),
        PoolAction::OpenTable(PoolTable::TxBlobs),
    )
    &&& forall|i: int|
        0 <= i < events.len() ==> (#[trigger] run[i]).0.awaits(events[i]) && run[i].0.goes_to(
            events[i],
            run[i + 1],
        )
}

/// `event` is what a store gives back for `action` that reports no error and holds `stored` as
/// its format version.
pub open spec fn answers(stored: Option<Seq<u8>>, action: PoolAction, event: PoolEvent) -> bool {
    match action {
        PoolAction::ReadFormatVersion => event matches PoolEvent::FormatVersion(Ok(read)) && match read {
            None => stored is None,
            Some(bytes) => stored == Some(bytes@),
        },
        _ => event matches PoolEvent::Done(Ok(_)),
    }
}

/// Each event is what such a store gives back for what the opening did.
pub open spec fn answered(
    stored: Option<Seq<u8>>,
    run: Seq<(PoolOpening, PoolAction)>,
    events: Seq<PoolEvent>,
) -> bool {
    forall|i: int| 0 <= i < events.len() ==> answers(stored, (#[trigger] run[i]).1, events[i])
}

/// The place of a table in the order of opening.
spec fn place(table: PoolTable) -> int {
    match table {
        PoolTable::TxBlobs => 0,
        PoolTable::TxInfos => 1,
        PoolTable::SpentKeyImages => 2,
        PoolTable::KnownBlobHashes => 3,
        PoolTable::Metadata => 4,
    }
}

/// What is known of the store at each point of the opening.
spec fn knows(stored: Option<Seq<u8>>, at: (PoolOpening, PoolAction), steps: int) -> bool {
    match at.0 {
        PoolOpening::OpeningTable(table) => {
            &&& at.1 == PoolAction::OpenTable(table)
            &&& steps == place(table)
        },
        PoolOpening::ReadingFormatVersion => steps == 5 && at.1 == PoolAction::ReadFormatVersion,
        PoolOpening::StampingFormatVersion => {
            &&& steps == 6
            &&& stored is None
            &&& at.1 matches PoolAction::StampFormatVersion(bytes)
            &&& bytes@ == stamp()
        },
        PoolOpening::Finished => 6 <= steps <= 7 && match stored {
            None => at.1 == PoolAction::Return(Ok(())),
            Some(bytes) => at.1 == PoolAction::Return(version_check(bytes)),
        },
    }
}

proof fn lemma_opening_knows(
    stored: Option<Seq<u8>>,
    run: Seq<(PoolOpening, PoolAction)>,
    events: Seq<PoolEvent>,
    steps: int,
)
    requires
        is_run(run, events),
        answered(stored, run, events),
        0 <= steps < run.len(),
    ensures
        knows(stored, run[steps], steps),
    decreases steps,
{
    if steps > 0 {
        lemma_opening_knows(stored, run, events, steps - 1);
        assert(run[steps - 1].0.goes_to(events[steps - 1], run[steps]));
        assert(answers(stored, run[steps - 1].1, events[steps - 1]));
    }
}

/// On a store that reports no error the opening ends after at most seven actions. A store without
/// a format version is stamped and opened; one with a version is never written to, and is opened
/// exactly where the version is the stamp.
pub proof fn law_opening_decides(
    stored: Option<Seq<u8>>,
    run: Seq<(PoolOpening, PoolAction)>,
    events: Seq<PoolEvent>,
)
    requires
        is_run(run, events),
        answered(stored, run, events),
    ensures
        run.len() <= 8,
        match run.last().1 {
            PoolAction::Return(Ok(_)) => stored is None || stored == Some(stamp()),
            PoolAction::Return(Err(error)) => error is DbFormatVersionMismatch && stored is Some
                && stored != Some(stamp()),
            PoolAction::StampFormatVersion(bytes) => stored is None && bytes@ == stamp(),
            _ => run.len() <= 6,
        },
{
    lemma_opening_knows(stored, run, events, run.len() - 1);
    if stored is Some {
        law_only_the_stamp_is_accepted(stored->Some_0);
    }
}

/// What the store holds: the entries of each table that there is.
pub type PoolContents = Map<PoolTable, Map<Seq<u8>, Seq<u8>>>;

/// The bytes of the key under which the format version is stored.
pub open spec fn version_key() -> Seq<u8> {
    FORMAT_VERSION_KEY@.map_values(|c: char| c as u8)
}

/// The format version that is stored, where there is one.
pub open spec fn stored_version(contents: PoolContents) -> Option<Seq<u8>> {
    if contents.contains_key(PoolTable::Metadata) && contents[PoolTable::Metadata].contains_key(
        version_key(),
    ) {
        Some(contents[PoolTable::Metadata][version_key()])
    } else {
        None
    }
}

/// The store after an action that succeeded: a table that was not there is created empty, the
/// stamp is stored, and nothing else changes.
pub open spec fn pool_effect(contents: PoolContents, action: PoolAction) -> PoolContents {
    match action {
        PoolAction::OpenTable(table) if !contents.contains_key(table) => contents.insert(
            table,
            Map::empty(),
        ),
        PoolAction::StampFormatVersion(bytes) => contents.insert(
            PoolTable::Metadata,
            contents[PoolTable::Metadata].insert(version_key(), bytes@),
        ),
        _ => contents,
    }
}

/// The store after these actions.
pub open spec fn pool_effects(
    contents: PoolContents,
    run: Seq<(PoolOpening, PoolAction)>,
) -> PoolContents
    decreases run.len(),
{
    if run.len() == 0 {
        contents
    } else {
        pool_effect(pool_effects(contents, run.drop_last()), run.last().1)
    }
}

/// The metadata with the stamp added where they have no format version.
pub open spec fn stamped(entries: Map<Seq<u8>, Seq<u8>>) -> Map<Seq<u8>, Seq<u8>> {
    if entries.contains_key(version_key()) {
        entries
    } else {
        entries.insert(version_key(), stamp())
    }
}

/// The entries of a table; none where it is not there.
pub open spec fn entries_of(contents: PoolContents, table: PoolTable) -> Map<Seq<u8>, Seq<u8>> {
    if contents.contains_key(table) {
        contents[table]
    } else {
        Map::empty()
    }
}

/// In the whole of an opening the stamp is stored only where no format version was there, and once.
pub proof fn law_only_a_new_store_is_stamped(
    stored: Option<Seq<u8>>,
    run: Seq<(PoolOpening, PoolAction)>,
    events: Seq<PoolEvent>,
    i: int,
)
    requires
        is_run(run, events),
        answered(stored, run, events),
        0 <= i < run.len(),
    ensures
        run[i].1 matches PoolAction::StampFormatVersion(bytes) ==> stored is None && bytes@
            == stamp() && i == 6,
{
    lemma_opening_knows(stored, run, events, i);
}

proof fn lemma_pool_effects(
    contents: PoolContents,
    run: Seq<(PoolOpening, PoolAction)>,
    events: Seq<PoolEvent>,
    steps: int,
    table: PoolTable,
)
    requires
        is_run(run, events),
        answered(stored_version(contents), run, events),
        0 <= steps <= run.len(),
    ensures
        ({
            let after = pool_effects(contents, run.take(steps));
            &&& contents.contains_key(table) ==> after.contains_key(table)
            &&& steps > place(table) ==> after.contains_key(table)
            &&& steps <= 6 || table != PoolTable::Metadata ==> entries_of(after, table)
                == entries_of(contents, table)
            &&& steps >= 7 && table == PoolTable::Metadata ==> entries_of(after, table) == (
            if run[6].1 is StampFormatVersion {
                entries_of(contents, table).insert(version_key(), stamp())
            } else {
                entries_of(contents, table)
            })
        }),
    decreases steps,
{
    if steps > 0 {
        let fewer = run.take(steps).drop_last();
        assert(fewer =~= run.take(steps - 1));
        assert(run.take(steps).last() == run[steps - 1]);
        lemma_pool_effects(contents, run, events, steps - 1, table);
        lemma_opening_knows(stored_version(contents), run, events, steps - 1);
        if steps >= 7 {
            lemma_opening_knows(stored_version(contents), run, events, 6);
        }
    } else {
        assert(run.take(0) =~= Seq::empty());
    }
}

/// Opening a store that reports no error changes nothing that was stored: every table holds what it
/// held, but for the stamp that is added to the metadata of a store without a format version. A
/// table that was not there is empty.
pub proof fn law_opening_keeps_the_pool(
    contents: PoolContents,
    run: Seq<(PoolOpening, PoolAction)>,
    events: Seq<PoolEvent>,
    table: PoolTable,
)
    requires
        is_run(run, events),
        answered(stored_version(contents), run, events),
        run.last().1 is Return,
    ensures
        pool_effects(contents, run).contains_key(table),
        entries_of(pool_effects(contents, run), table) == if table == PoolTable::Metadata {
            stamped(entries_of(contents, table))
        } else {
            entries_of(contents, table)
        },
{
    let stored = stored_version(contents);
    let last = run.len() - 1;
    assert(run.take(run.len() as int) =~= run);
    lemma_opening_knows(stored, run, events, last);
    lemma_pool_effects(contents, run, events, run.len() as int, table);
    lemma_opening_knows(stored, run, events, 5);
    assert(run[5].0.goes_to(events[5], run[6]));
    assert(answers(stored, run[5].1, events[5]));
}

/// The key images in progress of a store that was just opened: none.
pub fn no_key_images_in_progress() -> (in_progress: HashMap<[u8; 32], [u8; 32]>)
    ensures
        in_progress@ == Map::<[u8; 32], [u8; 32]>::empty(),
{
    HashMap::new()
}

/// What an opening stamps a new store with, the next opening accepts, and does not write again.
pub proof fn law_stamped_store_reopens(
    first: Seq<(PoolOpening, PoolAction)>,
    first_events: Seq<PoolEvent>,
    bytes: Vec<u8>,
    second: Seq<(PoolOpening, PoolAction)>,
    second_events: Seq<PoolEvent>,
)
    requires
        is_run(first, first_events),
        answered(None, first, first_events),
        first.last().1 == PoolAction::StampFormatVersion(bytes),
        is_run(second, second_events),
        answered(Some(bytes@), second, second_events),
    ensures
        match second.last().1 {
            PoolAction::Return(result) => result is Ok,
            PoolAction::StampFormatVersion(_) => false,
            _ => second.len() <= 6,
        },
{
    law_opening_decides(None, first, first_events);
    law_opening_decides(Some(bytes@), second, second_events);
}

/// Whatever the opening is at, an error of the store ends it, and is handed on as it came.
pub proof fn law_store_errors_end_the_opening(
    opening: PoolOpening,
    event: PoolEvent,
    error: fjall::Error,
    to: (PoolOpening, PoolAction),
)
    requires
        event == PoolEvent::Done(Err(error)) || event == PoolEvent::FormatVersion(Err(error)),
        opening.goes_to(event, to),
    ensures
        to == finish(Err(TxPoolError::Fjall(error))),
{
}

proof fn lemma_reveal_pool_table_names()
    ensures
        "tx_blobs"@.len() == 8,
        "tx_blobs"@[3] == 'b',
        "tx_infos"@.len() == 8,
        "tx_infos"@[3] == 'i',
        "spent_key_images"@.len() == 16,
        "known_blob_hashes"@.len() == 17,
        "known_blob_hashes"@[0] == 'k',
        "metadata"@.len() == 8,
        "metadata"@[0] == 'm',
        "metadata"@[3] == 'a',
{
    reveal_strlit("tx_blobs");
    reveal_strlit("tx_infos");
    reveal_strlit("spent_key_images");
    reveal_strlit("known_blob_hashes");
    reveal_strlit("metadata");
}

/// No two tables are stored under one name.
pub proof fn law_pool_table_names_are_distinct(a: PoolTable, b: PoolTable)
    requires
        a != b,
    ensures
        a.stored_name()@ != b.stored_name()@,
{
    lemma_reveal_pool_table_names();
}

/// The tables of the pool and those of the blockchain can lie in one store: no name is used by
/// both.
pub proof fn law_pool_and_blockchain_share_no_table(pool: PoolTable, table: Table)
    ensures
        pool.stored_name()@ != table.stored_name()@,
{
    lemma_reveal_pool_table_names();
    lemma_reveal_table_names();
}

/// The tables of the pool have these names, and only the transactions themselves are stored apart
/// from their keys, from three thousand bytes on.
pub proof fn law_pool_tables(table: PoolTable)
    ensures
        PoolTable::TxBlobs.stored_name()@ == "tx_blobs"@,
        PoolTable::TxInfos.stored_name()@ == "tx_infos"@,
        PoolTable::SpentKeyImages.stored_name()@ == "spent_key_images"@,
        PoolTable::KnownBlobHashes.stored_name()@ == "known_blob_hashes"@,
        PoolTable::Metadata.stored_name()@ == "metadata"@,
        table.separates_from() == if table == PoolTable::TxBlobs {
            Some(3_000u32)
        } else {
            None
        },
{
}

/// An opening that ends well on a store that reports no error has opened every table, the
/// transactions first and the metadata last, and has read the format version after them.
pub proof fn law_opening_opens_every_table(
    stored: Option<Seq<u8>>,
    run: Seq<(PoolOpening, PoolAction)>,
    events: Seq<PoolEvent>,
)
    requires
        is_run(run, events),
        answered(stored, run, events),
        run.last().1 is Return,
    ensures
        run[0].1 == PoolAction::OpenTable(PoolTable::TxBlobs),
        run[1].1 == PoolAction::OpenTable(PoolTable::TxInfos),
        run[2].1 == PoolAction::OpenTable(PoolTable::SpentKeyImages),
        run[3].1 == PoolAction::OpenTable(PoolTable::KnownBlobHashes),
        run[4].1 == PoolAction::OpenTable(PoolTable::Metadata),
        run[5].1 is ReadFormatVersion,
        stored is None ==> run.len() == 8 && run[6].1 is StampFormatVersion,
        stored is Some ==> run.len() == 7,
{
    lemma_opening_knows(stored, run, events, run.len() - 1);
    lemma_opening_knows(stored, run, events, 0);
    lemma_opening_knows(stored, run, events, 1);
    lemma_opening_knows(stored, run, events, 2);
    lemma_opening_knows(stored, run, events, 3);
    lemma_opening_knows(stored, run, events, 4);
    lemma_opening_knows(stored, run, events, 5);
    lemma_opening_knows(stored, run, events, 6);
    assert(run[5].0.goes_to(events[5], run[6]));
    assert(answers(stored, run[5].1, events[5]));
    if run.len() == 8 {
        assert(run[6].0.awaits(events[6]));
    }
}

} // verus!
