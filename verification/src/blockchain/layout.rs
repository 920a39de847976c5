//! The tables and tapes of the store: their names, where they lie and in which order they are
//! opened.

use vstd::prelude::*;

verus! {

/// A table of the key-value store.
#[derive(Clone, Copy, Debug, PartialEq, Eq, Structural)]
pub enum Table {
    /// From a block hash to the block's height.
    BlockHeights,
    /// The key images that are spent.
    KeyImages,
    /// From the ID of a pre-RCT output to the output.
    PreRctOutputs,
    /// From a transaction hash to the transaction's ID.
    TxIds,
    /// From the ID of a V1 transaction to the amount indices of its outputs.
    V1TxOutputs,
    /// From the ID of an alternative chain to what is known of it.
    AltChainInfos,
    /// From the hash of an alternative block to its place.
    AltBlockHeights,
    /// From the place of an alternative block to what is known of it.
    AltBlockInfos,
    /// From the place of an alternative block to its blob.
    AltBlockBlobs,
    /// From the hash of an alternative transaction to its blob.
    AltTransactionBlobs,
    /// From the hash of an alternative transaction to what is known of it.
    AltTransactionInfos,
}

impl Table {
    /// The name under which the table is stored.
    pub open spec fn stored_name(self) -> &'static str {
        match self {
            Table::BlockHeights => "block_heights",
            Table::KeyImages => "key_images",
            Table::PreRctOutputs => "pre_rct_outputs",
            Table::TxIds => "tx_ids",
            Table::V1TxOutputs => "tx_outputs",
            Table::AltChainInfos => "alt_chain_infos",
            Table::AltBlockHeights => "alt_block_heights",
            Table::AltBlockInfos => "alt_block_infos",
            Table::AltBlockBlobs => "alt_block_blobs",
            Table::AltTransactionBlobs => "alt_transaction_blobs",
            Table::AltTransactionInfos => "alt_transaction_infos",
        }
    }

    /// The name under which the table is stored.
    pub fn name(self) -> (name: &'static str)
        ensures
            name == self.stored_name(),
    {
        match self {
            Table::BlockHeights => "block_heights",
            Table::KeyImages => "key_images",
            Table::PreRctOutputs => "pre_rct_outputs",
            Table::TxIds => "tx_ids",
            Table::V1TxOutputs => "tx_outputs",
            Table::AltChainInfos => "alt_chain_infos",
            Table::AltBlockHeights => "alt_block_heights",
            Table::AltBlockInfos => "alt_block_infos",
            Table::AltBlockBlobs => "alt_block_blobs",
            Table::AltTransactionBlobs => "alt_transaction_blobs",
            Table::AltTransactionInfos => "alt_transaction_infos",
        }
    }
}

/// The number of tables.
pub const TABLE_COUNT: usize = 11;

/// All tables, in the order in which they are opened and cleared.
pub open spec fn all_tables() -> Seq<Table> {
    seq![
        Table::BlockHeights,
        Table::KeyImages,
        Table::PreRctOutputs,
        Table::TxIds,
        Table::V1TxOutputs,
        Table::AltChainInfos,
        Table::AltBlockHeights,
        Table::AltBlockInfos,
        Table::AltBlockBlobs,
        Table::AltTransactionBlobs,
        Table::AltTransactionInfos,
    ]
}

/// The table at this place of the order.
pub fn table_at(index: usize) -> (table: Table)
    requires
        index < TABLE_COUNT,
    ensures
        table == all_tables()[index as int],
{
    match index {
        0 => Table::BlockHeights,
        1 => Table::KeyImages,
        2 => Table::PreRctOutputs,
        3 => Table::TxIds,
        4 => Table::V1TxOutputs,
        5 => Table::AltChainInfos,
        6 => Table::AltBlockHeights,
        7 => Table::AltBlockInfos,
        8 => Table::AltBlockBlobs,
        9 => Table::AltTransactionBlobs,
        _ => Table::AltTransactionInfos,
    }
}

/// Every table has one place in the order.
pub proof fn law_tables_are_listed_once(table: Table)
    ensures
        all_tables().len() == TABLE_COUNT,
        all_tables().contains(table),
        all_tables().no_duplicates(),
{
    let at: int = match table {
        Table::BlockHeights => 0,
        Table::KeyImages => 1,
        Table::PreRctOutputs => 2,
        Table::TxIds => 3,
        Table::V1TxOutputs => 4,
        Table::AltChainInfos => 5,
        Table::AltBlockHeights => 6,
        Table::AltBlockInfos => 7,
        Table::AltBlockBlobs => 8,
        Table::AltTransactionBlobs => 9,
        Table::AltTransactionInfos => 10,
    };
    assert(all_tables()[at] == table);
}

/// What tells the names of the tables apart.
pub proof fn lemma_reveal_table_names()
    ensures
        "block_heights"@.len() == 13,
        "key_images"@.len() == 10,
        "pre_rct_outputs"@.len() == 15,
        "pre_rct_outputs"@[0] == 'p',
        "tx_ids"@.len() == 6,
        "tx_outputs"@.len() == 10,
        "tx_outputs"@[0] == 't',
        "key_images"@[0] == 'k',
        "alt_chain_infos"@.len() == 15,
        "alt_chain_infos"@[0] == 'a',
        "alt_chain_infos"@[4] == 'c',
        "alt_block_heights"@.len() == 17,
        "alt_block_heights"@[0] == 'a',
        "alt_block_infos"@.len() == 15,
        "alt_block_infos"@[0] == 'a',
        "alt_block_infos"@[4] == 'b',
        "alt_block_infos"@[10] == 'i',
        "alt_block_blobs"@.len() == 15,
        "alt_block_blobs"@[0] == 'a',
        "alt_block_blobs"@[4] == 'b',
        "alt_block_blobs"@[10] == 'b',
        "alt_transaction_blobs"@.len() == 21,
        "alt_transaction_blobs"@[16] == 'b',
        "alt_transaction_infos"@.len() == 21,
        "alt_transaction_infos"@[16] == 'i',
{
    reveal_strlit("block_heights");
    reveal_strlit("key_images");
    reveal_strlit("pre_rct_outputs");
    reveal_strlit("tx_ids");
    reveal_strlit("tx_outputs");
    reveal_strlit("alt_chain_infos");
    reveal_strlit("alt_block_heights");
    reveal_strlit("alt_block_infos");
    reveal_strlit("alt_block_blobs");
    reveal_strlit("alt_transaction_blobs");
    reveal_strlit("alt_transaction_infos");
}

/// No two tables are stored under one name.
pub proof fn law_table_names_are_distinct(a: Table, b: Table)
    requires
        a != b,
    ensures
        a.stored_name()@ != b.stored_name()@,
{
    lemma_reveal_table_names();
}

/// The number of stripes that the prunable blobs of V2 transactions are split into.
pub const PRUNABLE_STRIPES: u8 = 8;

/// A tape.
#[derive(Clone, Copy, Debug, PartialEq, Eq, Structural)]
pub enum Tape {
    /// RCT outputs, by index.
    RctOutputs,
    /// Transaction infos, by transaction ID.
    TxInfos,
    /// Block infos, by height.
    BlockInfos,
    /// Blocks and their pruned transactions, one after the other.
    PrunedBlobs,
    /// The prunable blobs of V1 transactions.
    V1PrunableBlobs,
    /// A stripe of the prunable blobs of V2 transactions.
    Prunable { stripe: u8 },
}

/// What a tape holds: entries of one size, or bytes.
#[derive(Clone, Copy, Debug, PartialEq, Eq, Structural)]
pub enum TapeKind {
    FixedSized,
    Blob,
}

/// The directory that a tape lies in: that of the indices, or that of the blobs.
#[derive(Clone, Copy, Debug, PartialEq, Eq, Structural)]
pub enum TapeDir {
    Index,
    Blob,
}

/// How many bytes from the top of each tape are kept in memory.
#[derive(Clone, Copy, Debug, PartialEq, Eq, Structural)]
pub struct CacheSizes {
    pub rct_outputs: u64,
    pub tx_infos: u64,
    pub block_infos: u64,
    pub pruned_blobs: u64,
    pub v1_prunable_blobs: u64,
    /// The size for each stripe.
    pub prunable_blobs: u64,
}

/// How a tape is opened.
#[derive(Clone, Copy, Debug)]
pub struct TapePlan {
    pub tape: Tape,
    pub name: &'static str,
    pub kind: TapeKind,
    pub dir: TapeDir,
    pub top_cache_size: u64,
}

impl Tape {
    /// A stripe is one of those that there are.
    pub open spec fn wf(self) -> bool {
        self matches Tape::Prunable { stripe } ==> stripe < PRUNABLE_STRIPES
    }

    /// The name of the tape's file.
    pub open spec fn file_name(self) -> &'static str {
        match self {
            Tape::RctOutputs => "rct_outputs",
            Tape::TxInfos => "tx_infos",
            Tape::BlockInfos => "block_infos",
            Tape::PrunedBlobs => "pruned_blobs",
            Tape::V1PrunableBlobs => "v1_prunable_blobs",
            Tape::Prunable { stripe } => if stripe == 0 {
                "prunable1"
            } else if stripe == 1 {
                "prunable2"
            } else if stripe == 2 {
                "prunable3"
            } else if stripe == 3 {
                "prunable4"
            } else if stripe == 4 {
                "prunable5"
            } else if stripe == 5 {
                "prunable6"
            } else if stripe == 6 {
                "prunable7"
            } else {
                "prunable8"
            },
        }
    }

    /// Outputs, transaction infos and block infos are entries of one size; all else is bytes.
    pub open spec fn kind_of(self) -> TapeKind {
        match self {
            Tape::RctOutputs | Tape::TxInfos | Tape::BlockInfos => TapeKind::FixedSized,
            _ => TapeKind::Blob,
        }
    }

    /// Tapes of entries lie with the indices, tapes of bytes with the blobs.
    pub open spec fn dir_of(self) -> TapeDir {
        match self.kind_of() {
            TapeKind::FixedSized => TapeDir::Index,
            TapeKind::Blob => TapeDir::Blob,
        }
    }

    /// How much of the tape is kept in memory.
    pub open spec fn cache_of(self, sizes: CacheSizes) -> u64 {
        match self {
            Tape::RctOutputs => sizes.rct_outputs,
            Tape::TxInfos => sizes.tx_infos,
            Tape::BlockInfos => sizes.block_infos,
            Tape::PrunedBlobs => sizes.pruned_blobs,
            Tape::V1PrunableBlobs => sizes.v1_prunable_blobs,
            Tape::Prunable { .. } => sizes.prunable_blobs,
        }
    }

    /// How the tape is opened.
    pub open spec fn plan_of(self, sizes: CacheSizes) -> TapePlan {
        TapePlan {
            tape: self,
            name: self.file_name(),
            kind: self.kind_of(),
            dir: self.dir_of(),
            top_cache_size: self.cache_of(sizes),
        }
    }

    /// How the tape is opened.
    pub fn plan(self, sizes: &CacheSizes) -> (plan: TapePlan)
        requires
            self.wf(),
        ensures
            plan == self.plan_of(*sizes),
    {
        let (name, top_cache_size): (&'static str, u64) = match self {
            Tape::RctOutputs => ("rct_outputs", sizes.rct_outputs),
            Tape::TxInfos => ("tx_infos", sizes.tx_infos),
            Tape::BlockInfos => ("block_infos", sizes.block_infos),
            Tape::PrunedBlobs => ("pruned_blobs", sizes.pruned_blobs),
            Tape::V1PrunableBlobs => ("v1_prunable_blobs", sizes.v1_prunable_blobs),
            Tape::Prunable { stripe } => {
                let name: &'static str = match stripe {
                    0 => "prunable1",
                    1 => "prunable2",
                    2 => "prunable3",
                    3 => "prunable4",
                    4 => "prunable5",
                    5 => "prunable6",
                    6 => "prunable7",
                    _ => "prunable8",
                };
                (name, sizes.prunable_blobs)
            },
        };
        let (kind, dir): (TapeKind, TapeDir) = match self {
            Tape::RctOutputs | Tape::TxInfos | Tape::BlockInfos => (
                TapeKind::FixedSized,
                TapeDir::Index,
            ),
            _ => (TapeKind::Blob, TapeDir::Blob),
        };
        TapePlan { tape: self, name, kind, dir, top_cache_size }
    }
}

/// The tapes that there is one of.
pub open spec fn single_tapes() -> Seq<Tape> {
    seq![
        Tape::RctOutputs,
        Tape::TxInfos,
        Tape::BlockInfos,
        Tape::PrunedBlobs,
        Tape::V1PrunableBlobs,
    ]
}

/// All tapes, in the order in which they are opened.
pub open spec fn all_tapes() -> Seq<Tape> {
    single_tapes() + Seq::new(
        PRUNABLE_STRIPES as nat,
        |i: int| Tape::Prunable { stripe: i as u8 },
    )
}

/// A step of opening the store.
#[derive(Clone, Copy, Debug)]
pub enum OpenStep {
    /// Open the table, or create it.
    OpenTable(Table),
    /// Open the tapes database and start to append to it.
    OpenTapes,
    /// Open the tape, or create it.
    OpenTape(TapePlan),
    /// Commit the tapes and wait until they are on disk.
    CommitTapes,
}

/// The steps by which the store is opened: the tables, then the tapes. The first step that fails
/// ends the opening.
pub open spec fn opening(sizes: CacheSizes) -> Seq<OpenStep> {
    all_tables().map_values(|table: Table| OpenStep::OpenTable(table)) + seq![OpenStep::OpenTapes]
        + all_tapes().map_values(|tape: Tape| OpenStep::OpenTape(tape.plan_of(sizes)))
        + seq![OpenStep::CommitTapes]
}

/// The steps by which the store is opened, in order.
pub fn open_steps(sizes: &CacheSizes) -> (steps: Vec<OpenStep>)
    ensures
        steps@ == opening(*sizes),
{
    let mut steps: Vec<OpenStep> = Vec::new();
    let ghost tables = all_tables().map_values(|table: Table| OpenStep::OpenTable(table));
    let mut i: usize = 0;
    while i < TABLE_COUNT
        invariant
            i <= TABLE_COUNT,
            tables == all_tables().map_values(|table: Table| OpenStep::OpenTable(table)),
            steps@ == tables.take(i as int),
        decreases TABLE_COUNT - i,
    {
        steps.push(OpenStep::OpenTable(table_at(i)));
        assert(tables.take(i + 1) =~= tables.take(i as int).push(tables[i as int]));
        i += 1;
    }
    steps.push(OpenStep::OpenTapes);
    steps.push(OpenStep::OpenTape(Tape::RctOutputs.plan(sizes)));
    steps.push(OpenStep::OpenTape(Tape::TxInfos.plan(sizes)));
    steps.push(OpenStep::OpenTape(Tape::BlockInfos.plan(sizes)));
    steps.push(OpenStep::OpenTape(Tape::PrunedBlobs.plan(sizes)));
    steps.push(OpenStep::OpenTape(Tape::V1PrunableBlobs.plan(sizes)));
    let ghost before = steps@;
    let ghost tapes = all_tapes().map_values(|tape: Tape| OpenStep::OpenTape(tape.plan_of(*sizes)));
    assert(before =~= tables + seq![OpenStep::OpenTapes] + tapes.take(5));
    let mut stripe: u8 = 0;
    while stripe < PRUNABLE_STRIPES
        invariant
            stripe <= PRUNABLE_STRIPES,
            tapes == all_tapes().map_values(
                |tape: Tape| OpenStep::OpenTape(tape.plan_of(*sizes)),
            ),
            steps@ == tables + seq![OpenStep::OpenTapes] + tapes.take(5 + stripe),
        decreases PRUNABLE_STRIPES - stripe,
    {
        steps.push(OpenStep::OpenTape(Tape::Prunable { stripe }.plan(sizes)));
        assert(tapes.take(6 + stripe) =~= tapes.take(5 + stripe).push(tapes[5 + stripe]));
        assert(steps@ =~= tables + seq![OpenStep::OpenTapes] + tapes.take(6 + stripe));
        stripe += 1;
    }
    assert(tapes.take(13) =~= tapes);
    steps.push(OpenStep::CommitTapes);
    assert(steps@ =~= opening(*sizes));
    steps
}

proof fn lemma_reveal_tape_names()
    ensures
        "rct_outputs"@.len() == 11,
        "rct_outputs"@[0] == 'r',
        "tx_infos"@.len() == 8,
        "block_infos"@.len() == 11,
        "block_infos"@[0] == 'b',
        "pruned_blobs"@.len() == 12,
        "v1_prunable_blobs"@.len() == 17,
        "prunable1"@.len() == 9,
        "prunable1"@[8] == '1',
        "prunable2"@.len() == 9,
        "prunable2"@[8] == '2',
        "prunable3"@.len() == 9,
        "prunable3"@[8] == '3',
        "prunable4"@.len() == 9,
        "prunable4"@[8] == '4',
        "prunable5"@.len() == 9,
        "prunable5"@[8] == '5',
        "prunable6"@.len() == 9,
        "prunable6"@[8] == '6',
        "prunable7"@.len() == 9,
        "prunable7"@[8] == '7',
        "prunable8"@.len() == 9,
        "prunable8"@[8] == '8',
{
    reveal_strlit("rct_outputs");
    reveal_strlit("tx_infos");
    reveal_strlit("block_infos");
    reveal_strlit("pruned_blobs");
    reveal_strlit("v1_prunable_blobs");
    reveal_strlit("prunable1");
    reveal_strlit("prunable2");
    reveal_strlit("prunable3");
    reveal_strlit("prunable4");
    reveal_strlit("prunable5");
    reveal_strlit("prunable6");
    reveal_strlit("prunable7");
    reveal_strlit("prunable8");
}

/// No two tapes share a file name.
pub proof fn law_tape_names_are_distinct(a: Tape, b: Tape)
    requires
        a.wf(),
        b.wf(),
        a != b,
    ensures
        a.file_name()@ != b.file_name()@,
{
    lemma_reveal_tape_names();
}

/// Every tape is opened once.
pub proof fn law_tapes_are_listed_once(tape: Tape)
    requires
        tape.wf(),
    ensures
        all_tapes().contains(tape),
        all_tapes().no_duplicates(),
{
    let at: int = match tape {
        Tape::RctOutputs => 0,
        Tape::TxInfos => 1,
        Tape::BlockInfos => 2,
        Tape::PrunedBlobs => 3,
        Tape::V1PrunableBlobs => 4,
        Tape::Prunable { stripe } => 5 + stripe,
    };
    assert(all_tapes()[at] == tape);
}

/// What a store holds: the entries of each table and the bytes of each tape that there are.
pub struct StoreContents {
    pub tables: Map<Table, Map<Seq<u8>, Seq<u8>>>,
    pub tapes: Map<Tape, Seq<u8>>,
}

/// The store after a step of opening it: a table or tape that was not there is created empty, and
/// nothing else changes.
pub open spec fn open_effect(contents: StoreContents, step: OpenStep) -> StoreContents {
    match step {
        OpenStep::OpenTable(table) if !contents.tables.contains_key(table) => StoreContents {
            tables: contents.tables.insert(table, Map::empty()),
            ..contents
        },
        OpenStep::OpenTape(plan) if !contents.tapes.contains_key(plan.tape) => StoreContents {
            tapes: contents.tapes.insert(plan.tape, Seq::empty()),
            ..contents
        },
        _ => contents,
    }
}

/// The store after these steps.
pub open spec fn open_effects(contents: StoreContents, steps: Seq<OpenStep>) -> StoreContents
    decreases steps.len(),
{
    if steps.len() == 0 {
        contents
    } else {
        open_effect(open_effects(contents, steps.drop_last()), steps.last())
    }
}

proof fn lemma_open_effects(
    contents: StoreContents,
    steps: Seq<OpenStep>,
    table: Table,
    tape: Tape,
)
    ensures
        ({
            let opened = open_effects(contents, steps);
            &&& contents.tables.contains_key(table) ==> opened.tables.contains_key(table)
                && opened.tables[table] == contents.tables[table]
            &&& !contents.tables.contains_key(table) && opened.tables.contains_key(table)
                ==> opened.tables[table] == Map::<Seq<u8>, Seq<u8>>::empty()
            &&& (exists|i: int|
                0 <= i < steps.len() && #[trigger] steps[i] == OpenStep::OpenTable(table))
                ==> opened.tables.contains_key(table)
            &&& contents.tapes.contains_key(tape) ==> opened.tapes.contains_key(tape)
                && opened.tapes[tape] == contents.tapes[tape]
            &&& !contents.tapes.contains_key(tape) && opened.tapes.contains_key(tape)
                ==> opened.tapes[tape] == Seq::<u8>::empty()
            &&& (exists|i: int|
                0 <= i < steps.len() && (#[trigger] steps[i] matches OpenStep::OpenTape(plan)
                    && plan.tape == tape)) ==> opened.tapes.contains_key(tape)
        }),
    decreases steps.len(),
{
    if steps.len() > 0 {
        let fewer = steps.drop_last();
        lemma_open_effects(contents, fewer, table, tape);
        if exists|i: int| 0 <= i < steps.len() && #[trigger] steps[i] == OpenStep::OpenTable(table) {
            let i = choose|i: int|
                0 <= i < steps.len() && #[trigger] steps[i] == OpenStep::OpenTable(table);
            if i < fewer.len() {
                assert(fewer[i] == OpenStep::OpenTable(table));
            }
        }
        if exists|i: int|
            0 <= i < steps.len() && (#[trigger] steps[i] matches OpenStep::OpenTape(plan)
                && plan.tape == tape) {
            let i = choose|i: int|
                0 <= i < steps.len() && (#[trigger] steps[i] matches OpenStep::OpenTape(plan)
                    && plan.tape == tape);
            if i < fewer.len() {
                assert(fewer[i] == steps[i]);
            }
        }
    }
}

/// Opening a store neither clears nor writes anything: every table and tape is there afterwards,
/// those that were there before hold what they held, and the others are empty.
pub proof fn law_opening_keeps_what_is_stored(
    contents: StoreContents,
    sizes: CacheSizes,
    table: Table,
    tape: Tape,
)
    requires
        tape.wf(),
    ensures
        open_effects(contents, opening(sizes)).tables.contains_key(table),
        open_effects(contents, opening(sizes)).tables[table] == if contents.tables.contains_key(
            table,
        ) {
            contents.tables[table]
        } else {
            Map::empty()
        },
        open_effects(contents, opening(sizes)).tapes.contains_key(tape),
        open_effects(contents, opening(sizes)).tapes[tape] == if contents.tapes.contains_key(tape) {
            contents.tapes[tape]
        } else {
            Seq::empty()
        },
{
    let steps = opening(sizes);
    let count = all_tables().len();
    law_tables_are_listed_once(table);
    law_tapes_are_listed_once(tape);
    let i = all_tables().index_of(table);
    assert(steps[i] == OpenStep::OpenTable(table));
    let j = all_tapes().index_of(tape);
    assert(steps[count + 1 + j] == OpenStep::OpenTape(tape.plan_of(sizes)));
    lemma_open_effects(contents, steps, table, tape);
}

/// Each tape is opened under its own name, with its own share of memory, entries among the indices
/// and bytes among the blobs. The stripes are numbered from one on.
pub proof fn law_tapes_are_opened_as_themselves(sizes: CacheSizes, stripe: u8)
    requires
        stripe < 8,
    ensures
        ({
            let plan = Tape::RctOutputs.plan_of(sizes);
            plan.tape == Tape::RctOutputs && plan.name@ == "rct_outputs"@ && plan.kind is FixedSized
                && plan.dir is Index && plan.top_cache_size == sizes.rct_outputs
        }),
        ({
            let plan = Tape::TxInfos.plan_of(sizes);
            plan.tape == Tape::TxInfos && plan.name@ == "tx_infos"@ && plan.kind is FixedSized
                && plan.dir is Index && plan.top_cache_size == sizes.tx_infos
        }),
        ({
            let plan = Tape::BlockInfos.plan_of(sizes);
            plan.tape == Tape::BlockInfos && plan.name@ == "block_infos"@ && plan.kind is FixedSized
                && plan.dir is Index && plan.top_cache_size == sizes.block_infos
        }),
        ({
            let plan = Tape::PrunedBlobs.plan_of(sizes);
            plan.tape == Tape::PrunedBlobs && plan.name@ == "pruned_blobs"@ && plan.kind is Blob
                && plan.dir is Blob && plan.top_cache_size == sizes.pruned_blobs
        }),
        ({
            let plan = Tape::V1PrunableBlobs.plan_of(sizes);
            plan.tape == Tape::V1PrunableBlobs && plan.name@ == "v1_prunable_blobs"@
                && plan.kind is Blob && plan.dir is Blob && plan.top_cache_size
                == sizes.v1_prunable_blobs
        }),
        ({
            let plan = Tape::Prunable { stripe }.plan_of(sizes);
            plan.tape == (Tape::Prunable { stripe }) && plan.name@ == "prunable"@ + seq![
                ('1' as int + stripe) as char,
            ] && plan.kind is Blob && plan.dir is Blob && plan.top_cache_size
                == sizes.prunable_blobs
        }),
        PRUNABLE_STRIPES == 8,
{
    reveal_strlit("prunable");
    reveal_strlit("prunable1");
    reveal_strlit("prunable2");
    reveal_strlit("prunable3");
    reveal_strlit("prunable4");
    reveal_strlit("prunable5");
    reveal_strlit("prunable6");
    reveal_strlit("prunable7");
    reveal_strlit("prunable8");
    let name = Tape::Prunable { stripe }.file_name()@;
    assert(name =~= "prunable"@ + seq![('1' as int + stripe) as char]);
}

/// Each table is stored under the name of what it holds.
pub proof fn law_table_names()
    ensures
        Table::BlockHeights.stored_name()@ == "block_heights"@,
        Table::KeyImages.stored_name()@ == "key_images"@,
        Table::PreRctOutputs.stored_name()@ == "pre_rct_outputs"@,
        Table::TxIds.stored_name()@ == "tx_ids"@,
        Table::V1TxOutputs.stored_name()@ == "tx_outputs"@,
        Table::AltChainInfos.stored_name()@ == "alt_chain_infos"@,
        Table::AltBlockHeights.stored_name()@ == "alt_block_heights"@,
        Table::AltBlockInfos.stored_name()@ == "alt_block_infos"@,
        Table::AltBlockBlobs.stored_name()@ == "alt_block_blobs"@,
        Table::AltTransactionBlobs.stored_name()@ == "alt_transaction_blobs"@,
        Table::AltTransactionInfos.stored_name()@ == "alt_transaction_infos"@,
{
}

/// Opening a store opens every table, then the tapes database, then every tape, and then commits:
/// as many steps as there are tables and tapes, and two.
pub proof fn law_opening_is_complete(sizes: CacheSizes, table: Table, tape: Tape)
    requires
        tape.wf(),
    ensures
        opening(sizes).len() == 26,
        opening(sizes)[11] is OpenTapes,
        opening(sizes)[25] is CommitTapes,
        exists|i: int|
            0 <= i < 11 && #[trigger] opening(sizes)[i] == OpenStep::OpenTable(table),
        exists|i: int|
            12 <= i < 25 && #[trigger] opening(sizes)[i] == OpenStep::OpenTape(
                tape.plan_of(sizes),
            ),
{
    law_tables_are_listed_once(table);
    law_tapes_are_listed_once(tape);
    let i = all_tables().index_of(table);
    assert(opening(sizes)[i] == OpenStep::OpenTable(table));
    let j = all_tapes().index_of(tape);
    assert(opening(sizes)[12 + j] == OpenStep::OpenTape(tape.plan_of(sizes)));
}

/// The tables that blocks are entered into come before those of alternative chains, and the heights
/// of the blocks before all others.
pub proof fn law_table_order(index: int)
    requires
        0 <= index < all_tables().len(),
    ensures
        index == 0 <==> all_tables()[index] == Table::BlockHeights,
        index == 1 <==> all_tables()[index] == Table::KeyImages,
        index == 2 <==> all_tables()[index] == Table::PreRctOutputs,
        index == 3 <==> all_tables()[index] == Table::TxIds,
        index == 4 <==> all_tables()[index] == Table::V1TxOutputs,
        index == 5 <==> all_tables()[index] == Table::AltChainInfos,
        index == 6 <==> all_tables()[index] == Table::AltBlockHeights,
        index == 7 <==> all_tables()[index] == Table::AltBlockInfos,
        index == 8 <==> all_tables()[index] == Table::AltBlockBlobs,
        index == 9 <==> all_tables()[index] == Table::AltTransactionBlobs,
        index == 10 <==> all_tables()[index] == Table::AltTransactionInfos,
{
}

/// The tapes of entries come before the tapes of bytes, and the stripes last, in their order.
pub proof fn law_tape_order(index: int)
    requires
        0 <= index < all_tapes().len(),
    ensures
        all_tapes().len() == 13,
        index == 0 <==> all_tapes()[index] == Tape::RctOutputs,
        index == 1 <==> all_tapes()[index] == Tape::TxInfos,
        index == 2 <==> all_tapes()[index] == Tape::BlockInfos,
        index == 3 <==> all_tapes()[index] == Tape::PrunedBlobs,
        index == 4 <==> all_tapes()[index] == Tape::V1PrunableBlobs,
        index >= 5 ==> all_tapes()[index] == (Tape::Prunable { stripe: (index - 5) as u8 }),
{
}

} // verus!
