//! What the guard finds does not depend on how the files are listed.

use vstd::prelude::*;

use crate::todo_guard::guard::{
    arm_calls, arm_dispatches, dispatch_match, file_dispatches, fn_table, is_violation,
    violations_of, FileModel,
};
use crate::todo_guard::handler_set::FnKey;
use crate::todo_guard::syntax::ItemModel;
use crate::todo_guard::table::{resolved, with_items, CallKey, TableModel};
use crate::todo_guard::taint::{calls_directly, is_chain_to_todo, reaches_todo};

verus! {

/// No two files have one tag.
pub open spec fn tags_are_distinct(files: Seq<FileModel>) -> bool {
    forall|i: int, j: int|
        0 <= i < j < files.len() ==> #[trigger] files[i].tag != #[trigger] files[j].tag
}

/// The functions of one file.
spec fn own_table(file: FileModel) -> TableModel {
    with_items(TableModel::empty(), file.tag, file.items)
}

/// The functions of a file stand under its tag, whatever the table held before.
pub proof fn lemma_with_items(table: TableModel, tag: Seq<char>, items: Seq<ItemModel>, key: FnKey)
    ensures
        key.0 != tag ==> with_items(table, tag, items).contains_key(key) == table.contains_key(key)
            && with_items(table, tag, items)[key] == table[key],
        key.0 == tag && !table.contains_key(key) ==> with_items(table, tag, items).contains_key(key)
            == with_items(TableModel::empty(), tag, items).contains_key(key),
        with_items(TableModel::empty(), tag, items).contains_key(key) ==> with_items(
            table,
            tag,
            items,
        ).contains_key(key) && with_items(table, tag, items)[key] == with_items(
            TableModel::empty(),
            tag,
            items,
        )[key],
    decreases items.len(),
{
    if items.len() > 0 {
        lemma_with_items(table, tag, items.drop_last(), key);
    }
}

/// The table holds of each file what the file holds by itself, and no other functions.
proof fn lemma_fn_table(files: Seq<FileModel>, key: FnKey)
    requires
        tags_are_distinct(files),
    ensures
        forall|i: int|
            0 <= i < files.len() && #[trigger] files[i].tag == key.0 ==> fn_table(
                files,
            ).contains_key(key) == own_table(files[i]).contains_key(key) && (own_table(
                files[i],
            ).contains_key(key) ==> fn_table(files)[key] == own_table(files[i])[key]),
        (forall|i: int| 0 <= i < files.len() ==> #[trigger] files[i].tag != key.0) ==> !fn_table(
            files,
        ).contains_key(key),
    decreases files.len(),
{
    if files.len() > 0 {
        let fewer = files.drop_last();
        let last = files.last();
        assert forall|i: int, j: int| 0 <= i < j < fewer.len() implies #[trigger] fewer[i].tag
            != #[trigger] fewer[j].tag by {
            assert(files[i].tag != files[j].tag);
        }
        lemma_fn_table(fewer, key);
        lemma_with_items(fn_table(fewer), last.tag, last.items, key);
        if last.tag == key.0 {
            assert forall|i: int| 0 <= i < fewer.len() implies #[trigger] fewer[i].tag != key.0 by {
                assert(files[i].tag != files[files.len() - 1].tag);
            }
        } else if forall|i: int| 0 <= i < files.len() ==> #[trigger] files[i].tag != key.0 {
            assert forall|i: int| 0 <= i < fewer.len() implies #[trigger] fewer[i].tag != key.0 by {
                assert(files[i].tag != key.0);
            }
        } else {
            assert forall|i: int| 0 <= i < files.len() && #[trigger] files[i].tag == key.0 implies i
                < fewer.len() && fewer[i] == files[i] by {}
        }
    }
}

/// `larger` holds all of `table`, and the same.
spec fn extends(table: TableModel, larger: TableModel) -> bool {
    forall|key: FnKey| #[trigger]
        table.contains_key(key) ==> larger.contains_key(key) && larger[key] == table[key]
}

proof fn lemma_more_is_reached(table: TableModel, larger: TableModel, chain: Seq<FnKey>)
    requires
        extends(table, larger),
        is_chain_to_todo(table, chain),
    ensures
        is_chain_to_todo(larger, chain),
    decreases chain.len(),
{
    if chain.len() > 1 {
        lemma_more_is_reached(table, larger, chain.drop_first());
        let call = choose|call: CallKey|
            #[trigger] table[chain[0]].calls.contains(call) && resolved(chain[0].0, call, table)
                == Some(chain[1]);
        assert(larger[chain[0]].calls.contains(call) && resolved(chain[0].0, call, larger) == Some(
            chain[1],
        ));
        assert(calls_directly(larger, chain[0], chain[1]));
    }
}

proof fn lemma_more_is_dispatched(
    file: FileModel,
    table: TableModel,
    larger: TableModel,
    handler: FnKey,
)
    requires
        extends(table, larger),
        file_dispatches(file, table, handler),
    ensures
        file_dispatches(file, larger, handler),
{
    let arms = dispatch_match(file.items)->Some_0.arms;
    let a = choose|a: int|
        0 <= a < arms.len() && arm_dispatches(file.tag, #[trigger] arms[a], table, handler);
    let call = choose|call: CallKey| #[trigger]
        arm_calls(arms[a], call) && resolved(file.tag, call, table) == Some(handler);
    assert(arm_calls(arms[a], call) && resolved(file.tag, call, larger) == Some(handler));
    assert(arm_dispatches(file.tag, arms[a], larger, handler));
}

/// Where every file of `files` is among `others`, the table of the others holds all of theirs.
proof fn lemma_others_extend(files: Seq<FileModel>, others: Seq<FileModel>)
    requires
        tags_are_distinct(files),
        tags_are_distinct(others),
        forall|i: int| 0 <= i < files.len() ==> others.contains(#[trigger] files[i]),
    ensures
        extends(fn_table(files), fn_table(others)),
{
    assert forall|key: FnKey| #[trigger] fn_table(files).contains_key(key) implies fn_table(
        others,
    ).contains_key(key) && fn_table(others)[key] == fn_table(files)[key] by {
        lemma_fn_table(files, key);
        lemma_fn_table(others, key);
        let i = choose|i: int| 0 <= i < files.len() && #[trigger] files[i].tag == key.0;
        assert(others.contains(files[i]));
        let j = choose|j: int| 0 <= j < others.len() && others[j] == files[i];
        assert(others[j].tag == key.0);
    }
}

/// A further file hides nothing: where every file is among the others, its violations are among
/// those of the others.
pub proof fn law_further_files_hide_nothing(files: Seq<FileModel>, others: Seq<FileModel>)
    requires
        tags_are_distinct(files),
        tags_are_distinct(others),
        forall|i: int| 0 <= i < files.len() ==> others.contains(#[trigger] files[i]),
    ensures
        violations_of(files).subset_of(violations_of(others)),
{
    let table = fn_table(files);
    let larger = fn_table(others);
    lemma_others_extend(files, others);
    assert forall|violation: FnKey| is_violation(files, violation) implies is_violation(
        others,
        violation,
    ) by {
        let (i, module) = choose|i: int, module: Seq<char>|
            0 <= i < files.len() && #[trigger] files[i].tag == violation.0
                && #[trigger] file_dispatches(files[i], table, (module, violation.1))
                && reaches_todo(table, (module, violation.1));
        let handler: FnKey = (module, violation.1);
        assert(others.contains(files[i]));
        let j = choose|j: int| 0 <= j < others.len() && others[j] == files[i];
        lemma_more_is_dispatched(files[i], table, larger, handler);
        let chain = choose|chain: Seq<FnKey>|
            #[trigger] is_chain_to_todo(table, chain) && chain[0] == handler;
        lemma_more_is_reached(table, larger, chain);
        assert(reaches_todo(larger, handler));
        assert(others[j].tag == violation.0 && file_dispatches(others[j], larger, handler));
    }
}

/// The order of the files does not matter.
pub proof fn law_order_of_files_does_not_matter(files: Seq<FileModel>, others: Seq<FileModel>)
    requires
        tags_are_distinct(files),
        tags_are_distinct(others),
        forall|i: int| 0 <= i < files.len() ==> others.contains(#[trigger] files[i]),
        forall|i: int| 0 <= i < others.len() ==> files.contains(#[trigger] others[i]),
    ensures
        violations_of(files) == violations_of(others),
{
    law_further_files_hide_nothing(files, others);
    law_further_files_hide_nothing(others, files);
    assert(violations_of(files) =~= violations_of(others));
}

} // verus!
