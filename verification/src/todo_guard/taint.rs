//! Which functions run into code that is not written yet, by themselves or through what they call.

use vstd::prelude::*;

use crate::todo_guard::handler_set::FnKey;
use crate::todo_guard::table::{resolved, CallKey, FnTable, TableModel};

verus! {

/// The body of `from` holds a call that leads to `to`.
pub open spec fn calls_directly(table: TableModel, from: FnKey, to: FnKey) -> bool {
    table.contains_key(from) && exists|call: CallKey|
        #[trigger] table[from].calls.contains(call) && resolved(from.0, call, table) == Some(to)
}

/// Each function of `chain` calls the next, and the last holds the unwritten code itself.
pub open spec fn is_chain_to_todo(table: TableModel, chain: Seq<FnKey>) -> bool
    decreases chain.len(),
{
    if chain.len() == 0 {
        false
    } else if chain.len() == 1 {
        table.contains_key(chain[0]) && table[chain[0]].has_direct_todo
    } else {
        calls_directly(table, chain[0], chain[1]) && is_chain_to_todo(table, chain.drop_first())
    }
}

/// Some chain of calls leads from `key` to unwritten code.
pub open spec fn reaches_todo(table: TableModel, key: FnKey) -> bool {
    exists|chain: Seq<FnKey>| #[trigger] is_chain_to_todo(table, chain) && chain[0] == key
}

/// A function that holds the unwritten code itself reaches it.
pub proof fn law_direct_todo_is_reached(table: TableModel, key: FnKey)
    requires
        table.contains_key(key),
        table[key].has_direct_todo,
    ensures
        reaches_todo(table, key),
{
    assert(is_chain_to_todo(table, seq![key]));
}

/// A function that calls one that reaches unwritten code reaches it too.
pub proof fn law_todo_is_reached_through_calls(table: TableModel, from: FnKey, to: FnKey)
    requires
        calls_directly(table, from, to),
        reaches_todo(table, to),
    ensures
        reaches_todo(table, from),
{
    let chain = choose|chain: Seq<FnKey>|
        #[trigger] is_chain_to_todo(table, chain) && chain[0] == to;
    let longer = seq![from] + chain;
    assert(longer.drop_first() =~= chain);
    assert(longer[1] == to);
    assert(is_chain_to_todo(table, longer));
}

/// A function reaches unwritten code only by holding it or by calling one that reaches it.
pub proof fn law_todo_is_reached_in_no_other_way(table: TableModel, key: FnKey)
    requires
        reaches_todo(table, key),
    ensures
        table.contains_key(key),
        table[key].has_direct_todo || exists|to: FnKey|
            calls_directly(table, key, to) && reaches_todo(table, to),
{
    let chain = choose|chain: Seq<FnKey>|
        #[trigger] is_chain_to_todo(table, chain) && chain[0] == key;
    if chain.len() > 1 {
        let rest = chain.drop_first();
        assert(rest[0] == chain[1]);
        assert(is_chain_to_todo(table, rest));
        assert(calls_directly(table, key, chain[1]) && reaches_todo(table, chain[1]));
    }
}

/// A chain ends in a known function that holds the unwritten code itself.
pub proof fn lemma_chain_ends_in_todo(table: TableModel, chain: Seq<FnKey>)
    requires
        is_chain_to_todo(table, chain),
    ensures
        chain.len() > 0,
        table.contains_key(chain.last()),
        table[chain.last()].has_direct_todo,
    decreases chain.len(),
{
    if chain.len() > 1 {
        lemma_chain_ends_in_todo(table, chain.drop_first());
    }
}

/// `key` is the key of an entry that is marked.
spec fn is_marked(table: FnTable, marks: Seq<bool>, key: FnKey) -> bool {
    exists|i: int|
        0 <= i < table.entries@.len() && #[trigger] table.entries@[i].key() == key && marks[i]
}

/// The entry at `i` holds unwritten code or calls a marked one.
spec fn is_due(table: FnTable, marks: Seq<bool>, i: int) -> bool {
    table.entries@[i].info@.has_direct_todo || exists|to: FnKey|
        #[trigger] calls_directly(table@, table.entries@[i].key(), to) && is_marked(
            table,
            marks,
            to,
        )
}

/// Each marked entry reaches unwritten code.
spec fn is_sound(table: FnTable, marks: Seq<bool>) -> bool {
    forall|i: int|
        0 <= i < table.entries@.len() && marks[i] ==> reaches_todo(
            table@,
            #[trigger] table.entries@[i].key(),
        )
}

spec fn unmarked(marks: Seq<bool>) -> nat
    decreases marks.len(),
{
    if marks.len() == 0 {
        0
    } else {
        unmarked(marks.drop_last()) + if marks.last() {
            0nat
        } else {
            1nat
        }
    }
}

proof fn lemma_marking_leaves_fewer(marks: Seq<bool>, at: int)
    requires
        0 <= at < marks.len(),
        !marks[at],
    ensures
        unmarked(marks.update(at, true)) + 1 == unmarked(marks),
    decreases marks.len(),
{
    let after = marks.update(at, true);
    if at == marks.len() - 1 {
        assert(after.drop_last() =~= marks.drop_last());
    } else {
        assert(after.drop_last() =~= marks.drop_last().update(at, true));
        lemma_marking_leaves_fewer(marks.drop_last(), at);
    }
}

proof fn lemma_due_entry_reaches_todo(table: FnTable, marks: Seq<bool>, i: int)
    requires
        table.wf(),
        0 <= i < table.entries@.len(),
        is_sound(table, marks),
        is_due(table, marks, i),
    ensures
        reaches_todo(table@, table.entries@[i].key()),
{
    let key = table.entries@[i].key();
    table.lemma_entry(i);
    if table.entries@[i].info@.has_direct_todo {
        law_direct_todo_is_reached(table@, key);
    } else {
        let to = choose|to: FnKey|
            #[trigger] calls_directly(table@, key, to) && is_marked(table, marks, to);
        law_todo_is_reached_through_calls(table@, key, to);
    }
}

proof fn lemma_chain_is_marked(table: FnTable, marks: Seq<bool>, chain: Seq<FnKey>)
    requires
        table.wf(),
        marks.len() == table.entries@.len(),
        forall|i: int| 0 <= i < marks.len() && is_due(table, marks, i) ==> #[trigger] marks[i],
        is_chain_to_todo(table@, chain),
    ensures
        is_marked(table, marks, chain[0]),
    decreases chain.len(),
{
    let key = chain[0];
    assert(table.has_key(key));
    let i = choose|i: int| 0 <= i < table.entries@.len() && #[trigger] table.entries@[i].key() == key;
    table.lemma_entry(i);
    if chain.len() > 1 {
        assert(chain.drop_first()[0] == chain[1]);
        lemma_chain_is_marked(table, marks, chain.drop_first());
        assert(calls_directly(table@, key, chain[1]));
    }
    assert(is_due(table, marks, i));
    assert(marks[i]);
}

/// Whether the entry at `at` holds unwritten code or calls a marked one.
fn is_entry_due(table: &FnTable, marks: &Vec<bool>, at: usize) -> (due: bool)
    requires
        table.wf(),
        marks@.len() == table.entries@.len(),
        at < table.entries@.len(),
    ensures
        due == is_due(*table, marks@, at as int),
{
    let entry = &table.entries[at];
    let ghost key = entry.key();
    let ghost calls = entry.info.calls.deep_view();
    proof {
        table.lemma_entry(at as int);
    }
    if entry.info.has_direct_todo {
        return true;
    }
    let mut i: usize = 0;
    while i < entry.info.calls.len()
        invariant
            table.wf(),
            marks@.len() == table.entries@.len(),
            at < table.entries@.len(),
            entry == table.entries@[at as int],
            key == entry.key(),
            calls == entry.info.calls.deep_view(),
            table@.contains_key(key),
            table@[key] == entry.info@,
            i <= entry.info.calls.len(),
            forall|j: int, to: FnKey|
                0 <= j < i && resolved(key.0, #[trigger] calls[j], table@) == Some(to)
                    ==> !#[trigger] is_marked(*table, marks@, to),
        decreases entry.info.calls.len() - i,
    {
        let call = &entry.info.calls[i];
        assert(calls[i as int] == call.deep_view());
        let module: &str = match &call.0 {
            None => entry.tag.as_str(),
            Some(module) => module.as_str(),
        };
        match table.position(module, call.1.as_str()) {
            None => {},
            Some(to) => {
                assert(resolved(key.0, calls[i as int], table@) == Some(table.entries@[to as int].key()));
                if marks[to] {
                    proof {
                        assert(table@[key].calls.contains(calls[i as int]));
                        assert(calls_directly(table@, key, table.entries@[to as int].key()));
                        assert(is_marked(*table, marks@, table.entries@[to as int].key()));
                    }
                    return true;
                }
            },
        }
        i += 1;
    }
    proof {
        assert forall|to: FnKey| #[trigger] calls_directly(table@, key, to) implies !is_marked(
            *table,
            marks@,
            to,
        ) by {
            let call = choose|call: CallKey|
                #[trigger] table@[key].calls.contains(call) && resolved(key.0, call, table@) == Some(to);
            let j = choose|j: int| 0 <= j < calls.len() && calls[j] == call;
            assert(resolved(key.0, calls[j], table@) == Some(to));
        }
    }
    false
}

/// For each entry of the table, whether it reaches unwritten code.
pub fn tainted_entries(table: &FnTable) -> (tainted: Vec<bool>)
    requires
        table.wf(),
    ensures
        tainted@.len() == table.entries@.len(),
        forall|i: int|
            0 <= i < tainted@.len() ==> #[trigger] tainted@[i] == reaches_todo(
                table@,
                table.entries@[i].key(),
            ),
{
    let mut marks: Vec<bool> = Vec::new();
    while marks.len() < table.entries.len()
        invariant
            marks.len() <= table.entries.len(),
            forall|i: int| 0 <= i < marks@.len() ==> !#[trigger] marks@[i],
        decreases table.entries.len() - marks.len(),
    {
        marks.push(false);
    }
    let mut changed = true;
    while changed
        invariant
            table.wf(),
            marks@.len() == table.entries@.len(),
            is_sound(*table, marks@),
            !changed ==> forall|i: int|
                0 <= i < marks@.len() && is_due(*table, marks@, i) ==> #[trigger] marks@[i],
        decreases unmarked(marks@), changed as int,
    {
        let ghost start = marks@;
        changed = false;
        let mut i: usize = 0;
        while i < marks.len()
            invariant
                table.wf(),
                marks@.len() == table.entries@.len(),
                i <= marks@.len(),
                is_sound(*table, marks@),
                !changed ==> marks@ == start,
                changed ==> unmarked(marks@) < unmarked(start),
                !changed ==> forall|j: int|
                    0 <= j < i && is_due(*table, marks@, j) ==> #[trigger] marks@[j],
            decreases marks.len() - i,
        {
            if !marks[i] && is_entry_due(table, &marks, i) {
                proof {
                    lemma_due_entry_reaches_todo(*table, marks@, i as int);
                    lemma_marking_leaves_fewer(marks@, i as int);
                }
                marks.set(i, true);
                changed = true;
            }
            i += 1;
        }
    }
    proof {
        assert forall|i: int| 0 <= i < marks@.len() implies #[trigger] marks@[i] == reaches_todo(
            table@,
            table.entries@[i].key(),
        ) by {
            let key = table.entries@[i].key();
            if reaches_todo(table@, key) {
                let chain = choose|chain: Seq<FnKey>|
                    #[trigger] is_chain_to_todo(table@, chain) && chain[0] == key;
                lemma_chain_is_marked(*table, marks@, chain);
            }
        }
    }
    marks
}

} // verus!
