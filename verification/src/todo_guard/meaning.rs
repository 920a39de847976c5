//! What the guard reports, in terms of what stands in the files.

use vstd::prelude::*;

use crate::todo_guard::guard::{
    allowed_handlers, arm_calls, arm_dispatches, calls_not_available, dispatch_match,
    file_dispatches, fn_table, is_live, is_violation, law_dispatched_todo_is_reported, request_mapper,
    request_match, returns_err, selected_match, violations_of, FileModel,
};
use crate::todo_guard::handler_set::FnKey;
use crate::todo_guard::listing::lemma_with_items;
use crate::todo_guard::syntax::{
    ArmModel, BodyModel, CalleeModel, FnModel, ItemModel, MacroModel, MatchModel, ReturnedModel,
    StatementModel, TokenModel,
};
use crate::todo_guard::table::{
    call_at, call_of, info_of, is_name, is_todo, is_todo_at, makes_call, resolved, with_items,
    CallKey, TableModel,
};
use crate::todo_guard::taint::{
    calls_directly, is_chain_to_todo, law_direct_todo_is_reached,
    law_todo_is_reached_through_calls, lemma_chain_ends_in_todo, reaches_todo,
};

verus! {

/// A macro whose path ends in `todo` or `unimplemented` stands for unwritten code, whatever it is
/// given.
pub proof fn law_todo_macro(mac: MacroModel)
    requires
        mac.path.len() > 0,
        mac.path.last() == "todo"@ || mac.path.last() == "unimplemented"@,
    ensures
        is_todo(mac),
{
}

/// A macro that is given such an invocation among other things, with any bracket, holds unwritten
/// code, whatever its path.
pub proof fn law_todo_inside_macro(
    path: Seq<Seq<char>>,
    before: Seq<TokenModel>,
    name: Seq<char>,
    bracket: Option<char>,
    after: Seq<TokenModel>,
)
    requires
        name == "todo"@ || name == "unimplemented"@,
    ensures
        is_todo(
            MacroModel {
                path,
                tokens: before + seq![
                    TokenModel::Word(name),
                    TokenModel::Word("!"@),
                    TokenModel::Open(bracket),
                ] + after,
            },
        ),
{
    let tokens = before + seq![
        TokenModel::Word(name),
        TokenModel::Word("!"@),
        TokenModel::Open(bracket),
    ] + after;
    let at = before.len() as int;
    assert(tokens[at] == TokenModel::Word(name));
    assert(tokens[at + 1] == TokenModel::Word("!"@));
    assert(tokens[at + 2] == TokenModel::Open(bracket));
    let mac = MacroModel { path, tokens };
    assert(is_todo_at(mac.tokens, at));
    assert(is_todo(mac));
}

/// No other macro stands for unwritten code.
pub proof fn law_no_other_macro_is_todo(mac: MacroModel)
    requires
        is_todo(mac),
        mac.path.len() > 0 ==> mac.path.last() != "todo"@ && mac.path.last() != "unimplemented"@,
    ensures
        exists|at: int|
            0 <= at && at + 2 < mac.tokens.len() && (#[trigger] mac.tokens[at] == TokenModel::Word(
                "todo"@,
            ) || mac.tokens[at] == TokenModel::Word("unimplemented"@)) && mac.tokens[at + 1]
                == TokenModel::Word("!"@) && mac.tokens[at + 2] is Open,
{
    let at = choose|at: int| is_todo_at(mac.tokens, at);
    assert(mac.tokens[at] == TokenModel::Word("todo"@) || mac.tokens[at] == TokenModel::Word(
        "unimplemented"@,
    ));
}

/// A function is unfinished by itself exactly where one of the macros in its body stands for
/// unwritten code.
pub proof fn law_function_with_todo_macro(f: FnModel, at: int)
    requires
        0 <= at < f.macros.len(),
    ensures
        f.macros[at].path.len() > 0 && (f.macros[at].path.last() == "todo"@
            || f.macros[at].path.last() == "unimplemented"@) ==> info_of(f).has_direct_todo,
        is_todo(f.macros[at]) ==> info_of(f).has_direct_todo,
        (forall|i: int| 0 <= i < f.macros.len() ==> !is_todo(#[trigger] f.macros[i]))
            ==> !info_of(f).has_direct_todo,
{
    if f.macros[at].path.len() > 0 && (f.macros[at].path.last() == "todo"@
        || f.macros[at].path.last() == "unimplemented"@) {
        law_todo_macro(f.macros[at]);
    }
}

/// The path calls `name`, of `module` where that is given: it ends in the module and the name, or
/// is the name alone.
pub open spec fn path_calls(path: Seq<Seq<char>>, call: CallKey) -> bool {
    match call.0 {
        None => path == seq![call.1],
        Some(module) => path.len() >= 2 && path.subrange(path.len() - 2, path.len() as int) == seq![
            module,
            call.1,
        ],
    }
}

/// A body makes the calls whose paths stand in it and those that stand in what its macros are given,
/// and no others.
pub proof fn law_calls(calls: Seq<CalleeModel>, macros: Seq<MacroModel>, call: CallKey)
    ensures
        makes_call(calls, macros, call) <==> {
            ||| exists|i: int|
                0 <= i < calls.len() && (#[trigger] calls[i]) is Some && path_calls(
                    calls[i]->Some_0,
                    call,
                )
            ||| exists|m: int, at: int|
                0 <= m < macros.len() && #[trigger] call_at(macros[m].tokens, at) == Some(call)
        },
{
    assert forall|callee: CalleeModel| #[trigger]
        call_of(callee) == Some(call) <==> callee is Some && path_calls(callee->Some_0, call) by {
        if callee is Some {
            let path = callee->Some_0;
            if call_of(callee) == Some(call) {
                if path.len() == 1 {
                    assert(path =~= seq![call.1]);
                } else {
                    assert(path.subrange(path.len() - 2, path.len() as int) =~= seq![
                        call.0->Some_0,
                        call.1,
                    ]);
                }
            }
            if path_calls(path, call) {
                match call.0 {
                    None => {
                        assert(path.len() == 1);
                    },
                    Some(module) => {
                        let end = path.subrange(path.len() - 2, path.len() as int);
                        assert(end[0] == path[path.len() - 2]);
                        assert(end[1] == path.last());
                    },
                }
            }
        }
    }
    if makes_call(calls, macros, call) {
        if exists|i: int| 0 <= i < calls.len() && call_of(#[trigger] calls[i]) == Some(call) {
            let i = choose|i: int|
                0 <= i < calls.len() && call_of(#[trigger] calls[i]) == Some(call);
            assert(calls[i] is Some && path_calls(calls[i]->Some_0, call));
        }
    }
    if exists|i: int|
        0 <= i < calls.len() && (#[trigger] calls[i]) is Some && path_calls(
            calls[i]->Some_0,
            call,
        ) {
        let i = choose|i: int|
            0 <= i < calls.len() && (#[trigger] calls[i]) is Some && path_calls(
                calls[i]->Some_0,
                call,
            );
        assert(call_of(calls[i]) == Some(call));
    }
}

/// What a function is known to call is what its body calls.
pub proof fn law_function_calls(f: FnModel, call: CallKey)
    ensures
        info_of(f).calls.contains(call) == makes_call(f.calls, f.macros, call),
{
}

/// A name begins with a letter or an underscore, and letters outside of ASCII count.
pub proof fn law_names(word: Seq<char>)
    ensures
        is_name(word) <==> word.len() > 0 && {
            let code = word[0] as int;
            0x41 <= code <= 0x5a || code == 0x5f || 0x61 <= code <= 0x7a || 0x80 <= code
        },
{
}

/// Among what a macro is given, a name before a parenthesis is a call of that name: of the module
/// before it, where one stands there with two colons, or of no module. After a single dot it is a
/// method and after `fn` a function's head, which are no calls. Two dots are a range.
pub proof fn law_calls_inside_macro(
    before: Seq<TokenModel>,
    previous: TokenModel,
    module: Seq<char>,
    name: Seq<char>,
    after: Seq<TokenModel>,
)
    requires
        is_name(module),
        is_name(name),
    ensures
        ({
            let call = seq![TokenModel::Word(name), TokenModel::Open(Some('('))] + after;
            let colon = TokenModel::Word(":"@);
            let dot = TokenModel::Word("."@);
            let at = before.len() as int;
            &&& call_at(call, 0) == Some((None::<Seq<char>>, name))
            &&& call_at(before + seq![TokenModel::Word(module), colon, colon] + call, at + 3) == Some(
                (Some(module), name),
            )
            &&& previous != colon && previous != dot && previous != TokenModel::Word("fn"@)
                ==> call_at(before + seq![previous] + call, at + 1) == Some(
                (None::<Seq<char>>, name),
            )
            &&& previous != dot ==> call_at(before + seq![previous, dot] + call, at + 2) is None
            &&& call_at(before + seq![dot, dot] + call, at + 2) == Some((None::<Seq<char>>, name))
            &&& call_at(before + seq![TokenModel::Word("fn"@)] + call, at + 1) is None
            &&& call_at(seq![dot] + call, 1) is None
            &&& previous != colon ==> call_at(before + seq![previous, colon] + call, at + 2) == Some(
                (None::<Seq<char>>, name),
            )
            &&& !(previous matches TokenModel::Word(word) && is_name(word)) ==> call_at(
                before + seq![previous, colon, colon] + call,
                at + 3,
            ) == Some((None::<Seq<char>>, name))
            &&& call_at(seq![colon, colon] + call, 2) == Some((None::<Seq<char>>, name))
        }),
{
    reveal_strlit(":");
    reveal_strlit(".");
    reveal_strlit("fn");
    let call = seq![TokenModel::Word(name), TokenModel::Open(Some('('))] + after;
    let colon = TokenModel::Word(":"@);
    let dot = TokenModel::Word("."@);
    let word = TokenModel::Word("fn"@);
    let at = before.len() as int;
    assert(":"@.len() == 1 && "."@.len() == 1 && "fn"@.len() == 2);
    assert(":"@[0] == ':' && "."@[0] == '.');
    assert(colon != dot && colon != word && dot != word);
    assert(call[0] == TokenModel::Word(name) && call[1] == TokenModel::Open(Some('(')));
    let t = before + seq![TokenModel::Word(module), colon, colon] + call;
    assert(t[at] == TokenModel::Word(module) && t[at + 1] == colon && t[at + 2] == colon);
    assert(t[at + 3] == call[0] && t[at + 4] == call[1]);
    let t = before + seq![previous] + call;
    assert(t[at] == previous && t[at + 1] == call[0] && t[at + 2] == call[1]);
    let t = before + seq![previous, dot] + call;
    assert(t[at] == previous && t[at + 1] == dot && t[at + 2] == call[0] && t[at + 3] == call[1]);
    let t = before + seq![dot, dot] + call;
    assert(t[at] == dot && t[at + 1] == dot && t[at + 2] == call[0] && t[at + 3] == call[1]);
    let t = seq![dot] + call;
    assert(t[0] == dot && t[1] == call[0] && t[2] == call[1]);
    let t = before + seq![previous, colon] + call;
    assert(t[at] == previous && t[at + 1] == colon && t[at + 2] == call[0] && t[at + 3] == call[1]);
    let t = before + seq![previous, colon, colon] + call;
    assert(t[at] == previous && t[at + 1] == colon && t[at + 2] == colon);
    assert(t[at + 3] == call[0] && t[at + 4] == call[1]);
    let t = seq![colon, colon] + call;
    assert(t[0] == colon && t[1] == colon && t[2] == call[0] && t[3] == call[1]);
    let t = before + seq![word] + call;
    assert(t[at] == word && t[at + 1] == call[0] && t[at + 2] == call[1]);
}

/// Nothing else there is a call.
pub proof fn law_no_other_calls_inside_macro(tokens: Seq<TokenModel>, at: int)
    requires
        call_at(tokens, at) is Some,
    ensures
        0 <= at,
        at + 1 < tokens.len(),
        is_name(call_at(tokens, at)->Some_0.1),
        tokens[at] == TokenModel::Word(call_at(tokens, at)->Some_0.1),
        tokens[at + 1] == TokenModel::Open(Some('(')),
        at > 0 ==> tokens[at - 1] != TokenModel::Word("fn"@),
        at > 0 && tokens[at - 1] == TokenModel::Word("."@) ==> at > 1 && tokens[at - 2]
            == TokenModel::Word("."@),
        call_at(tokens, at)->Some_0.0 matches Some(module) ==> at >= 3 && is_name(module)
            && tokens[at - 1] == TokenModel::Word(":"@) && tokens[at - 2] == TokenModel::Word(":"@)
            && tokens[at - 3] == TokenModel::Word(module),
{
}

/// A call that names a module leads there, and one that names none stays in its file. It leads
/// nowhere where no such function is known.
pub proof fn law_calls_lead_to_known_functions(
    tag: Seq<char>,
    module: Seq<char>,
    name: Seq<char>,
    table: TableModel,
)
    ensures
        resolved(tag, (None, name), table) == if table.contains_key((tag, name)) {
            Some((tag, name))
        } else {
            None
        },
        resolved(tag, (Some(module), name), table) == if table.contains_key((module, name)) {
            Some((module, name))
        } else {
            None
        },
{
}

/// The item is a function of this name.
pub open spec fn names_fn(item: ItemModel, name: Seq<char>) -> bool {
    item matches ItemModel::Fn(f) && f.name == name
}

/// `f` stands in the file `i`, at `j`, and no later function has its name and the tag of its file.
pub open spec fn is_definition(files: Seq<FileModel>, i: int, j: int, f: FnModel) -> bool {
    &&& 0 <= i < files.len()
    &&& 0 <= j < files[i].items.len()
    &&& files[i].items[j] == ItemModel::Fn(f)
    &&& forall|k: int, l: int|
        i <= k < files.len() && 0 <= l < files[k].items.len() && files[k].tag == files[i].tag && (k
            > i || l > j) ==> !names_fn(#[trigger] files[k].items[l], f.name)
}

/// What `items` say of the function under `key`: the last one of that name stands.
proof fn lemma_items(table: TableModel, tag: Seq<char>, items: Seq<ItemModel>, name: Seq<char>)
    ensures
        forall|j: int|
            #![trigger items[j]]
            0 <= j < items.len() && names_fn(items[j], name) && (forall|l: int|
                j < l < items.len() ==> !names_fn(#[trigger] items[l], name)) ==> with_items(
                table,
                tag,
                items,
            ).contains_key((tag, name)) && with_items(table, tag, items)[(tag, name)] == info_of(
                items[j]->Fn_0,
            ),
        (forall|l: int| 0 <= l < items.len() ==> !names_fn(#[trigger] items[l], name))
            ==> with_items(table, tag, items).contains_key((tag, name)) == table.contains_key(
            (tag, name),
        ) && with_items(table, tag, items)[(tag, name)] == table[(tag, name)],
    decreases items.len(),
{
    if items.len() > 0 {
        let fewer = items.drop_last();
        let end = items.len() - 1;
        lemma_items(table, tag, fewer, name);
        assert forall|j: int|
            #![trigger items[j]]
            0 <= j < items.len() && names_fn(items[j], name) && (forall|l: int|
                j < l < items.len() ==> !names_fn(#[trigger] items[l], name)) implies with_items(
            table,
            tag,
            items,
        ).contains_key((tag, name)) && with_items(table, tag, items)[(tag, name)] == info_of(
            items[j]->Fn_0,
        ) by {
            if j < end {
                assert(!names_fn(items[end], name));
                assert(fewer[j] == items[j]);
                assert forall|l: int| j < l < fewer.len() implies !names_fn(
                    #[trigger] fewer[l],
                    name,
                ) by {
                    assert(fewer[l] == items[l]);
                }
            }
        }
        if forall|l: int| 0 <= l < items.len() ==> !names_fn(#[trigger] items[l], name) {
            assert(!names_fn(items[end], name));
            assert forall|l: int| 0 <= l < fewer.len() implies !names_fn(
                #[trigger] fewer[l],
                name,
            ) by {
                assert(fewer[l] == items[l]);
            }
        }
    }
}

/// The position of the last function of this name, where there is one.
proof fn lemma_last_of_name(items: Seq<ItemModel>, name: Seq<char>) -> (last: int)
    requires
        exists|l: int| 0 <= l < items.len() && names_fn(#[trigger] items[l], name),
    ensures
        0 <= last < items.len(),
        names_fn(items[last], name),
        forall|l: int| last < l < items.len() ==> !names_fn(#[trigger] items[l], name),
    decreases items.len(),
{
    let end = items.len() - 1;
    if names_fn(items[end], name) {
        end
    } else {
        let fewer = items.drop_last();
        let l = choose|l: int| 0 <= l < items.len() && names_fn(#[trigger] items[l], name);
        assert(fewer[l] == items[l]);
        let last = lemma_last_of_name(fewer, name);
        assert forall|l: int| last < l < items.len() implies !names_fn(#[trigger] items[l], name) by {
            if l < end {
                assert(fewer[l] == items[l]);
            }
        }
        last
    }
}

/// What is known of a function is what its last definition says.
pub proof fn law_table_holds_the_definitions(files: Seq<FileModel>, i: int, j: int, f: FnModel)
    requires
        is_definition(files, i, j, f),
    ensures
        fn_table(files).contains_key((files[i].tag, f.name)),
        fn_table(files)[(files[i].tag, f.name)] == info_of(f),
    decreases files.len(),
{
    let fewer = files.drop_last();
    let end = files.len() - 1;
    let last = files[end];
    let key: FnKey = (files[i].tag, f.name);
    lemma_with_items(fn_table(fewer), last.tag, last.items, key);
    lemma_items(fn_table(fewer), last.tag, last.items, f.name);
    if i < end {
        assert forall|k: int, l: int|
            i <= k < fewer.len() && 0 <= l < fewer[k].items.len() && fewer[k].tag == fewer[i].tag && (k
                > i || l > j) implies !names_fn(#[trigger] fewer[k].items[l], f.name) by {
            assert(!names_fn(files[k].items[l], f.name));
        }
        law_table_holds_the_definitions(fewer, i, j, f);
        if last.tag == files[i].tag {
            assert forall|l: int| 0 <= l < last.items.len() implies !names_fn(
                #[trigger] last.items[l],
                f.name,
            ) by {
                assert(!names_fn(files[end].items[l], f.name));
            }
        }
    } else {
        assert(names_fn(last.items[j], f.name));
        assert forall|l: int| j < l < last.items.len() implies !names_fn(
            #[trigger] last.items[l],
            f.name,
        ) by {
            assert(!names_fn(files[end].items[l], f.name));
        }
    }
}

/// No function is known that stands in none of the files.
pub proof fn law_table_holds_nothing_else(files: Seq<FileModel>, key: FnKey)
    requires
        fn_table(files).contains_key(key),
    ensures
        exists|i: int, j: int, f: FnModel| #[trigger]
            is_definition(files, i, j, f) && key == (files[i].tag, f.name),
    decreases files.len(),
{
    if files.len() > 0 {
        let fewer = files.drop_last();
        let end = files.len() - 1;
        let last = files[end];
        lemma_with_items(fn_table(fewer), last.tag, last.items, key);
        lemma_items(fn_table(fewer), last.tag, last.items, key.1);
        if last.tag == key.0 && exists|l: int|
            0 <= l < last.items.len() && names_fn(#[trigger] last.items[l], key.1) {
            let j = lemma_last_of_name(last.items, key.1);
            assert(is_definition(files, end, j, last.items[j]->Fn_0));
        } else {
            law_table_holds_nothing_else(fewer, key);
            let (i, j, f) = choose|i: int, j: int, f: FnModel| #[trigger]
                is_definition(fewer, i, j, f) && key == (fewer[i].tag, f.name);
            assert forall|k: int, l: int|
                i <= k < files.len() && 0 <= l < files[k].items.len() && files[k].tag == files[i].tag
                    && (k > i || l > j) implies !names_fn(#[trigger] files[k].items[l], f.name) by {
                if k < end {
                    assert(!names_fn(fewer[k].items[l], f.name));
                } else {
                    assert(!names_fn(last.items[l], key.1));
                }
            }
            assert(is_definition(files, i, j, f));
        }
    }
}

/// A function whose body invokes `todo` or `unimplemented`, whatever the invocation is given,
/// reaches unwritten code.
pub proof fn law_todo_in_a_definition(
    files: Seq<FileModel>,
    i: int,
    j: int,
    f: FnModel,
    at: int,
)
    requires
        is_definition(files, i, j, f),
        0 <= at < f.macros.len(),
        f.macros[at].path.len() > 0,
        f.macros[at].path.last() == "todo"@ || f.macros[at].path.last() == "unimplemented"@,
    ensures
        reaches_todo(fn_table(files), (files[i].tag, f.name)),
{
    law_table_holds_the_definitions(files, i, j, f);
    law_function_with_todo_macro(f, at);
    law_direct_todo_is_reached(fn_table(files), (files[i].tag, f.name));
}

/// A function that calls another reaches the unwritten code that the other reaches, whether the call
/// stands by itself or in what a macro is given.
pub proof fn law_todo_through_a_call(
    files: Seq<FileModel>,
    i: int,
    j: int,
    f: FnModel,
    g: int,
    h: int,
    callee: FnModel,
)
    requires
        is_definition(files, i, j, f),
        is_definition(files, g, h, callee),
        makes_call(f.calls, f.macros, (Some(files[g].tag), callee.name)) || (files[g].tag
            == files[i].tag && makes_call(f.calls, f.macros, (None, callee.name))),
        reaches_todo(fn_table(files), (files[g].tag, callee.name)),
    ensures
        reaches_todo(fn_table(files), (files[i].tag, f.name)),
{
    let table = fn_table(files);
    let from: FnKey = (files[i].tag, f.name);
    let to: FnKey = (files[g].tag, callee.name);
    law_table_holds_the_definitions(files, i, j, f);
    law_table_holds_the_definitions(files, g, h, callee);
    let call: CallKey = if makes_call(f.calls, f.macros, (Some(files[g].tag), callee.name)) {
        (Some(files[g].tag), callee.name)
    } else {
        (None, callee.name)
    };
    assert(table[from].calls.contains(call) && resolved(from.0, call, table) == Some(to));
    assert(calls_directly(table, from, to));
    law_todo_is_reached_through_calls(table, from, to);
}

/// One function is taken to call another only where its body holds the call and the other stands in
/// the files.
pub proof fn law_direct_calls(files: Seq<FileModel>, from: FnKey, to: FnKey)
    requires
        calls_directly(fn_table(files), from, to),
    ensures
        exists|i: int, j: int, f: FnModel| #[trigger]
            is_definition(files, i, j, f) && from == (files[i].tag, f.name) && (makes_call(
                f.calls,
                f.macros,
                (Some(to.0), to.1),
            ) || (to.0 == from.0 && makes_call(f.calls, f.macros, (None, to.1)))),
        exists|g: int, h: int, callee: FnModel| #[trigger]
            is_definition(files, g, h, callee) && to == (files[g].tag, callee.name),
{
    let table = fn_table(files);
    let call = choose|call: CallKey|
        #[trigger] table[from].calls.contains(call) && resolved(from.0, call, table) == Some(to);
    law_table_holds_nothing_else(files, from);
    law_table_holds_nothing_else(files, to);
    let (i, j, f) = choose|i: int, j: int, f: FnModel| #[trigger]
        is_definition(files, i, j, f) && from == (files[i].tag, f.name);
    law_table_holds_the_definitions(files, i, j, f);
    assert(makes_call(f.calls, f.macros, call));
    match call.0 {
        None => {
            assert(call == (None::<Seq<char>>, to.1));
        },
        Some(module) => {
            assert(call == (Some(to.0), to.1));
        },
    }
}

/// Unwritten code that is reached stands in some function of the files.
pub proof fn law_reached_todo_is_in_the_files(files: Seq<FileModel>, key: FnKey)
    requires
        reaches_todo(fn_table(files), key),
    ensures
        exists|i: int, j: int, f: FnModel, at: int|
            #![trigger is_definition(files, i, j, f), f.macros[at]]
            is_definition(files, i, j, f) && 0 <= at < f.macros.len() && is_todo(f.macros[at]),
{
    let table = fn_table(files);
    let chain = choose|chain: Seq<FnKey>|
        #[trigger] is_chain_to_todo(table, chain) && chain[0] == key;
    lemma_chain_ends_in_todo(table, chain);
    law_table_holds_nothing_else(files, chain.last());
    let (i, j, f) = choose|i: int, j: int, f: FnModel| #[trigger]
        is_definition(files, i, j, f) && chain.last() == (files[i].tag, f.name);
    law_table_holds_the_definitions(files, i, j, f);
    let at = choose|at: int| 0 <= at < f.macros.len() && is_todo(#[trigger] f.macros[at]);
    assert(is_definition(files, i, j, f) && is_todo(f.macros[at]));
}

/// Requests are mapped by the first function named `map_request`.
pub proof fn law_request_mapper(items: Seq<ItemModel>, j: int)
    requires
        0 <= j <= items.len(),
        forall|k: int| 0 <= k < j ==> !names_fn(#[trigger] items[k], "map_request"@),
    ensures
        j == items.len() ==> request_mapper(items) is None,
        j < items.len() && names_fn(items[j], "map_request"@) ==> request_mapper(items) == Some(
            items[j]->Fn_0,
        ),
    decreases items.len(),
{
    if j > 0 {
        let rest = items.drop_first();
        assert(!names_fn(items[0], "map_request"@));
        assert forall|k: int| 0 <= k < j - 1 implies !names_fn(
            #[trigger] rest[k],
            "map_request"@,
        ) by {
            assert(rest[k] == items[k + 1]);
        }
        law_request_mapper(rest, j - 1);
        assert(j < items.len() ==> rest[j - 1] == items[j]);
    }
}

/// Of several matches, the first on `request` dispatches, or else the first of all.
pub proof fn law_selected_match(matches: Seq<MatchModel>, m: int)
    requires
        0 <= m <= matches.len(),
        forall|k: int| 0 <= k < m ==> (#[trigger] matches[k]).scrutinee != Some("request"@),
    ensures
        m < matches.len() && matches[m].scrutinee == Some("request"@) ==> selected_match(matches)
            == Some(matches[m]),
        m == matches.len() && m > 0 ==> selected_match(matches) == Some(matches[0]),
        matches.len() == 0 ==> selected_match(matches) is None,
{
    lemma_request_match(matches, m);
}

proof fn lemma_request_match(matches: Seq<MatchModel>, m: int)
    requires
        0 <= m <= matches.len(),
        forall|k: int| 0 <= k < m ==> (#[trigger] matches[k]).scrutinee != Some("request"@),
    ensures
        m == matches.len() ==> request_match(matches) is None,
        m < matches.len() && matches[m].scrutinee == Some("request"@) ==> request_match(matches)
            == Some(matches[m]),
    decreases matches.len(),
{
    if m > 0 {
        let rest = matches.drop_first();
        assert(matches[0].scrutinee != Some("request"@));
        assert forall|k: int| 0 <= k < m - 1 implies (#[trigger] rest[k]).scrutinee != Some(
            "request"@,
        ) by {
            assert(rest[k] == matches[k + 1]);
        }
        lemma_request_match(rest, m - 1);
        assert(m < matches.len() ==> rest[m - 1] == matches[m]);
    }
}

/// The statement is `return Err(..)` or `return Result::Err(..)`.
pub open spec fn is_refusal(statement: StatementModel) -> bool {
    &&& statement matches StatementModel::Return(ReturnedModel::Call(Some(path)))
    &&& path_calls(path, (None, "Err"@)) || path_calls(path, (Some("Result"@), "Err"@))
}

/// An arm refuses where it is a refusal, or a block that ends in one, and nowhere else.
pub proof fn law_err_arms(arm: ArmModel)
    ensures
        returns_err(arm) <==> match arm.body {
            BodyModel::Plain(statement) => is_refusal(statement),
            BodyModel::Block(statements) => statements.len() > 0 && is_refusal(statements.last()),
        },
{
    let statement = match arm.body {
        BodyModel::Plain(statement) => statement,
        BodyModel::Block(statements) => statements.last(),
    };
    let path = statement->Return_0->Call_0->Some_0;
    if path.len() == 1 {
        assert(path =~= seq![path[0]]);
    } else if path.len() > 1 {
        let end = path.subrange(path.len() - 2, path.len() as int);
        assert(end =~= seq![path[path.len() - 2], path.last()]);
        assert(end[0] == path[path.len() - 2] && end[1] == path.last());
    }
    assert(seq!["Result"@, "Err"@][0] == "Result"@ && seq!["Result"@, "Err"@][1] == "Err"@);
    assert(seq!["Err"@].len() == 1 && seq!["Err"@][0] == "Err"@);
}

/// An arm refuses where it calls `not_available`, by a path of any length, and where the call stands
/// in what a macro is given.
pub proof fn law_not_available_arms(arm: ArmModel, i: int, m: int, at: int)
    ensures
        0 <= i < arm.calls.len() && arm.calls[i] is Some && arm.calls[i]->Some_0.len() > 0
            && arm.calls[i]->Some_0.last() == "not_available"@ ==> calls_not_available(arm),
        0 <= m < arm.macros.len() && call_at(arm.macros[m].tokens, at) is Some && call_at(
            arm.macros[m].tokens,
            at,
        )->Some_0.1 == "not_available"@ ==> calls_not_available(arm),
        calls_not_available(arm) ==> (exists|k: int|
            0 <= k < arm.calls.len() && (#[trigger] arm.calls[k]) is Some
                && arm.calls[k]->Some_0.len() > 0 && arm.calls[k]->Some_0.last()
                == "not_available"@) || (exists|k: int, place: int|
            0 <= k < arm.macros.len() && (#[trigger] call_at(arm.macros[k].tokens, place)) is Some
                && call_at(arm.macros[k].tokens, place)->Some_0.1 == "not_available"@),
{
    if 0 <= i < arm.calls.len() && arm.calls[i] is Some && arm.calls[i]->Some_0.len() > 0
        && arm.calls[i]->Some_0.last() == "not_available"@ {
        let call = call_of(arm.calls[i])->Some_0;
        assert(call_of(arm.calls[i]) == Some(call));
        assert(arm_calls(arm, call) && call.1 == "not_available"@);
    }
    if 0 <= m < arm.macros.len() && call_at(arm.macros[m].tokens, at) is Some && call_at(
        arm.macros[m].tokens,
        at,
    )->Some_0.1 == "not_available"@ {
        let call = call_at(arm.macros[m].tokens, at)->Some_0;
        assert(call_at(arm.macros[m].tokens, at) == Some(call));
        assert(arm_calls(arm, call) && call.1 == "not_available"@);
    }
    if calls_not_available(arm) {
        let call = choose|call: CallKey| #[trigger]
            arm_calls(arm, call) && call.1 == "not_available"@;
        if exists|k: int| 0 <= k < arm.calls.len() && call_of(#[trigger] arm.calls[k]) == Some(call) {
            let k = choose|k: int|
                0 <= k < arm.calls.len() && call_of(#[trigger] arm.calls[k]) == Some(call);
            assert(arm.calls[k]->Some_0.last() == "not_available"@);
        } else {
            let (k, place) = choose|k: int, place: int|
                0 <= k < arm.macros.len() && #[trigger] call_at(arm.macros[k].tokens, place) == Some(
                    call,
                );
            assert(call_at(arm.macros[k].tokens, place) is Some);
        }
    }
}

/// The arm `a` of the match `m` of the function at `j` takes requests for the file: the function is
/// its first `map_request`, the match the one that dispatches, and the arm does not refuse.
pub open spec fn is_live_arm(file: FileModel, j: int, m: int, a: int) -> bool {
    let matches = file.items[j]->Fn_0.matches;
    &&& 0 <= j < file.items.len()
    &&& names_fn(file.items[j], "map_request"@)
    &&& forall|k: int| 0 <= k < j ==> !names_fn(#[trigger] file.items[k], "map_request"@)
    &&& 0 <= m < matches.len()
    &&& forall|k: int| 0 <= k < m ==> (#[trigger] matches[k]).scrutinee != Some("request"@)
    &&& matches[m].scrutinee == Some("request"@) || (m == 0 && forall|k: int|
        0 <= k < matches.len() ==> (#[trigger] matches[k]).scrutinee != Some("request"@))
    &&& 0 <= a < matches[m].arms.len()
    &&& !returns_err(matches[m].arms[a])
    &&& !calls_not_available(matches[m].arms[a])
}

/// The arm at that place.
pub open spec fn arm_at(file: FileModel, j: int, m: int, a: int) -> ArmModel {
    file.items[j]->Fn_0.matches[m].arms[a]
}

/// The arm at that place calls this function of the file tagged `module`.
pub open spec fn arm_leads_to(
    file: FileModel,
    j: int,
    m: int,
    a: int,
    module: Seq<char>,
    name: Seq<char>,
) -> bool {
    let arm = arm_at(file, j, m, a);
    ||| makes_call(arm.calls, arm.macros, (Some(module), name))
    ||| module == file.tag && makes_call(arm.calls, arm.macros, (None, name))
}

/// A handler that is called in an arm that takes requests is dispatched to by the file with the arm,
/// wherever the handler itself stands.
pub proof fn law_called_handler_is_live(
    files: Seq<FileModel>,
    i: int,
    j: int,
    m: int,
    a: int,
    g: int,
    h: int,
    handler: FnModel,
)
    requires
        0 <= i < files.len(),
        is_live_arm(files[i], j, m, a),
        is_definition(files, g, h, handler),
        arm_leads_to(files[i], j, m, a, files[g].tag, handler.name),
    ensures
        file_dispatches(files[i], fn_table(files), (files[g].tag, handler.name)),
        is_live(files, fn_table(files), (files[i].tag, (files[g].tag, handler.name))),
{
    let file = files[i];
    let table = fn_table(files);
    let arm = arm_at(file, j, m, a);
    let matches = file.items[j]->Fn_0.matches;
    let key: FnKey = (files[g].tag, handler.name);
    law_table_holds_the_definitions(files, g, h, handler);
    law_request_mapper(file.items, j);
    if matches[m].scrutinee == Some("request"@) {
        law_selected_match(matches, m);
    } else {
        law_selected_match(matches, matches.len() as int);
    }
    assert(dispatch_match(file.items) == Some(matches[m]));
    let call: CallKey = if makes_call(arm.calls, arm.macros, (Some(files[g].tag), handler.name)) {
        (Some(files[g].tag), handler.name)
    } else {
        (None, handler.name)
    };
    assert(arm_calls(arm, call) && resolved(file.tag, call, table) == Some(key));
    assert(arm_dispatches(file.tag, matches[m].arms[a], table, key));
    assert(file_dispatches(file, table, key));
    assert(files[i].tag == file.tag);
}

/// A handler that reaches unwritten code and is called in an arm that takes requests is reported
/// under the tag of the file with the arm, wherever the handler itself stands.
pub proof fn law_called_handler_is_reported(
    files: Seq<FileModel>,
    i: int,
    j: int,
    m: int,
    a: int,
    g: int,
    h: int,
    handler: FnModel,
)
    requires
        0 <= i < files.len(),
        is_live_arm(files[i], j, m, a),
        is_definition(files, g, h, handler),
        arm_leads_to(files[i], j, m, a, files[g].tag, handler.name),
        reaches_todo(fn_table(files), (files[g].tag, handler.name)),
    ensures
        violations_of(files).contains((files[i].tag, handler.name)),
{
    law_called_handler_is_live(files, i, j, m, a, g, h, handler);
    law_dispatched_todo_is_reported(files, i, (files[g].tag, handler.name));
}

/// A handler whose body invokes `todo` or `unimplemented`, whatever the invocation is given, is
/// reported where an arm that takes requests calls it.
pub proof fn law_unwritten_handler_is_reported(
    files: Seq<FileModel>,
    i: int,
    j: int,
    m: int,
    a: int,
    c: int,
    g: int,
    h: int,
    handler: FnModel,
    at: int,
)
    requires
        0 <= i < files.len(),
        is_live_arm(files[i], j, m, a),
        0 <= c < arm_at(files[i], j, m, a).calls.len(),
        is_definition(files, g, h, handler),
        arm_at(files[i], j, m, a).calls[c] == Some(seq![files[g].tag, handler.name]) || (files[g].tag
            == files[i].tag && arm_at(files[i], j, m, a).calls[c] == Some(seq![handler.name])),
        0 <= at < handler.macros.len(),
        handler.macros[at].path.len() > 0,
        handler.macros[at].path.last() == "todo"@ || handler.macros[at].path.last()
            == "unimplemented"@,
    ensures
        violations_of(files).contains((files[i].tag, handler.name)),
{
    let arm = arm_at(files[i], j, m, a);
    law_todo_in_a_definition(files, g, h, handler, at);
    let path = arm.calls[c]->Some_0;
    if path == seq![files[g].tag, handler.name] {
        let call: CallKey = (Some(files[g].tag), handler.name);
        assert(path.subrange(0, 2) =~= path);
        assert(path_calls(path, call));
        law_calls(arm.calls, arm.macros, call);
    } else {
        let call: CallKey = (None, handler.name);
        assert(path_calls(path, call));
        law_calls(arm.calls, arm.macros, call);
    }
    law_called_handler_is_reported(files, i, j, m, a, g, h, handler);
}

/// What a file dispatches to is called in an arm of it that takes requests, and stands in the files.
pub proof fn law_live_handler_is_called(files: Seq<FileModel>, tag: Seq<char>, key: FnKey)
    requires
        is_live(files, fn_table(files), (tag, key)),
    ensures
        exists|i: int, j: int, m: int, a: int|
            0 <= i < files.len() && files[i].tag == tag && #[trigger] is_live_arm(
                files[i],
                j,
                m,
                a,
            ) && arm_leads_to(files[i], j, m, a, key.0, key.1),
        exists|g: int, h: int, handler: FnModel| #[trigger]
            is_definition(files, g, h, handler) && key == (files[g].tag, handler.name),
{
    let table = fn_table(files);
    let i = choose|i: int|
        0 <= i < files.len() && #[trigger] files[i].tag == tag && file_dispatches(
            files[i],
            table,
            key,
        );
    let file = files[i];
    let (j, m) = lemma_dispatch_place(file);
    let arms = dispatch_match(file.items)->Some_0.arms;
    let a = choose|a: int|
        0 <= a < arms.len() && arm_dispatches(file.tag, #[trigger] arms[a], table, key);
    let arm = arm_at(file, j, m, a);
    assert(arm == arms[a]);
    let call = choose|call: CallKey| #[trigger]
        arm_calls(arm, call) && resolved(file.tag, call, table) == Some(key);
    law_table_holds_nothing_else(files, key);
    match call.0 {
        None => {
            assert(call == (None::<Seq<char>>, key.1));
        },
        Some(_) => {
            assert(call == (Some(key.0), key.1));
        },
    }
    assert(is_live_arm(files[i], j, m, a) && arm_leads_to(files[i], j, m, a, key.0, key.1));
}

/// What is reported is dispatched to by a file with that tag and reaches unwritten code, which
/// stands in some function of the files.
pub proof fn law_reported_handler_is_live(files: Seq<FileModel>, violation: FnKey)
    requires
        violations_of(files).contains(violation),
    ensures
        exists|module: Seq<char>| #[trigger]
            reaches_todo(fn_table(files), (module, violation.1)) && is_live(
                files,
                fn_table(files),
                (violation.0, (module, violation.1)),
            ),
        exists|i: int, j: int, f: FnModel, at: int|
            #![trigger is_definition(files, i, j, f), f.macros[at]]
            is_definition(files, i, j, f) && 0 <= at < f.macros.len() && is_todo(f.macros[at]),
{
    let table = fn_table(files);
    assert(is_violation(files, violation));
    let (i, module) = choose|i: int, module: Seq<char>|
        0 <= i < files.len() && #[trigger] files[i].tag == violation.0 && #[trigger] file_dispatches(
            files[i],
            table,
            (module, violation.1),
        ) && reaches_todo(table, (module, violation.1));
    law_reached_todo_is_in_the_files(files, (module, violation.1));
    assert(files[i].tag == violation.0);
    assert(is_live(files, table, (violation.0, (module, violation.1))));
}

/// Where the match stands by which the file dispatches.
proof fn lemma_dispatch_place(file: FileModel) -> (place: (int, int))
    requires
        dispatch_match(file.items) is Some,
    ensures
        ({
            let (j, m) = place;
            let matches = file.items[j]->Fn_0.matches;
            &&& 0 <= j < file.items.len()
            &&& names_fn(file.items[j], "map_request"@)
            &&& forall|k: int| 0 <= k < j ==> !names_fn(#[trigger] file.items[k], "map_request"@)
            &&& 0 <= m < matches.len()
            &&& forall|k: int| 0 <= k < m ==> (#[trigger] matches[k]).scrutinee != Some("request"@)
            &&& matches[m].scrutinee == Some("request"@) || (m == 0 && forall|k: int|
                0 <= k < matches.len() ==> (#[trigger] matches[k]).scrutinee != Some("request"@))
            &&& dispatch_match(file.items) == Some(matches[m])
        }),
{
    let j = lemma_first_mapper(file.items, 0);
    law_request_mapper(file.items, j);
    let matches = file.items[j]->Fn_0.matches;
    let m = lemma_first_on_request(matches, 0);
    law_selected_match(matches, m);
    if m < matches.len() {
        (j, m)
    } else {
        (j, 0)
    }
}

proof fn lemma_first_mapper(items: Seq<ItemModel>, from: int) -> (j: int)
    requires
        request_mapper(items) is Some,
        0 <= from <= items.len(),
        forall|k: int| 0 <= k < from ==> !names_fn(#[trigger] items[k], "map_request"@),
    ensures
        0 <= j < items.len(),
        names_fn(items[j], "map_request"@),
        forall|k: int| 0 <= k < j ==> !names_fn(#[trigger] items[k], "map_request"@),
    decreases items.len() - from,
{
    law_request_mapper(items, from);
    if names_fn(items[from], "map_request"@) {
        from
    } else {
        lemma_first_mapper(items, from + 1)
    }
}

proof fn lemma_first_on_request(matches: Seq<MatchModel>, from: int) -> (m: int)
    requires
        0 <= from <= matches.len(),
        forall|k: int| 0 <= k < from ==> (#[trigger] matches[k]).scrutinee != Some("request"@),
    ensures
        from <= m <= matches.len(),
        forall|k: int| 0 <= k < m ==> (#[trigger] matches[k]).scrutinee != Some("request"@),
        m < matches.len() ==> matches[m].scrutinee == Some("request"@),
    decreases matches.len() - from,
{
    if from == matches.len() || matches[from].scrutinee == Some("request"@) {
        from
    } else {
        lemma_first_on_request(matches, from + 1)
    }
}

/// Only `get_output_distribution` of `json_rpc` may stay dispatched though unfinished.
pub proof fn law_allowed_handlers(handler: FnKey)
    ensures
        allowed_handlers().contains(handler) <==> handler.0 == "json_rpc"@ && handler.1
            == "get_output_distribution"@,
{
}

} // verus!
