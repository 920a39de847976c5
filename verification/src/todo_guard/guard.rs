//! The guard: handlers that a request is dispatched to although they are unfinished.

use vstd::prelude::*;

use crate::seqs::lemma_push_contains;
use crate::text::same_text;
use crate::todo_guard::handler_set::{FnKey, HandlerSet};
use crate::todo_guard::syntax::{
    parse_source, parsed_source, ArmModel, ArmSyntax, BodyModel, BodySyntax, FnModel, FnSyntax,
    ItemModel, ItemSyntax, MatchModel, MatchSyntax, ReturnedModel, ReturnedSyntax, StatementModel,
    StatementSyntax,
};
use crate::todo_guard::table::{
    add_items, calls_in, makes_call, resolve_call, resolved, with_items, CallKey, FnTable,
    TableModel,
};
use crate::todo_guard::taint::{
    is_chain_to_todo, law_todo_is_reached_in_no_other_way, lemma_chain_ends_in_todo, reaches_todo,
    tainted_entries,
};

verus! {

/// A handler source file. `tag` is a short module label ("`json_rpc`", "`other_json`", "bin",
/// "shared"); `src` is the full Rust source text of that file.
#[derive(Debug)]
pub struct HandlerFile {
    pub tag: &'static str,
    pub src: &'static str,
}

/// A handler source file that has been parsed.
#[derive(Debug)]
pub struct ParsedHandlerFile {
    pub tag: String,
    pub items: Vec<ItemSyntax>,
}

/// The mathematical value of a [`ParsedHandlerFile`].
pub struct FileModel {
    pub tag: Seq<char>,
    pub items: Seq<ItemModel>,
}

impl DeepView for ParsedHandlerFile {
    type V = FileModel;

    open spec fn deep_view(&self) -> FileModel {
        FileModel { tag: self.tag@, items: self.items.deep_view() }
    }
}

/// A source file that does not parse.
#[derive(Debug)]
pub struct ParseFailure {
    /// The tag of the file.
    pub tag: String,
    /// What the parser says.
    pub message: String,
}

/// The functions of all files.
pub open spec fn fn_table(files: Seq<FileModel>) -> TableModel
    decreases files.len(),
{
    if files.len() == 0 {
        TableModel::empty()
    } else {
        with_items(fn_table(files.drop_last()), files.last().tag, files.last().items)
    }
}

/// The first function named `map_request`.
pub open spec fn request_mapper(items: Seq<ItemModel>) -> Option<FnModel>
    decreases items.len(),
{
    if items.len() == 0 {
        None
    } else {
        match items[0] {
            ItemModel::Fn(f) if f.name == "map_request"@ => Some(f),
            _ => request_mapper(items.drop_first()),
        }
    }
}

/// The first match on `request`.
pub open spec fn request_match(matches: Seq<MatchModel>) -> Option<MatchModel>
    decreases matches.len(),
{
    if matches.len() == 0 {
        None
    } else if matches[0].scrutinee == Some("request"@) {
        Some(matches[0])
    } else {
        request_match(matches.drop_first())
    }
}

/// The match that dispatches: the first on `request`, or else the first of all.
pub open spec fn selected_match(matches: Seq<MatchModel>) -> Option<MatchModel> {
    match request_match(matches) {
        Some(m) => Some(m),
        None => if matches.len() == 0 {
            None
        } else {
            Some(matches[0])
        },
    }
}

/// The match by which a file with these items dispatches requests.
pub open spec fn dispatch_match(items: Seq<ItemModel>) -> Option<MatchModel> {
    match request_mapper(items) {
        None => None,
        Some(f) => selected_match(f.matches),
    }
}

/// The statement that an arm ends in.
pub open spec fn last_statement(body: BodyModel) -> StatementModel {
    match body {
        BodyModel::Plain(statement) => statement,
        BodyModel::Block(statements) => if statements.len() > 0 {
            statements.last()
        } else {
            StatementModel::Other
        },
    }
}

/// The path is that of the `Err` of a `Result`.
pub open spec fn is_err_path(path: Seq<Seq<char>>) -> bool {
    &&& path.len() > 0
    &&& path.last() == "Err"@
    &&& path.len() > 1 ==> path[path.len() - 2] == "Result"@
}

/// The arm ends in `return Err(..)`: no request that it takes is handled.
pub open spec fn returns_err(arm: ArmModel) -> bool {
    &&& last_statement(arm.body) matches StatementModel::Return(ReturnedModel::Call(Some(path)))
    &&& is_err_path(path)
}

/// The arm makes this call.
pub open spec fn arm_calls(arm: ArmModel, call: CallKey) -> bool {
    makes_call(arm.calls, arm.macros, call)
}

/// The arm calls `not_available`, of whichever module: no request that it takes is handled.
pub open spec fn calls_not_available(arm: ArmModel) -> bool {
    exists|call: CallKey| #[trigger] arm_calls(arm, call) && call.1 == "not_available"@
}

/// The arm is live and dispatches to `handler`. An arm that calls `not_available` or ends in
/// `return Err(..)` dispatches to nothing, whatever else it calls.
pub open spec fn arm_dispatches(
    tag: Seq<char>,
    arm: ArmModel,
    table: TableModel,
    handler: FnKey,
) -> bool {
    &&& !returns_err(arm)
    &&& !calls_not_available(arm)
    &&& exists|call: CallKey| #[trigger]
        arm_calls(arm, call) && resolved(tag, call, table) == Some(handler)
}

/// Some arm of the file's dispatching match dispatches to `handler`.
pub open spec fn file_dispatches(file: FileModel, table: TableModel, handler: FnKey) -> bool {
    match dispatch_match(file.items) {
        None => false,
        Some(m) => exists|i: int|
            0 <= i < m.arms.len() && arm_dispatches(file.tag, #[trigger] m.arms[i], table, handler),
    }
}

/// A file tagged `violation.0` dispatches requests to a handler named `violation.1`, in whichever
/// module, that reaches unwritten code.
pub open spec fn is_violation(files: Seq<FileModel>, violation: FnKey) -> bool {
    exists|i: int, module: Seq<char>|
        0 <= i < files.len() && #[trigger] files[i].tag == violation.0 && #[trigger] file_dispatches(
            files[i],
            fn_table(files),
            (module, violation.1),
        ) && reaches_todo(fn_table(files), (module, violation.1))
}

/// All violations of a set of parsed files.
pub open spec fn violations_of(files: Seq<FileModel>) -> Set<FnKey> {
    Set::new(|violation: FnKey| is_violation(files, violation))
}

/// Each file parses.
pub open spec fn all_parse(files: Seq<HandlerFile>) -> bool {
    forall|i: int| 0 <= i < files.len() ==> parsed_source((#[trigger] files[i]).src@) is Ok
}

/// The files as parsed.
pub open spec fn parsed_files(files: Seq<HandlerFile>) -> Seq<FileModel> {
    Seq::new(
        files.len(),
        |i: int| FileModel { tag: files[i].tag@, items: parsed_source(files[i].src@)->Ok_0 },
    )
}

/// A live dispatch: a request handled by the file `dispatch_tag` runs `resolved_name` of
/// `resolved_module`.
#[derive(Debug)]
pub struct LiveDispatch {
    pub dispatch_tag: String,
    pub resolved_module: String,
    pub resolved_name: String,
}

/// The mathematical value of a [`LiveDispatch`]: the dispatching file and the handler.
pub type DispatchModel = (Seq<char>, FnKey);

impl DeepView for LiveDispatch {
    type V = DispatchModel;

    open spec fn deep_view(&self) -> DispatchModel {
        (self.dispatch_tag@, (self.resolved_module@, self.resolved_name@))
    }
}

/// Some file tagged `dispatch.0` dispatches requests to `dispatch.1`.
pub open spec fn is_live(files: Seq<FileModel>, table: TableModel, dispatch: DispatchModel) -> bool {
    exists|i: int|
        0 <= i < files.len() && #[trigger] files[i].tag == dispatch.0 && file_dispatches(
            files[i],
            table,
            dispatch.1,
        )
}

/// The functions of all files.
pub fn build_table(files: &Vec<ParsedHandlerFile>) -> (table: FnTable)
    ensures
        table.wf(),
        table@ == fn_table(files.deep_view()),
{
    let ghost models = files.deep_view();
    let mut table = FnTable::new();
    let mut i: usize = 0;
    while i < files.len()
        invariant
            models == files.deep_view(),
            i <= files.len(),
            table.wf(),
            table@ == fn_table(models.take(i as int)),
        decreases files.len() - i,
    {
        assert(models.take(i + 1).drop_last() =~= models.take(i as int));
        assert(models.take(i + 1).last() == files@[i as int].deep_view());
        add_items(&mut table, files[i].tag.as_str(), &files[i].items);
        i += 1;
    }
    assert(models.take(models.len() as int) =~= models);
    table
}

/// The first function named `map_request`.
fn find_request_mapper(items: &Vec<ItemSyntax>) -> (found: Option<&FnSyntax>)
    ensures
        found.deep_view() == request_mapper(items.deep_view()),
{
    let ghost models = items.deep_view();
    let mut i: usize = 0;
    assert(models.skip(0) =~= models);
    while i < items.len()
        invariant
            models == items.deep_view(),
            i <= items.len(),
            request_mapper(models) == request_mapper(models.skip(i as int)),
        decreases items.len() - i,
    {
        assert(models.skip(i as int)[0] == items@[i as int].deep_view());
        assert(models.skip(i as int).drop_first() =~= models.skip(i + 1));
        match &items[i] {
            ItemSyntax::Fn(f) => {
                if same_text(f.name.as_str(), "map_request") {
                    return Some(f);
                }
            },
            ItemSyntax::Other => {},
        }
        i += 1;
    }
    None
}

/// Whether the match is on the identifier `request`.
pub fn is_request_match(expr_match: &MatchSyntax) -> (found: bool)
    ensures
        found == (expr_match.deep_view().scrutinee == Some("request"@)),
{
    match &expr_match.scrutinee {
        None => false,
        Some(ident) => same_text(ident.as_str(), "request"),
    }
}

/// The match that dispatches: the first on `request`, or else the first of all.
pub fn select_match(matches: &Vec<MatchSyntax>) -> (selected: Option<&MatchSyntax>)
    ensures
        selected.deep_view() == selected_match(matches.deep_view()),
{
    let ghost models = matches.deep_view();
    let mut i: usize = 0;
    assert(models.skip(0) =~= models);
    while i < matches.len()
        invariant
            models == matches.deep_view(),
            i <= matches.len(),
            request_match(models) == request_match(models.skip(i as int)),
        decreases matches.len() - i,
    {
        assert(models.skip(i as int)[0] == matches@[i as int].deep_view());
        assert(models.skip(i as int).drop_first() =~= models.skip(i + 1));
        if is_request_match(&matches[i]) {
            return Some(&matches[i]);
        }
        i += 1;
    }
    if matches.len() == 0 {
        None
    } else {
        Some(&matches[0])
    }
}

/// Whether the path is that of the `Err` of a `Result`.
fn is_err_callee(path: &Vec<String>) -> (found: bool)
    ensures
        found == is_err_path(path.deep_view()),
{
    if path.len() == 0 || !same_text(path[path.len() - 1].as_str(), "Err") {
        return false;
    }
    path.len() == 1 || same_text(path[path.len() - 2].as_str(), "Result")
}

/// Whether the arm ends in `return Err(..)`.
pub fn is_err_arm(arm: &ArmSyntax) -> (found: bool)
    ensures
        found == returns_err(arm.deep_view()),
{
    let last: &StatementSyntax = match &arm.body {
        BodySyntax::Plain(statement) => statement,
        BodySyntax::Block(statements) => {
            if statements.len() == 0 {
                return false;
            }
            assert(statements.deep_view().last() == statements@.last().deep_view());
            &statements[statements.len() - 1]
        },
    };
    match last {
        StatementSyntax::Return(ReturnedSyntax::Call(Some(path))) => is_err_callee(path),
        _ => false,
    }
}

/// Whether one of the calls is that of `not_available`.
fn names_not_available(calls: &Vec<(Option<String>, String)>) -> (found: bool)
    ensures
        found == exists|call: CallKey| #[trigger]
            calls.deep_view().contains(call) && call.1 == "not_available"@,
{
    let ghost models = calls.deep_view();
    let mut i: usize = 0;
    while i < calls.len()
        invariant
            models == calls.deep_view(),
            i <= calls.len(),
            forall|j: int| 0 <= j < i ==> (#[trigger] models[j]).1 != "not_available"@,
        decreases calls.len() - i,
    {
        assert(models[i as int] == calls@[i as int].deep_view());
        if same_text(calls[i].1.as_str(), "not_available") {
            assert(calls.deep_view().contains(models[i as int]));
            return true;
        }
        i += 1;
    }
    assert forall|call: CallKey| #[trigger] models.contains(call) implies call.1
        != "not_available"@ by {
        let j = choose|j: int| 0 <= j < models.len() && models[j] == call;
        assert(models[j].1 != "not_available"@);
    }
    false
}

/// Whether the arm calls `not_available`.
pub fn is_not_available_arm(arm: &ArmSyntax) -> (found: bool)
    ensures
        found == calls_not_available(arm.deep_view()),
{
    let calls = calls_in(&arm.calls, &arm.macros);
    let found = names_not_available(&calls);
    proof {
        assert forall|call: CallKey| #[trigger] arm_calls(arm.deep_view(), call)
            == calls.deep_view().contains(call) by {}
        if found {
            let call = choose|call: CallKey| #[trigger]
                calls.deep_view().contains(call) && call.1 == "not_available"@;
            assert(arm_calls(arm.deep_view(), call));
        } else if calls_not_available(arm.deep_view()) {
            let call = choose|call: CallKey| #[trigger]
                arm_calls(arm.deep_view(), call) && call.1 == "not_available"@;
            assert(calls.deep_view().contains(call));
        }
    }
    found
}

/// Appends the functions that these calls in an arm of the file `tag` lead to.
fn add_called(
    tag: &str,
    calls: &Vec<(Option<String>, String)>,
    table: &FnTable,
    live: &mut Vec<LiveDispatch>,
)
    requires
        table.wf(),
    ensures
        forall|d: DispatchModel|
            #![trigger final(live).deep_view().contains(d)]
            final(live).deep_view().contains(d) <==> old(live).deep_view().contains(d) || (d.0 == tag@
                && exists|k: int|
                0 <= k < calls.deep_view().len() && resolved(
                    tag@,
                    #[trigger] calls.deep_view()[k],
                    table@,
                ) == Some(d.1)),
{
    let ghost before = live.deep_view();
    let ghost models = calls.deep_view();
    let mut i: usize = 0;
    while i < calls.len()
        invariant
            table.wf(),
            models == calls.deep_view(),
            i <= calls.len(),
            forall|d: DispatchModel|
                #![trigger live.deep_view().contains(d)]
                live.deep_view().contains(d) <==> before.contains(d) || (d.0 == tag@ && exists|k: int|
                    0 <= k < i && resolved(tag@, #[trigger] models[k], table@) == Some(d.1)),
        decreases calls.len() - i,
    {
        let ghost so_far = live.deep_view();
        assert(models[i as int] == calls@[i as int].deep_view());
        let ghost found = resolved(tag@, models[i as int], table@);
        match resolve_call(tag, &calls[i], table) {
            None => {},
            Some((resolved_module, resolved_name)) => {
                let dispatch = LiveDispatch {
                    dispatch_tag: tag.to_owned(),
                    resolved_module,
                    resolved_name,
                };
                let ghost key = dispatch.deep_view();
                live.push(dispatch);
                proof {
                    assert(live.deep_view() =~= so_far.push(key));
                    lemma_push_contains(so_far, key);
                    assert(found == Some(key.1));
                }
            },
        }
        proof {
            assert forall|d: DispatchModel|
                #![trigger live.deep_view().contains(d)]
                live.deep_view().contains(d) <==> before.contains(d) || (d.0 == tag@ && exists|k: int|
                    0 <= k < i + 1 && resolved(tag@, #[trigger] models[k], table@) == Some(d.1)) by {
                if so_far.contains(d) && !before.contains(d) {
                    let k = choose|k: int|
                        0 <= k < i && resolved(tag@, #[trigger] models[k], table@) == Some(d.1);
                    assert(0 <= k < i + 1 && resolved(tag@, models[k], table@) == Some(d.1));
                }
                if d.0 == tag@ && found == Some(d.1) {
                    assert(resolved(tag@, models[i as int], table@) == Some(d.1));
                }
            }
        }
        i += 1;
    }
}

/// Appends the handlers that an arm of the file `tag` dispatches to.
fn add_arm_dispatches(tag: &str, arm: &ArmSyntax, table: &FnTable, live: &mut Vec<LiveDispatch>)
    requires
        table.wf(),
    ensures
        forall|d: DispatchModel|
            #![trigger final(live).deep_view().contains(d)]
            final(live).deep_view().contains(d) <==> old(live).deep_view().contains(d) || (d.0 == tag@
                && arm_dispatches(tag@, arm.deep_view(), table@, d.1)),
{
    if is_err_arm(arm) || is_not_available_arm(arm) {
        return ;
    }
    let calls = calls_in(&arm.calls, &arm.macros);
    add_called(tag, &calls, table, live);
    proof {
        let models = calls.deep_view();
        assert forall|handler: FnKey|
            (exists|k: int|
                0 <= k < models.len() && resolved(tag@, #[trigger] models[k], table@) == Some(
                    handler,
                )) <==> #[trigger] arm_dispatches(tag@, arm.deep_view(), table@, handler) by {
            if exists|k: int|
                0 <= k < models.len() && resolved(tag@, #[trigger] models[k], table@) == Some(
                    handler,
                ) {
                let k = choose|k: int|
                    0 <= k < models.len() && resolved(tag@, #[trigger] models[k], table@) == Some(
                        handler,
                    );
                assert(models.contains(models[k]));
                assert(arm_calls(arm.deep_view(), models[k]));
            }
            if arm_dispatches(tag@, arm.deep_view(), table@, handler) {
                let call = choose|call: CallKey| #[trigger]
                    arm_calls(arm.deep_view(), call) && resolved(tag@, call, table@) == Some(
                        handler,
                    );
                assert(models.contains(call));
                let k = choose|k: int| 0 <= k < models.len() && models[k] == call;
                assert(resolved(tag@, models[k], table@) == Some(handler));
            }
        }
    }
}

/// Appends the handlers that the file dispatches requests to.
fn add_dispatches(file: &ParsedHandlerFile, table: &FnTable, live: &mut Vec<LiveDispatch>)
    requires
        table.wf(),
    ensures
        forall|d: DispatchModel|
            #![trigger final(live).deep_view().contains(d)]
            final(live).deep_view().contains(d) <==> old(live).deep_view().contains(d) || (d.0
                == file.tag@ && file_dispatches(file.deep_view(), table@, d.1)),
{
    let ghost before = live.deep_view();
    let mapper = match find_request_mapper(&file.items) {
        None => {
            return ;
        },
        Some(f) => f,
    };
    let selected = match select_match(&mapper.matches) {
        None => {
            return ;
        },
        Some(m) => m,
    };
    let ghost arms = selected.arms.deep_view();
    let mut i: usize = 0;
    while i < selected.arms.len()
        invariant
            table.wf(),
            arms == selected.arms.deep_view(),
            i <= selected.arms.len(),
            forall|d: DispatchModel|
                #![trigger live.deep_view().contains(d)]
                live.deep_view().contains(d) <==> before.contains(d) || (d.0 == file.tag@ && exists|
                    k: int,
                |
                    0 <= k < i && arm_dispatches(file.tag@, #[trigger] arms[k], table@, d.1)),
        decreases selected.arms.len() - i,
    {
        let ghost so_far = live.deep_view();
        assert(arms[i as int] == selected.arms@[i as int].deep_view());
        add_arm_dispatches(file.tag.as_str(), &selected.arms[i], table, live);
        proof {
            assert forall|d: DispatchModel|
                #![trigger live.deep_view().contains(d)]
                live.deep_view().contains(d) <==> before.contains(d) || (d.0 == file.tag@ && exists|
                    k: int,
                |
                    0 <= k < i + 1 && arm_dispatches(file.tag@, #[trigger] arms[k], table@, d.1)) by {
                if so_far.contains(d) && !before.contains(d) {
                    let k = choose|k: int|
                        0 <= k < i && arm_dispatches(file.tag@, #[trigger] arms[k], table@, d.1);
                    assert(0 <= k < i + 1 && arm_dispatches(file.tag@, arms[k], table@, d.1));
                }
            }
        }
        i += 1;
    }
    assert(dispatch_match(file.deep_view().items) == Some(selected.deep_view()));
}

/// The handlers that requests are dispatched to, each with the file that does it.
pub fn live_dispatches(files: &Vec<ParsedHandlerFile>, table: &FnTable) -> (live: Vec<LiveDispatch>)
    requires
        table.wf(),
    ensures
        forall|d: DispatchModel| #[trigger]
            live.deep_view().contains(d) <==> is_live(files.deep_view(), table@, d),
{
    let ghost models = files.deep_view();
    let mut live: Vec<LiveDispatch> = Vec::new();
    let mut i: usize = 0;
    while i < files.len()
        invariant
            table.wf(),
            models == files.deep_view(),
            i <= files.len(),
            forall|d: DispatchModel|
                live.deep_view().contains(d) <==> exists|k: int|
                    0 <= k < i && #[trigger] models[k].tag == d.0 && file_dispatches(
                        models[k],
                        table@,
                        d.1,
                    ),
        decreases files.len() - i,
    {
        let ghost before = live.deep_view();
        assert(models[i as int] == files@[i as int].deep_view());
        add_dispatches(&files[i], table, &mut live);
        proof {
            assert forall|d: DispatchModel|
                live.deep_view().contains(d) <==> exists|k: int|
                    0 <= k < i + 1 && #[trigger] models[k].tag == d.0 && file_dispatches(
                        models[k],
                        table@,
                        d.1,
                    ) by {
                if before.contains(d) {
                    let k = choose|k: int|
                        0 <= k < i && #[trigger] models[k].tag == d.0 && file_dispatches(
                            models[k],
                            table@,
                            d.1,
                        );
                    assert(0 <= k < i + 1 && models[k].tag == d.0);
                } else if live.deep_view().contains(d) {
                    assert(models[i as int].tag == d.0);
                }
            }
        }
        i += 1;
    }
    live
}

/// For every handler that is live-dispatched from a `map_request` match arm and whose body
/// transitively holds `todo!` or `unimplemented!`: the tag of the dispatching file and the name
/// of the handler.
pub fn violations(files: &Vec<ParsedHandlerFile>) -> (found: HandlerSet)
    ensures
        found.wf(),
        found@ == violations_of(files.deep_view()),
{
    let ghost models = files.deep_view();
    let table = build_table(files);
    let live = live_dispatches(files, &table);
    let tainted = tainted_entries(&table);
    let mut found = HandlerSet::new();
    let mut i: usize = 0;
    while i < live.len()
        invariant
            table.wf(),
            models == files.deep_view(),
            table@ == fn_table(models),
            tainted@.len() == table.entries@.len(),
            forall|k: int|
                0 <= k < tainted@.len() ==> #[trigger] tainted@[k] == reaches_todo(
                    table@,
                    table.entries@[k].key(),
                ),
            forall|d: DispatchModel| #[trigger]
                live.deep_view().contains(d) <==> is_live(models, table@, d),
            i <= live.len(),
            found.wf(),
            forall|v: FnKey|
                found@.contains(v) <==> exists|k: int|
                    0 <= k < i && (#[trigger] live.deep_view()[k]).0 == v.0 && live.deep_view()[k].1.1
                        == v.1 && reaches_todo(table@, live.deep_view()[k].1),
        decreases live.len() - i,
    {
        let dispatch = &live[i];
        let ghost before = found@;
        let ghost d = live.deep_view()[i as int];
        assert(d == dispatch.deep_view());
        match table.position(dispatch.resolved_module.as_str(), dispatch.resolved_name.as_str()) {
            None => {
                assert(!reaches_todo(table@, d.1)) by {
                    if reaches_todo(table@, d.1) {
                        law_todo_is_reached_in_no_other_way(table@, d.1);
                    }
                }
            },
            Some(at) => {
                if tainted[at] {
                    found.insert(dispatch.dispatch_tag.as_str(), dispatch.resolved_name.as_str());
                }
            },
        }
        proof {
            assert forall|v: FnKey|
                found@.contains(v) <==> exists|k: int|
                    0 <= k < i + 1 && (#[trigger] live.deep_view()[k]).0 == v.0
                        && live.deep_view()[k].1.1 == v.1 && reaches_todo(
                        table@,
                        live.deep_view()[k].1,
                    ) by {
                if before.contains(v) {
                    let k = choose|k: int|
                        0 <= k < i && (#[trigger] live.deep_view()[k]).0 == v.0
                            && live.deep_view()[k].1.1 == v.1 && reaches_todo(
                            table@,
                            live.deep_view()[k].1,
                        );
                    assert(0 <= k < i + 1 && live.deep_view()[k].0 == v.0);
                } else if found@.contains(v) {
                    assert(live.deep_view()[i as int].0 == v.0);
                }
            }
        }
        i += 1;
    }
    proof {
        assert forall|v: FnKey| found@.contains(v) == is_violation(models, v) by {
            if found@.contains(v) {
                let k = choose|k: int|
                    0 <= k < live.len() && (#[trigger] live.deep_view()[k]).0 == v.0
                        && live.deep_view()[k].1.1 == v.1 && reaches_todo(table@, live.deep_view()[k].1);
                let d = live.deep_view()[k];
                assert(live.deep_view().contains(d));
                let f = choose|f: int|
                    0 <= f < models.len() && #[trigger] models[f].tag == d.0 && file_dispatches(
                        models[f],
                        table@,
                        d.1,
                    );
                assert(d.1 == (d.1.0, v.1));
                assert(models[f].tag == v.0 && file_dispatches(models[f], table@, (d.1.0, v.1)));
            }
            if is_violation(models, v) {
                let (f, module) = choose|f: int, module: Seq<char>|
                    0 <= f < models.len() && #[trigger] models[f].tag == v.0
                        && #[trigger] file_dispatches(models[f], table@, (module, v.1))
                        && reaches_todo(table@, (module, v.1));
                let d: DispatchModel = (v.0, (module, v.1));
                assert(is_live(models, table@, d));
                assert(live.deep_view().contains(d));
                let k = choose|k: int| 0 <= k < live.deep_view().len() && live.deep_view()[k] == d;
                assert(live.deep_view()[k].0 == v.0);
            }
        }
        assert(found@ =~= violations_of(models));
    }
    found
}

/// Parses the files, up to the first that does not parse.
pub fn parse_handler_files(files: &[HandlerFile]) -> (parsed: Result<
    Vec<ParsedHandlerFile>,
    ParseFailure,
>)
    ensures
        parsed is Ok <==> all_parse(files@),
        parsed matches Ok(parsed) ==> parsed.deep_view() == parsed_files(files@),
        parsed matches Err(failure) ==> exists|i: int|
            0 <= i < files@.len() && all_parse(files@.take(i)) && #[trigger] files@[i].tag@
                == failure.tag@ && parsed_source(files@[i].src@) == Err::<Seq<ItemModel>, Seq<char>>(
                failure.message@,
            ),
{
    let mut parsed: Vec<ParsedHandlerFile> = Vec::new();
    let mut i: usize = 0;
    while i < files.len()
        invariant
            i <= files.len(),
            parsed@.len() == i,
            all_parse(files@.take(i as int)),
            forall|j: int| 0 <= j < i ==> #[trigger] parsed@[j].deep_view() == parsed_files(files@)[j],
        decreases files.len() - i,
    {
        match parse_source(files[i].src) {
            Ok(items) => {
                parsed.push(ParsedHandlerFile { tag: files[i].tag.to_owned(), items });
                assert(files@.take(i + 1) =~= files@.take(i as int).push(files@[i as int]));
            },
            Err(message) => {
                assert(!all_parse(files@)) by {
                    assert(parsed_source(files@[i as int].src@) is Err);
                }
                return Err(ParseFailure { tag: files[i].tag.to_owned(), message });
            },
        }
        i += 1;
    }
    assert(files@.take(files@.len() as int) =~= files@);
    assert(parsed.deep_view() =~= parsed_files(files@));
    Ok(parsed)
}

/// The violations of a set of source files that all parse (see [`violations`]).
pub fn dispatched_todo_violations(files: &[HandlerFile]) -> (found: HandlerSet)
    requires
        all_parse(files@),
    ensures
        found.wf(),
        found@ == violations_of(parsed_files(files@)),
{
    match parse_handler_files(files) {
        Ok(parsed) => violations(&parsed),
        Err(_) => HandlerSet::new(),
    }
}

/// The violations of a set of source files, or the first file that does not parse.
pub fn checked_todo_violations(files: &[HandlerFile]) -> (found: Result<HandlerSet, ParseFailure>)
    ensures
        found is Ok <==> all_parse(files@),
        found matches Ok(found) ==> found.wf() && found@ == violations_of(parsed_files(files@)),
        found matches Err(failure) ==> exists|i: int|
            0 <= i < files@.len() && all_parse(files@.take(i)) && #[trigger] files@[i].tag@
                == failure.tag@ && parsed_source(files@[i].src@) == Err::<Seq<ItemModel>, Seq<char>>(
                failure.message@,
            ),
{
    match parse_handler_files(files) {
        Ok(_) => Ok(dispatched_todo_violations(files)),
        Err(failure) => Err(failure),
    }
}

/// The set of the given handlers.
pub fn expected(entries: &[(&str, &str)]) -> (set: HandlerSet)
    ensures
        set.wf(),
        set@ == entries@.map_values(|entry: (&str, &str)| (entry.0@, entry.1@)).to_set(),
{
    let ghost keys = entries@.map_values(|entry: (&str, &str)| (entry.0@, entry.1@));
    let mut set = HandlerSet::new();
    let mut i: usize = 0;
    assert(keys.take(0).to_set() =~= Set::<FnKey>::empty());
    while i < entries.len()
        invariant
            keys == entries@.map_values(|entry: (&str, &str)| (entry.0@, entry.1@)),
            i <= entries.len(),
            set.wf(),
            set@ == keys.take(i as int).to_set(),
        decreases entries.len() - i,
    {
        set.insert(entries[i].0, entries[i].1);
        proof {
            let key = keys[i as int];
            assert(keys.take(i + 1) =~= keys.take(i as int).push(key));
            assert(keys.take(i + 1)[i as int] == key);
            assert forall|k: FnKey| keys.take(i + 1).contains(k) == (keys.take(i as int).contains(k)
                || k == key) by {
                if keys.take(i as int).contains(k) {
                    let j = choose|j: int| 0 <= j < i && keys.take(i as int)[j] == k;
                    assert(keys.take(i + 1)[j] == k);
                }
            }
            assert(keys.take(i + 1).to_set() =~= keys.take(i as int).to_set().insert(key));
        }
        i += 1;
    }
    assert(keys.take(keys.len() as int) =~= keys);
    set
}

/// The handlers that may stay dispatched though unfinished.
pub open spec fn allowed_handlers() -> Set<FnKey> {
    set![("json_rpc"@, "get_output_distribution"@)]
}

/// The handlers that may stay dispatched though unfinished. An entry leaves this list together
/// with the fix of its handler.
pub fn allowlist() -> (set: HandlerSet)
    ensures
        set.wf(),
        set@ == allowed_handlers(),
{
    let mut set = HandlerSet::new();
    set.insert("json_rpc", "get_output_distribution");
    set
}

/// Whether the violations are exactly the allowed ones. A handler that is allowed but no longer
/// violates is a stale entry, and counts against the files too.
pub fn is_as_allowed(actual: &HandlerSet) -> (allowed: bool)
    requires
        actual.wf(),
    ensures
        allowed == (actual@ == allowed_handlers()),
{
    let allowed = allowlist();
    actual.same_as(&allowed)
}

/// An arm that ends in `return Err(..)` or calls `not_available` contributes nothing, whatever else
/// it calls.
pub proof fn law_refusing_arm_dispatches_nothing(
    tag: Seq<char>,
    arm: ArmModel,
    table: TableModel,
    handler: FnKey,
)
    requires
        returns_err(arm) || calls_not_available(arm),
    ensures
        !arm_dispatches(tag, arm, table, handler),
{
}

/// Files whose dispatching matches have no other arms than such have no violations, whatever the
/// functions hold that those arms call.
pub proof fn law_only_refusing_arms_no_violations(files: Seq<FileModel>)
    requires
        forall|i: int, a: int|
            0 <= i < files.len() && dispatch_match(files[i].items) is Some && 0 <= a
                < dispatch_match(files[i].items)->Some_0.arms.len() ==> returns_err(
                #[trigger] dispatch_match(files[i].items)->Some_0.arms[a],
            ) || calls_not_available(dispatch_match(files[i].items)->Some_0.arms[a]),
    ensures
        violations_of(files) == Set::<FnKey>::empty(),
{
    assert(violations_of(files) =~= Set::<FnKey>::empty());
}

/// `not_available` is never reported, whatever its body holds.
pub proof fn law_not_available_is_never_reported(files: Seq<FileModel>, violation: FnKey)
    requires
        violations_of(files).contains(violation),
    ensures
        violation.1 != "not_available"@,
{
    let table = fn_table(files);
    let (i, module) = choose|i: int, module: Seq<char>|
        0 <= i < files.len() && #[trigger] files[i].tag == violation.0 && #[trigger] file_dispatches(
            files[i],
            table,
            (module, violation.1),
        ) && reaches_todo(table, (module, violation.1));
    let arms = dispatch_match(files[i].items)->Some_0.arms;
    let arm = choose|a: int|
        0 <= a < arms.len() && arm_dispatches(
            files[i].tag,
            #[trigger] arms[a],
            table,
            (module, violation.1),
        );
    assert(arm_dispatches(files[i].tag, arms[arm], table, (module, violation.1)));
}

/// Files in which nothing is left to be written have no violations.
pub proof fn law_finished_files_have_no_violations(files: Seq<FileModel>)
    requires
        forall|key: FnKey|
            fn_table(files).contains_key(key) ==> !(#[trigger] fn_table(files)[key]).has_direct_todo,
    ensures
        violations_of(files) == Set::<FnKey>::empty(),
{
    assert forall|violation: FnKey| !is_violation(files, violation) by {
        if is_violation(files, violation) {
            let (i, module) = choose|i: int, module: Seq<char>|
                0 <= i < files.len() && #[trigger] files[i].tag == violation.0
                    && #[trigger] file_dispatches(
                    files[i],
                    fn_table(files),
                    (module, violation.1),
                ) && reaches_todo(fn_table(files), (module, violation.1));
            let chain = choose|chain: Seq<FnKey>|
                #[trigger] is_chain_to_todo(fn_table(files), chain) && chain[0] == (
                    module,
                    violation.1,
                );
            lemma_chain_ends_in_todo(fn_table(files), chain);
        }
    }
    assert(violations_of(files) =~= Set::<FnKey>::empty());
}

/// Files that dispatch no request have no violations, whatever their functions hold.
pub proof fn law_without_dispatch_no_violations(files: Seq<FileModel>)
    requires
        forall|i: int| 0 <= i < files.len() ==> dispatch_match((#[trigger] files[i]).items) is None,
    ensures
        violations_of(files) == Set::<FnKey>::empty(),
{
    assert(violations_of(files) =~= Set::<FnKey>::empty());
}

/// A handler that is dispatched to and reaches unwritten code is reported under the tag of the
/// dispatching file.
pub proof fn law_dispatched_todo_is_reported(files: Seq<FileModel>, i: int, handler: FnKey)
    requires
        0 <= i < files.len(),
        file_dispatches(files[i], fn_table(files), handler),
        reaches_todo(fn_table(files), handler),
    ensures
        violations_of(files).contains((files[i].tag, handler.1)),
{
    let violation: FnKey = (files[i].tag, handler.1);
    let module = handler.0;
    assert(handler == (module, violation.1));
    assert(files[i].tag == violation.0 && file_dispatches(
        files[i],
        fn_table(files),
        (module, violation.1),
    ));
}

/// The files are taken in their order, each under its own tag and with the items that its source
/// parses to.
pub proof fn law_files_keep_their_tags(files: Seq<HandlerFile>, i: int)
    requires
        all_parse(files),
        0 <= i < files.len(),
    ensures
        parsed_files(files).len() == files.len(),
        parsed_files(files)[i].tag == files[i].tag@,
        parsed_source(files[i].src@) == Ok::<Seq<ItemModel>, Seq<char>>(
            parsed_files(files)[i].items,
        ),
{
    assert(parsed_source(files[i].src@) is Ok);
}

/// One file that does not parse is enough to refuse all.
pub proof fn law_unparsed_file_is_refused(files: Seq<HandlerFile>, i: int)
    requires
        0 <= i < files.len(),
        parsed_source(files[i].src@) is Err,
    ensures
        !all_parse(files),
{
    assert(parsed_source(files[i].src@) is Err);
}

} // verus!
