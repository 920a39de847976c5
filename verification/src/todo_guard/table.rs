//! The functions of all files: what each calls, and whether it is left to be written.

use vstd::prelude::*;

use crate::seqs::lemma_push_contains;
use crate::text::{chars_of, same_text};
use crate::todo_guard::handler_set::FnKey;
use crate::todo_guard::syntax::{
    Callee, CalleeModel, FnModel, FnSyntax, ItemModel, ItemSyntax, MacroModel, MacroSyntax,
    TokenModel, TokenSyntax,
};

verus! {

/// A call: the module that its path names, if any, and the function.
pub type CallKey = (Option<Seq<char>>, Seq<char>);

/// The macro with this path stands for code that is not written yet.
pub open spec fn is_todo_path(segments: Seq<Seq<char>>) -> bool {
    segments.len() > 0 && (segments.last() == "todo"@ || segments.last() == "unimplemented"@)
}

/// At this place of what a macro is given stands an invocation of a macro for code that is not
/// written yet: its name, an exclamation mark and a bracket.
pub open spec fn is_todo_at(tokens: Seq<TokenModel>, at: int) -> bool {
    &&& 0 <= at
    &&& at + 2 < tokens.len()
    &&& tokens[at] == TokenModel::Word("todo"@) || tokens[at] == TokenModel::Word(
        "unimplemented"@,
    )
    &&& tokens[at + 1] == TokenModel::Word("!"@)
    &&& tokens[at + 2] is Open
}

/// The invocation stands for code that is not written yet, or holds one that does.
pub open spec fn is_todo(mac: MacroModel) -> bool {
    is_todo_path(mac.path) || exists|at: int| is_todo_at(mac.tokens, at)
}

/// The call that a callee stands for: the last segment of its path is the function, the one
/// before it the module.
pub open spec fn call_of(callee: CalleeModel) -> Option<CallKey> {
    match callee {
        None => None,
        Some(segments) => if segments.len() == 0 {
            None
        } else if segments.len() == 1 {
            Some((None, segments.last()))
        } else {
            Some((Some(segments[segments.len() - 2]), segments.last()))
        },
    }
}

/// A name can begin with this character: a letter or an underscore.
pub open spec fn is_name_start(c: char) -> bool {
    c == '_' || 'a' <= c <= 'z' || 'A' <= c <= 'Z' || c as int >= 0x80
}

/// The word is a name.
pub open spec fn is_name(word: Seq<char>) -> bool {
    word.len() > 0 && is_name_start(word[0])
}

/// The token at `at` is this word.
pub open spec fn has_word(tokens: Seq<TokenModel>, at: int, word: Seq<char>) -> bool {
    0 <= at < tokens.len() && tokens[at] == TokenModel::Word(word)
}

/// What stands at `at` belongs to no call of a function: it follows a dot, as a method does, or
/// stands in the head of a function. Two dots are a range.
pub open spec fn is_no_callee(tokens: Seq<TokenModel>, at: int) -> bool {
    ||| has_word(tokens, at - 1, "fn"@)
    ||| has_word(tokens, at - 1, "."@) && !has_word(tokens, at - 2, "."@)
}

/// The module that stands before the name at `at`, if any.
pub open spec fn module_before(tokens: Seq<TokenModel>, at: int) -> Option<Seq<char>> {
    if has_word(tokens, at - 1, ":"@) && has_word(tokens, at - 2, ":"@) && at >= 3 {
        match tokens[at - 3] {
            TokenModel::Word(module) if is_name(module) => Some(module),
            _ => None,
        }
    } else {
        None
    }
}

/// The call that stands at `at` of what a macro is given: a name before a parenthesis, with the
/// module before it.
pub open spec fn call_at(tokens: Seq<TokenModel>, at: int) -> Option<CallKey> {
    if 0 <= at && at + 1 < tokens.len() && tokens[at + 1] == TokenModel::Open(Some('('))
        && !is_no_callee(tokens, at) {
        match tokens[at] {
            TokenModel::Word(name) if is_name(name) => Some((module_before(tokens, at), name)),
            _ => None,
        }
    } else {
        None
    }
}

/// The call is among these, or stands in what one of the macros is given.
pub open spec fn makes_call(
    calls: Seq<CalleeModel>,
    macros: Seq<MacroModel>,
    call: CallKey,
) -> bool {
    ||| exists|i: int| 0 <= i < calls.len() && call_of(#[trigger] calls[i]) == Some(call)
    ||| exists|m: int, at: int|
        0 <= m < macros.len() && #[trigger] call_at(macros[m].tokens, at) == Some(call)
}

/// What is known of a function.
pub struct InfoModel {
    /// Its own body holds a macro of [`is_todo`].
    pub has_direct_todo: bool,
    /// The calls in its body, those in what macros are given among them.
    pub calls: Set<CallKey>,
}

/// What the body of `f` says of it.
pub open spec fn info_of(f: FnModel) -> InfoModel {
    InfoModel {
        has_direct_todo: exists|i: int| 0 <= i < f.macros.len() && is_todo(#[trigger] f.macros[i]),
        calls: Set::new(|call: CallKey| makes_call(f.calls, f.macros, call)),
    }
}

/// All known functions, by key.
pub type TableModel = Map<FnKey, InfoModel>;

/// The function that `call`, made in the file `current_tag`, leads to. A call that names no
/// module stays in the file. `None` where the table has no such function.
pub open spec fn resolved(
    current_tag: Seq<char>,
    call: CallKey,
    table: TableModel,
) -> Option<FnKey> {
    let module = match call.0 {
        None => current_tag,
        Some(module) => module,
    };
    if table.contains_key((module, call.1)) {
        Some((module, call.1))
    } else {
        None
    }
}

/// `table` with the functions among `items` of the file `tag`. Of two functions with one key the
/// later stands.
pub open spec fn with_items(table: TableModel, tag: Seq<char>, items: Seq<ItemModel>) -> TableModel
    decreases items.len(),
{
    if items.len() == 0 {
        table
    } else {
        let before = with_items(table, tag, items.drop_last());
        match items.last() {
            ItemModel::Fn(f) => before.insert((tag, f.name), info_of(f)),
            ItemModel::Other => before,
        }
    }
}

/// What is known of a function.
#[derive(Debug)]
pub struct FnInfo {
    pub has_direct_todo: bool,
    pub calls: Vec<(Option<String>, String)>,
}

impl View for FnInfo {
    type V = InfoModel;

    open spec fn view(&self) -> InfoModel {
        InfoModel { has_direct_todo: self.has_direct_todo, calls: self.calls.deep_view().to_set() }
    }
}

/// A function of the table.
#[derive(Debug)]
pub struct TableEntry {
    pub tag: String,
    pub name: String,
    pub info: FnInfo,
}

impl TableEntry {
    pub open spec fn key(&self) -> FnKey {
        (self.tag@, self.name@)
    }
}

/// All known functions. No two entries have one key.
#[derive(Debug)]
pub struct FnTable {
    pub entries: Vec<TableEntry>,
}

impl View for FnTable {
    type V = TableModel;

    open spec fn view(&self) -> TableModel {
        Map::new(
            |key: FnKey| self.has_key(key),
            |key: FnKey|
                self.entries@[choose|i: int|
                    0 <= i < self.entries@.len() && #[trigger] self.entries@[i].key() == key].info@,
        )
    }
}

impl FnTable {
    /// Some entry has this key.
    pub open spec fn has_key(&self, key: FnKey) -> bool {
        exists|i: int| 0 <= i < self.entries@.len() && #[trigger] self.entries@[i].key() == key
    }

    /// No two entries have one key.
    pub open spec fn wf(&self) -> bool {
        forall|i: int, j: int|
            0 <= i < j < self.entries@.len() ==> #[trigger] self.entries@[i].key()
                != #[trigger] self.entries@[j].key()
    }

    /// The entry at `i` is what the table holds under its key.
    pub proof fn lemma_entry(&self, i: int)
        requires
            self.wf(),
            0 <= i < self.entries@.len(),
        ensures
            self@.contains_key(self.entries@[i].key()),
            self@[self.entries@[i].key()] == self.entries@[i].info@,
    {
        let key = self.entries@[i].key();
        let j = choose|j: int| 0 <= j < self.entries@.len() && #[trigger] self.entries@[j].key() == key;
        assert(j == i);
    }

    /// The table without functions.
    pub fn new() -> (table: Self)
        ensures
            table.wf(),
            table@ == TableModel::empty(),
    {
        let table = FnTable { entries: Vec::new() };
        assert(table@ =~= TableModel::empty());
        table
    }

    /// The position of the entry for the function `name` of the file `tag`.
    pub fn position(&self, tag: &str, name: &str) -> (at: Option<usize>)
        requires
            self.wf(),
        ensures
            at is Some <==> self@.contains_key((tag@, name@)),
            at matches Some(i) ==> i < self.entries@.len() && self.entries@[i as int].key() == (
                tag@,
                name@,
            ),
    {
        let mut i: usize = 0;
        while i < self.entries.len()
            invariant
                i <= self.entries.len(),
                forall|j: int| 0 <= j < i ==> #[trigger] self.entries@[j].key() != (tag@, name@),
            decreases self.entries.len() - i,
        {
            if same_text(self.entries[i].tag.as_str(), tag) && same_text(
                self.entries[i].name.as_str(),
                name,
            ) {
                assert(self.entries@[i as int].key() == (tag@, name@));
                return Some(i);
            }
            i += 1;
        }
        None
    }

    /// Enters a function. One that stands under the same key is replaced.
    pub fn insert(&mut self, tag: &str, name: &str, info: FnInfo)
        requires
            old(self).wf(),
        ensures
            final(self).wf(),
            final(self)@ == old(self)@.insert((tag@, name@), info@),
    {
        let ghost before = *self;
        let ghost key: FnKey = (tag@, name@);
        let entry = TableEntry { tag: tag.to_owned(), name: name.to_owned(), info };
        match self.position(tag, name) {
            Some(at) => {
                self.entries.set(at, entry);
                proof {
                    assert forall|i: int| 0 <= i < self.entries@.len() implies #[trigger] self.entries@[i].key()
                        == before.entries@[i].key() by {}
                    assert forall|k: FnKey| self.has_key(k) == before.has_key(k) by {
                        if before.has_key(k) {
                            let i = choose|i: int|
                                0 <= i < before.entries@.len() && #[trigger] before.entries@[i].key() == k;
                            assert(self.entries@[i].key() == k);
                        }
                    }
                    assert(self.wf());
                    assert(self@.dom() =~= before@.insert(key, info@).dom());
                    assert forall|k: FnKey| self@.contains_key(k) implies #[trigger] self@[k]
                        == before@.insert(key, info@)[k] by {
                        let i = choose|i: int|
                            0 <= i < self.entries@.len() && #[trigger] self.entries@[i].key() == k;
                        self.lemma_entry(i);
                        before.lemma_entry(i);
                    }
                    assert(self@ =~= before@.insert(key, info@));
                }
            },
            None => {
                self.entries.push(entry);
                proof {
                    let last = before.entries@.len() as int;
                    assert(self.entries@[last].key() == key);
                    assert forall|i: int| 0 <= i < last implies #[trigger] self.entries@[i]
                        == before.entries@[i] by {}
                    assert forall|i: int| 0 <= i < last implies #[trigger] before.entries@[i].key() != key by {
                        before.lemma_entry(i);
                    }
                    assert(self.wf());
                    assert forall|k: FnKey| self.has_key(k) == (before.has_key(k) || k == key) by {
                        if before.has_key(k) {
                            let i = choose|i: int|
                                0 <= i < before.entries@.len() && #[trigger] before.entries@[i].key() == k;
                            assert(self.entries@[i].key() == k);
                        }
                    }
                    assert(self@.dom() =~= before@.insert(key, info@).dom());
                    assert forall|k: FnKey| self@.contains_key(k) implies #[trigger] self@[k]
                        == before@.insert(key, info@)[k] by {
                        let i = choose|i: int|
                            0 <= i < self.entries@.len() && #[trigger] self.entries@[i].key() == k;
                        self.lemma_entry(i);
                        if i < last {
                            before.lemma_entry(i);
                        }
                    }
                    assert(self@ =~= before@.insert(key, info@));
                }
            },
        }
    }
}

/// Whether the token is this word.
fn is_word(token: &TokenSyntax, text: &str) -> (same: bool)
    ensures
        same == (token.deep_view() == TokenModel::Word(text@)),
{
    match token {
        TokenSyntax::Word(word) => same_text(word.as_str(), text),
        _ => false,
    }
}

/// Whether the invocation stands for code that is not written yet, or holds one that does.
pub fn is_todo_macro(mac: &MacroSyntax) -> (todo: bool)
    ensures
        todo == is_todo(mac.deep_view()),
{
    if mac.path.len() > 0 {
        let last: &str = mac.path[mac.path.len() - 1].as_str();
        if same_text(last, "todo") || same_text(last, "unimplemented") {
            return true;
        }
    }
    let ghost tokens = mac.tokens.deep_view();
    let mut at: usize = 0;
    while at < mac.tokens.len() && mac.tokens.len() - at > 2
        invariant
            tokens == mac.tokens.deep_view(),
            at <= mac.tokens.len(),
            forall|j: int| 0 <= j < at ==> !is_todo_at(tokens, j),
        decreases mac.tokens.len() - at,
    {
        assert(tokens[at as int] == mac.tokens@[at as int].deep_view());
        assert(tokens[at + 1] == mac.tokens@[at + 1].deep_view());
        assert(tokens[at + 2] == mac.tokens@[at + 2].deep_view());
        let named: bool = is_word(&mac.tokens[at], "todo") || is_word(
            &mac.tokens[at],
            "unimplemented",
        );
        let opens: bool = match &mac.tokens[at + 2] {
            TokenSyntax::Open(_) => true,
            _ => false,
        };
        if named && is_word(&mac.tokens[at + 1], "!") && opens {
            assert(is_todo_at(mac.deep_view().tokens, at as int));
            return true;
        }
        at += 1;
    }
    false
}

/// The call that a callee stands for: the last segment of its path is the function, the one
/// before it the module.
pub fn path_call(callee: &Callee) -> (call: Option<(Option<String>, String)>)
    ensures
        call.deep_view() == call_of(callee.deep_view()),
{
    match callee {
        None => None,
        Some(segments) => {
            if segments.len() == 0 {
                return None;
            }
            let last: String = segments[segments.len() - 1].clone();
            if segments.len() == 1 {
                Some((None, last))
            } else {
                Some((Some(segments[segments.len() - 2].clone()), last))
            }
        },
    }
}

/// The function that `call`, made in the file `current_tag`, leads to. A call that names no
/// module stays in the file. `None` where the table has no such function.
pub fn resolve_call(
    current_tag: &str,
    call: &(Option<String>, String),
    table: &FnTable,
) -> (key: Option<(String, String)>)
    requires
        table.wf(),
    ensures
        key.deep_view() == resolved(current_tag@, call.deep_view(), table@),
{
    let module: String = match &call.0 {
        None => current_tag.to_owned(),
        Some(module) => module.clone(),
    };
    let name: String = call.1.clone();
    if table.position(module.as_str(), name.as_str()).is_some() {
        Some((module, name))
    } else {
        None
    }
}

/// Whether a name can begin with this character.
fn begins_name(c: char) -> (begins: bool)
    ensures
        begins == is_name_start(c),
{
    let code: u32 = c as u32;
    c == '_' || (0x61 <= code && code <= 0x7a) || (0x41 <= code && code <= 0x5a) || code >= 0x80
}

/// Whether the word is a name.
fn is_name_word(word: &str) -> (name: bool)
    ensures
        name == is_name(word@),
{
    let chars = chars_of(word);
    if chars.len() == 0 {
        return false;
    }
    begins_name(chars[0])
}

/// Whether the token `back` places before `at` is this word.
fn is_word_before(tokens: &Vec<TokenSyntax>, at: usize, back: usize, text: &str) -> (same: bool)
    requires
        at < tokens.len(),
        0 < back,
    ensures
        same == has_word(tokens.deep_view(), at - back, text@),
{
    if back > at {
        return false;
    }
    assert(tokens.deep_view()[at - back] == tokens@[at - back].deep_view());
    is_word(&tokens[at - back], text)
}

/// The call that stands at `at` of what a macro is given.
fn token_call(tokens: &Vec<TokenSyntax>, at: usize) -> (call: Option<(Option<String>, String)>)
    requires
        at < tokens.len(),
    ensures
        call.deep_view() == call_at(tokens.deep_view(), at as int),
{
    let ghost models = tokens.deep_view();
    assert(models[at as int] == tokens@[at as int].deep_view());
    if tokens.len() - at < 2 {
        return None;
    }
    assert(models[at + 1] == tokens@[at + 1].deep_view());
    let opens: bool = match &tokens[at + 1] {
        TokenSyntax::Open(Some(bracket)) => *bracket == '(',
        _ => false,
    };
    let is_method: bool = is_word_before(tokens, at, 1, ".") && !is_word_before(tokens, at, 2, ".");
    if !opens || is_method || is_word_before(tokens, at, 1, "fn") {
        return None;
    }
    let name: String = match &tokens[at] {
        TokenSyntax::Word(word) => {
            if !is_name_word(word.as_str()) {
                return None;
            }
            word.clone()
        },
        _ => {
            return None;
        },
    };
    if at >= 3 && is_word_before(tokens, at, 1, ":") && is_word_before(tokens, at, 2, ":") {
        assert(models[at - 3] == tokens@[at - 3].deep_view());
        match &tokens[at - 3] {
            TokenSyntax::Word(module) => {
                if is_name_word(module.as_str()) {
                    return Some((Some(module.clone()), name));
                }
            },
            _ => {},
        }
    }
    Some((None, name))
}

/// Appends the calls that stand in what a macro is given.
fn add_token_calls(tokens: &Vec<TokenSyntax>, calls: &mut Vec<(Option<String>, String)>)
    ensures
        forall|call: CallKey|
            #![trigger final(calls).deep_view().contains(call)]
            final(calls).deep_view().contains(call) <==> old(calls).deep_view().contains(call)
                || exists|at: int| #[trigger] call_at(tokens.deep_view(), at) == Some(call),
{
    let ghost before = calls.deep_view();
    let ghost models = tokens.deep_view();
    let mut i: usize = 0;
    while i < tokens.len()
        invariant
            models == tokens.deep_view(),
            i <= tokens.len(),
            forall|call: CallKey|
                #![trigger calls.deep_view().contains(call)]
                calls.deep_view().contains(call) <==> before.contains(call) || exists|at: int|
                    0 <= at < i && #[trigger] call_at(models, at) == Some(call),
        decreases tokens.len() - i,
    {
        let ghost so_far = calls.deep_view();
        let ghost found = call_at(models, i as int);
        match token_call(tokens, i) {
            None => {},
            Some(call) => {
                let ghost key: CallKey = call.deep_view();
                calls.push(call);
                proof {
                    assert(calls.deep_view() =~= so_far.push(key));
                    lemma_push_contains(so_far, key);
                }
            },
        }
        proof {
            assert forall|k: CallKey|
                #![trigger calls.deep_view().contains(k)]
                calls.deep_view().contains(k) <==> before.contains(k) || exists|at: int|
                    0 <= at < i + 1 && #[trigger] call_at(models, at) == Some(k) by {
                assert(calls.deep_view().contains(k) == (so_far.contains(k) || found == Some(k)));
                if so_far.contains(k) && !before.contains(k) {
                    let at = choose|at: int| 0 <= at < i && #[trigger] call_at(models, at) == Some(k);
                    assert(0 <= at < i + 1 && call_at(models, at) == Some(k));
                }
            }
        }
        i += 1;
    }
}

/// These calls, and those that stand in what the macros are given.
pub fn calls_in(callees: &Vec<Callee>, macros: &Vec<MacroSyntax>) -> (calls: Vec<
    (Option<String>, String),
>)
    ensures
        forall|call: CallKey| #[trigger]
            calls.deep_view().contains(call) <==> makes_call(
                callees.deep_view(),
                macros.deep_view(),
                call,
            ),
{
    let mut calls: Vec<(Option<String>, String)> = Vec::new();
    let ghost models = callees.deep_view();
    let ghost invoked = macros.deep_view();
    assert(calls.deep_view() =~= Seq::<CallKey>::empty());
    let mut i: usize = 0;
    while i < callees.len()
        invariant
            models == callees.deep_view(),
            i <= callees.len(),
            forall|call: CallKey|
                #![trigger calls.deep_view().contains(call)]
                calls.deep_view().contains(call) <==> exists|j: int|
                    0 <= j < i && call_of(#[trigger] models[j]) == Some(call),
        decreases callees.len() - i,
    {
        let ghost before = calls.deep_view();
        assert(models[i as int] == callees@[i as int].deep_view());
        let ghost found = call_of(models[i as int]);
        match path_call(&callees[i]) {
            None => {},
            Some(call) => {
                let ghost key: CallKey = call.deep_view();
                calls.push(call);
                proof {
                    assert(calls.deep_view() =~= before.push(key));
                    lemma_push_contains(before, key);
                }
            },
        }
        proof {
            assert forall|k: CallKey|
                #![trigger calls.deep_view().contains(k)]
                calls.deep_view().contains(k) <==> exists|j: int|
                    0 <= j < i + 1 && call_of(#[trigger] models[j]) == Some(k) by {
                assert(calls.deep_view().contains(k) == (before.contains(k) || found == Some(k)));
                if before.contains(k) {
                    let j = choose|j: int| 0 <= j < i && call_of(#[trigger] models[j]) == Some(k);
                    assert(0 <= j < i + 1 && call_of(models[j]) == Some(k));
                }
            }
        }
        i += 1;
    }
    let ghost direct = calls.deep_view();
    let mut m: usize = 0;
    while m < macros.len()
        invariant
            invoked == macros.deep_view(),
            m <= macros.len(),
            forall|call: CallKey|
                #![trigger calls.deep_view().contains(call)]
                calls.deep_view().contains(call) <==> direct.contains(call) || exists|j: int, at: int|
                    0 <= j < m && #[trigger] call_at(invoked[j].tokens, at) == Some(call),
        decreases macros.len() - m,
    {
        let ghost before = calls.deep_view();
        assert(invoked[m as int] == macros@[m as int].deep_view());
        add_token_calls(&macros[m].tokens, &mut calls);
        proof {
            assert forall|k: CallKey|
                #![trigger calls.deep_view().contains(k)]
                calls.deep_view().contains(k) <==> direct.contains(k) || exists|j: int, at: int|
                    0 <= j < m + 1 && #[trigger] call_at(invoked[j].tokens, at) == Some(k) by {
                if before.contains(k) && !direct.contains(k) {
                    let (j, at) = choose|j: int, at: int|
                        0 <= j < m && #[trigger] call_at(invoked[j].tokens, at) == Some(k);
                    assert(0 <= j < m + 1 && call_at(invoked[j].tokens, at) == Some(k));
                }
                if calls.deep_view().contains(k) && !before.contains(k) {
                    let at = choose|at: int|
                        #[trigger] call_at(invoked[m as int].tokens, at) == Some(k);
                    assert(0 <= m < m + 1 && call_at(invoked[m as int].tokens, at) == Some(k));
                }
            }
        }
        m += 1;
    }
    calls
}

/// What the body of `f` says of it.
pub fn fn_info(f: &FnSyntax) -> (info: FnInfo)
    ensures
        info@ == info_of(f.deep_view()),
{
    let mut has_direct_todo = false;
    let mut i: usize = 0;
    while i < f.macros.len()
        invariant
            i <= f.macros.len(),
            has_direct_todo == exists|j: int|
                0 <= j < i && is_todo(#[trigger] f.macros.deep_view()[j]),
        decreases f.macros.len() - i,
    {
        let todo = is_todo_macro(&f.macros[i]);
        assert(f.macros.deep_view()[i as int] == f.macros@[i as int].deep_view());
        if todo {
            has_direct_todo = true;
        }
        i += 1;
    }
    assert(has_direct_todo == info_of(f.deep_view()).has_direct_todo);
    let calls = calls_in(&f.calls, &f.macros);
    let info = FnInfo { has_direct_todo, calls };
    assert(info@.calls =~= info_of(f.deep_view()).calls);
    info
}

/// Enters the functions among `items` of the file `tag`.
pub fn add_items(table: &mut FnTable, tag: &str, items: &Vec<ItemSyntax>)
    requires
        old(table).wf(),
    ensures
        final(table).wf(),
        final(table)@ == with_items(old(table)@, tag@, items.deep_view()),
{
    let ghost models = items.deep_view();
    let mut i: usize = 0;
    while i < items.len()
        invariant
            models == items.deep_view(),
            i <= items.len(),
            table.wf(),
            table@ == with_items(old(table)@, tag@, models.take(i as int)),
        decreases items.len() - i,
    {
        assert(models.take(i + 1).drop_last() =~= models.take(i as int));
        assert(models.take(i + 1).last() == items@[i as int].deep_view());
        match &items[i] {
            ItemSyntax::Fn(f) => {
                let info = fn_info(f);
                table.insert(tag, f.name.as_str(), info);
            },
            ItemSyntax::Other => {},
        }
        i += 1;
    }
    assert(models.take(models.len() as int) =~= models);
}

} // verus!
