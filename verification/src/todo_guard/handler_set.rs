//! An ordered set of handlers, each named by the tag of its file and its function name.

use vstd::prelude::*;

use crate::text::{
    is_text_less, lemma_text_less_irreflexive, lemma_text_less_total, lemma_text_less_transitive,
    same_text, text_less,
};

verus! {

/// A function, named by the tag of the file that it stands in and its own name.
pub type FnKey = (Seq<char>, Seq<char>);

/// The order on function keys: by tag, then by name.
pub open spec fn key_less(a: FnKey, b: FnKey) -> bool {
    text_less(a.0, b.0) || (a.0 == b.0 && text_less(a.1, b.1))
}

proof fn lemma_key_less_irreflexive(a: FnKey)
    ensures
        !key_less(a, a),
{
    lemma_text_less_irreflexive(a.0);
    lemma_text_less_irreflexive(a.1);
}

proof fn lemma_key_less_total(a: FnKey, b: FnKey)
    ensures
        key_less(a, b) || key_less(b, a) || a == b,
{
    lemma_text_less_total(a.0, b.0);
    lemma_text_less_total(a.1, b.1);
}

proof fn lemma_key_less_transitive(a: FnKey, b: FnKey, c: FnKey)
    requires
        key_less(a, b),
        key_less(b, c),
    ensures
        key_less(a, c),
{
    if text_less(a.0, b.0) && text_less(b.0, c.0) {
        lemma_text_less_transitive(a.0, b.0, c.0);
    }
    if a.0 == b.0 && b.0 == c.0 {
        lemma_text_less_irreflexive(a.0);
        lemma_text_less_transitive(a.1, b.1, c.1);
    }
}

/// Each key stands before all that follow it.
pub open spec fn strictly_increasing(keys: Seq<FnKey>) -> bool {
    forall|i: int, j: int| 0 <= i < j < keys.len() ==> key_less(#[trigger] keys[i], #[trigger] keys[j])
}

/// A set of handlers. The entries are kept in order, each once.
#[derive(Debug, PartialEq, Eq)]
pub struct HandlerSet {
    pub entries: Vec<(String, String)>,
}

impl View for HandlerSet {
    type V = Set<FnKey>;

    open spec fn view(&self) -> Set<FnKey> {
        self.keys().to_set()
    }
}

impl HandlerSet {
    /// The keys of the entries, in the order in which they are kept.
    pub open spec fn keys(&self) -> Seq<FnKey> {
        self.entries.deep_view()
    }

    /// The entries stand in order, and none occurs twice.
    pub open spec fn wf(&self) -> bool {
        strictly_increasing(self.keys())
    }

    /// The set without elements.
    pub fn new() -> (set: Self)
        ensures
            set.wf(),
            set@ == Set::<FnKey>::empty(),
    {
        let set = HandlerSet { entries: Vec::new() };
        assert(set@ =~= Set::<FnKey>::empty());
        set
    }

    /// Adds a handler. One that is already there is kept once.
    pub fn insert(&mut self, tag: &str, name: &str)
        requires
            old(self).wf(),
        ensures
            final(self).wf(),
            final(self)@ == old(self)@.insert((tag@, name@)),
    {
        let ghost key: FnKey = (tag@, name@);
        let ghost before = self.keys();
        let mut at: usize = 0;
        while at < self.entries.len() && Self::stands_before(&self.entries[at], tag, name)
            invariant
                *self == *old(self),
                key == (tag@, name@),
                before == self.keys(),
                at <= self.entries.len(),
                forall|i: int| 0 <= i < at ==> key_less(#[trigger] before[i], key),
            decreases self.entries.len() - at,
        {
            at += 1;
        }
        if at < self.entries.len() && same_text(self.entries[at].0.as_str(), tag) && same_text(
            self.entries[at].1.as_str(),
            name,
        ) {
            assert(before[at as int] == key);
            assert(before.to_set().insert(key) =~= before.to_set());
            return;
        }
        self.entries.insert(at, (tag.to_owned(), name.to_owned()));
        proof {
            let after = self.keys();
            assert(after =~= before.insert(at as int, key));
            assert forall|i: int, j: int| 0 <= i < j < after.len() implies key_less(
                #[trigger] after[i],
                #[trigger] after[j],
            ) by {
                if at < before.len() {
                    lemma_key_less_total(before[at as int], key);
                    if j > at && i <= at {
                        if before[at as int] != before[j - 1] {
                            assert(key_less(before[at as int], before[j - 1]));
                            lemma_key_less_transitive(key, before[at as int], before[j - 1]);
                        }
                    }
                }
                if i < at {
                    assert(after[i] == before[i]);
                    if at < j {
                        lemma_key_less_transitive(before[i], key, before[j - 1]);
                    }
                }
            }
            assert(after.to_set() =~= before.to_set().insert(key)) by {
                assert forall|k: FnKey| before.contains(k) || k == key implies after.contains(k) by {
                    if k == key {
                        assert(after[at as int] == key);
                    } else {
                        let i = choose|i: int| 0 <= i < before.len() && before[i] == k;
                        if i < at {
                            assert(after[i] == k);
                        } else {
                            assert(after[i + 1] == k);
                        }
                    }
                }
                assert forall|k: FnKey| after.contains(k) implies before.contains(k) || k == key by {
                    let i = choose|i: int| 0 <= i < after.len() && after[i] == k;
                    if i < at {
                        assert(before[i] == k);
                    } else if i > at {
                        assert(before[i - 1] == k);
                    }
                }
            }
        }
    }

    /// Whether both sets have the same elements.
    pub fn same_as(&self, other: &HandlerSet) -> (same: bool)
        requires
            self.wf(),
            other.wf(),
        ensures
            same == (self@ == other@),
    {
        if self.entries.len() != other.entries.len() {
            proof {
                if self@ == other@ {
                    law_entries_are_canonical(*self, *other);
                }
            }
            return false;
        }
        let mut i: usize = 0;
        while i < self.entries.len()
            invariant
                self.wf(),
                other.wf(),
                self.entries.len() == other.entries.len(),
                i <= self.entries.len(),
                forall|j: int| 0 <= j < i ==> #[trigger] self.keys()[j] == other.keys()[j],
            decreases self.entries.len() - i,
        {
            if !(same_text(self.entries[i].0.as_str(), other.entries[i].0.as_str()) && same_text(
                self.entries[i].1.as_str(),
                other.entries[i].1.as_str(),
            )) {
                proof {
                    assert(self.keys()[i as int] != other.keys()[i as int]);
                    if self@ == other@ {
                        law_entries_are_canonical(*self, *other);
                    }
                }
                return false;
            }
            i += 1;
        }
        assert(self.keys() =~= other.keys());
        true
    }

    /// Whether `entry` stands before the handler `name` of the file `tag`.
    fn stands_before(entry: &(String, String), tag: &str, name: &str) -> (before: bool)
        ensures
            before == key_less(entry.deep_view(), (tag@, name@)),
    {
        is_text_less(entry.0.as_str(), tag) || (same_text(entry.0.as_str(), tag) && is_text_less(
            entry.1.as_str(),
            name,
        ))
    }
}

proof fn lemma_increasing_seqs_of_one_set(a: Seq<FnKey>, b: Seq<FnKey>)
    requires
        strictly_increasing(a),
        strictly_increasing(b),
        a.to_set() == b.to_set(),
    ensures
        a == b,
    decreases a.len(),
{
    if a.len() == 0 {
        if b.len() > 0 {
            assert(b.to_set().contains(b[0]));
            assert(a.to_set().contains(b[0]));
        }
        assert(a =~= b);
    } else if b.len() == 0 {
        assert(a.to_set().contains(a[0]));
        assert(b.to_set().contains(a[0]));
    } else {
        assert(a.to_set().contains(a.last()) && b.to_set().contains(b.last()));
        assert(b.contains(a.last()) && a.contains(b.last()));
        let i = choose|i: int| 0 <= i < b.len() && b[i] == a.last();
        let j = choose|j: int| 0 <= j < a.len() && a[j] == b.last();
        if a.last() != b.last() {
            assert(key_less(b[i], b[b.len() - 1]));
            assert(key_less(a[j], a[a.len() - 1]));
            lemma_key_less_transitive(a.last(), b.last(), a.last());
            lemma_key_less_irreflexive(a.last());
        }
        assert forall|k: FnKey| a.drop_last().contains(k) implies b.drop_last().contains(k) by {
            lemma_drop_last_contains(a, b, k);
        }
        assert forall|k: FnKey| b.drop_last().contains(k) implies a.drop_last().contains(k) by {
            lemma_drop_last_contains(b, a, k);
        }
        assert(a.drop_last().to_set() =~= b.drop_last().to_set());
        lemma_increasing_seqs_of_one_set(a.drop_last(), b.drop_last());
        assert(a =~= a.drop_last().push(a.last()));
        assert(b =~= b.drop_last().push(b.last()));
    }
}

proof fn lemma_drop_last_contains(a: Seq<FnKey>, b: Seq<FnKey>, k: FnKey)
    requires
        strictly_increasing(a),
        a.to_set() == b.to_set(),
        a.len() > 0,
        b.len() > 0,
        a.last() == b.last(),
        a.drop_last().contains(k),
    ensures
        b.drop_last().contains(k),
{
    let i = choose|i: int| 0 <= i < a.drop_last().len() && a.drop_last()[i] == k;
    assert(a[i] == k);
    assert(key_less(a[i], a[a.len() - 1]));
    lemma_key_less_irreflexive(k);
    assert(a.to_set().contains(k));
    assert(b.to_set().contains(k));
    let j = choose|j: int| 0 <= j < b.len() && b[j] == k;
    assert(b.drop_last()[j] == k);
}

/// Two sets with the same elements keep the same entries in the same order.
pub proof fn law_entries_are_canonical(a: HandlerSet, b: HandlerSet)
    requires
        a.wf(),
        b.wf(),
        a@ == b@,
    ensures
        a.keys() == b.keys(),
{
    lemma_increasing_seqs_of_one_set(a.keys(), b.keys());
}

/// Handlers are ordered by their tags, and those with one tag by their names.
pub proof fn law_handlers_are_ordered_by_tag(a: FnKey, b: FnKey)
    ensures
        text_less(a.0, b.0) ==> key_less(a, b) && !key_less(b, a),
        a.0 == b.0 ==> (key_less(a, b) <==> text_less(a.1, b.1)),
{
    lemma_text_less_irreflexive(a.0);
    if text_less(a.0, b.0) && text_less(b.0, a.0) {
        lemma_text_less_transitive(a.0, b.0, a.0);
    }
}

} // verus!
