//! Small tables keyed by strings: a map and a set, each with its mathematical
//! view, and their keys in ascending order.

use vstd::prelude::*;

use crate::text::{comes_before, same_text};

verus! {

/// A map from strings. A later entry for a key wins over an earlier one.
pub struct TextTable<V> {
    entries: Vec<(String, V)>,
}

/// The map that a list of entries stands for.
pub open spec fn entries_map<V>(entries: Seq<(String, V)>) -> Map<Seq<char>, V>
    decreases entries.len(),
{
    if entries.len() == 0 {
        Map::empty()
    } else {
        entries_map(entries.drop_last()).insert(entries.last().0@, entries.last().1)
    }
}

impl<V> View for TextTable<V> {
    type V = Map<Seq<char>, V>;

    closed spec fn view(&self) -> Map<Seq<char>, V> {
        entries_map(self.entries@)
    }
}

proof fn lemma_entries_key<V>(entries: Seq<(String, V)>, key: Seq<char>)
    ensures
        entries_map(entries).contains_key(key) <==> exists|i: int|
            0 <= i < entries.len() && (#[trigger] entries[i]).0@ == key,
    decreases entries.len(),
{
    if entries.len() > 0 {
        lemma_entries_key(entries.drop_last(), key);
        if entries_map(entries).contains_key(key) && entries.last().0@ != key {
            let i = choose|i: int|
                0 <= i < entries.drop_last().len() && (#[trigger] entries.drop_last()[i]).0@ == key;
            assert(entries[i].0@ == key);
        }
        if exists|i: int| 0 <= i < entries.len() && (#[trigger] entries[i]).0@ == key {
            let i = choose|i: int| 0 <= i < entries.len() && (#[trigger] entries[i]).0@ == key;
            if i < entries.len() - 1 {
                assert(entries.drop_last()[i].0@ == key);
            } else {
                assert(entries.last().0@ == key);
            }
        }
    }
}

proof fn lemma_entries_remove<V>(entries: Seq<(String, V)>, i: int, key: Seq<char>)
    requires
        0 <= i < entries.len(),
        entries[i].0@ == key,
    ensures
        entries_map(entries.remove(i)).remove(key) =~= entries_map(entries).remove(key),
    decreases entries.len(),
{
    if i == entries.len() - 1 {
        assert(entries.remove(i) =~= entries.drop_last());
        assert(entries_map(entries) == entries_map(entries.drop_last()).insert(
            key,
            entries.last().1,
        ));
        assert(entries_map(entries.remove(i)).remove(key) =~= entries_map(entries).remove(key));
    } else {
        lemma_entries_remove(entries.drop_last(), i, key);
        assert(entries.remove(i).drop_last() =~= entries.drop_last().remove(i));
        assert(entries.remove(i).last() == entries.last());
        let left = entries_map(entries.drop_last().remove(i));
        let right = entries_map(entries.drop_last());
        assert forall|k: Seq<char>|
            #![trigger left.dom().contains(k)]
            #![trigger left[k]]
            k != key implies left.dom().contains(k) == right.dom().contains(k) && (
        left.dom().contains(k) ==> left[k] == right[k]) by {
            assert(left.remove(key).dom().contains(k) == right.remove(key).dom().contains(k));
            assert(left.dom().contains(k) ==> left.remove(key)[k] == right.remove(key)[k]);
        }
        let last = entries.last();
        assert(entries_map(entries.remove(i)) == left.insert(last.0@, last.1));
        assert(entries_map(entries) == right.insert(last.0@, last.1));
        assert(left.insert(last.0@, last.1).remove(key) =~= right.insert(last.0@, last.1).remove(
            key,
        ));
    }
}

proof fn lemma_entries_suffix<V>(entries: Seq<(String, V)>, i: int, key: Seq<char>)
    requires
        0 <= i <= entries.len(),
        forall|k: int| i <= k < entries.len() ==> (#[trigger] entries[k]).0@ != key,
    ensures
        entries_map(entries).contains_key(key) <==> entries_map(entries.take(i)).contains_key(key),
        entries_map(entries).contains_key(key) ==> entries_map(entries)[key] == entries_map(
            entries.take(i),
        )[key],
    decreases entries.len(),
{
    if i == entries.len() {
        assert(entries.take(i) =~= entries);
    } else {
        assert(entries.last().0@ != key);
        lemma_entries_suffix(entries.drop_last(), i, key);
        assert(entries.drop_last().take(i) =~= entries.take(i));
    }
}

impl<V> TextTable<V> {
    /// The empty table.
    pub fn new() -> (table: Self)
        ensures
            table@ == Map::<Seq<char>, V>::empty(),
    {
        TextTable { entries: Vec::new() }
    }

    /// The value stored for `key`.
    pub fn get(&self, key: &str) -> (value: Option<&V>)
        ensures
            value is Some <==> self@.contains_key(key@),
            value matches Some(value) ==> *value == self@[key@],
    {
        let mut i: usize = self.entries.len();
        while i > 0
            invariant
                0 <= i <= self.entries.len(),
                forall|k: int| i <= k < self.entries.len() ==> (#[trigger] self.entries@[k]).0@ != key@,
            decreases i,
        {
            i -= 1;
            if same_text(self.entries[i].0.as_str(), key) {
                proof {
                    let taken = self.entries@.take(i + 1);
                    lemma_entries_suffix(self.entries@, i + 1, key@);
                    assert(taken.last() == self.entries@[i as int]);
                }
                return Some(&self.entries[i].1);
            }
        }
        proof {
            lemma_entries_key(self.entries@, key@);
        }
        None
    }

    /// Whether a value is stored for `key`.
    pub fn contains_key(&self, key: &str) -> (found: bool)
        ensures
            found == self@.contains_key(key@),
    {
        self.get(key).is_some()
    }

    /// Forgets `key`.
    pub fn remove(&mut self, key: &str)
        ensures
            final(self)@ == old(self)@.remove(key@),
    {
        let mut i: usize = 0;
        while i < self.entries.len()
            invariant
                0 <= i <= self.entries.len(),
                forall|k: int| 0 <= k < i ==> (#[trigger] self.entries@[k]).0@ != key@,
                entries_map(self.entries@).remove(key@) == old(self)@.remove(key@),
            decreases self.entries.len() - i,
        {
            if same_text(self.entries[i].0.as_str(), key) {
                proof {
                    lemma_entries_remove(self.entries@, i as int, key@);
                }
                let _ = self.entries.remove(i);
            } else {
                i += 1;
            }
        }
        proof {
            lemma_entries_key(self.entries@, key@);
            assert(entries_map(self.entries@).remove(key@) =~= entries_map(self.entries@));
        }
    }

    /// Stores `value` for `key`, over any earlier value.
    pub fn insert(&mut self, key: String, value: V)
        ensures
            final(self)@ == old(self)@.insert(key@, value),
    {
        self.remove(key.as_str());
        let ghost before = self.entries@;
        self.entries.push((key, value));
        proof {
            assert(self.entries@.drop_last() =~= before);
            assert(self@ =~= old(self)@.insert(key@, value));
        }
    }

    /// The keys in ascending order.
    pub fn keys(&self) -> (keys: Vec<String>)
        ensures
            crate::text::ascending(crate::text::text_views(keys@)),
            forall|key: Seq<char>|
                crate::text::text_views(keys@).contains(key) <==> #[trigger] self@.contains_key(key),
    {
        let mut keys: TextSet = TextSet::new();
        let mut i: usize = 0;
        while i < self.entries.len()
            invariant
                0 <= i <= self.entries.len(),
                forall|key: Seq<char>| #[trigger]
                    keys@.contains(key) <==> exists|k: int|
                        0 <= k < i && (#[trigger] self.entries@[k]).0@ == key,
            decreases self.entries.len() - i,
        {
            let ghost before = keys@;
            keys.insert(self.entries[i].0.clone());
            proof {
                assert forall|key: Seq<char>| #[trigger] keys@.contains(key) implies exists|k: int|
                    0 <= k < i + 1 && (#[trigger] self.entries@[k]).0@ == key by {
                    if key == self.entries@[i as int].0@ {
                    } else {
                        assert(before.contains(key));
                    }
                }
            }
            i += 1;
        }
        let sorted = keys.sorted();
        proof {
            assert forall|key: Seq<char>|
                crate::text::text_views(sorted@).contains(key) <==> #[trigger] self@.contains_key(
                    key,
                ) by {
                lemma_entries_key(self.entries@, key);
                assert(keys@.contains(key) <==> exists|k: int|
                    0 <= k < self.entries.len() && (#[trigger] self.entries@[k]).0@ == key);
            }
        }
        sorted
    }
}

/// A set of strings.
pub struct TextSet {
    items: Vec<String>,
}

impl View for TextSet {
    type V = Set<Seq<char>>;

    closed spec fn view(&self) -> Set<Seq<char>> {
        crate::text::text_views(self.items@).to_set()
    }
}

impl TextSet {
    closed spec fn texts(&self) -> Seq<Seq<char>> {
        crate::text::text_views(self.items@)
    }

    /// The empty set.
    pub fn new() -> (set: Self)
        ensures
            set@ == Set::<Seq<char>>::empty(),
    {
        let set = TextSet { items: Vec::new() };
        assert(set@ =~= Set::<Seq<char>>::empty());
        set
    }

    /// Whether the set holds `text`.
    pub fn contains(&self, text: &str) -> (found: bool)
        ensures
            found == self@.contains(text@),
    {
        crate::text::holds_text(&self.items, text)
    }

    /// Adds `text`.
    pub fn insert(&mut self, text: String)
        ensures
            final(self)@ == old(self)@.insert(text@),
    {
        if self.contains(text.as_str()) {
            assert(self@.insert(text@) =~= self@);
            return;
        }
        let ghost before = self.texts();
        self.items.push(text);
        proof {
            assert(self.texts() =~= before.push(text@));
            before.lemma_push_to_set_commute(text@);
        }
    }

    /// Takes `text` out.
    pub fn remove(&mut self, text: &str)
        ensures
            final(self)@ == old(self)@.remove(text@),
    {
        let mut i: usize = 0;
        while i < self.items.len()
            invariant
                0 <= i <= self.items.len(),
                forall|k: int| 0 <= k < i ==> #[trigger] self.texts()[k] != text@,
                self.texts().to_set().remove(text@) == old(self)@.remove(text@),
            decreases self.items.len() - i,
        {
            if same_text(self.items[i].as_str(), text) {
                let ghost before = self.texts();
                let _ = self.items.remove(i);
                proof {
                    assert(self.texts() =~= before.remove(i as int));
                    assert forall|t: Seq<char>|
                        t != text@ implies before.contains(t) == before.remove(i as int).contains(t) by {
                        if before.contains(t) {
                            let k = choose|k: int| 0 <= k < before.len() && before[k] == t;
                            assert(k != i);
                            if k < i {
                                assert(before.remove(i as int)[k] == t);
                            } else {
                                assert(before.remove(i as int)[k - 1] == t);
                            }
                        }
                        if before.remove(i as int).contains(t) {
                            let k = choose|k: int|
                                0 <= k < before.remove(i as int).len() && before.remove(i as int)[k]
                                    == t;
                            if k < i {
                                assert(before[k] == t);
                            } else {
                                assert(before[k + 1] == t);
                            }
                        }
                    }
                    assert(self.texts().to_set().remove(text@) =~= before.to_set().remove(text@));
                }
            } else {
                i += 1;
            }
        }
        assert(self@ =~= self@.remove(text@));
    }

    /// The strings in ascending order.
    pub fn sorted(&self) -> (texts: Vec<String>)
        ensures
            crate::text::ascending(crate::text::text_views(texts@)),
            forall|text: Seq<char>|
                #![trigger self@.contains(text)]
                #![trigger crate::text::text_views(texts@).contains(text)]
                crate::text::text_views(texts@).contains(text) <==> self@.contains(text),
    {
        let mut sorted: Vec<String> = Vec::new();
        let mut i: usize = 0;
        while i < self.items.len()
            invariant
                0 <= i <= self.items.len(),
                crate::text::ascending(crate::text::text_views(sorted@)),
                forall|text: Seq<char>|
                    #![trigger crate::text::text_views(sorted@).contains(text)]
                    crate::text::text_views(sorted@).contains(text) <==> self.texts().take(
                        i as int,
                    ).contains(text),
            decreases self.items.len() - i,
        {
            let ghost before = crate::text::text_views(sorted@);
            insert_ascending(&mut sorted, &self.items[i]);
            proof {
                let after = crate::text::text_views(sorted@);
                let taken = self.texts().take(i as int);
                assert(self.texts().take(i + 1) =~= taken.push(self.texts()[i as int]));
                assert forall|text: Seq<char>|
                    #![trigger after.contains(text)]
                    after.contains(text) <==> taken.push(self.texts()[i as int]).contains(text) by {
                    assert(before.contains(text) <==> taken.contains(text));
                    if taken.contains(text) {
                        let k = choose|k: int| 0 <= k < taken.len() && taken[k] == text;
                        assert(taken.push(self.texts()[i as int])[k] == text);
                    }
                    assert(taken.push(self.texts()[i as int])[taken.len() as int]
                        == self.texts()[i as int]);
                }
            }
            i += 1;
        }
        assert(self.texts().take(self.items.len() as int) =~= self.texts());
        sorted
    }
}

/// Puts `text` into an ascending list, where it is not in it yet.
fn insert_ascending(sorted: &mut Vec<String>, text: &String)
    requires
        crate::text::ascending(crate::text::text_views(old(sorted)@)),
    ensures
        crate::text::ascending(crate::text::text_views(final(sorted)@)),
        forall|t: Seq<char>|
            #![trigger crate::text::text_views(final(sorted)@).contains(t)]
            crate::text::text_views(final(sorted)@).contains(t) <==> (crate::text::text_views(
                old(sorted)@,
            ).contains(t) || t == text@),
{
    let ghost before = crate::text::text_views(sorted@);
    let mut at: usize = 0;
    while at < sorted.len() && comes_before(sorted[at].as_str(), text.as_str())
        invariant
            0 <= at <= sorted.len(),
            sorted@ == old(sorted)@,
            before == crate::text::text_views(sorted@),
            forall|k: int| 0 <= k < at ==> crate::text::text_before(#[trigger] before[k], text@),
        decreases sorted.len() - at,
    {
        at += 1;
    }
    if at < sorted.len() && same_text(sorted[at].as_str(), text.as_str()) {
        assert(before[at as int] == text@);
        return;
    }
    sorted.insert(at, text.clone());
    proof {
        let after = crate::text::text_views(sorted@);
        assert(after =~= before.insert(at as int, text@));
        if at < before.len() {
            crate::text::lemma_text_before_total(before[at as int], text@);
        }
        assert forall|i: int, j: int| 0 <= i < j < after.len() implies crate::text::text_before(
            #[trigger] after[i],
            #[trigger] after[j],
        ) by {
            if i < at && j > at {
                assert(crate::text::text_before(before[i], before[j - 1]));
            } else if i == at && j > at {
                if j - 1 > at {
                    assert(crate::text::text_before(before[at as int], before[j - 1]));
                    crate::text::lemma_text_before_transitive(
                        text@,
                        before[at as int],
                        before[j - 1],
                    );
                }
            } else if i > at {
                assert(crate::text::text_before(before[i - 1], before[j - 1]));
            } else if j < at {
                assert(crate::text::text_before(before[i], before[j]));
            }
        }
        assert forall|t: Seq<char>|
            #![trigger after.contains(t)]
            after.contains(t) <==> (before.contains(t) || t == text@) by {
            assert(after[at as int] == text@);
            if before.contains(t) {
                let k = choose|k: int| 0 <= k < before.len() && before[k] == t;
                if k < at {
                    assert(after[k] == t);
                } else {
                    assert(after[k + 1] == t);
                }
            }
            if after.contains(t) && t != text@ {
                let k = choose|k: int| 0 <= k < after.len() && after[k] == t;
                if k < at {
                    assert(before[k] == t);
                } else {
                    assert(before[k - 1] == t);
                }
            }
        }
    }
}

} // verus!
