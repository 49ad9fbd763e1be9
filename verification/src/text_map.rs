use vstd::prelude::*;

use crate::text::{bool_text, bool_to_text, decimal, i64_text, signed_decimal, u64_text};

verus! {

/// No two entries share a key.
pub open spec fn keys_distinct<V>(s: Seq<(String, V)>) -> bool {
    forall|i: int, j: int|
        0 <= i < s.len() && 0 <= j < s.len() && i != j ==> #[trigger] s[i].0@ != #[trigger] s[j].0@
}

/// The map that a sequence of entries stands for; a later entry wins over an earlier one.
pub open spec fn entries_map<V>(s: Seq<(String, V)>) -> Map<Seq<char>, V>
    decreases s.len(),
{
    if s.len() == 0 {
        Map::empty()
    } else {
        entries_map(s.drop_last()).insert(s.last().0@, s.last().1)
    }
}

proof fn lemma_entries_map_dom<V>(s: Seq<(String, V)>, k: Seq<char>)
    ensures
        entries_map(s).dom().contains(k) <==> exists|i: int| 0 <= i < s.len() && #[trigger] s[i].0@ == k,
    decreases s.len(),
{
    if s.len() > 0 {
        lemma_entries_map_dom(s.drop_last(), k);
        if entries_map(s).dom().contains(k) && s.last().0@ != k {
            let i = choose|i: int| 0 <= i < s.drop_last().len() && #[trigger] s.drop_last()[i].0@ == k;
            assert(s[i].0@ == k);
        }
        if exists|i: int| 0 <= i < s.len() && #[trigger] s[i].0@ == k {
            let i = choose|i: int| 0 <= i < s.len() && #[trigger] s[i].0@ == k;
            if i < s.len() - 1 {
                assert(s.drop_last()[i].0@ == k);
            }
        }
    }
}

proof fn lemma_entries_map_value<V>(s: Seq<(String, V)>, i: int)
    requires
        keys_distinct(s),
        0 <= i < s.len(),
    ensures
        entries_map(s).dom().contains(s[i].0@),
        entries_map(s)[s[i].0@] == s[i].1,
    decreases s.len(),
{
    if i < s.len() - 1 {
        let t = s.drop_last();
        assert(t[i] == s[i]);
        assert(keys_distinct(t)) by {
            assert forall|a: int, b: int|
                0 <= a < t.len() && 0 <= b < t.len() && a != b implies #[trigger] t[a].0@ != #[trigger] t[b].0@ by {
                assert(t[a] == s[a] && t[b] == s[b]);
            }
        }
        lemma_entries_map_value(t, i);
        assert(s[s.len() - 1].0@ != s[i].0@);
    }
}

/// A map from text keys to values, held as a vector of entries in which no key occurs twice.
pub struct TextMap<V> {
    entries: Vec<(String, V)>,
}

impl<V> View for TextMap<V> {
    type V = Map<Seq<char>, V>;

    closed spec fn view(&self) -> Map<Seq<char>, V> {
        entries_map(self.entries@)
    }
}

impl<V> TextMap<V> {
    #[verifier::type_invariant]
    spec fn no_key_twice(self) -> bool {
        keys_distinct(self.entries@)
    }

    /// An empty map.
    pub fn new() -> (m: Self)
        ensures
            m@ == Map::<Seq<char>, V>::empty(),
    {
        TextMap { entries: Vec::new() }
    }

    /// Where `key` stands among the entries, if it does.
    fn position(&self, key: &str) -> (r: Option<usize>)
        ensures
            match r {
                Some(i) => i < self.entries@.len() && self.entries@[i as int].0@ == key@,
                None => forall|i: int| 0 <= i < self.entries@.len() ==> #[trigger] self.entries@[i].0@ != key@,
            },
    {
        let wanted: String = key.to_owned();
        let mut i: usize = 0;
        while i < self.entries.len()
            invariant
                i <= self.entries@.len(),
                wanted@ == key@,
                forall|j: int| 0 <= j < i ==> #[trigger] self.entries@[j].0@ != key@,
            decreases self.entries@.len() - i,
        {
            if self.entries[i].0 == wanted {
                return Some(i);
            }
            i = i + 1;
        }
        None
    }

    /// The value under `key`, if there is one.
    pub fn get(&self, key: &str) -> (r: Option<&V>)
        ensures
            match r {
                Some(v) => self@.dom().contains(key@) && *v == self@[key@],
                None => !self@.dom().contains(key@),
            },
    {
        proof {
            use_type_invariant(self);
        }
        match self.position(key) {
            Some(i) => {
                proof {
                    lemma_entries_map_value(self.entries@, i as int);
                }
                Some(&self.entries[i].1)
            },
            None => {
                proof {
                    lemma_entries_map_dom(self.entries@, key@);
                }
                None
            },
        }
    }

    /// Sets the value under `key`, replacing the one that was there.
    pub fn insert(&mut self, key: String, value: V)
        ensures
            final(self)@ == old(self)@.insert(key@, value),
    {
        proof {
            use_type_invariant(&*self);
        }
        let ghost before = self.entries@;
        let found = self.position(key.as_str());
        let mut entries: Vec<(String, V)> = Vec::new();
        std::mem::swap(&mut entries, &mut self.entries);
        match found {
            Some(i) => {
                entries.set(i, (key, value));
                let ghost after = entries@;
                proof {
                    assert(after =~= before.update(i as int, after[i as int]));
                    assert(keys_distinct(after)) by {
                        assert forall|a: int, b: int|
                            0 <= a < after.len() && 0 <= b < after.len() && a != b implies #[trigger] after[a].0@
                            != #[trigger] after[b].0@ by {
                            if a != i && b != i {
                                assert(after[a] == before[a] && after[b] == before[b]);
                            } else if a == i {
                                assert(after[b] == before[b]);
                            } else {
                                assert(after[a] == before[a]);
                            }
                        }
                    }
                    let k = after[i as int].0@;
                    assert forall|q: Seq<char>| #[trigger] entries_map(after).dom().contains(q)
                        <==> entries_map(before).insert(k, after[i as int].1).dom().contains(q) by {
                        lemma_entries_map_dom(after, q);
                        lemma_entries_map_dom(before, q);
                        if exists|j: int| 0 <= j < before.len() && #[trigger] before[j].0@ == q {
                            let j = choose|j: int| 0 <= j < before.len() && #[trigger] before[j].0@ == q;
                            assert(after[j].0@ == q);
                        }
                        if exists|j: int| 0 <= j < after.len() && #[trigger] after[j].0@ == q {
                            let j = choose|j: int| 0 <= j < after.len() && #[trigger] after[j].0@ == q;
                            if j != i {
                                assert(before[j].0@ == q);
                            }
                        }
                    }
                    assert forall|q: Seq<char>| #[trigger] entries_map(after).dom().contains(q)
                        implies entries_map(after)[q] == entries_map(before).insert(k, after[i as int].1)[q] by {
                        lemma_entries_map_dom(after, q);
                        let j = choose|j: int| 0 <= j < after.len() && #[trigger] after[j].0@ == q;
                        lemma_entries_map_value(after, j);
                        if j != i {
                            assert(before[j] == after[j]);
                            lemma_entries_map_value(before, j);
                        }
                    }
                    assert(entries_map(after) =~= entries_map(before).insert(k, after[i as int].1));
                }
            },
            None => {
                entries.push((key, value));
                let ghost after = entries@;
                proof {
                    assert(after.drop_last() =~= before);
                    assert(keys_distinct(after)) by {
                        assert forall|a: int, b: int|
                            0 <= a < after.len() && 0 <= b < after.len() && a != b implies #[trigger] after[a].0@
                            != #[trigger] after[b].0@ by {
                            if a < before.len() {
                                assert(after[a] == before[a]);
                            }
                            if b < before.len() {
                                assert(after[b] == before[b]);
                            }
                        }
                    }
                }
            },
        }
        self.entries = entries;
    }
}

/// The text under `key` in `m`, or empty text when there is none.
pub open spec fn text_or_empty(m: Map<Seq<char>, String>, key: Seq<char>) -> Seq<char> {
    if m.dom().contains(key) {
        m[key]@
    } else {
        Seq::empty()
    }
}

/// The fields of a log event or span, each field's value written as text.
pub type FieldMap = TextMap<String>;

impl TextMap<String> {
    /// A copy of the whole map.
    pub fn duplicate(&self) -> (r: Self)
        ensures
            r@ == self@,
    {
        proof {
            use_type_invariant(self);
        }
        let mut entries: Vec<(String, String)> = Vec::new();
        let mut i: usize = 0;
        while i < self.entries.len()
            invariant
                i <= self.entries@.len(),
                entries@ == self.entries@.take(i as int),
            decreases self.entries@.len() - i,
        {
            let key = self.entries[i].0.clone();
            let value = self.entries[i].1.clone();
            entries.push((key, value));
            proof {
                assert(self.entries@.take(i + 1) =~= self.entries@.take(i as int).push(self.entries@[i as int]));
            }
            i = i + 1;
        }
        proof {
            assert(self.entries@.take(i as int) =~= self.entries@);
        }
        TextMap { entries }
    }

    /// A copy of the text under `key`, or empty text when the field is absent.
    pub fn text_or_empty(&self, key: &str) -> (r: String)
        ensures
            r@ == text_or_empty(self@, key@),
    {
        match self.get(key) {
            Some(v) => v.clone(),
            None => String::new(),
        }
    }

    /// Records a text field.
    pub fn record_text(&mut self, name: String, value: String)
        ensures
            final(self)@ == old(self)@.insert(name@, value),
    {
        self.insert(name, value);
    }

    /// Records an unsigned integer field in decimal.
    pub fn record_u64(&mut self, name: String, value: u64)
        ensures
            final(self)@.dom() == old(self)@.dom().insert(name@),
            final(self)@[name@]@ == decimal(value as nat),
            forall|k: Seq<char>| k != name@ ==> #[trigger] final(self)@.get(k) == old(self)@.get(k),
    {
        let text = u64_text(value);
        self.insert(name, text);
    }

    /// Records a signed integer field in decimal.
    pub fn record_i64(&mut self, name: String, value: i64)
        ensures
            final(self)@.dom() == old(self)@.dom().insert(name@),
            final(self)@[name@]@ == signed_decimal(value as int),
            forall|k: Seq<char>| k != name@ ==> #[trigger] final(self)@.get(k) == old(self)@.get(k),
    {
        let text = i64_text(value);
        self.insert(name, text);
    }

    /// Records a boolean field as `true` or `false`.
    pub fn record_bool(&mut self, name: String, value: bool)
        ensures
            final(self)@.dom() == old(self)@.dom().insert(name@),
            final(self)@[name@]@ == bool_text(value),
            forall|k: Seq<char>| k != name@ ==> #[trigger] final(self)@.get(k) == old(self)@.get(k),
    {
        let text = bool_to_text(value);
        self.insert(name, text);
    }
}

} // verus!
