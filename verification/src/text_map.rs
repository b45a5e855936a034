//! A map keyed by text that keeps its entries in the order of their first insertion.
use vstd::prelude::*;

use crate::text::same_text;

verus! {

/// A map from text to values.
#[derive(Debug)]
pub struct TextMap<V> {
    pub entries: Vec<(String, V)>,
}

/// The key at a position.
pub open spec fn key_at<V>(s: Seq<(String, V)>, i: int) -> Seq<char> {
    s[i].0@
}

/// Some entry has the key `k`.
pub open spec fn has_key<V>(s: Seq<(String, V)>, k: Seq<char>) -> bool {
    exists|i: int| 0 <= i < s.len() && #[trigger] key_at(s, i) == k
}

/// The position of an entry with the key `k`.
pub open spec fn key_position<V>(s: Seq<(String, V)>, k: Seq<char>) -> int {
    choose|i: int| 0 <= i < s.len() && #[trigger] key_at(s, i) == k
}

/// No two entries share a key.
pub open spec fn keys_distinct<V>(s: Seq<(String, V)>) -> bool {
    forall|i: int, j: int|
        0 <= i < j < s.len() ==> #[trigger] key_at(s, i) != #[trigger] key_at(s, j)
}

/// The map that a sequence of entries stands for.
pub open spec fn entry_map<V>(s: Seq<(String, V)>) -> Map<Seq<char>, V> {
    Map::new(|k: Seq<char>| has_key(s, k), |k: Seq<char>| s[key_position(s, k)].1)
}

impl<V> View for TextMap<V> {
    type V = Map<Seq<char>, V>;

    open spec fn view(&self) -> Map<Seq<char>, V> {
        entry_map(self.entries@)
    }
}

/// The entry at a position is the one that the map holds under its key.
pub proof fn lemma_entry<V>(s: Seq<(String, V)>, i: int)
    requires
        keys_distinct(s),
        0 <= i < s.len(),
    ensures
        entry_map(s).dom().contains(s[i].0@),
        entry_map(s)[s[i].0@] == s[i].1,
{
    let k = s[i].0@;
    assert(key_at(s, i) == k);
    let p = key_position(s, k);
    assert(0 <= p < s.len() && key_at(s, p) == k);
    if p < i {
        assert(key_at(s, p) != key_at(s, i));
    }
    if i < p {
        assert(key_at(s, i) != key_at(s, p));
    }
}

/// A key that no entry has can be appended.
pub proof fn lemma_push_entry<V>(s: Seq<(String, V)>, e: (String, V))
    requires
        keys_distinct(s),
        !has_key(s, e.0@),
    ensures
        keys_distinct(s.push(e)),
        entry_map(s.push(e)) == entry_map(s).insert(e.0@, e.1),
{
    let t = s.push(e);
    assert forall|i: int, j: int| 0 <= i < j < t.len() implies #[trigger] key_at(t, i)
        != #[trigger] key_at(t, j) by {
        if j < s.len() {
            assert(key_at(s, i) != key_at(s, j));
        } else {
            assert(key_at(s, i) == key_at(t, i));
        }
    }
    assert forall|k: Seq<char>| has_key(t, k) <==> (has_key(s, k) || k == e.0@) by {
        if has_key(t, k) {
            let i = key_position(t, k);
            if i < s.len() {
                assert(key_at(s, i) == k);
            }
        }
        if has_key(s, k) {
            let i = key_position(s, k);
            assert(key_at(t, i) == k);
        }
        assert(key_at(t, s.len() as int) == e.0@);
    }
    assert forall|k: Seq<char>| has_key(t, k) implies entry_map(t)[k] == entry_map(s).insert(
        e.0@,
        e.1,
    )[k] by {
        if k == e.0@ {
            lemma_entry(t, s.len() as int);
        } else {
            let i = key_position(s, k);
            lemma_entry(s, i);
            lemma_entry(t, i);
        }
    }
    assert(entry_map(t) =~= entry_map(s).insert(e.0@, e.1));
}

impl<V> TextMap<V> {
    /// No two entries share a key.
    pub open spec fn wf(&self) -> bool {
        keys_distinct(self.entries@)
    }

    /// The map without entries.
    pub fn new() -> (r: Self)
        ensures
            r.wf(),
            r@ == Map::<Seq<char>, V>::empty(),
            r.entries.len() == 0,
    {
        let r = TextMap { entries: Vec::new() };
        assert(r@ =~= Map::<Seq<char>, V>::empty());
        r
    }

    /// The position of the entry with the given key, if there is one.
    pub fn position(&self, key: &str) -> (r: Option<usize>)
        requires
            self.wf(),
        ensures
            match r {
                Some(i) => i < self.entries.len() && self.entries[i as int].0@ == key@
                    && self@.dom().contains(key@) && self@[key@] == self.entries[i as int].1,
                None => !self@.dom().contains(key@),
            },
    {
        let mut i: usize = 0;
        while i < self.entries.len()
            invariant
                i <= self.entries.len(),
                self.wf(),
                forall|j: int| 0 <= j < i ==> #[trigger] key_at(self.entries@, j) != key@,
            decreases self.entries.len() - i,
        {
            if same_text(&self.entries[i].0, key) {
                proof {
                    lemma_entry(self.entries@, i as int);
                }
                return Some(i);
            }
            i += 1;
        }
        None
    }

    /// The value under `key`, if there is one.
    pub fn get(&self, key: &str) -> (r: Option<&V>)
        requires
            self.wf(),
        ensures
            match r {
                Some(v) => self@.dom().contains(key@) && *v == self@[key@],
                None => !self@.dom().contains(key@),
            },
    {
        match self.position(key) {
            Some(i) => Some(&self.entries[i].1),
            None => None,
        }
    }

    /// Puts `value` under `key`, in place of any value that was there.
    pub fn insert(&mut self, key: String, value: V)
        requires
            old(self).wf(),
        ensures
            final(self).wf(),
            final(self)@ == old(self)@.insert(key@, value),
            final(self).entries.len() <= old(self).entries.len() + 1,
    {
        match self.position(&key) {
            Some(i) => {
                let ghost before = self.entries@;
                let ghost k = key@;
                self.entries.set(i, (key, value));
                let ghost after = self.entries@;
                proof {
                    assert forall|j: int| 0 <= j < after.len() implies #[trigger] key_at(after, j)
                        == key_at(before, j) by {}
                    assert forall|a: int, b: int| 0 <= a < b < after.len() implies #[trigger] key_at(
                        after,
                        a,
                    ) != #[trigger] key_at(after, b) by {
                        assert(key_at(before, a) != key_at(before, b));
                    }
                    assert forall|q: Seq<char>| has_key(after, q) <==> has_key(before, q) by {
                        if has_key(after, q) {
                            let p = key_position(after, q);
                            assert(key_at(before, p) == q);
                        }
                        if has_key(before, q) {
                            let p = key_position(before, q);
                            assert(key_at(after, p) == q);
                        }
                    }
                    assert(has_key(before, k));
                    assert forall|q: Seq<char>| has_key(after, q) implies entry_map(after)[q]
                        == entry_map(before).insert(k, value)[q] by {
                        if q == k {
                            lemma_entry(after, i as int);
                        } else {
                            let p = key_position(before, q);
                            assert(key_at(before, p) == q);
                            lemma_entry(before, p);
                            lemma_entry(after, p);
                        }
                    }
                    assert(entry_map(after) =~= entry_map(before).insert(k, value));
                }
            },
            None => {
                proof {
                    lemma_push_entry(self.entries@, (key, value));
                }
                self.entries.push((key, value));
            },
        }
    }
}

} // verus!
