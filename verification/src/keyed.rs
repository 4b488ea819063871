use vstd::prelude::*;

use crate::text::{chars_eq, chars_of};

verus! {

/// The value stored under `key` in a list of entries: that of the first entry with this key.
pub open spec fn lookup<V>(entries: Seq<(String, V)>, key: Seq<char>) -> Option<V>
    decreases entries.len(),
{
    if entries.len() == 0 {
        None
    } else if entries[0].0@ == key {
        Some(entries[0].1)
    } else {
        lookup(entries.drop_first(), key)
    }
}

/// No two entries share a key.
pub open spec fn unique_keys<V>(entries: Seq<(String, V)>) -> bool {
    forall|i: int, j: int| 0 <= i < j < entries.len() ==> entries[i].0@ != entries[j].0@
}

pub proof fn lemma_lookup_found<V>(entries: Seq<(String, V)>, i: int)
    requires
        unique_keys(entries),
        0 <= i < entries.len(),
    ensures
        lookup(entries, entries[i].0@) == Some(entries[i].1),
    decreases i,
{
    if i > 0 {
        let rest = entries.drop_first();
        assert(rest[i - 1] == entries[i]);
        lemma_lookup_found(rest, i - 1);
    }
}

pub proof fn lemma_lookup_absent<V>(entries: Seq<(String, V)>, key: Seq<char>)
    requires
        forall|i: int| 0 <= i < entries.len() ==> entries[i].0@ != key,
    ensures
        lookup(entries, key) is None,
    decreases entries.len(),
{
    if entries.len() > 0 {
        let rest = entries.drop_first();
        assert forall|i: int| 0 <= i < rest.len() implies rest[i].0@ != key by {
            assert(rest[i] == entries[i + 1]);
        }
        lemma_lookup_absent(rest, key);
    }
}

/// With unique keys, the value under a key is that of the one entry carrying it, if any.
pub proof fn lemma_lookup_exact<V>(entries: Seq<(String, V)>, key: Seq<char>)
    requires
        unique_keys(entries),
    ensures
        match lookup(entries, key) {
            Some(v) => exists|i: int| 0 <= i < entries.len() && entries[i].0@ == key && entries[i].1 == v,
            None => forall|i: int| 0 <= i < entries.len() ==> entries[i].0@ != key,
        },
{
    if exists|i: int| 0 <= i < entries.len() && entries[i].0@ == key {
        let i = choose|i: int| 0 <= i < entries.len() && entries[i].0@ == key;
        lemma_lookup_found(entries, i);
    } else {
        lemma_lookup_absent(entries, key);
    }
}

/// A small map from string keys to copyable values, kept as a list of entries with
/// unique keys.
pub struct KeyedList<V> {
    entries: Vec<(String, V)>,
}

impl<V: Copy> KeyedList<V> {
    pub closed spec fn entries(&self) -> Seq<(String, V)> {
        self.entries@
    }

    /// The value stored under `key`.
    pub open spec fn get(&self, key: Seq<char>) -> Option<V> {
        lookup(self.entries(), key)
    }

    /// The keys are unique.
    pub open spec fn wf(&self) -> bool {
        unique_keys(self.entries())
    }

    pub fn new() -> (list: Self)
        ensures
            list.wf(),
            forall|k: Seq<char>| #[trigger] list.get(k) is None,
    {
        KeyedList { entries: Vec::new() }
    }

    /// The position of the entry with this key.
    fn position(&self, key: &[char]) -> (pos: Option<usize>)
        requires
            self.wf(),
        ensures
            match pos {
                Some(i) => i < self.entries().len() && self.entries()[i as int].0@ == key@,
                None => forall|i: int| 0 <= i < self.entries().len() ==> self.entries()[i].0@ != key@,
            },
    {
        let mut i: usize = 0;
        while i < self.entries.len()
            invariant
                i <= self.entries@.len(),
                forall|j: int| 0 <= j < i ==> self.entries@[j].0@ != key@,
            decreases self.entries@.len() - i,
        {
            let candidate = chars_of(self.entries[i].0.as_str());
            if chars_eq(candidate.as_slice(), key) {
                return Some(i);
            }
            i += 1;
        }
        None
    }

    pub fn lookup_value(&self, key: &str) -> (value: Option<V>)
        requires
            self.wf(),
        ensures
            value == self.get(key@),
    {
        let k = chars_of(key);
        match self.position(k.as_slice()) {
            Some(i) => {
                proof {
                    lemma_lookup_found(self.entries(), i as int);
                }
                Some(self.entries[i].1)
            },
            None => {
                proof {
                    lemma_lookup_absent(self.entries(), key@);
                }
                None
            },
        }
    }

    /// Stores `value` under `key`, replacing what was stored there.
    pub fn insert(&mut self, key: String, value: V)
        requires
            old(self).wf(),
        ensures
            final(self).wf(),
            final(self).get(key@) == Some(value),
            forall|k: Seq<char>| k != key@ ==> #[trigger] final(self).get(k) == old(self).get(k),
    {
        let k = chars_of(key.as_str());
        let ghost key_view = key@;
        let ghost before = self.entries@;
        match self.position(k.as_slice()) {
            Some(i) => {
                self.entries.set(i, (key, value));
                proof {
                    let after = self.entries@;
                    assert(unique_keys(after)) by {
                        assert forall|a: int, b: int| 0 <= a < b < after.len() implies after[a].0@
                            != after[b].0@ by {
                            if a != i && b != i {
                                assert(after[a] == before[a] && after[b] == before[b]);
                            } else if a == i {
                                assert(after[b] == before[b]);
                            } else {
                                assert(after[a] == before[a]);
                            }
                        }
                    }
                    lemma_lookup_found(after, i as int);
                    assert forall|kk: Seq<char>| kk != key_view implies #[trigger] lookup(after, kk) == lookup(
                        before,
                        kk,
                    ) by {
                        lemma_lookup_exact(before, kk);
                        lemma_lookup_exact(after, kk);
                        match lookup(before, kk) {
                            Some(v) => {
                                let j = choose|j: int| 0 <= j < before.len() && before[j].0@ == kk && before[j].1 == v;
                                assert(after[j] == before[j]);
                                lemma_lookup_found(after, j);
                            },
                            None => {
                                assert forall|j: int| 0 <= j < after.len() implies after[j].0@ != kk by {
                                    if j != i {
                                        assert(after[j] == before[j]);
                                    }
                                }
                                lemma_lookup_absent(after, kk);
                            },
                        }
                    }
                }
            },
            None => {
                self.entries.push((key, value));
                proof {
                    let after = self.entries@;
                    assert(unique_keys(after)) by {
                        assert forall|a: int, b: int| 0 <= a < b < after.len() implies after[a].0@
                            != after[b].0@ by {
                            assert(after[a] == before[a]);
                            if b < before.len() {
                                assert(after[b] == before[b]);
                            }
                        }
                    }
                    lemma_lookup_found(after, before.len() as int);
                    assert forall|kk: Seq<char>| kk != key_view implies #[trigger] lookup(after, kk) == lookup(
                        before,
                        kk,
                    ) by {
                        lemma_lookup_exact(before, kk);
                        match lookup(before, kk) {
                            Some(v) => {
                                let j = choose|j: int| 0 <= j < before.len() && before[j].0@ == kk && before[j].1 == v;
                                assert(after[j] == before[j]);
                                lemma_lookup_found(after, j);
                            },
                            None => {
                                assert forall|j: int| 0 <= j < after.len() implies after[j].0@ != kk by {
                                    if j < before.len() {
                                        assert(after[j] == before[j]);
                                    }
                                }
                                lemma_lookup_absent(after, kk);
                            },
                        }
                    }
                }
            },
        }
    }

    /// Drops what is stored under `key`.
    pub fn remove(&mut self, key: &str)
        requires
            old(self).wf(),
        ensures
            final(self).wf(),
            final(self).get(key@) is None,
            forall|k: Seq<char>| k != key@ ==> #[trigger] final(self).get(k) == old(self).get(k),
    {
        let k = chars_of(key);
        let ghost before = self.entries@;
        match self.position(k.as_slice()) {
            Some(i) => {
                self.entries.remove(i);
                proof {
                    let after = self.entries@;
                    assert(forall|j: int| 0 <= j < i ==> after[j] == before[j]);
                    assert(forall|j: int| i <= j < after.len() ==> after[j] == before[j + 1]);
                    assert(unique_keys(after)) by {
                        assert forall|a: int, b: int| 0 <= a < b < after.len() implies after[a].0@
                            != after[b].0@ by {
                            let a0 = if a < i { a } else { a + 1 };
                            let b0 = if b < i { b } else { b + 1 };
                            assert(after[a] == before[a0]);
                            assert(after[b] == before[b0]);
                        }
                    }
                    assert forall|j: int| 0 <= j < after.len() implies after[j].0@ != key@ by {
                        let j0 = if j < i { j } else { j + 1 };
                        assert(after[j] == before[j0]);
                    }
                    lemma_lookup_absent(after, key@);
                    assert forall|kk: Seq<char>| kk != key@ implies #[trigger] lookup(after, kk) == lookup(
                        before,
                        kk,
                    ) by {
                        lemma_lookup_exact(before, kk);
                        match lookup(before, kk) {
                            Some(v) => {
                                let j = choose|j: int| 0 <= j < before.len() && before[j].0@ == kk && before[j].1 == v;
                                let j1 = if j < i { j } else { j - 1 };
                                assert(after[j1] == before[j]);
                                lemma_lookup_found(after, j1);
                            },
                            None => {
                                assert forall|j: int| 0 <= j < after.len() implies after[j].0@ != kk by {
                                    let j0 = if j < i { j } else { j + 1 };
                                    assert(after[j] == before[j0]);
                                }
                                lemma_lookup_absent(after, kk);
                            },
                        }
                    }
                }
            },
            None => {
                proof {
                    lemma_lookup_absent(before, key@);
                }
            },
        }
    }

    /// Replaces every stored value by `value`.
    pub fn set_all(&mut self, value: V)
        requires
            old(self).wf(),
        ensures
            final(self).wf(),
            forall|k: Seq<char>| #[trigger] final(self).get(k) == match old(self).get(k) {
                Some(_) => Some(value),
                None => None::<V>,
            },
    {
        let ghost before = self.entries@;
        let mut i: usize = 0;
        while i < self.entries.len()
            invariant
                i <= self.entries@.len(),
                self.entries@.len() == before.len(),
                forall|j: int| 0 <= j < self.entries@.len() ==> #[trigger] self.entries@[j].0 == before[j].0,
                forall|j: int| 0 <= j < i ==> #[trigger] self.entries@[j].1 == value,
                forall|j: int| i <= j < self.entries@.len() ==> #[trigger] self.entries@[j].1 == before[j].1,
                unique_keys(before),
            decreases self.entries@.len() - i,
        {
            let key = self.entries[i].0.clone();
            self.entries.set(i, (key, value));
            i += 1;
        }
        proof {
            let after = self.entries@;
            assert(unique_keys(after)) by {
                assert forall|a: int, b: int| 0 <= a < b < after.len() implies after[a].0@ != after[b].0@ by {
                    assert(after[a].0 == before[a].0);
                    assert(after[b].0 == before[b].0);
                }
            }
            assert forall|kk: Seq<char>| #[trigger] lookup(after, kk) == match lookup(before, kk) {
                Some(_) => Some(value),
                None => None::<V>,
            } by {
                lemma_lookup_exact(before, kk);
                match lookup(before, kk) {
                    Some(v) => {
                        let j = choose|j: int| 0 <= j < before.len() && before[j].0@ == kk && before[j].1 == v;
                        assert(after[j].0 == before[j].0);
                        lemma_lookup_found(after, j);
                    },
                    None => {
                        assert forall|j: int| 0 <= j < after.len() implies after[j].0@ != kk by {
                            assert(after[j].0 == before[j].0);
                        }
                        lemma_lookup_absent(after, kk);
                    },
                }
            }
        }
    }

    /// A copy holding the same entries.
    pub fn duplicate(&self) -> (copy: Self)
        ensures
            copy.entries() == self.entries(),
            forall|k: Seq<char>| #[trigger] copy.get(k) == self.get(k),
            copy.wf() == self.wf(),
    {
        let mut out: Vec<(String, V)> = Vec::new();
        let mut i: usize = 0;
        while i < self.entries.len()
            invariant
                i <= self.entries@.len(),
                out@ == self.entries@.take(i as int),
            decreases self.entries@.len() - i,
        {
            let key = self.entries[i].0.clone();
            out.push((key, self.entries[i].1));
            i += 1;
            assert(out@ =~= self.entries@.take(i as int));
        }
        assert(self.entries@.take(self.entries@.len() as int) =~= self.entries@);
        KeyedList { entries: out }
    }

    /// Every stored value, in no particular order.
    pub fn values(&self) -> (values: Vec<V>)
        ensures
            values@.len() == self.entries().len(),
            forall|i: int| 0 <= i < values@.len() ==> values@[i] == #[trigger] self.entries()[i].1,
    {
        let mut out: Vec<V> = Vec::new();
        let mut i: usize = 0;
        while i < self.entries.len()
            invariant
                i <= self.entries@.len(),
                out@.len() == i,
                forall|j: int| 0 <= j < i ==> out@[j] == #[trigger] self.entries@[j].1,
            decreases self.entries@.len() - i,
        {
            out.push(self.entries[i].1);
            i += 1;
        }
        out
    }
}

} // verus!
