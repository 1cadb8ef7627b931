//! A small keyed table: string keys, each present at most once, kept in the
//! order in which they were first inserted. It stands for the hash maps in
//! which the watchers remember what they saw at their previous scan.

use vstd::prelude::*;

verus! {

/// Entries keyed by strings; no key occurs twice.
pub struct Table<V> {
    keys: Vec<String>,
    values: Vec<V>,
}

impl<V> Table<V> {
    /// The keys, in insertion order.
    pub closed spec fn key_seq(&self) -> Seq<Seq<char>> {
        self.keys@.map_values(|k: String| k@)
    }

    /// The values, in the order of their keys.
    pub closed spec fn value_seq(&self) -> Seq<V> {
        self.values@
    }

    /// One value per key, and no key twice.
    pub open spec fn wf(&self) -> bool {
        &&& self.key_seq().len() == self.value_seq().len()
        &&& self.key_seq().no_duplicates()
    }

    /// The table as a map from keys to values.
    pub open spec fn as_map(&self) -> Map<Seq<char>, V> {
        Map::new(
            |k: Seq<char>| self.key_seq().contains(k),
            |k: Seq<char>| self.value_seq()[self.key_seq().index_of(k)],
        )
    }

    /// An empty table.
    pub fn new() -> (t: Self)
        ensures
            t.wf(),
            t.key_seq() == Seq::<Seq<char>>::empty(),
            t.value_seq() == Seq::<V>::empty(),
            t.as_map() == Map::<Seq<char>, V>::empty(),
    {
        let t = Table { keys: Vec::new(), values: Vec::new() };
        assert(t.key_seq() =~= Seq::<Seq<char>>::empty());
        assert(t.as_map() =~= Map::<Seq<char>, V>::empty());
        t
    }

    /// The number of entries.
    pub fn len(&self) -> (n: usize)
        requires
            self.wf(),
        ensures
            n == self.key_seq().len(),
            n == self.as_map().dom().len(),
    {
        proof {
            lemma_map_len(self);
        }
        self.keys.len()
    }

    /// The position of `key`, if it is present.
    pub fn find(&self, key: &String) -> (pos: Option<usize>)
        requires
            self.wf(),
        ensures
            match pos {
                Some(i) => i < self.key_seq().len() && self.key_seq()[i as int] == key@,
                None => !self.key_seq().contains(key@),
            },
            pos is Some <==> self.as_map().contains_key(key@),
    {
        let n = self.keys.len();
        let mut i: usize = 0;
        while i < n
            invariant
                n == self.keys@.len(),
                0 <= i <= n,
                forall|j: int| 0 <= j < i ==> self.key_seq()[j] != key@,
            decreases n - i,
        {
            if self.keys[i] == *key {
                return Some(i);
            }
            i = i + 1;
        }
        None
    }

    /// Whether `key` is present.
    pub fn contains_key(&self, key: &String) -> (b: bool)
        requires
            self.wf(),
        ensures
            b == self.as_map().contains_key(key@),
            b == self.key_seq().contains(key@),
    {
        self.find(key).is_some()
    }

    /// The key and the value at position `i`.
    pub fn entry(&self, i: usize) -> (kv: (&String, &V))
        requires
            self.wf(),
            i < self.key_seq().len(),
        ensures
            kv.0@ == self.key_seq()[i as int],
            *kv.1 == self.value_seq()[i as int],
            self.as_map()[self.key_seq()[i as int]] == self.value_seq()[i as int],
    {
        proof {
            lemma_index_of_distinct(self.key_seq(), i as int);
        }
        (&self.keys[i], &self.values[i])
    }

    /// Sets the value of `key`: in place when the key is present, as a new
    /// last entry otherwise.
    pub fn insert(&mut self, key: String, value: V)
        requires
            old(self).wf(),
        ensures
            final(self).wf(),
            final(self).as_map() == old(self).as_map().insert(key@, value),
            old(self).key_seq().contains(key@) ==> final(self).key_seq() == old(self).key_seq(),
            !old(self).key_seq().contains(key@) ==> final(self).key_seq() == old(self).key_seq().push(key@),
    {
        let ghost k = key@;
        match self.find(&key) {
            Some(i) => {
                self.values.set(i, value);
                proof {
                    assert(self.key_seq() == old(self).key_seq());
                    lemma_index_of_distinct(self.key_seq(), i as int);
                    assert forall|q: Seq<char>| #[trigger] self.key_seq().contains(q) && q != k implies
                        self.key_seq().index_of(q) != i as int by {
                        lemma_index_of_contains(self.key_seq(), q);
                    }
                    assert(self.as_map() =~= old(self).as_map().insert(k, value));
                }
            },
            None => {
                self.keys.push(key);
                self.values.push(value);
                proof {
                    let ks = self.key_seq();
                    let oks = old(self).key_seq();
                    assert(ks =~= oks.push(k));
                    assert forall|a: int, b: int| 0 <= a < ks.len() && 0 <= b < ks.len() && a != b
                        implies ks[a] != ks[b] by {
                        if a == oks.len() {
                            assert(oks.contains(ks[b]) || b == a);
                        } else if b == oks.len() {
                            assert(oks.contains(ks[a]));
                        }
                    }
                    lemma_index_of_distinct(ks, oks.len() as int);
                    assert forall|q: Seq<char>| #[trigger] oks.contains(q) implies
                        ks.index_of(q) == oks.index_of(q) by {
                        lemma_index_of_contains(oks, q);
                        let j = oks.index_of(q);
                        assert(ks[j] == q);
                        lemma_index_of_distinct(ks, j);
                    }
                    assert forall|q: Seq<char>| #[trigger] ks.contains(q) implies
                        oks.contains(q) || q == k by {
                        let j = choose|j: int| 0 <= j < ks.len() && ks[j] == q;
                        if j < oks.len() {
                            assert(oks[j] == q);
                        }
                    }
                    assert(self.value_seq() =~= old(self).value_seq().push(value));
                    assert(ks[oks.len() as int] == k);
                    assert forall|q: Seq<char>| oks.contains(q) implies #[trigger] ks.contains(q) by {
                        let j = choose|j: int| 0 <= j < oks.len() && oks[j] == q;
                        assert(ks[j] == q);
                    }
                    assert(ks.contains(k));
                    assert(self.as_map() =~= old(self).as_map().insert(k, value));
                }
            },
        }
    }
}

/// In a sequence without duplicates, the index of the element at `i` is `i`.
pub proof fn lemma_index_of_distinct<A>(s: Seq<A>, i: int)
    requires
        s.no_duplicates(),
        0 <= i < s.len(),
    ensures
        s.contains(s[i]),
        s.index_of(s[i]) == i,
{
    assert(s[i] == s[i]);
    let j = s.index_of(s[i]);
    assert(0 <= j < s.len() && s[j] == s[i]);
}

/// The index of a contained element points at it.
pub proof fn lemma_index_of_contains<A>(s: Seq<A>, x: A)
    requires
        s.contains(x),
    ensures
        0 <= s.index_of(x) < s.len(),
        s[s.index_of(x)] == x,
{
}

/// The map of a well-formed table has one key per entry.
proof fn lemma_map_len<V>(t: &Table<V>)
    requires
        t.wf(),
    ensures
        t.as_map().dom().len() == t.key_seq().len(),
{
    let ks = t.key_seq();
    assert(t.as_map().dom() =~= ks.to_set());
    ks.unique_seq_to_set();
}

} // verus!
