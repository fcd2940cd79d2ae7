use vstd::prelude::*;
use crate::ids::KeyEq;

verus! {

/// No key of `s` occurs twice.
pub open spec fn keys_distinct<K: View, V>(s: Seq<(K, V)>) -> bool {
    forall|i: int, j: int|
        0 <= i < j < s.len() ==> (#[trigger] s[i]).0@ != (#[trigger] s[j]).0@
}

pub open spec fn has_key<K: View, V>(s: Seq<(K, V)>, k: K::V) -> bool {
    exists|i: int| 0 <= i < s.len() && (#[trigger] s[i]).0@ == k
}

pub open spec fn index_of_key<K: View, V>(s: Seq<(K, V)>, k: K::V) -> int {
    choose|i: int| 0 <= i < s.len() && (#[trigger] s[i]).0@ == k
}

/// The map from keys to values that the pairs of `s` describe.
pub open spec fn pairs_map<K: View, V>(s: Seq<(K, V)>) -> Map<K::V, V> {
    Map::new(|k: K::V| has_key(s, k), |k: K::V| s[index_of_key(s, k)].1)
}

pub proof fn lemma_pairs_map_at<K: View, V>(s: Seq<(K, V)>, i: int)
    requires
        keys_distinct(s),
        0 <= i < s.len(),
    ensures
        pairs_map(s).contains_key(s[i].0@),
        pairs_map(s)[s[i].0@] == s[i].1,
{
    let k = s[i].0@;
    assert(has_key(s, k));
    let j = index_of_key(s, k);
    if j < i {
        assert(s[j].0@ != s[i].0@);
    } else if j > i {
        assert(s[i].0@ != s[j].0@);
    }
}

pub proof fn lemma_pairs_map_update<K: View, V>(s: Seq<(K, V)>, i: int, e: (K, V))
    requires
        keys_distinct(s),
        0 <= i < s.len(),
        s[i].0@ == e.0@,
    ensures
        keys_distinct(s.update(i, e)),
        pairs_map(s.update(i, e)) == pairs_map(s).insert(e.0@, e.1),
{
    let t = s.update(i, e);
    let kv = e.0@;
    assert forall|a: int, b: int| 0 <= a < b < t.len() implies (#[trigger] t[a]).0@ != (
    #[trigger] t[b]).0@ by {
        assert(s[a].0@ != s[b].0@);
    }
    assert forall|k: K::V| #![auto] has_key(t, k) == (has_key(s, k) || k == kv) by {
        if has_key(t, k) {
            let j = index_of_key(t, k);
            if j != i {
                assert(s[j] == t[j]);
            }
        }
        if has_key(s, k) {
            let j = index_of_key(s, k);
            assert(t[j].0@ == k);
        }
        if k == kv {
            assert(t[i].0@ == k);
        }
    }
    assert forall|k: K::V| #[trigger] pairs_map(t).contains_key(k) implies pairs_map(t)[k]
        == pairs_map(s).insert(kv, e.1)[k] by {
        let j = index_of_key(t, k);
        lemma_pairs_map_at(t, j);
        if k != kv {
            assert(s[j] == t[j]);
            lemma_pairs_map_at(s, j);
        }
    }
    assert(pairs_map(t) =~= pairs_map(s).insert(kv, e.1));
}

pub proof fn lemma_pairs_map_push<K: View, V>(s: Seq<(K, V)>, e: (K, V))
    requires
        keys_distinct(s),
        !has_key(s, e.0@),
    ensures
        keys_distinct(s.push(e)),
        pairs_map(s.push(e)) == pairs_map(s).insert(e.0@, e.1),
{
    let t = s.push(e);
    let kv = e.0@;
    let n = s.len() as int;
    assert forall|a: int, b: int| 0 <= a < b < t.len() implies (#[trigger] t[a]).0@ != (
    #[trigger] t[b]).0@ by {
        assert(t[a] == s[a]);
        if b < n {
            assert(t[b] == s[b]);
        } else if s[a].0@ == kv {
            assert(has_key(s, kv));
        }
    }
    assert forall|k: K::V| #![auto] has_key(t, k) == (has_key(s, k) || k == kv) by {
        if has_key(t, k) {
            let j = index_of_key(t, k);
            if j != n {
                assert(s[j] == t[j]);
            }
        }
        if has_key(s, k) {
            let j = index_of_key(s, k);
            assert(t[j] == s[j]);
        }
        if k == kv {
            assert(t[n].0@ == k);
        }
    }
    assert forall|k: K::V| #[trigger] pairs_map(t).contains_key(k) implies pairs_map(t)[k]
        == pairs_map(s).insert(kv, e.1)[k] by {
        let j = index_of_key(t, k);
        lemma_pairs_map_at(t, j);
        if j != n {
            assert(s[j] == t[j]);
            lemma_pairs_map_at(s, j);
        }
    }
    assert(pairs_map(t) =~= pairs_map(s).insert(kv, e.1));
}

/// A small association list: a vector of key/value pairs in which no two keys
/// are the same (compared by their views).
pub struct VecMap<K, V> {
    pub entries: Vec<(K, V)>,
}

impl<K: KeyEq, V> VecMap<K, V> {
    pub open spec fn wf(&self) -> bool {
        keys_distinct(self.entries@)
    }

    /// The map from keys to values.
    pub open spec fn map(&self) -> Map<K::V, V> {
        pairs_map(self.entries@)
    }

    pub fn new() -> (r: Self)
        ensures
            r.wf(),
            r.map() == Map::<K::V, V>::empty(),
    {
        let r = VecMap { entries: Vec::new() };
        assert(r.map() =~= Map::<K::V, V>::empty());
        r
    }

    /// The position of `k`, if it is there.
    pub fn find(&self, k: &K) -> (r: Option<usize>)
        requires
            self.wf(),
        ensures
            match r {
                Some(i) => i < self.entries@.len() && self.entries@[i as int].0@ == k@,
                None => !self.map().contains_key(k@),
            },
    {
        let mut i: usize = 0;
        while i < self.entries.len()
            invariant
                i <= self.entries@.len(),
                forall|j: int| 0 <= j < i ==> (#[trigger] self.entries@[j]).0@ != k@,
            decreases self.entries@.len() - i,
        {
            if self.entries[i].0.key_eq(k) {
                return Some(i);
            }
            i = i + 1;
        }
        None
    }

    pub fn get(&self, k: &K) -> (r: Option<&V>)
        requires
            self.wf(),
        ensures
            match r {
                Some(v) => self.map().contains_key(k@) && *v == self.map()[k@],
                None => !self.map().contains_key(k@),
            },
    {
        match self.find(k) {
            Some(i) => {
                proof {
                    lemma_pairs_map_at(self.entries@, i as int);
                }
                Some(&self.entries[i].1)
            },
            None => None,
        }
    }

    pub fn insert(&mut self, k: K, v: V)
        requires
            old(self).wf(),
        ensures
            final(self).wf(),
            final(self).map() == old(self).map().insert(k@, v),
    {
        match self.find(&k) {
            Some(i) => {
                let ghost old_entries = self.entries@;
                let ghost e = (k, v);
                self.entries.set(i, (k, v));
                proof {
                    assert(self.entries@ == old_entries.update(i as int, e));
                    lemma_pairs_map_update(old_entries, i as int, e);
                }
            },
            None => {
                let ghost old_entries = self.entries@;
                let ghost e = (k, v);
                self.entries.push((k, v));
                proof {
                    assert(self.entries@ == old_entries.push(e));
                    lemma_pairs_map_push(old_entries, e);
                }
            },
        }
    }
}

} // verus!
