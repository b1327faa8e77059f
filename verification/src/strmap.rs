//! A small map keyed by strings, kept as a list of entries: the importer's
//! per-path bookkeeping (which backup is held for a path, how many edits
//! were seen since it).

use vstd::prelude::*;

verus! {

/// The map that `entries` denote: each entry inserted in turn, so a later
/// entry for a key overrides an earlier one.
pub open spec fn to_map<V>(entries: Seq<(Seq<char>, V)>) -> Map<Seq<char>, V>
    decreases entries.len(),
{
    if entries.len() == 0 {
        Map::empty()
    } else {
        to_map(entries.drop_last()).insert(entries.last().0, entries.last().1)
    }
}

pub open spec fn keyed<V>(entries: Seq<(String, V)>) -> Seq<(Seq<char>, V)> {
    entries.map_values(|e: (String, V)| (e.0@, e.1))
}

/// A string-keyed map.
pub struct StrMap<V> {
    entries: Vec<(String, V)>,
}

impl<V> View for StrMap<V> {
    type V = Map<Seq<char>, V>;

    closed spec fn view(&self) -> Map<Seq<char>, V> {
        to_map(keyed(self.entries@))
    }
}

/// Rewriting the last entry for a key is inserting that key.
proof fn lemma_update_last<V>(s: Seq<(Seq<char>, V)>, i: int, k: Seq<char>, v: V)
    requires
        0 <= i < s.len(),
        s[i].0 == k,
        forall|j: int| i < j < s.len() ==> (#[trigger] s[j]).0 != k,
    ensures
        to_map(s.update(i, (k, v))) == to_map(s).insert(k, v),
    decreases s.len(),
{
    let t = s.update(i, (k, v));
    if i == s.len() - 1 {
        assert(t.drop_last() == s.drop_last());
        assert(to_map(t) == to_map(s).insert(k, v));
    } else {
        let e = s.last();
        assert(e == s[s.len() - 1]);
        assert(t.drop_last() == s.drop_last().update(i, (k, v)));
        assert forall|j: int| i < j < s.drop_last().len() implies (
        #[trigger] s.drop_last()[j]).0 != k by {
            assert(s.drop_last()[j] == s[j]);
        }
        lemma_update_last(s.drop_last(), i, k, v);
        assert(t.last() == e);
        assert(to_map(t) == to_map(s.drop_last()).insert(k, v).insert(e.0, e.1));
        assert(to_map(s).insert(k, v) == to_map(s.drop_last()).insert(e.0, e.1).insert(k, v));
        assert(to_map(t) =~= to_map(s).insert(k, v));
    }
}

/// When no entry has the key, the key is not in the map.
proof fn lemma_absent<V>(s: Seq<(Seq<char>, V)>, k: Seq<char>)
    requires
        forall|j: int| 0 <= j < s.len() ==> (#[trigger] s[j]).0 != k,
    ensures
        !to_map(s).dom().contains(k),
    decreases s.len(),
{
    if s.len() > 0 {
        assert forall|j: int| 0 <= j < s.drop_last().len() implies (#[trigger] s.drop_last()[j]).0
            != k by {
            assert(s.drop_last()[j] == s[j]);
        }
        lemma_absent(s.drop_last(), k);
        assert(s.last() == s[s.len() - 1]);
    }
}

/// The last entry for a key gives the key's value.
proof fn lemma_last_entry<V>(s: Seq<(Seq<char>, V)>, i: int, k: Seq<char>)
    requires
        0 <= i < s.len(),
        s[i].0 == k,
        forall|j: int| i < j < s.len() ==> (#[trigger] s[j]).0 != k,
    ensures
        to_map(s).dom().contains(k),
        to_map(s)[k] == s[i].1,
    decreases s.len(),
{
    if i < s.len() - 1 {
        assert forall|j: int| i < j < s.drop_last().len() implies (
        #[trigger] s.drop_last()[j]).0 != k by {
            assert(s.drop_last()[j] == s[j]);
        }
        assert(s.drop_last()[i] == s[i]);
        lemma_last_entry(s.drop_last(), i, k);
        assert(s.last() == s[s.len() - 1]);
    }
}

impl<V> StrMap<V> {
    pub fn new() -> (m: StrMap<V>)
        ensures
            m@ == Map::<Seq<char>, V>::empty(),
    {
        let m = StrMap { entries: Vec::new() };
        assert(keyed(m.entries@) == Seq::<(Seq<char>, V)>::empty());
        m
    }

    /// The index of the last entry for `k`.
    fn find(&self, k: &str) -> (r: Option<usize>)
        ensures
            match r {
                Some(i) => i < self.entries@.len() && keyed(self.entries@)[i as int].0 == k@
                    && forall|j: int|
                    i < j < self.entries@.len() ==> (#[trigger] keyed(self.entries@)[j]).0 != k@,
                None => forall|j: int|
                    0 <= j < self.entries@.len() ==> (#[trigger] keyed(self.entries@)[j]).0 != k@,
            },
    {
        let key = String::from_str(k);
        let mut i: usize = self.entries.len();
        while i > 0
            invariant
                i <= self.entries@.len(),
                key@ == k@,
                forall|j: int|
                    i <= j < self.entries@.len() ==> (#[trigger] keyed(self.entries@)[j]).0 != k@,
            decreases i,
        {
            assert(keyed(self.entries@)[i - 1] == (self.entries@[i - 1].0@, self.entries@[i - 1].1));
            if self.entries[i - 1].0 == key {
                return Some(i - 1);
            }
            i = i - 1;
        }
        None
    }

    /// The value for `k`, if any.
    pub fn get(&self, k: &str) -> (r: Option<&V>)
        ensures
            match r {
                Some(v) => self@.dom().contains(k@) && self@[k@] == *v,
                None => !self@.dom().contains(k@),
            },
    {
        match self.find(k) {
            Some(i) => {
                proof {
                    lemma_last_entry(keyed(self.entries@), i as int, k@);
                }
                Some(&self.entries[i].1)
            },
            None => {
                proof {
                    lemma_absent(keyed(self.entries@), k@);
                }
                None
            },
        }
    }

    /// Sets the value for `k`.
    pub fn insert(&mut self, k: String, v: V)
        ensures
            final(self)@ == old(self)@.insert(k@, v),
    {
        match self.find(k.as_str()) {
            Some(i) => {
                let ghost s = keyed(self.entries@);
                proof {
                    lemma_update_last(s, i as int, k@, v);
                }
                self.entries.set(i, (k, v));
                assert(keyed(self.entries@) == s.update(i as int, (k@, v)));
            },
            None => {
                let ghost s = keyed(self.entries@);
                let ghost kv = k@;
                self.entries.push((k, v));
                assert(keyed(self.entries@) == s.push((kv, v)));
                assert(keyed(self.entries@).drop_last() == s);
            },
        }
    }
}

/// `s` without its entries for `k`.
pub open spec fn drop_key<V>(s: Seq<(Seq<char>, V)>, k: Seq<char>) -> Seq<(Seq<char>, V)>
    decreases s.len(),
{
    if s.len() == 0 {
        s
    } else {
        let r = drop_key(s.drop_last(), k);
        if s.last().0 == k {
            r
        } else {
            r.push(s.last())
        }
    }
}

proof fn lemma_drop_key<V>(s: Seq<(Seq<char>, V)>, k: Seq<char>)
    ensures
        to_map(drop_key(s, k)) == to_map(s).remove(k),
    decreases s.len(),
{
    if s.len() == 0 {
        assert(to_map(s).remove(k) =~= Map::<Seq<char>, V>::empty());
    } else {
        lemma_drop_key(s.drop_last(), k);
        let r = drop_key(s.drop_last(), k);
        if s.last().0 == k {
            assert(to_map(s).remove(k) =~= to_map(s.drop_last()).remove(k));
        } else {
            assert(r.push(s.last()).drop_last() == r);
            assert(to_map(r.push(s.last())) =~= to_map(s).remove(k));
        }
    }
}

impl<V> StrMap<V> {
    /// Removes `k`.
    pub fn remove(&mut self, k: &str)
        ensures
            final(self)@ == old(self)@.remove(k@),
    {
        let mut rest: Vec<(String, V)> = Vec::new();
        std::mem::swap(&mut rest, &mut self.entries);
        let ghost s0 = keyed(rest@);
        let key = String::from_str(k);
        let mut kept: Vec<(String, V)> = Vec::new();
        let ghost mut i: int = 0;
        while rest.len() > 0
            invariant
                0 <= i <= s0.len(),
                key@ == k@,
                keyed(rest@) == s0.skip(i),
                keyed(kept@) == drop_key(s0.take(i), k@),
            decreases rest@.len(),
        {
            let ghost before = keyed(kept@);
            assert(keyed(rest@).len() == rest@.len());
            assert(i < s0.len());
            let ghost r0 = rest@;
            let e = rest.remove(0);
            assert(rest@ == r0.remove(0));
            assert forall|j: int| 0 <= j < rest@.len() implies keyed(rest@)[j] == s0.skip(i + 1)[j] by {
                assert(rest@[j] == r0[j + 1]);
                assert(keyed(r0)[j + 1] == s0.skip(i)[j + 1]);
            }
            assert(s0.skip(i)[0] == (e.0@, e.1));
            assert(s0.take(i + 1).drop_last() == s0.take(i));
            assert(s0.take(i + 1).last() == (e.0@, e.1));
            assert(keyed(rest@) =~= s0.skip(i + 1));
            if e.0 != key {
                kept.push(e);
                assert(keyed(kept@) == before.push(s0.take(i + 1).last()));
            }
            proof {
                i = i + 1;
            }
        }
        assert(s0.skip(i).len() == 0);
        assert(s0.take(i) == s0);
        proof {
            lemma_drop_key(s0, k@);
        }
        self.entries = kept;
    }
}

impl StrMap<usize> {
    /// Adds one to the count held for `k`; a key with no count is left
    /// absent.
    pub fn increment(&mut self, k: &str)
        requires
            old(self)@.dom().contains(k@) ==> old(self)@[k@] < usize::MAX,
        ensures
            final(self)@ == if old(self)@.dom().contains(k@) {
                old(self)@.insert(k@, (old(self)@[k@] + 1) as usize)
            } else {
                old(self)@
            },
    {
        match self.find(k) {
            Some(i) => {
                let ghost s = keyed(self.entries@);
                proof {
                    lemma_last_entry(s, i as int, k@);
                    lemma_update_last(s, i as int, k@, (s[i as int].1 + 1) as usize);
                }
                let n = self.entries[i].1;
                let key = self.entries[i].0.clone();
                self.entries.set(i, (key, n + 1));
                assert(keyed(self.entries@) == s.update(i as int, (k@, (n + 1) as usize)));
            },
            None => {
                proof {
                    lemma_absent(keyed(self.entries@), k@);
                }
            },
        }
    }
}

} // verus!
