//! An insertion-ordered map from strings to strings, standing for the
//! `HashMap<String, String>` values that the detectors exchange.
use vstd::prelude::*;
use crate::text::str_eq;

verus! {

/// Entry `i` of `p` has key `k`.
pub open spec fn key_at(p: Seq<(Seq<char>, Seq<char>)>, k: Seq<char>, i: int) -> bool {
    0 <= i < p.len() && p[i].0 == k
}

/// Some entry of `p` has key `k`.
pub open spec fn has_key(p: Seq<(Seq<char>, Seq<char>)>, k: Seq<char>) -> bool {
    exists|i: int| key_at(p, k, i)
}

/// No two entries of `p` share a key.
pub open spec fn distinct_keys(p: Seq<(Seq<char>, Seq<char>)>) -> bool {
    forall|i: int, j: int| 0 <= i < p.len() && 0 <= j < p.len() && i != j ==> p[i].0 != p[j].0
}

/// The map that an entry list with distinct keys stands for.
pub open spec fn pairs_map(p: Seq<(Seq<char>, Seq<char>)>) -> Map<Seq<char>, Seq<char>> {
    Map::new(|k: Seq<char>| has_key(p, k), |k: Seq<char>| p[choose|i: int| key_at(p, k, i)].1)
}

/// Inserting `(k, v)`: an entry with key `k` keeps its place and takes
/// the new value; otherwise the entry goes at the end.
pub open spec fn pairs_insert(p: Seq<(Seq<char>, Seq<char>)>, k: Seq<char>, v: Seq<char>) -> Seq<
    (Seq<char>, Seq<char>),
> {
    if has_key(p, k) {
        p.update(choose|i: int| key_at(p, k, i), (k, v))
    } else {
        p.push((k, v))
    }
}

/// In an entry list with distinct keys, the map holds the value of the
/// entry at `i` under its key.
pub proof fn lemma_pairs_map_at(p: Seq<(Seq<char>, Seq<char>)>, i: int)
    requires
        distinct_keys(p),
        0 <= i < p.len(),
    ensures
        pairs_map(p).contains_key(p[i].0),
        pairs_map(p)[p[i].0] == p[i].1,
{
    assert(key_at(p, p[i].0, i));
    let j = choose|j: int| key_at(p, p[i].0, j);
    assert(j == i);
}

/// Inserting into an entry list with distinct keys keeps them distinct
/// and inserts into the map it stands for.
pub proof fn lemma_pairs_insert(p: Seq<(Seq<char>, Seq<char>)>, k: Seq<char>, v: Seq<char>)
    requires
        distinct_keys(p),
    ensures
        distinct_keys(pairs_insert(p, k, v)),
        pairs_map(pairs_insert(p, k, v)) == pairs_map(p).insert(k, v),
{
    let q = pairs_insert(p, k, v);
    if has_key(p, k) {
        let i = choose|i: int| key_at(p, k, i);
        assert(q.len() == p.len());
        assert forall|a: int, b: int| 0 <= a < q.len() && 0 <= b < q.len() && a != b implies q[a].0
            != q[b].0 by {
            assert(q[a].0 == p[a].0);
            assert(q[b].0 == p[b].0);
        }
        assert forall|key: Seq<char>| #![auto] has_key(q, key) == (has_key(p, key) || key == k) by {
            if has_key(p, key) {
                let j = choose|j: int| key_at(p, key, j);
                assert(key_at(q, key, j));
            }
            if has_key(q, key) {
                let j = choose|j: int| key_at(q, key, j);
                assert(key_at(p, key, j));
            }
        }
        assert forall|key: Seq<char>| #[trigger] pairs_map(q).contains_key(key) implies pairs_map(
            q,
        )[key] == pairs_map(p).insert(k, v)[key] by {
            let j = choose|j: int| key_at(q, key, j);
            lemma_pairs_map_at(q, j);
            if j != i {
                assert(key_at(p, key, j));
                lemma_pairs_map_at(p, j);
            }
        }
        assert(pairs_map(q) =~= pairs_map(p).insert(k, v));
    } else {
        assert forall|a: int, b: int| 0 <= a < q.len() && 0 <= b < q.len() && a != b implies q[a].0
            != q[b].0 by {
            if a == p.len() {
                assert(!key_at(p, k, b));
            } else if b == p.len() {
                assert(!key_at(p, k, a));
            }
        }
        assert forall|key: Seq<char>| #![auto] has_key(q, key) == (has_key(p, key) || key == k) by {
            if has_key(p, key) {
                let j = choose|j: int| key_at(p, key, j);
                assert(key_at(q, key, j));
            }
            if key == k {
                assert(key_at(q, key, p.len() as int));
            }
            if has_key(q, key) {
                let j = choose|j: int| key_at(q, key, j);
                if j < p.len() {
                    assert(key_at(p, key, j));
                }
            }
        }
        assert forall|key: Seq<char>| #[trigger] pairs_map(q).contains_key(key) implies pairs_map(
            q,
        )[key] == pairs_map(p).insert(k, v)[key] by {
            let j = choose|j: int| key_at(q, key, j);
            lemma_pairs_map_at(q, j);
            if j < p.len() {
                assert(key_at(p, key, j));
                lemma_pairs_map_at(p, j);
            }
        }
        assert(pairs_map(q) =~= pairs_map(p).insert(k, v));
    }
}

/// A map from strings to strings that remembers the order in which keys
/// were first inserted.
pub struct StringMap {
    entries: Vec<(String, String)>,
}

impl StringMap {
    /// The entries, in insertion order, as character sequences.
    pub closed spec fn pairs(&self) -> Seq<(Seq<char>, Seq<char>)> {
        self.entries@.map_values(|e: (String, String)| (e.0@, e.1@))
    }

    #[verifier::type_invariant]
    spec fn keys_are_distinct(&self) -> bool {
        distinct_keys(self.pairs())
    }

    /// An empty map.
    pub fn new() -> (r: Self)
        ensures
            r.pairs() == Seq::<(Seq<char>, Seq<char>)>::empty(),
            r@ == Map::<Seq<char>, Seq<char>>::empty(),
    {
        let r = StringMap { entries: Vec::new() };
        assert(r.pairs() =~= Seq::<(Seq<char>, Seq<char>)>::empty());
        assert(r@ =~= Map::<Seq<char>, Seq<char>>::empty());
        r
    }

    /// The number of entries.
    pub fn len(&self) -> (r: usize)
        ensures
            r == self.pairs().len(),
            distinct_keys(self.pairs()),
    {
        proof {
            use_type_invariant(self);
        }
        self.entries.len()
    }

    /// Whether the map has no entries.
    pub fn is_empty(&self) -> (r: bool)
        ensures
            r == (self.pairs().len() == 0),
            r == (self@ == Map::<Seq<char>, Seq<char>>::empty()),
    {
        proof {
            if self.pairs().len() > 0 {
                assert(key_at(self.pairs(), self.pairs()[0].0, 0));
                assert(self@.contains_key(self.pairs()[0].0));
            } else {
                assert(self@ =~= Map::<Seq<char>, Seq<char>>::empty());
            }
        }
        self.entries.len() == 0
    }

    /// The entry at position `i`.
    pub fn entry(&self, i: usize) -> (r: (&String, &String))
        requires
            i < self.pairs().len(),
        ensures
            (r.0@, r.1@) == self.pairs()[i as int],
    {
        let e = &self.entries[i];
        (&e.0, &e.1)
    }

    /// The position of the entry with key `key`, if there is one.
    pub fn position(&self, key: &str) -> (r: Option<usize>)
        ensures
            match r {
                Some(i) => key_at(self.pairs(), key@, i as int),
                None => !has_key(self.pairs(), key@),
            },
    {
        let mut i: usize = 0;
        while i < self.entries.len()
            invariant
                i <= self.entries@.len(),
                forall|j: int| 0 <= j < i ==> !key_at(self.pairs(), key@, j),
            decreases self.entries@.len() - i,
        {
            if str_eq(self.entries[i].0.as_str(), key) {
                return Some(i);
            }
            i = i + 1;
        }
        None
    }

    /// Whether some entry has key `key`.
    pub fn contains_key(&self, key: &str) -> (r: bool)
        ensures
            r == self@.contains_key(key@),
    {
        self.position(key).is_some()
    }

    /// The value under `key`, if any.
    pub fn get(&self, key: &str) -> (r: Option<&String>)
        ensures
            match r {
                Some(v) => self@.contains_key(key@) && v@ == self@[key@],
                None => !self@.contains_key(key@),
            },
    {
        proof {
            use_type_invariant(self);
        }
        match self.position(key) {
            Some(i) => {
                proof {
                    lemma_pairs_map_at(self.pairs(), i as int);
                }
                Some(&self.entries[i].1)
            },
            None => None,
        }
    }

    /// Sets the value under `key`; a new key goes after all others.
    pub fn insert(&mut self, key: String, value: String)
        ensures
            final(self).pairs() == pairs_insert(old(self).pairs(), key@, value@),
            final(self)@ == old(self)@.insert(key@, value@),
    {
        proof {
            use_type_invariant(&*self);
            lemma_pairs_insert(self.pairs(), key@, value@);
        }
        let ghost p = self.pairs();
        let found = self.position(key.as_str());
        let mut entries: Vec<(String, String)> = Vec::new();
        std::mem::swap(&mut entries, &mut self.entries);
        match found {
            Some(i) => {
                proof {
                    let c = choose|j: int| key_at(p, key@, j);
                    assert(c == i);
                    assert(pairs_insert(p, key@, value@) =~= p.update(i as int, (key@, value@)));
                    assert(entries@.update(i as int, (key, value)).map_values(
                        |e: (String, String)| (e.0@, e.1@),
                    ) =~= p.update(i as int, (key@, value@)));
                }
                entries.set(i, (key, value));
            },
            None => {
                proof {
                    assert(entries@.push((key, value)).map_values(
                        |e: (String, String)| (e.0@, e.1@),
                    ) =~= p.push((key@, value@)));
                }
                entries.push((key, value));
            },
        }
        self.entries = entries;
    }

    /// A map with the same entries in the same order.
    pub fn copied(&self) -> (r: Self)
        ensures
            r.pairs() == self.pairs(),
            r@ == self@,
    {
        proof {
            use_type_invariant(self);
        }
        let mut entries: Vec<(String, String)> = Vec::new();
        let mut i: usize = 0;
        while i < self.entries.len()
            invariant
                i <= self.entries@.len(),
                entries@.map_values(|e: (String, String)| (e.0@, e.1@)) == self.pairs().take(
                    i as int,
                ),
            decreases self.entries@.len() - i,
        {
            let k = self.entries[i].0.clone();
            let v = self.entries[i].1.clone();
            let ghost before = entries@;
            assert(self.pairs()[i as int] == (k@, v@));
            entries.push((k, v));
            assert(entries@.map_values(|e: (String, String)| (e.0@, e.1@)) =~= before.map_values(
                |e: (String, String)| (e.0@, e.1@),
            ).push((k@, v@)));
            assert(entries@.map_values(|e: (String, String)| (e.0@, e.1@)) =~= self.pairs().take(
                i + 1,
            ));
            i = i + 1;
        }
        assert(self.pairs().take(self.entries@.len() as int) =~= self.pairs());
        StringMap { entries }
    }
}

impl View for StringMap {
    type V = Map<Seq<char>, Seq<char>>;

    open spec fn view(&self) -> Map<Seq<char>, Seq<char>> {
        pairs_map(self.pairs())
    }
}

} // verus!
