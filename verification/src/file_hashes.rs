//! A map from file names to hashes, kept as a list of distinct entries in
//! the order they were first inserted.
use vstd::prelude::*;

use crate::text::str_eq;

verus! {

broadcast use vstd::set::group_set_axioms;

/// The map that a list of (key, value) pairs gives when the pairs are
/// inserted in order: a later value for a key replaces an earlier one.
pub open spec fn map_of(pairs: Seq<(Seq<char>, Seq<char>)>) -> Map<Seq<char>, Seq<char>>
    decreases pairs.len(),
{
    if pairs.len() == 0 {
        Map::empty()
    } else {
        map_of(pairs.drop_last()).insert(pairs.last().0, pairs.last().1)
    }
}

/// The entries after setting `k` to `v`: an entry with key `k` keeps its
/// place, otherwise the new entry comes last.
pub open spec fn listing_insert(
    l: Seq<(Seq<char>, Seq<char>)>,
    k: Seq<char>,
    v: Seq<char>,
) -> Seq<(Seq<char>, Seq<char>)> {
    if exists|i: int| 0 <= i < l.len() && #[trigger] l[i].0 == k {
        l.update(choose|i: int| 0 <= i < l.len() && #[trigger] l[i].0 == k, (k, v))
    } else {
        l.push((k, v))
    }
}

/// The entries after inserting `pairs` in order into an empty map.
pub open spec fn listing_of(pairs: Seq<(Seq<char>, Seq<char>)>) -> Seq<(Seq<char>, Seq<char>)>
    decreases pairs.len(),
{
    if pairs.len() == 0 {
        Seq::empty()
    } else {
        listing_insert(listing_of(pairs.drop_last()), pairs.last().0, pairs.last().1)
    }
}

/// No key occurs twice in `pairs`.
pub open spec fn keys_distinct(pairs: Seq<(Seq<char>, Seq<char>)>) -> bool {
    forall|i: int, j: int|
        0 <= i < pairs.len() && 0 <= j < pairs.len() && i != j ==> #[trigger] pairs[i].0
            != #[trigger] pairs[j].0
}

/// The view of a list of string pairs.
pub open spec fn pair_views(v: Seq<(String, String)>) -> Seq<(Seq<char>, Seq<char>)> {
    v.map_values(|e: (String, String)| (e.0@, e.1@))
}

/// A key is in the map of `pairs` exactly when some pair holds it.
pub proof fn lemma_map_of_dom(pairs: Seq<(Seq<char>, Seq<char>)>, k: Seq<char>)
    ensures
        map_of(pairs).dom().contains(k) <==> exists|i: int| 0 <= i < pairs.len() && #[trigger] pairs[i].0 == k,
        map_of(pairs).dom().finite(),
    decreases pairs.len(),
{
    if pairs.len() > 0 {
        lemma_map_of_dom(pairs.drop_last(), k);
        if map_of(pairs.drop_last()).dom().contains(k) {
            let i = choose|i: int| 0 <= i < pairs.drop_last().len() && #[trigger] pairs.drop_last()[i].0 == k;
            assert(pairs[i].0 == k);
        }
        if exists|i: int| 0 <= i < pairs.len() && #[trigger] pairs[i].0 == k {
            let i = choose|i: int| 0 <= i < pairs.len() && #[trigger] pairs[i].0 == k;
            if i < pairs.len() - 1 {
                assert(pairs.drop_last()[i].0 == k);
            }
        }
    }
}

/// With distinct keys, each pair's value is the map's value for its key.
pub proof fn lemma_map_of_value(pairs: Seq<(Seq<char>, Seq<char>)>, i: int)
    requires
        keys_distinct(pairs),
        0 <= i < pairs.len(),
    ensures
        map_of(pairs).dom().contains(pairs[i].0),
        map_of(pairs)[pairs[i].0] == pairs[i].1,
    decreases pairs.len(),
{
    if i < pairs.len() - 1 {
        let d = pairs.drop_last();
        assert(d[i] == pairs[i]);
        assert(keys_distinct(d)) by {
            assert forall|a: int, b: int|
                0 <= a < d.len() && 0 <= b < d.len() && a != b implies #[trigger] d[a].0
                != #[trigger] d[b].0 by {
                assert(d[a] == pairs[a] && d[b] == pairs[b]);
            }
        }
        lemma_map_of_value(d, i);
        assert(pairs[i].0 != pairs.last().0);
    }
}

/// With distinct keys, the map has as many keys as there are pairs.
pub proof fn lemma_map_of_len(pairs: Seq<(Seq<char>, Seq<char>)>)
    requires
        keys_distinct(pairs),
    ensures
        map_of(pairs).dom().len() == pairs.len(),
    decreases pairs.len(),
{
    if pairs.len() > 0 {
        let d = pairs.drop_last();
        assert(keys_distinct(d)) by {
            assert forall|a: int, b: int|
                0 <= a < d.len() && 0 <= b < d.len() && a != b implies #[trigger] d[a].0
                != #[trigger] d[b].0 by {
                assert(d[a] == pairs[a] && d[b] == pairs[b]);
            }
        }
        lemma_map_of_len(d);
        lemma_map_of_dom(d, pairs.last().0);
        if map_of(d).dom().contains(pairs.last().0) {
            let i = choose|i: int| 0 <= i < d.len() && #[trigger] d[i].0 == pairs.last().0;
            assert(pairs[i].0 == pairs[pairs.len() - 1].0);
        }
    }
}

/// Replacing the value of a pair keeps the other keys' values.
pub proof fn lemma_map_of_update(pairs: Seq<(Seq<char>, Seq<char>)>, i: int, v: Seq<char>)
    requires
        keys_distinct(pairs),
        0 <= i < pairs.len(),
    ensures
        map_of(pairs.update(i, (pairs[i].0, v))) == map_of(pairs).insert(pairs[i].0, v),
    decreases pairs.len(),
{
    let u = pairs.update(i, (pairs[i].0, v));
    let d = pairs.drop_last();
    if i == pairs.len() - 1 {
        assert(u.drop_last() =~= d);
        assert(map_of(u) =~= map_of(pairs).insert(pairs[i].0, v));
    } else {
        assert(keys_distinct(d)) by {
            assert forall|a: int, b: int|
                0 <= a < d.len() && 0 <= b < d.len() && a != b implies #[trigger] d[a].0
                != #[trigger] d[b].0 by {
                assert(d[a] == pairs[a] && d[b] == pairs[b]);
            }
        }
        assert(d[i] == pairs[i]);
        lemma_map_of_update(d, i, v);
        assert(u.drop_last() =~= d.update(i, (d[i].0, v)));
        assert(pairs[i].0 != pairs.last().0);
        assert(map_of(u) =~= map_of(pairs).insert(pairs[i].0, v));
    }
}

/// A map from file names to hashes (`HashMap<String, String>` in use).
#[derive(Debug)]
pub struct FileHashes {
    entries: Vec<(String, String)>,
}

impl FileHashes {
    /// The entries, in the order their keys were first inserted.
    pub closed spec fn listing(self) -> Seq<(Seq<char>, Seq<char>)> {
        pair_views(self.entries@)
    }

    #[verifier::type_invariant]
    closed spec fn keys_are_distinct(self) -> bool {
        keys_distinct(self.listing())
    }
}

impl View for FileHashes {
    type V = Map<Seq<char>, Seq<char>>;

    open spec fn view(&self) -> Map<Seq<char>, Seq<char>> {
        map_of(self.listing())
    }
}

impl FileHashes {
    /// An empty map.
    pub fn new() -> (res: Self)
        ensures
            res@ == Map::<Seq<char>, Seq<char>>::empty(),
            res.listing() == Seq::<(Seq<char>, Seq<char>)>::empty(),
    {
        let res = FileHashes { entries: Vec::new() };
        assert(res.listing() =~= Seq::<(Seq<char>, Seq<char>)>::empty());
        res
    }

    /// The position of `key` in the entries.
    fn position(&self, key: &str) -> (res: Option<usize>)
        ensures
            match res {
                Some(i) => i < self.listing().len() && self.listing()[i as int].0 == key@,
                None => forall|i: int| 0 <= i < self.listing().len() ==> self.listing()[i].0 != key@,
            },
    {
        let mut i: usize = 0;
        while i < self.entries.len()
            invariant
                i <= self.entries@.len(),
                forall|j: int| 0 <= j < i ==> self.listing()[j].0 != key@,
            decreases self.entries@.len() - i,
        {
            if str_eq(self.entries[i].0.as_str(), key) {
                return Some(i);
            }
            i += 1;
        }
        None
    }

    /// Sets the value of `key`, giving back the value it replaced. A key
    /// already present keeps its place in `listing`; a new one comes last.
    pub fn insert(&mut self, key: String, value: String) -> (res: Option<String>)
        ensures
            final(self)@ == old(self)@.insert(key@, value@),
            final(self).listing() == listing_insert(old(self).listing(), key@, value@),
            match res {
                Some(v) => old(self)@.contains_key(key@) && v@ == old(self)@[key@],
                None => !old(self)@.contains_key(key@),
            },
    {
        proof {
            use_type_invariant(&*self);
        }
        let ghost before = self.listing();
        proof {
            lemma_map_of_dom(before, key@);
        }
        let found = self.position(key.as_str());
        let mut entries: Vec<(String, String)> = Vec::new();
        std::mem::swap(&mut entries, &mut self.entries);
        assert(pair_views(entries@) == before);
        match found {
            Some(i) => {
                proof {
                    lemma_map_of_value(before, i as int);
                    lemma_map_of_update(before, i as int, value@);
                }
                assert(listing_insert(before, key@, value@) == before.update(i as int, (key@, value@))) by {
                    let j = choose|j: int| 0 <= j < before.len() && #[trigger] before[j].0 == key@;
                    assert(before[i as int].0 == key@);
                    assert(j == i);
                }
                let mut entry = (key, value);
                entries.set_and_swap(i, &mut entry);
                assert(pair_views(entries@) =~= before.update(i as int, (before[i as int].0, value@)));
                self.entries = entries;
                Some(entry.1)
            },
            None => {
                entries.push((key, value));
                assert(pair_views(entries@) =~= before.push((key@, value@)));
                assert(pair_views(entries@).drop_last() =~= before);
                self.entries = entries;
                None
            },
        }
    }

    /// The value of `key`, if it has one.
    pub fn get(&self, key: &str) -> (res: Option<&String>)
        ensures
            match res {
                Some(v) => self@.contains_key(key@) && v@ == self@[key@],
                None => !self@.contains_key(key@),
            },
    {
        proof {
            use_type_invariant(self);
            lemma_map_of_dom(self.listing(), key@);
        }
        match self.position(key) {
            Some(i) => {
                proof {
                    lemma_map_of_value(self.listing(), i as int);
                }
                Some(&self.entries[i].1)
            },
            None => None,
        }
    }

    /// Whether `key` has a value.
    pub fn contains_key(&self, key: &str) -> (res: bool)
        ensures
            res == self@.contains_key(key@),
    {
        self.get(key).is_some()
    }

    /// The number of keys.
    pub fn len(&self) -> (res: usize)
        ensures
            res == self@.len(),
    {
        proof {
            use_type_invariant(self);
            lemma_map_of_len(self.listing());
        }
        self.entries.len()
    }

    /// Whether the map has no keys.
    pub fn is_empty(&self) -> (res: bool)
        ensures
            res == (self@.len() == 0),
    {
        self.len() == 0
    }

    /// The entries, in the order of `listing`.
    pub fn pairs(&self) -> (res: &Vec<(String, String)>)
        ensures
            pair_views(res@) == self.listing(),
            keys_distinct(self.listing()),
    {
        proof {
            use_type_invariant(self);
        }
        &self.entries
    }

    /// The keys, each once.
    pub fn keys(&self) -> (res: Vec<String>)
        ensures
            res@.len() == self@.len(),
            forall|i: int, j: int|
                0 <= i < res@.len() && 0 <= j < res@.len() && i != j ==> #[trigger] res@[i]@
                    != #[trigger] res@[j]@,
            forall|i: int| 0 <= i < res@.len() ==> self@.contains_key(#[trigger] res@[i]@),
            forall|k: Seq<char>|
                #[trigger] self@.contains_key(k) ==> exists|i: int|
                    0 <= i < res@.len() && #[trigger] res@[i]@ == k,
            forall|i: int| 0 <= i < res@.len() ==> #[trigger] res@[i]@ == self.listing()[i].0,
    {
        proof {
            use_type_invariant(self);
            lemma_map_of_len(self.listing());
        }
        let ghost l = self.listing();
        let mut res: Vec<String> = Vec::new();
        let mut i: usize = 0;
        while i < self.entries.len()
            invariant
                l == self.listing(),
                keys_distinct(l),
                i <= self.entries@.len(),
                res@.len() == i,
                forall|j: int| 0 <= j < i ==> #[trigger] res@[j]@ == l[j].0,
            decreases self.entries@.len() - i,
        {
            res.push(self.entries[i].0.clone());
            i += 1;
        }
        assert forall|a: int| 0 <= a < res@.len() implies self@.contains_key(#[trigger] res@[a]@) by {
            lemma_map_of_value(l, a);
        }
        assert forall|k: Seq<char>| #[trigger] self@.contains_key(k) implies exists|a: int|
            0 <= a < res@.len() && #[trigger] res@[a]@ == k by {
            lemma_map_of_dom(l, k);
            let a = choose|a: int| 0 <= a < l.len() && #[trigger] l[a].0 == k;
            assert(res@[a]@ == k);
        }
        res
    }
}

} // verus!
