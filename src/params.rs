//! Parameter maps: the bindings of a matched path's parameter segments.

use vstd::prelude::*;

verus! {

/// The map that results from inserting `pairs` one by one, later pairs
/// overriding earlier ones with the same key.
pub open spec fn pairs_map(pairs: Seq<(Seq<char>, Seq<char>)>) -> Map<Seq<char>, Seq<char>>
    decreases pairs.len(),
{
    if pairs.len() == 0 {
        Map::empty()
    } else {
        pairs_map(pairs.drop_last()).insert(pairs.last().0, pairs.last().1)
    }
}

/// The keys of `entries`, in order.
pub open spec fn keys_of(entries: Seq<(Seq<char>, Seq<char>)>) -> Seq<Seq<char>> {
    entries.map_values(|e: (Seq<char>, Seq<char>)| e.0)
}

/// Parameter names bound to the path segments they matched, with unique
/// names, in the order in which they were first bound.
pub struct ParameterMap {
    entries: Vec<(String, String)>,
}

impl ParameterMap {
    /// The entries, as pairs of character sequences.
    pub closed spec fn entries(&self) -> Seq<(Seq<char>, Seq<char>)> {
        self.entries@.map_values(|e: (String, String)| (e.0@, e.1@))
    }

    /// The map from parameter name to bound value.
    pub open spec fn view(&self) -> Map<Seq<char>, Seq<char>> {
        pairs_map(self.entries())
    }

    /// No name occurs twice among the entries.
    pub open spec fn wf(&self) -> bool {
        keys_of(self.entries()).no_duplicates()
    }

    /// An empty map.
    pub fn new() -> (r: ParameterMap)
        ensures
            r.wf(),
            r.entries() == Seq::<(Seq<char>, Seq<char>)>::empty(),
            r@ == Map::<Seq<char>, Seq<char>>::empty(),
    {
        let r = ParameterMap { entries: Vec::new() };
        assert(r.entries() =~= Seq::<(Seq<char>, Seq<char>)>::empty());
        r
    }

    /// The number of names bound.
    pub fn len(&self) -> (r: usize)
        ensures
            r == self.entries().len(),
    {
        self.entries.len()
    }

    /// The position of `key` among the entries, if it is bound.
    fn position(&self, key: &String) -> (r: Option<usize>)
        ensures
            r matches Some(i) ==> i < self.entries().len() && self.entries()[i as int].0 == key@,
            r is None ==> forall|i: int|
                0 <= i < self.entries().len() ==> self.entries()[i].0 != key@,
    {
        let mut i: usize = 0;
        while i < self.entries.len()
            invariant
                i <= self.entries@.len(),
                forall|k: int| 0 <= k < i ==> self.entries()[k].0 != key@,
            decreases self.entries@.len() - i,
        {
            assert(self.entries()[i as int].0 == self.entries@[i as int].0@);
            if self.entries[i].0 == *key {
                return Some(i);
            }
            i = i + 1;
        }
        None
    }

    /// Binds `key` to `value`: a name already bound keeps its place and
    /// takes the new value; a new name comes last.
    pub fn insert(&mut self, key: String, value: String)
        requires
            old(self).wf(),
        ensures
            final(self).wf(),
            final(self)@ == old(self)@.insert(key@, value@),
            final(self).entries().len() >= old(self).entries().len(),
    {
        proof {
            lemma_map_from_unique(self.entries());
        }
        match self.position(&key) {
            Some(i) => {
                let ghost before = self.entries();
                self.entries.set(i, (key, value));
                proof {
                    let after = self.entries();
                    assert(after =~= before.update(i as int, (key@, value@)));
                    assert(keys_of(after) =~= keys_of(before).update(i as int, key@));
                    assert(keys_of(before)[i as int] == key@);
                    assert(keys_of(after) =~= keys_of(before));
                    lemma_map_from_unique(after);
                    assert(after[i as int] == (key@, value@));
                    let m = old(self)@.insert(key@, value@);
                    assert forall|k: Seq<char>| #[trigger] self@.contains_key(k) implies m.contains_key(k)
                        && self@[k] == m[k] by {
                        let j = choose|j: int| 0 <= j < after.len() && #[trigger] after[j].0 == k;
                        if j != i as int {
                            assert(before[j] == after[j]);
                        }
                    }
                    assert forall|k: Seq<char>| #[trigger] m.contains_key(k) implies self@.contains_key(k) by {
                        if k != key@ {
                            let j = choose|j: int| 0 <= j < before.len() && #[trigger] before[j].0 == k;
                            assert(before[j] == after[j]);
                        }
                    }
                    assert(self@ =~= m);
                }
            },
            None => {
                let ghost before = self.entries();
                self.entries.push((key, value));
                proof {
                    let after = self.entries();
                    assert(after =~= before.push((key@, value@)));
                    assert(after.drop_last() =~= before);
                    assert(keys_of(after) =~= keys_of(before).push(key@));
                    assert(!keys_of(before).contains(key@));
                }
            },
        }
    }

    /// The value bound to `key`, if any.
    pub fn get(&self, key: &str) -> (r: Option<String>)
        requires
            self.wf(),
        ensures
            r is None <==> !self@.contains_key(key@),
            r matches Some(v) ==> self@.contains_key(key@) && v@ == self@[key@],
    {
        proof {
            lemma_map_from_unique(self.entries());
        }
        let owned = key.to_owned();
        match self.position(&owned) {
            Some(i) => {
                assert(self.entries()[i as int].1 == self.entries@[i as int].1@);
                Some(self.entries[i].1.clone())
            },
            None => None,
        }
    }

    /// The entries, in order.
    pub fn pairs(&self) -> (r: Vec<(String, String)>)
        ensures
            r@.map_values(|e: (String, String)| (e.0@, e.1@)) == self.entries(),
    {
        let mut r: Vec<(String, String)> = Vec::new();
        let mut i: usize = 0;
        while i < self.entries.len()
            invariant
                i <= self.entries@.len(),
                r@.len() == i,
                forall|k: int| 0 <= k < i ==> (#[trigger] r@[k]).0@ == self.entries@[k].0@ && r@[k].1@
                    == self.entries@[k].1@,
            decreases self.entries@.len() - i,
        {
            let k = self.entries[i].0.clone();
            let v = self.entries[i].1.clone();
            r.push((k, v));
            i = i + 1;
        }
        assert(r@.map_values(|e: (String, String)| (e.0@, e.1@)) =~= self.entries());
        r
    }

    /// The map built by inserting `pairs` in order, later pairs overriding
    /// earlier ones with the same key.
    pub fn from_pairs(pairs: Vec<(String, String)>) -> (r: ParameterMap)
        ensures
            r.wf(),
            r@ == pairs_map(pairs@.map_values(|e: (String, String)| (e.0@, e.1@))),
    {
        let ghost src = pairs@.map_values(|e: (String, String)| (e.0@, e.1@));
        let mut r = ParameterMap::new();
        let mut i: usize = 0;
        while i < pairs.len()
            invariant
                i <= pairs@.len(),
                src == pairs@.map_values(|e: (String, String)| (e.0@, e.1@)),
                r.wf(),
                r@ == pairs_map(src.subrange(0, i as int)),
            decreases pairs@.len() - i,
        {
            let k = pairs[i].0.clone();
            let v = pairs[i].1.clone();
            proof {
                assert(src.subrange(0, i + 1).drop_last() =~= src.subrange(0, i as int));
            }
            r.insert(k, v);
            i = i + 1;
        }
        assert(src.subrange(0, pairs@.len() as int) =~= src);
        r
    }
}

/// With unique keys, each entry's key maps to that entry's value, and only
/// the entries' keys are in the map.
pub proof fn lemma_map_from_unique(entries: Seq<(Seq<char>, Seq<char>)>)
    requires
        keys_of(entries).no_duplicates(),
    ensures
        forall|i: int|
            0 <= i < entries.len() ==> pairs_map(entries).contains_key(#[trigger] entries[i].0)
                && pairs_map(entries)[entries[i].0] == entries[i].1,
        forall|k: Seq<char>|
            pairs_map(entries).contains_key(k) <==> exists|i: int|
                0 <= i < entries.len() && #[trigger] entries[i].0 == k,
    decreases entries.len(),
{
    if entries.len() > 0 {
        let init = entries.drop_last();
        assert(keys_of(init) =~= keys_of(entries).drop_last());
        lemma_map_from_unique(init);
        assert forall|i: int| 0 <= i < init.len() implies init[i].0 != entries.last().0 by {
            assert(keys_of(entries)[i] == init[i].0);
            assert(keys_of(entries)[entries.len() - 1] == entries.last().0);
        }
        assert forall|k: Seq<char>|
            pairs_map(entries).contains_key(k) implies exists|i: int|
                0 <= i < entries.len() && #[trigger] entries[i].0 == k by {
            if k != entries.last().0 {
                assert(pairs_map(init).contains_key(k));
                let i = choose|i: int| 0 <= i < init.len() && #[trigger] init[i].0 == k;
                assert(entries[i] == init[i]);
            } else {
                assert(entries[entries.len() - 1].0 == k);
            }
        }
        assert forall|i: int| 0 <= i < entries.len() implies pairs_map(entries).contains_key(
            #[trigger] entries[i].0,
        ) && pairs_map(entries)[entries[i].0] == entries[i].1 by {
            if i < entries.len() - 1 {
                assert(entries[i] == init[i]);
            }
        }
    }
}

} // verus!
