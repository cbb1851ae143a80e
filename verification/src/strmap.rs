use vstd::prelude::*;

verus! {

/// The views of a list of text pairs.
pub open spec fn pair_views(v: Seq<(String, String)>) -> Seq<(Seq<char>, Seq<char>)> {
    v.map_values(|p: (String, String)| (p.0@, p.1@))
}

/// The map that inserting the pairs in order builds (a later pair wins over an earlier
/// one with the same key).
pub open spec fn map_of(ps: Seq<(Seq<char>, Seq<char>)>) -> Map<Seq<char>, Seq<char>>
    decreases ps.len(),
{
    if ps.len() == 0 {
        Map::empty()
    } else {
        map_of(ps.drop_last()).insert(ps.last().0, ps.last().1)
    }
}

/// No key occurs twice.
pub open spec fn distinct_keys(ps: Seq<(Seq<char>, Seq<char>)>) -> bool {
    forall|i: int, j: int| 0 <= i < ps.len() && 0 <= j < ps.len() && i != j ==> ps[i].0 != ps[j].0
}

/// With distinct keys, `map_of` holds exactly the pairs.
pub proof fn lemma_map_of(ps: Seq<(Seq<char>, Seq<char>)>)
    requires
        distinct_keys(ps),
    ensures
        forall|i: int| 0 <= i < ps.len() ==> #[trigger] map_of(ps).contains_key(ps[i].0)
            && map_of(ps)[ps[i].0] == ps[i].1,
        forall|k: Seq<char>| #[trigger] map_of(ps).contains_key(k) ==> exists|i: int| 0 <= i < ps.len() && ps[i].0 == k,
    decreases ps.len(),
{
    if ps.len() > 0 {
        let q = ps.drop_last();
        assert(distinct_keys(q));
        lemma_map_of(q);
        assert forall|i: int| 0 <= i < ps.len() implies #[trigger] map_of(ps).contains_key(ps[i].0)
            && map_of(ps)[ps[i].0] == ps[i].1 by {
            if i < ps.len() - 1 {
                assert(q[i] == ps[i]);
                assert(ps[i].0 != ps[ps.len() - 1].0);
                assert(map_of(q).contains_key(q[i].0));
            }
        }
        assert forall|k: Seq<char>| #[trigger] map_of(ps).contains_key(k) implies exists|i: int|
            0 <= i < ps.len() && ps[i].0 == k by {
            if k != ps.last().0 {
                assert(map_of(q).contains_key(k));
                let i = choose|i: int| 0 <= i < q.len() && q[i].0 == k;
                assert(ps[i] == q[i]);
            } else {
                assert(ps[ps.len() - 1].0 == k);
            }
        }
    }
}

/// A map from text keys to text values, kept as a list of pairs without repeated keys.
#[derive(Debug)]
pub struct StrMap {
    entries: Vec<(String, String)>,
}

impl View for StrMap {
    type V = Map<Seq<char>, Seq<char>>;

    closed spec fn view(&self) -> Map<Seq<char>, Seq<char>> {
        map_of(pair_views(self.entries@))
    }
}

impl StrMap {
    #[verifier::type_invariant]
    closed spec fn wf(&self) -> bool {
        distinct_keys(pair_views(self.entries@))
    }

    /// The pairs of the map, in the order in which they are kept.
    pub closed spec fn pairs(&self) -> Seq<(Seq<char>, Seq<char>)> {
        pair_views(self.entries@)
    }

    /// An empty map.
    pub fn new() -> (m: Self)
        ensures
            m@ == Map::<Seq<char>, Seq<char>>::empty(),
            m.pairs().len() == 0,
    {
        let m = StrMap { entries: Vec::new() };
        assert(pair_views(m.entries@) =~= Seq::empty());
        m
    }

    /// Position of `key` among the pairs.
    fn index_of(&self, key: &String) -> (r: Option<usize>)
        ensures
            match r {
                Some(i) => i < self.pairs().len() && self.pairs()[i as int].0 == key@,
                None => forall|i: int| 0 <= i < self.pairs().len() ==> self.pairs()[i].0 != key@,
            },
    {
        let mut i: usize = 0;
        while i < self.entries.len()
            invariant
                i <= self.entries.len(),
                forall|j: int| 0 <= j < i ==> pair_views(self.entries@)[j].0 != key@,
            decreases self.entries.len() - i,
        {
            if self.entries[i].0 == *key {
                return Some(i);
            }
            i += 1;
        }
        None
    }

    /// Whether the map holds `key`.
    pub fn contains_key(&self, key: &String) -> (r: bool)
        ensures
            r == self@.contains_key(key@),
    {
        proof {
            use_type_invariant(self);
            lemma_map_of(self.pairs());
        }
        match self.index_of(key) {
            Some(_) => true,
            None => {
                proof {
                    if self@.contains_key(key@) {
                        let i = choose|i: int| 0 <= i < self.pairs().len() && self.pairs()[i].0 == key@;
                    }
                }
                false
            },
        }
    }

    /// The value of `key`, if the map holds it.
    pub fn get(&self, key: &String) -> (r: Option<&String>)
        ensures
            match r {
                Some(v) => self@.contains_key(key@) && self@[key@] == v@,
                None => !self@.contains_key(key@),
            },
    {
        proof {
            use_type_invariant(self);
            lemma_map_of(self.pairs());
        }
        match self.index_of(key) {
            Some(i) => {
                assert(self@.contains_key(self.pairs()[i as int].0));
                Some(&self.entries[i].1)
            },
            None => {
                proof {
                    if self@.contains_key(key@) {
                        let i = choose|i: int| 0 <= i < self.pairs().len() && self.pairs()[i].0 == key@;
                    }
                }
                None
            },
        }
    }

    /// Sets `key` to `value`: an existing pair keeps its place, a new one goes last.
    pub fn insert(&mut self, key: String, value: String)
        ensures
            final(self)@ == old(self)@.insert(key@, value@),
            old(self)@.contains_key(key@) ==> final(self).pairs().len() == old(self).pairs().len(),
            !old(self)@.contains_key(key@) ==> final(self).pairs() == old(self).pairs().push((key@, value@)),
    {
        proof {
            use_type_invariant(&*self);
            lemma_map_of(self.pairs());
        }
        let ghost old_pairs = self.pairs();
        match self.index_of(&key) {
            Some(i) => {
                let ghost new_pairs = old_pairs.update(i as int, (key@, value@));
                let mut es: Vec<(String, String)> = Vec::new();
                std::mem::swap(&mut es, &mut self.entries);
                es.set(i, (key, value));
                proof {
                    assert(pair_views(es@) =~= new_pairs);
                    assert(distinct_keys(new_pairs));
                    lemma_map_of(new_pairs);
                    assert(map_of(new_pairs) =~= map_of(old_pairs).insert(key@, value@)) by {
                        assert forall|k: Seq<char>| #[trigger] map_of(new_pairs).contains_key(k)
                            == map_of(old_pairs).insert(key@, value@).contains_key(k) by {
                            assert(map_of(new_pairs).contains_key(new_pairs[i as int].0));
                            if map_of(new_pairs).contains_key(k) {
                                let j = choose|j: int| 0 <= j < new_pairs.len() && new_pairs[j].0 == k;
                                if j != i {
                                    assert(old_pairs[j].0 == k);
                                    assert(map_of(old_pairs).contains_key(old_pairs[j].0));
                                }
                            }
                            if map_of(old_pairs).contains_key(k) && k != key@ {
                                let j = choose|j: int| 0 <= j < old_pairs.len() && old_pairs[j].0 == k;
                                assert(new_pairs[j].0 == k);
                                assert(map_of(new_pairs).contains_key(new_pairs[j].0));
                            }
                        }
                        assert forall|k: Seq<char>| #[trigger] map_of(new_pairs).contains_key(k)
                            implies map_of(new_pairs)[k] == map_of(old_pairs).insert(key@, value@)[k] by {
                            let j = choose|j: int| 0 <= j < new_pairs.len() && new_pairs[j].0 == k;
                            if j != i {
                                assert(old_pairs[j] == new_pairs[j]);
                            }
                        }
                    }
                }
                self.entries = es;
            },
            None => {
                let mut es: Vec<(String, String)> = Vec::new();
                std::mem::swap(&mut es, &mut self.entries);
                es.push((key, value));
                proof {
                    assert(pair_views(es@) =~= old_pairs.push((key@, value@)));
                    assert(old_pairs.push((key@, value@)).drop_last() == old_pairs);
                    assert(!map_of(old_pairs).contains_key(key@)) by {
                        if map_of(old_pairs).contains_key(key@) {
                            let j = choose|j: int| 0 <= j < old_pairs.len() && old_pairs[j].0 == key@;
                        }
                    }
                }
                self.entries = es;
            },
        }
    }

    /// A map holding the pairs, inserted in order (a later pair wins, as when a `HashMap`
    /// is collected from them).
    pub fn from_pairs(v: Vec<(String, String)>) -> (m: Self)
        ensures
            m@ == map_of(pair_views(v@)),
    {
        let mut m = StrMap::new();
        let mut i: usize = 0;
        let n = v.len();
        let ghost pv = pair_views(v@);
        assert(map_of(pv.take(0)) =~= Map::empty());
        while i < n
            invariant
                n == pv.len(),
                n == v.len(),
                pv == pair_views(v@),
                i <= n,
                m@ == map_of(pv.take(i as int)),
            decreases n - i,
        {
            let k = v[i].0.clone();
            let val = v[i].1.clone();
            proof {
                assert(pv.take(i + 1).drop_last() == pv.take(i as int));
                assert(pv.take(i + 1).last() == pv[i as int]);
            }
            m.insert(k, val);
            i += 1;
        }
        assert(pv.take(n as int) == pv);
        m
    }

    /// The pairs of the map, in the order in which they are kept.
    pub fn to_pairs(&self) -> (v: Vec<(String, String)>)
        ensures
            pair_views(v@) == self.pairs(),
            distinct_keys(self.pairs()),
            self@ == map_of(self.pairs()),
            self@.dom().finite(),
            self@.len() == self.pairs().len(),
    {
        proof {
            use_type_invariant(self);
            lemma_map_of_finite(self.pairs());
        }
        let mut v: Vec<(String, String)> = Vec::new();
        let mut i: usize = 0;
        while i < self.entries.len()
            invariant
                i <= self.entries.len(),
                pair_views(v@) == pair_views(self.entries@).take(i as int),
            decreases self.entries.len() - i,
        {
            let k = self.entries[i].0.clone();
            let val = self.entries[i].1.clone();
            let ghost v0 = v@;
            v.push((k, val));
            i += 1;
            proof {
                assert(v@ == v0.push((k, val)));
                assert(pair_views(v0).len() == v0.len());
                assert(v0.len() == i - 1);
                assert(v@.len() == i);
                assert(v@[i - 1] == (k, val));
                assert(k == self.entries@[i - 1].0);
                assert(val == self.entries@[i - 1].1);
                assert(pair_views(v@)[i - 1] == (k@, val@));
                assert(pair_views(self.entries@)[i - 1] == (self.entries@[i - 1].0@, self.entries@[i - 1].1@));
                assert forall|j: int| 0 <= j < i implies pair_views(v@)[j] == pair_views(self.entries@).take(i as int)[j] by {
                    if j < i - 1 {
                        assert(pair_views(v0)[j] == pair_views(self.entries@).take(i - 1)[j]);
                    }
                }
                assert(pair_views(v@) =~= pair_views(self.entries@).take(i as int));
            }
        }
        assert(pair_views(self.entries@).take(i as int) =~= pair_views(self.entries@));
        v
    }

    /// A copy of the map, with its pairs in the same order.
    pub fn copy(&self) -> (m: Self)
        ensures
            m@ == self@,
            m.pairs() == self.pairs(),
    {
        proof {
            use_type_invariant(self);
        }
        let v = self.to_pairs();
        let m = StrMap { entries: v };
        m
    }
}

/// A map of distinct pairs is finite with one entry per pair.
pub proof fn lemma_map_of_finite(ps: Seq<(Seq<char>, Seq<char>)>)
    requires
        distinct_keys(ps),
    ensures
        map_of(ps).dom().finite(),
        map_of(ps).len() == ps.len(),
    decreases ps.len(),
{
    if ps.len() > 0 {
        let q = ps.drop_last();
        assert(distinct_keys(q));
        lemma_map_of_finite(q);
        lemma_map_of(q);
        if map_of(q).contains_key(ps.last().0) {
            let j = choose|j: int| 0 <= j < q.len() && q[j].0 == ps.last().0;
            assert(ps[j].0 == ps[ps.len() - 1].0);
        }
    }
}

} // verus!
