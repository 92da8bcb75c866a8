use vstd::prelude::*;

verus! {

/// Whether no two entries have the same key text.
pub open spec fn keys_unique<V>(s: Seq<(String, V)>) -> bool {
    forall|i: int, j: int| 0 <= i < j < s.len() ==> #[trigger] s[i].0@ != #[trigger] s[j].0@
}

/// The map from key text to value that a list of entries describes.
pub open spec fn map_of<V>(s: Seq<(String, V)>) -> Map<Seq<char>, V>
    decreases s.len(),
{
    if s.len() == 0 {
        Map::empty()
    } else {
        map_of(s.drop_last()).insert(s.last().0@, s.last().1)
    }
}

/// The keys of the map that a list of entries describes are the keys of its entries.
pub proof fn lemma_map_of_dom<V>(s: Seq<(String, V)>, k: Seq<char>)
    ensures
        map_of(s).contains_key(k) <==> exists|i: int| 0 <= i < s.len() && #[trigger] s[i].0@ == k,
    decreases s.len(),
{
    if s.len() > 0 {
        let p = s.drop_last();
        lemma_map_of_dom(p, k);
        if map_of(p).contains_key(k) {
            let i = choose|i: int| 0 <= i < p.len() && #[trigger] p[i].0@ == k;
            assert(s[i].0@ == k);
        }
        if exists|i: int| 0 <= i < s.len() && #[trigger] s[i].0@ == k {
            let i = choose|i: int| 0 <= i < s.len() && #[trigger] s[i].0@ == k;
            if i < p.len() {
                assert(p[i].0@ == k);
            }
        }
    }
}

proof fn lemma_map_of_value<V>(s: Seq<(String, V)>, i: int)
    requires
        keys_unique(s),
        0 <= i < s.len(),
    ensures
        map_of(s).contains_key(s[i].0@),
        map_of(s)[s[i].0@] == s[i].1,
    decreases s.len(),
{
    let p = s.drop_last();
    if i < s.len() - 1 {
        assert(keys_unique(p));
        lemma_map_of_value(p, i);
        assert(p[i] == s[i]);
        assert(s[i].0@ != s[s.len() - 1].0@);
    }
}

/// A list of entries with unique keys describes the map that holds exactly its keys,
/// each with the value of its entry.
proof fn lemma_map_of_is<V>(s: Seq<(String, V)>, m: Map<Seq<char>, V>)
    requires
        keys_unique(s),
        forall|k: Seq<char>|
            m.contains_key(k) <==> exists|i: int| 0 <= i < s.len() && #[trigger] s[i].0@ == k,
        forall|i: int| 0 <= i < s.len() ==> m[#[trigger] s[i].0@] == s[i].1,
    ensures
        map_of(s) == m,
{
    assert forall|k: Seq<char>| map_of(s).contains_key(k) <==> m.contains_key(k) by {
        lemma_map_of_dom(s, k);
    }
    assert forall|k: Seq<char>| map_of(s).contains_key(k) implies map_of(s)[k] == m[k] by {
        lemma_map_of_dom(s, k);
        let i = choose|i: int| 0 <= i < s.len() && #[trigger] s[i].0@ == k;
        lemma_map_of_value(s, i);
    }
    assert(map_of(s) =~= m);
}

/// A map keyed by text, kept as a list of entries with unique keys in the order in
/// which the keys were first inserted.
pub struct StrMap<V> {
    entries: Vec<(String, V)>,
}

impl<V> StrMap<V> {
    #[verifier::type_invariant]
    spec fn inv(self) -> bool {
        keys_unique(self.entries@)
    }

    /// The entries, in order.
    pub closed spec fn entries_spec(self) -> Seq<(String, V)> {
        self.entries@
    }
}

impl<V> View for StrMap<V> {
    type V = Map<Seq<char>, V>;

    open spec fn view(&self) -> Map<Seq<char>, V> {
        map_of(self.entries_spec())
    }
}

impl<V> StrMap<V> {
    pub fn new() -> (m: Self)
        ensures
            m@ == Map::<Seq<char>, V>::empty(),
            m.entries_spec().len() == 0,
    {
        StrMap { entries: Vec::new() }
    }

    pub fn len(&self) -> (n: usize)
        ensures
            n == self.entries_spec().len(),
            n == self@.len(),
    {
        proof {
            use_type_invariant(self);
            self.lemma_len();
        }
        self.entries.len()
    }

    proof fn lemma_len(&self)
        requires
            keys_unique(self.entries@),
        ensures
            map_of(self.entries@).len() == self.entries@.len(),
    {
        lemma_map_of_len(self.entries@);
    }

    /// The entries, in order.
    pub fn entries(&self) -> (r: &Vec<(String, V)>)
        ensures
            r@ == self.entries_spec(),
    {
        &self.entries
    }

    fn find(&self, k: &str) -> (r: Option<usize>)
        ensures
            r matches Some(i) ==> i < self.entries@.len() && self.entries@[i as int].0@ == k@,
            r is None ==> forall|i: int|
                0 <= i < self.entries@.len() ==> #[trigger] self.entries@[i].0@ != k@,
    {
        let mut i: usize = 0;
        while i < self.entries.len()
            invariant
                i <= self.entries@.len(),
                forall|j: int| 0 <= j < i ==> #[trigger] self.entries@[j].0@ != k@,
            decreases self.entries@.len() - i,
        {
            if crate::text::str_equal(self.entries[i].0.as_str(), k) {
                return Some(i);
            }
            i = i + 1;
        }
        None
    }

    pub fn contains_key(&self, k: &str) -> (b: bool)
        ensures
            b == self@.contains_key(k@),
    {
        proof {
            lemma_map_of_dom(self.entries@, k@);
        }
        self.find(k).is_some()
    }

    pub fn get(&self, k: &str) -> (r: Option<&V>)
        ensures
            r matches Some(v) ==> self@.contains_key(k@) && *v == self@[k@],
            r is None ==> !self@.contains_key(k@),
    {
        proof {
            use_type_invariant(self);
            lemma_map_of_dom(self.entries@, k@);
        }
        match self.find(k) {
            Some(i) => {
                proof {
                    lemma_map_of_value(self.entries@, i as int);
                }
                Some(&self.entries[i].1)
            },
            None => None,
        }
    }

    /// Sets the value of `k`: in place when `k` has an entry, else in a new last entry.
    pub fn insert(&mut self, k: String, v: V)
        ensures
            final(self)@ == old(self)@.insert(k@, v),
            old(self)@.contains_key(k@) ==> exists|i: int|
                0 <= i < old(self).entries_spec().len() && #[trigger] old(
                    self,
                ).entries_spec()[i].0@ == k@ && final(self).entries_spec() == old(
                    self,
                ).entries_spec().update(i, (k, v)),
            !old(self)@.contains_key(k@) ==> final(self).entries_spec() == old(
                self,
            ).entries_spec().push((k, v)),
    {
        proof {
            use_type_invariant(&*self);
        }
        let ghost old_s = self.entries@;
        let ghost m = map_of(old_s).insert(k@, v);
        proof {
            lemma_map_of_dom(old_s, k@);
        }
        match self.find(k.as_str()) {
            Some(i) => {
                let ghost kv = k@;
                let mut entries: Vec<(String, V)> = Vec::new();
                std::mem::swap(&mut entries, &mut self.entries);
                entries.set(i, (k, v));
                proof {
                    let s = entries@;
                    assert(s == old_s.update(i as int, s[i as int]));
                    assert(keys_unique(s)) by {
                        assert forall|a: int, b: int| 0 <= a < b < s.len() implies #[trigger] s[a].0@
                            != #[trigger] s[b].0@ by {
                            if a != i && b != i {
                                assert(s[a] == old_s[a] && s[b] == old_s[b]);
                            } else if a == i {
                                assert(s[b] == old_s[b]);
                                assert(old_s[a].0@ == kv);
                            } else {
                                assert(s[a] == old_s[a]);
                                assert(old_s[b].0@ == kv);
                            }
                        }
                    }
                    assert forall|q: Seq<char>| m.contains_key(q) <==> exists|j: int|
                        0 <= j < s.len() && #[trigger] s[j].0@ == q by {
                        lemma_map_of_dom(old_s, q);
                        if exists|j: int| 0 <= j < old_s.len() && #[trigger] old_s[j].0@ == q {
                            let j = choose|j: int| 0 <= j < old_s.len() && #[trigger] old_s[j].0@ == q;
                            if j == i {
                                assert(s[j].0@ == q);
                            } else {
                                assert(s[j] == old_s[j]);
                            }
                        }
                        if exists|j: int| 0 <= j < s.len() && #[trigger] s[j].0@ == q {
                            let j = choose|j: int| 0 <= j < s.len() && #[trigger] s[j].0@ == q;
                            if j != i {
                                assert(s[j] == old_s[j]);
                                assert(old_s[j].0@ == q);
                            }
                        }
                    }
                    assert forall|j: int| 0 <= j < s.len() implies m[#[trigger] s[j].0@] == s[j].1 by {
                        if j != i {
                            assert(s[j] == old_s[j]);
                            lemma_map_of_value(old_s, j);
                            assert(old_s[j].0@ != kv);
                        }
                    }
                    lemma_map_of_is(s, m);
                }
                self.entries = entries;
            },
            None => {
                let mut entries: Vec<(String, V)> = Vec::new();
                std::mem::swap(&mut entries, &mut self.entries);
                entries.push((k, v));
                proof {
                    let s = entries@;
                    assert(s.drop_last() =~= old_s);
                    assert(keys_unique(s)) by {
                        assert forall|a: int, b: int| 0 <= a < b < s.len() implies #[trigger] s[a].0@
                            != #[trigger] s[b].0@ by {
                            if b == s.len() - 1 {
                                assert(s[a] == old_s[a]);
                            } else {
                                assert(s[a] == old_s[a] && s[b] == old_s[b]);
                            }
                        }
                    }
                }
                self.entries = entries;
            },
        }
    }

    /// Removes the entry of `k`, if any; the other entries keep their order.
    pub fn remove(&mut self, k: &str)
        ensures
            final(self)@ == old(self)@.remove(k@),
            old(self)@.contains_key(k@) ==> exists|i: int|
                0 <= i < old(self).entries_spec().len() && #[trigger] old(
                    self,
                ).entries_spec()[i].0@ == k@ && final(self).entries_spec() == old(
                    self,
                ).entries_spec().remove(i),
            !old(self)@.contains_key(k@) ==> final(self).entries_spec() == old(
                self,
            ).entries_spec(),
    {
        proof {
            use_type_invariant(&*self);
        }
        let ghost old_s = self.entries@;
        let ghost m = map_of(old_s).remove(k@);
        proof {
            lemma_map_of_dom(old_s, k@);
        }
        match self.find(k) {
            Some(i) => {
                let mut entries: Vec<(String, V)> = Vec::new();
                std::mem::swap(&mut entries, &mut self.entries);
                entries.remove(i);
                proof {
                    let s = entries@;
                    assert(s == old_s.remove(i as int));
                    assert forall|j: int| 0 <= j < s.len() implies #[trigger] s[j] == old_s[if j < i {
                        j
                    } else {
                        j + 1
                    }] by {}
                    assert(keys_unique(s)) by {
                        assert forall|a: int, b: int| 0 <= a < b < s.len() implies #[trigger] s[a].0@
                            != #[trigger] s[b].0@ by {
                            let a2 = if a < i { a } else { a + 1 };
                            let b2 = if b < i { b } else { b + 1 };
                            assert(s[a] == old_s[a2] && s[b] == old_s[b2]);
                        }
                    }
                    assert forall|q: Seq<char>| m.contains_key(q) <==> exists|j: int|
                        0 <= j < s.len() && #[trigger] s[j].0@ == q by {
                        lemma_map_of_dom(old_s, q);
                        if m.contains_key(q) {
                            let j = choose|j: int| 0 <= j < old_s.len() && #[trigger] old_s[j].0@ == q;
                            assert(j != i);
                            let j2 = if j < i { j } else { j - 1 };
                            assert(s[j2] == old_s[j]);
                        }
                        if exists|j: int| 0 <= j < s.len() && #[trigger] s[j].0@ == q {
                            let j = choose|j: int| 0 <= j < s.len() && #[trigger] s[j].0@ == q;
                            let j2 = if j < i { j } else { j + 1 };
                            assert(s[j] == old_s[j2]);
                            assert(old_s[j2].0@ == q);
                            assert(j2 != i);
                            assert(q != k@);
                        }
                    }
                    assert forall|j: int| 0 <= j < s.len() implies m[#[trigger] s[j].0@] == s[j].1 by {
                        let j2 = if j < i { j } else { j + 1 };
                        assert(s[j] == old_s[j2]);
                        lemma_map_of_value(old_s, j2);
                        assert(old_s[j2].0@ != old_s[i as int].0@);
                    }
                    lemma_map_of_is(s, m);
                }
                self.entries = entries;
            },
            None => {
                proof {
                    lemma_map_of_dom(old_s, k@);
                    assert(map_of(old_s).remove(k@) =~= map_of(old_s));
                }
            },
        }
    }

    /// Removes every entry.
    pub fn clear(&mut self)
        ensures
            final(self)@ == Map::<Seq<char>, V>::empty(),
            final(self).entries_spec().len() == 0,
    {
        self.entries = Vec::new();
    }
}

proof fn lemma_map_of_len<V>(s: Seq<(String, V)>)
    requires
        keys_unique(s),
    ensures
        map_of(s).len() == s.len(),
        map_of(s).dom().finite(),
    decreases s.len(),
{
    if s.len() > 0 {
        let p = s.drop_last();
        assert(keys_unique(p));
        lemma_map_of_len(p);
        lemma_map_of_dom(p, s.last().0@);
        if map_of(p).contains_key(s.last().0@) {
            let i = choose|i: int| 0 <= i < p.len() && #[trigger] p[i].0@ == s.last().0@;
            assert(s[i] == p[i]);
        }
    }
}

} // verus!
