//! A small map from names to indices, kept as a list of distinct keys.
use vstd::prelude::*;
use crate::text::chars_eq;

verus! {

/// A map from names to indices. Inserting a name that is present replaces
/// its index.
pub struct NameMap {
    entries: Vec<(Vec<char>, usize)>,
}

impl View for NameMap {
    type V = Map<Seq<char>, usize>;

    closed spec fn view(&self) -> Map<Seq<char>, usize> {
        Map::new(
            |k: Seq<char>| exists|i: int| 0 <= i < self.entries@.len() && self.entries@[i].0@ == k,
            |k: Seq<char>| self.entries@[choose|i: int| 0 <= i < self.entries@.len() && self.entries@[i].0@ == k].1,
        )
    }
}

impl NameMap {
    /// No name occurs twice.
    pub closed spec fn wf(&self) -> bool {
        forall|i: int, j: int| 0 <= i < self.entries@.len() && 0 <= j < self.entries@.len() && i != j
            ==> self.entries@[i].0@ != self.entries@[j].0@
    }

    pub fn new() -> (r: NameMap)
        ensures
            r.wf(),
            r@ == Map::<Seq<char>, usize>::empty(),
    {
        let r = NameMap { entries: Vec::new() };
        assert(r@ =~= Map::<Seq<char>, usize>::empty());
        r
    }

    fn find(&self, name: &Vec<char>) -> (r: Option<usize>)
        ensures
            r matches Some(i) ==> i < self.entries@.len() && self.entries@[i as int].0@ == name@,
            r is None ==> forall|i: int| 0 <= i < self.entries@.len() ==> self.entries@[i].0@ != name@,
    {
        let mut i: usize = 0;
        while i < self.entries.len()
            invariant
                i <= self.entries@.len(),
                forall|j: int| 0 <= j < i ==> self.entries@[j].0@ != name@,
            decreases self.entries@.len() - i,
        {
            if chars_eq(&self.entries[i].0, name) {
                return Some(i);
            }
            i = i + 1;
        }
        None
    }

    /// The index bound to `name`, if any.
    pub fn get(&self, name: &Vec<char>) -> (r: Option<usize>)
        requires
            self.wf(),
        ensures
            r == (if self@.contains_key(name@) { Some(self@[name@]) } else { None::<usize> }),
    {
        match self.find(name) {
            Some(i) => {
                assert(self@.contains_key(name@));
                let ghost c = choose|j: int| 0 <= j < self.entries@.len() && self.entries@[j].0@ == name@;
                assert(c == i);
                Some(self.entries[i].1)
            },
            None => None,
        }
    }

    /// Binds `name` to `v`, replacing any earlier binding.
    pub fn insert(&mut self, name: &Vec<char>, v: usize)
        requires
            old(self).wf(),
        ensures
            final(self).wf(),
            final(self)@ == old(self)@.insert(name@, v),
    {
        match self.find(name) {
            Some(i) => {
                let ghost e0 = self.entries@;
                self.entries.set(i, (name.clone(), v));
                assert forall|k: Seq<char>| #![auto] self@.contains_key(k) == old(self)@.insert(name@, v).contains_key(k) by {
                    if k == name@ {
                        assert(self.entries@[i as int].0@ == name@);
                    }
                    if old(self)@.insert(name@, v).contains_key(k) && k != name@ {
                        let j = choose|j: int| 0 <= j < e0.len() && e0[j].0@ == k;
                        assert(self.entries@[j].0@ == k);
                    }
                    if self@.contains_key(k) {
                        let j = choose|j: int| 0 <= j < self.entries@.len() && self.entries@[j].0@ == k;
                        if j != i {
                            assert(e0[j].0@ == k);
                        }
                    }
                }
                assert forall|k: Seq<char>| #![auto] self@.contains_key(k) implies self@[k] == old(self)@.insert(name@, v)[k] by {
                    let j = choose|j: int| 0 <= j < self.entries@.len() && self.entries@[j].0@ == k;
                    if k != name@ {
                        let j0 = choose|j: int| 0 <= j < e0.len() && e0[j].0@ == k;
                        assert(j0 != i);
                        assert(self.entries@[j0].0@ == k);
                        assert(j == j0);
                    } else {
                        assert(j == i);
                    }
                }
                assert(self@ =~= old(self)@.insert(name@, v));
            },
            None => {
                let ghost e0 = self.entries@;
                self.entries.push((name.clone(), v));
                assert forall|k: Seq<char>| #![auto] self@.contains_key(k) == old(self)@.insert(name@, v).contains_key(k) by {
                    if k == name@ {
                        assert(self.entries@[e0.len() as int].0@ == name@);
                    }
                    if old(self)@.insert(name@, v).contains_key(k) && k != name@ {
                        let j = choose|j: int| 0 <= j < e0.len() && e0[j].0@ == k;
                        assert(self.entries@[j].0@ == k);
                    }
                    if self@.contains_key(k) {
                        let j = choose|j: int| 0 <= j < self.entries@.len() && self.entries@[j].0@ == k;
                        if j < e0.len() {
                            assert(e0[j].0@ == k);
                        }
                    }
                }
                assert forall|k: Seq<char>| #![auto] self@.contains_key(k) implies self@[k] == old(self)@.insert(name@, v)[k] by {
                    let j = choose|j: int| 0 <= j < self.entries@.len() && self.entries@[j].0@ == k;
                    if k != name@ {
                        let j0 = choose|j: int| 0 <= j < e0.len() && e0[j].0@ == k;
                        assert(self.entries@[j0].0@ == k);
                        assert(j == j0);
                    } else {
                        assert(j == e0.len());
                    }
                }
                assert(self@ =~= old(self)@.insert(name@, v));
            },
        }
    }

    /// A copy of the map.
    pub fn duplicate(&self) -> (r: NameMap)
        requires
            self.wf(),
        ensures
            r.wf(),
            r@ == self@,
    {
        let mut es: Vec<(Vec<char>, usize)> = Vec::new();
        let mut k: usize = 0;
        while k < self.entries.len()
            invariant
                k <= self.entries@.len(),
                es@.len() == k,
                forall|j: int| 0 <= j < k ==> #[trigger] es@[j].0@ == self.entries@[j].0@ && es@[j].1 == self.entries@[j].1,
            decreases self.entries@.len() - k,
        {
            let name = crate::ast::copy_chars(&self.entries[k].0);
            es.push((name, self.entries[k].1));
            k = k + 1;
        }
        let r = NameMap { entries: es };
        assert forall|key: Seq<char>| #![auto] r@.contains_key(key) == self@.contains_key(key) by {
            if r@.contains_key(key) {
                let j = choose|j: int| 0 <= j < r.entries@.len() && r.entries@[j].0@ == key;
                assert(self.entries@[j].0@ == key);
            }
            if self@.contains_key(key) {
                let j = choose|j: int| 0 <= j < self.entries@.len() && self.entries@[j].0@ == key;
                assert(r.entries@[j].0@ == key);
            }
        }
        assert forall|key: Seq<char>| #![auto] r@.contains_key(key) implies r@[key] == self@[key] by {
            let j = choose|j: int| 0 <= j < r.entries@.len() && r.entries@[j].0@ == key;
            let j2 = choose|j: int| 0 <= j < self.entries@.len() && self.entries@[j].0@ == key;
            assert(self.entries@[j].0@ == key);
            assert(j == j2);
        }
        assert(r@ =~= self@);
        r
    }
}

} // verus!
