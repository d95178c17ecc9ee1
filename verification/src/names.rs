//! A map from names to values.

use vstd::prelude::*;

use crate::text::same;

verus! {

/// A map keyed by name. Each name occurs at most once.
#[derive(Debug)]
pub struct NameMap<T> {
    entries: Vec<(String, T)>,
}

/// No two entries have the same name.
spec fn distinct<T>(entries: Seq<(String, T)>) -> bool {
    forall|i: int, j: int|
        0 <= i < j < entries.len() ==> (#[trigger] entries[i]).0@ != (#[trigger] entries[j]).0@
}

spec fn holds<T>(entries: Seq<(String, T)>, name: Seq<char>, i: int) -> bool {
    0 <= i < entries.len() && entries[i].0@ == name
}

spec fn contents<T: View>(entries: Seq<(String, T)>) -> Map<Seq<char>, T::V> {
    Map::new(
        |name: Seq<char>| exists|i: int| holds(entries, name, i),
        |name: Seq<char>| entries[choose|i: int| holds(entries, name, i)].1@,
    )
}

proof fn lemma_lookup<T: View>(entries: Seq<(String, T)>, i: int)
    requires
        distinct(entries),
        0 <= i < entries.len(),
    ensures
        contents(entries).dom().contains(entries[i].0@),
        contents(entries)[entries[i].0@] == entries[i].1@,
{
    let name = entries[i].0@;
    assert(holds(entries, name, i));
    let k = choose|k: int| holds(entries, name, k);
    assert(holds(entries, name, k));
    if k < i {
        assert(entries[k].0@ != entries[i].0@);
    }
    if i < k {
        assert(entries[i].0@ != entries[k].0@);
    }
}

impl<T: View> View for NameMap<T> {
    type V = Map<Seq<char>, T::V>;

    closed spec fn view(&self) -> Map<Seq<char>, T::V> {
        contents(self.entries@)
    }
}

impl<T> NameMap<T> {
    #[verifier::type_invariant]
    spec fn inv(&self) -> bool {
        distinct(self.entries@)
    }
}

impl<T: View> NameMap<T> {
    pub fn new() -> (map: Self)
        ensures
            map@ == Map::<Seq<char>, T::V>::empty(),
    {
        let map = NameMap { entries: Vec::new() };
        assert(map@ =~= Map::<Seq<char>, T::V>::empty());
        map
    }

    /// How many names the map knows.
    pub fn len(&self) -> (n: usize)
        ensures
            n == self@.len(),
    {
        proof {
            use_type_invariant(self);
            let names = self.entries@.map_values(|e: (String, T)| e.0@);
            assert forall|i: int, j: int|
                0 <= i < names.len() && 0 <= j < names.len() && i != j implies names[i]
                != names[j] by {
                if i < j {
                    assert(self.entries@[i].0@ != self.entries@[j].0@);
                } else {
                    assert(self.entries@[j].0@ != self.entries@[i].0@);
                }
            }
            names.unique_seq_to_set();
            assert(names.to_set() =~= self@.dom()) by {
                assert forall|name: Seq<char>| self@.dom().contains(name) implies names.contains(
                    name,
                ) by {
                    let i = choose|i: int| holds(self.entries@, name, i);
                    assert(names[i] == name);
                }
                assert forall|name: Seq<char>| names.contains(name) implies self@.dom().contains(
                    name,
                ) by {
                    let i = choose|i: int| 0 <= i < names.len() && names[i] == name;
                    assert(holds(self.entries@, name, i));
                }
            }
        }
        self.entries.len()
    }

    /// Where `name` stands among the entries.
    fn find(&self, name: &str) -> (r: Option<usize>)
        ensures
            match r {
                Some(i) => i < self.entries@.len() && self.entries@[i as int].0@ == name@,
                None => forall|i: int|
                    0 <= i < self.entries@.len() ==> (#[trigger] self.entries@[i]).0@ != name@,
            },
    {
        for i in 0..self.entries.len()
            invariant
                forall|j: int| 0 <= j < i ==> (#[trigger] self.entries@[j]).0@ != name@,
        {
            if same(self.entries[i].0.as_str(), name) {
                return Some(i);
            }
        }
        None
    }

    pub fn get(&self, name: &str) -> (r: Option<&T>)
        ensures
            match r {
                Some(value) => self@.dom().contains(name@) && self@[name@] == value@,
                None => !self@.dom().contains(name@),
            },
    {
        proof {
            use_type_invariant(self);
        }
        match self.find(name) {
            Some(i) => {
                proof {
                    lemma_lookup(self.entries@, i as int);
                }
                Some(&self.entries[i].1)
            },
            None => None,
        }
    }

    /// Takes the value out that `name` stands for, and forgets the name.
    pub fn remove(&mut self, name: &str) -> (r: Option<T>)
        ensures
            final(self)@ == old(self)@.remove(name@),
            match r {
                Some(value) => old(self)@.dom().contains(name@) && old(self)@[name@] == value@,
                None => !old(self)@.dom().contains(name@),
            },
    {
        proof {
            use_type_invariant(&*self);
        }
        let found = self.find(name);
        match found {
            Some(i) => {
                let mut entries: Vec<(String, T)> = Vec::new();
                let ghost before = self.entries@;
                std::mem::swap(&mut entries, &mut self.entries);
                let (_, value) = entries.remove(i);
                proof {
                    lemma_lookup(before, i as int);
                    let after = entries@;
                    assert(after =~= before.remove(i as int));
                    assert(distinct(after));
                    assert forall|n: Seq<char>|
                        contents(after).dom().contains(n) <==> contents(before).remove(
                            name@,
                        ).dom().contains(n) by {
                        if contents(after).dom().contains(n) {
                            let k = choose|k: int| holds(after, n, k);
                            let b = if k < i { k } else { k + 1 };
                            assert(after[k] == before[b]);
                            assert(holds(before, n, b));
                            if b < i {
                                assert(before[b].0@ != before[i as int].0@);
                            } else {
                                assert(before[i as int].0@ != before[b].0@);
                            }
                        }
                        if contents(before).remove(name@).dom().contains(n) {
                            let b = choose|b: int| holds(before, n, b);
                            let k = if b < i { b } else { b - 1 };
                            assert(b != i);
                            assert(holds(after, n, k));
                        }
                    }
                    assert forall|n: Seq<char>| contents(after).dom().contains(n) implies contents(
                        after,
                    )[n] == contents(before).remove(name@)[n] by {
                        let k = choose|k: int| holds(after, n, k);
                        let b = if k < i { k } else { k + 1 };
                        assert(after[k] == before[b]);
                        lemma_lookup(after, k);
                        lemma_lookup(before, b);
                        assert(contents(before).remove(name@).dom().contains(n));
                    }
                    assert(contents(after) =~= contents(before).remove(name@));
                }
                self.entries = entries;
                Some(value)
            },
            None => {
                proof {
                    assert(!self@.dom().contains(name@));
                    assert(self@.remove(name@) =~= self@);
                }
                None
            },
        }
    }

    /// Lets `name` stand for `value` from now on.
    pub fn insert(&mut self, name: String, value: T)
        ensures
            final(self)@ == old(self)@.insert(name@, value@),
    {
        let _ = self.remove(name.as_str());
        proof {
            use_type_invariant(&*self);
        }
        let mut entries: Vec<(String, T)> = Vec::new();
        let ghost before = self.entries@;
        assert(!contents(before).dom().contains(name@));
        std::mem::swap(&mut entries, &mut self.entries);
        entries.push((name, value));
        proof {
            let after = entries@;
            let last = before.len() as int;
            assert forall|i: int, j: int| 0 <= i < j < after.len() implies (#[trigger] after[i]).0@
                != (#[trigger] after[j]).0@ by {
                if j == last {
                    if before[i].0@ == name@ {
                        assert(holds(before, name@, i));
                    }
                }
            }
            assert forall|n: Seq<char>|
                contents(after).dom().contains(n) <==> contents(before).insert(
                    name@,
                    value@,
                ).dom().contains(n) by {
                if contents(after).dom().contains(n) {
                    let k = choose|k: int| holds(after, n, k);
                    if k < last {
                        assert(holds(before, n, k));
                    }
                }
                if contents(before).dom().contains(n) {
                    let k = choose|k: int| holds(before, n, k);
                    assert(holds(after, n, k));
                }
                if n == name@ {
                    assert(holds(after, n, last));
                }
            }
            assert forall|n: Seq<char>| contents(after).dom().contains(n) implies contents(after)[n]
                == contents(before).insert(name@, value@)[n] by {
                let k = choose|k: int| holds(after, n, k);
                lemma_lookup(after, k);
                if k < last {
                    lemma_lookup(before, k);
                    assert(n != name@);
                }
            }
            assert(contents(after) =~= contents(before).insert(name@, value@));
            assert(old(self)@.remove(name@).insert(name@, value@) =~= old(self)@.insert(
                name@,
                value@,
            ));
        }
        self.entries = entries;
    }
}

} // verus!
