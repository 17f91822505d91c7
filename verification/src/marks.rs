//! A small map from names to the last readings taken for them.

use vstd::prelude::*;

verus! {

/// The readings recorded per name, in the order the names were first seen.
/// No name occurs twice.
#[derive(Debug)]
pub struct Marks<V> {
    entries: Vec<(String, V)>,
}

/// The names and readings of the entries.
pub open spec fn entry_views<V>(e: Seq<(String, V)>) -> Seq<(Seq<char>, V)> {
    e.map_values(|x: (String, V)| (x.0@, x.1))
}

/// No name occurs twice.
pub open spec fn unique_names<V>(s: Seq<(Seq<char>, V)>) -> bool {
    forall|i: int, j: int|
        0 <= i < s.len() && 0 <= j < s.len() && i != j ==> #[trigger] s[i].0 != #[trigger] s[j].0
}

/// The map that the entries denote.
pub open spec fn as_map<V>(s: Seq<(Seq<char>, V)>) -> Map<Seq<char>, V> {
    Map::new(
        |k: Seq<char>| exists|i: int| 0 <= i < s.len() && #[trigger] s[i].0 == k,
        |k: Seq<char>| s[choose|i: int| 0 <= i < s.len() && #[trigger] s[i].0 == k].1,
    )
}

proof fn lemma_as_map_at<V>(s: Seq<(Seq<char>, V)>, i: int)
    requires
        unique_names(s),
        0 <= i < s.len(),
    ensures
        as_map(s).contains_key(s[i].0),
        as_map(s)[s[i].0] == s[i].1,
{
    let k = s[i].0;
    assert(exists|j: int| 0 <= j < s.len() && #[trigger] s[j].0 == k);
    let j = choose|j: int| 0 <= j < s.len() && #[trigger] s[j].0 == k;
    assert(j == i);
}

impl<V> View for Marks<V> {
    type V = Map<Seq<char>, V>;

    closed spec fn view(&self) -> Map<Seq<char>, V> {
        as_map(entry_views(self.entries@))
    }
}

impl<V> Marks<V> {
    #[verifier::type_invariant]
    closed spec fn names_unique(&self) -> bool {
        unique_names(entry_views(self.entries@))
    }
}

impl<V: Copy> Marks<V> {
    /// An empty map.
    pub fn new() -> (m: Self)
        ensures
            m@ == Map::<Seq<char>, V>::empty(),
    {
        let m = Marks { entries: Vec::new() };
        proof {
            assert(m@ =~= Map::<Seq<char>, V>::empty());
        }
        m
    }

    /// The reading recorded for `name`, if any.
    pub fn get(&self, name: &String) -> (r: Option<V>)
        ensures
            r == (if self@.contains_key(name@) { Some(self@[name@]) } else { None::<V> }),
    {
        proof {
            use_type_invariant(self);
        }
        let ghost s = entry_views(self.entries@);
        let mut i: usize = 0;
        while i < self.entries.len()
            invariant
                i <= self.entries@.len(),
                s == entry_views(self.entries@),
                unique_names(s),
                forall|k: int| 0 <= k < i ==> #[trigger] s[k].0 != name@,
            decreases self.entries@.len() - i,
        {
            proof {
                assert(s[i as int].0 == self.entries@[i as int].0@);
            }
            if self.entries[i].0 == *name {
                proof {
                    lemma_as_map_at(s, i as int);
                }
                return Some(self.entries[i].1);
            }
            i = i + 1;
        }
        proof {
            assert(!as_map(s).contains_key(name@));
        }
        None
    }

    /// Records `value` for `name`, replacing any earlier reading.
    pub fn insert(&mut self, name: String, value: V)
        ensures
            final(self)@ == old(self)@.insert(name@, value),
    {
        proof {
            use_type_invariant(&*self);
        }
        let ghost s = entry_views(self.entries@);
        let ghost k = name@;
        let mut entries: Vec<(String, V)> = Vec::new();
        std::mem::swap(&mut entries, &mut self.entries);
        let mut i: usize = 0;
        while i < entries.len() && entries[i].0 != name
            invariant
                i <= entries@.len(),
                s == entry_views(entries@),
                k == name@,
                unique_names(s),
                forall|j: int| 0 <= j < i ==> #[trigger] s[j].0 != k,
            decreases entries@.len() - i,
        {
            proof {
                assert(s[i as int].0 == entries@[i as int].0@);
            }
            i = i + 1;
        }
        let found = i < entries.len();
        proof {
            if found {
                assert(s[i as int].0 == entries@[i as int].0@);
            }
        }
        let ghost t: Seq<(Seq<char>, V)>;
        if found {
            entries.set(i, (name, value));
            proof {
                t = entry_views(entries@);
                assert(t =~= s.update(i as int, (k, value)));
            }
        } else {
            entries.push((name, value));
            proof {
                t = entry_views(entries@);
                assert(t =~= s.push((k, value)));
            }
        }
        proof {
            assert(unique_names(t));
            let m = as_map(s).insert(k, value);
            assert forall|key: Seq<char>| #[trigger] as_map(t).contains_key(key) == m.contains_key(key) by {
                if m.contains_key(key) {
                    if key == k {
                        if found {
                            assert(t[i as int].0 == k);
                        } else {
                            assert(t[s.len() as int].0 == k);
                        }
                    } else {
                        let j = choose|j: int| 0 <= j < s.len() && #[trigger] s[j].0 == key;
                        assert(t[j].0 == key);
                    }
                }
                if as_map(t).contains_key(key) {
                    let j = choose|j: int| 0 <= j < t.len() && #[trigger] t[j].0 == key;
                    if key != k {
                        assert(s[j].0 == key);
                    }
                }
            }
            assert forall|key: Seq<char>| #[trigger] as_map(t).contains_key(key) implies as_map(t)[key] == m[key] by {
                let j = choose|j: int| 0 <= j < t.len() && #[trigger] t[j].0 == key;
                lemma_as_map_at(t, j);
                if key != k {
                    lemma_as_map_at(s, j);
                }
            }
            assert(as_map(t) =~= m);
        }
        self.entries = entries;
    }
}

} // verus!
