//! Which tasks have a write waiting, and whether it was given up.
use vstd::prelude::*;
use crate::text::str_eq;

verus! {

/// A map from task identifiers to a flag.
#[derive(Debug)]
pub struct Marks {
    entries: Vec<(String, bool)>,
}

pub open spec fn entry_views(v: Seq<(String, bool)>) -> Seq<(Seq<char>, bool)> {
    v.map_values(|e: (String, bool)| (e.0@, e.1))
}

/// The map that a list of entries stands for.
pub open spec fn entry_map(v: Seq<(Seq<char>, bool)>) -> Map<Seq<char>, bool>
    decreases v.len(),
{
    if v.len() == 0 {
        Map::empty()
    } else {
        entry_map(v.drop_last()).insert(v.last().0, v.last().1)
    }
}

/// No key twice.
pub open spec fn keys_apart(v: Seq<(Seq<char>, bool)>) -> bool {
    forall|i: int, j: int| 0 <= i < j < v.len() ==> (#[trigger] v[i]).0 != (#[trigger] v[j]).0
}

impl View for Marks {
    type V = Map<Seq<char>, bool>;

    closed spec fn view(&self) -> Map<Seq<char>, bool> {
        entry_map(entry_views(self.entries@))
    }
}

proof fn lemma_entry_map(v: Seq<(Seq<char>, bool)>)
    requires
        keys_apart(v),
    ensures
        entry_map(v).dom().finite(),
        entry_map(v).len() == v.len(),
        forall|i: int|
            0 <= i < v.len() ==> entry_map(v).dom().contains((#[trigger] v[i]).0) && entry_map(
                v,
            )[v[i].0] == v[i].1,
        forall|k: Seq<char>| #[trigger]
            entry_map(v).dom().contains(k) ==> exists|i: int| 0 <= i < v.len() && v[i].0 == k,
    decreases v.len(),
{
    if v.len() > 0 {
        let d = v.drop_last();
        assert(keys_apart(d)) by {
            assert forall|i: int, j: int| 0 <= i < j < d.len() implies (#[trigger] d[i]).0 != (
            #[trigger] d[j]).0 by {
                assert(d[i] == v[i] && d[j] == v[j]);
            }
        }
        lemma_entry_map(d);
        assert(!entry_map(d).dom().contains(v.last().0)) by {
            if entry_map(d).dom().contains(v.last().0) {
                let i = choose|i: int| 0 <= i < d.len() && d[i].0 == v.last().0;
                assert(v[i].0 == v[v.len() - 1].0);
            }
        }
        assert(entry_map(v).dom() =~= entry_map(d).dom().insert(v.last().0));
        assert forall|i: int| 0 <= i < v.len() implies entry_map(v).dom().contains(
            (#[trigger] v[i]).0,
        ) && entry_map(v)[v[i].0] == v[i].1 by {
            if i < d.len() {
                assert(d[i] == v[i]);
                assert(v[i].0 != v[v.len() - 1].0);
            }
        }
        assert forall|k: Seq<char>| #[trigger] entry_map(v).dom().contains(k) implies exists|i: int|
            0 <= i < v.len() && v[i].0 == k by {
            if k == v.last().0 {
                assert(v[v.len() - 1].0 == k);
            } else {
                assert(entry_map(d).dom().contains(k));
                let i = choose|i: int| 0 <= i < d.len() && d[i].0 == k;
                assert(v[i].0 == k);
            }
        }
    }
}

impl Marks {
    #[verifier::type_invariant]
    spec fn inv(self) -> bool {
        keys_apart(entry_views(self.entries@))
    }

    pub fn new() -> (m: Marks)
        ensures
            m@ == Map::<Seq<char>, bool>::empty(),
    {
        Marks { entries: Vec::new() }
    }

    /// The position of `uid`, or the number of entries.
    fn find(&self, uid: &str) -> (k: usize)
        ensures
            k <= self.entries@.len(),
            k < self.entries@.len() ==> self.entries@[k as int].0@ == uid@,
            k == self.entries@.len() ==> forall|i: int|
                0 <= i < self.entries@.len() ==> (#[trigger] self.entries@[i]).0@ != uid@,
    {
        let mut k: usize = 0;
        while k < self.entries.len() && !str_eq(self.entries[k].0.as_str(), uid)
            invariant
                k <= self.entries@.len(),
                forall|i: int| 0 <= i < k ==> (#[trigger] self.entries@[i]).0@ != uid@,
            decreases self.entries@.len() - k,
        {
            k += 1;
        }
        k
    }

    /// Sets the flag of `uid`.
    pub fn insert(&mut self, uid: String, errored: bool)
        ensures
            final(self)@ == old(self)@.insert(uid@, errored),
    {
        proof {
            use_type_invariant(&*self);
            lemma_entry_map(entry_views(self.entries@));
        }
        let k = self.find(uid.as_str());
        let ghost before = entry_views(self.entries@);
        let ghost key = uid@;
        let mut entries: Vec<(String, bool)> = Vec::new();
        std::mem::swap(&mut entries, &mut self.entries);
        if k < entries.len() {
            entries.set(k, (uid, errored));
            proof {
                let after = entry_views(entries@);
                assert(after =~= before.update(k as int, (key, errored)));
                assert(before[k as int].0 == key);
                assert(keys_apart(after));
                lemma_entry_map(after);
                assert(entry_map(after).dom() =~= entry_map(before).insert(key, errored).dom()) by {
                    assert forall|x: Seq<char>| entry_map(after).dom().contains(x) == entry_map(
                        before,
                    ).dom().insert(key).contains(x) by {
                        if entry_map(after).dom().contains(x) {
                            let i = choose|i: int| 0 <= i < after.len() && after[i].0 == x;
                            assert(before[i].0 == x);
                        }
                        if entry_map(before).dom().contains(x) {
                            let i = choose|i: int| 0 <= i < before.len() && before[i].0 == x;
                            assert(after[i].0 == x);
                        }
                        assert(after[k as int].0 == key);
                    }
                }
                assert forall|x: Seq<char>| entry_map(after).dom().contains(x) implies entry_map(
                    after,
                )[x] == entry_map(before).insert(key, errored)[x] by {
                    let i = choose|i: int| 0 <= i < after.len() && after[i].0 == x;
                    assert(entry_map(after)[after[i].0] == after[i].1);
                    assert(entry_map(before)[before[i].0] == before[i].1);
                    if i != k {
                        if i < k {
                            assert(before[i].0 != before[k as int].0);
                        } else {
                            assert(before[k as int].0 != before[i].0);
                        }
                    }
                }
                assert(entry_map(after) =~= entry_map(before).insert(key, errored));
            }
        } else {
            entries.push((uid, errored));
            proof {
                let after = entry_views(entries@);
                assert(after =~= before.push((key, errored)));
                assert forall|i: int| 0 <= i < before.len() implies (#[trigger] before[i]).0
                    != key by {
                    assert(old(self).entries@[i].0@ != key);
                }
                assert(keys_apart(after));
                assert(after.drop_last() =~= before);
            }
        }
        self.entries = entries;
    }

    /// The flag of `uid`.
    pub fn get(&self, uid: &str) -> (r: Option<bool>)
        ensures
            r == (if self@.dom().contains(uid@) {
                Some(self@[uid@])
            } else {
                None
            }),
    {
        proof {
            use_type_invariant(self);
            lemma_entry_map(entry_views(self.entries@));
        }
        let k = self.find(uid);
        let ghost v = entry_views(self.entries@);
        if k < self.entries.len() {
            proof {
                assert(v[k as int].0 == uid@);
            }
            Some(self.entries[k].1)
        } else {
            proof {
                if self@.dom().contains(uid@) {
                    let i = choose|i: int| 0 <= i < v.len() && v[i].0 == uid@;
                    assert(self.entries@[i].0@ == uid@);
                }
            }
            None
        }
    }

    pub fn len(&self) -> (n: usize)
        ensures
            n == self@.len(),
            self@.dom().finite(),
    {
        proof {
            use_type_invariant(self);
            lemma_entry_map(entry_views(self.entries@));
        }
        self.entries.len()
    }

    pub fn is_empty(&self) -> (r: bool)
        ensures
            r == (self@ == Map::<Seq<char>, bool>::empty()),
    {
        proof {
            use_type_invariant(self);
            lemma_entry_map(entry_views(self.entries@));
            if self.entries@.len() > 0 {
                assert(self@.dom().contains(entry_views(self.entries@)[0].0));
            } else {
                assert(self@ =~= Map::<Seq<char>, bool>::empty());
            }
        }
        self.entries.len() == 0
    }
}

} // verus!
