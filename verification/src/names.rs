//! A finite set of names, held as a vector in which no name occurs twice.

use vstd::prelude::*;

verus! {

/// A name as contracts see it: the characters of a string.
pub type Name = Seq<char>;

/// The views of the strings of a sequence, in order.
pub open spec fn views(names: Seq<String>) -> Seq<Name> {
    names.map_values(|s: String| s@)
}

/// A set of package names. Names are kept in the order of their insertion.
pub struct NameSet {
    names: Vec<String>,
}

impl View for NameSet {
    type V = Set<Name>;

    closed spec fn view(&self) -> Set<Name> {
        views(self.names@).to_set()
    }
}

impl NameSet {
    #[verifier::type_invariant]
    spec fn distinct(self) -> bool {
        views(self.names@).no_duplicates()
    }

    /// The empty set.
    pub fn new() -> (r: NameSet)
        ensures
            r@ == Set::<Name>::empty(),
    {
        let r = NameSet { names: Vec::new() };
        assert(views(r.names@).to_set() =~= Set::<Name>::empty());
        r
    }

    /// The set is finite.
    pub proof fn lemma_finite(&self)
        ensures
            self@.finite(),
    {
        vstd::seq_lib::seq_to_set_is_finite(views(self.names@));
    }

    /// Whether `name` is in the set.
    pub fn contains(&self, name: &String) -> (r: bool)
        ensures
            r == self@.contains(name@),
    {
        let mut i: usize = 0;
        while i < self.names.len()
            invariant
                i <= self.names.len(),
                forall|k: int| 0 <= k < i ==> views(self.names@)[k] != name@,
            decreases self.names.len() - i,
        {
            if self.names[i] == *name {
                assert(views(self.names@)[i as int] == name@);
                return true;
            }
            i += 1;
        }
        false
    }

    /// Adds `name`; returns whether it was new.
    pub fn insert(&mut self, name: String) -> (r: bool)
        ensures
            final(self)@ == old(self)@.insert(name@),
            r == !old(self)@.contains(name@),
    {
        if self.contains(&name) {
            assert(self@.insert(name@) =~= self@);
            false
        } else {
            proof {
                use_type_invariant(&*self);
                let before = views(self.names@);
                assert(views(self.names@.push(name)) =~= before.push(name@));
                before.lemma_push_to_set_commute(name@);
            }
            let mut taken = NameSet::new();
            std::mem::swap(self, &mut taken);
            let mut names = taken.names;
            names.push(name);
            *self = NameSet { names };
            true
        }
    }

    /// The number of names in the set.
    pub fn len(&self) -> (r: usize)
        ensures
            r == self@.len(),
            self@.finite(),
    {
        proof {
            use_type_invariant(self);
            views(self.names@).unique_seq_to_set();
            self.lemma_finite();
        }
        self.names.len()
    }

    /// The names of `self` that are not in `other`.
    pub fn difference(&self, other: &NameSet) -> (r: NameSet)
        ensures
            r@ == self@.difference(other@),
    {
        let mut kept: Vec<String> = Vec::new();
        let mut i: usize = 0;
        proof {
            use_type_invariant(self);
            assert(views(kept@).to_set() =~= views(self.names@).take(0).to_set().difference(
                other@,
            ));
        }
        while i < self.names.len()
            invariant
                i <= self.names.len(),
                views(self.names@).no_duplicates(),
                views(kept@).no_duplicates(),
                views(kept@).to_set() == views(self.names@).take(i as int).to_set().difference(
                    other@,
                ),
            decreases self.names.len() - i,
        {
            let name = &self.names[i];
            let ghost all = views(self.names@);
            let ghost before = views(kept@);
            proof {
                assert(all.take(i + 1) =~= all.take(i as int).push(name@));
                all.take(i as int).lemma_push_to_set_commute(name@);
                assert(!all.take(i as int).to_set().contains(name@)) by {
                    if all.take(i as int).contains(name@) {
                        let k = choose|k: int| 0 <= k < i && all.take(i as int)[k] == name@;
                        assert(all[k] == all[i as int]);
                    }
                }
            }
            if !other.contains(name) {
                kept.push(name.clone());
                proof {
                    assert(views(kept@) =~= before.push(name@));
                    before.lemma_push_to_set_commute(name@);
                    assert(!before.contains(name@)) by {
                        if before.contains(name@) {
                            assert(before.to_set().contains(name@));
                            assert(all.take(i as int).to_set().contains(name@));
                        }
                    }
                    assert(views(kept@).to_set() =~= all.take(i + 1).to_set().difference(other@));
                }
            } else {
                assert(views(kept@).to_set() =~= all.take(i + 1).to_set().difference(other@));
            }
            i += 1;
        }
        assert(views(self.names@).take(i as int) =~= views(self.names@));
        NameSet { names: kept }
    }
}

} // verus!
