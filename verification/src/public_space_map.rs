//! The map from the identifier of a public space to the indices of its name
//! and of its locality.

use crate::database::texts;
use crate::names::{insert_name, lemma_ascending_is_unique, position, strictly_ascending};
use vstd::prelude::*;

verus! {

/// A map keyed by identifier. The identifiers are kept in ascending byte
/// order, so that one is found by binary search.
pub struct PublicSpaceMap {
    ids: Vec<String>,
    targets: Vec<(u32, u16)>,
}

/// The map that two lists of the same length spell: each identifier with
/// the target at its index.
pub open spec fn entries_map(ids: Seq<Seq<char>>, targets: Seq<(u32, u16)>) -> Map<
    Seq<char>,
    (u32, u16),
> {
    Map::new(|k: Seq<char>| ids.contains(k), |k: Seq<char>| targets[ids.index_of(k)])
}

/// In the map of an ascending list each identifier leads to the target at
/// its own index.
pub proof fn lemma_entry(ids: Seq<Seq<char>>, targets: Seq<(u32, u16)>, i: int)
    requires
        strictly_ascending(ids),
        0 <= i < ids.len(),
    ensures
        entries_map(ids, targets).contains_key(ids[i]),
        entries_map(ids, targets)[ids[i]] == targets[i],
{
    assert(ids.contains(ids[i]));
    let k = ids.index_of(ids[i]);
    lemma_ascending_is_unique(ids, i, k);
}

impl View for PublicSpaceMap {
    type V = Map<Seq<char>, (u32, u16)>;

    closed spec fn view(&self) -> Map<Seq<char>, (u32, u16)> {
        entries_map(texts(self.ids@), self.targets@)
    }
}

impl PublicSpaceMap {
    /// The identifiers are in order and each has its target.
    pub closed spec fn well_formed(&self) -> bool {
        &&& strictly_ascending(texts(self.ids@))
        &&& self.ids@.len() == self.targets@.len()
    }

    /// The empty map.
    pub fn new() -> (map: PublicSpaceMap)
        ensures
            map.well_formed(),
            map@ == Map::<Seq<char>, (u32, u16)>::empty(),
    {
        let map = PublicSpaceMap { ids: Vec::new(), targets: Vec::new() };
        assert(map@ =~= Map::<Seq<char>, (u32, u16)>::empty());
        map
    }

    /// How many identifiers the map holds.
    pub fn len(&self) -> (n: usize)
        requires
            self.well_formed(),
        ensures
            n == self@.dom().len(),
            self@.dom().finite(),
    {
        proof {
            let ids = texts(self.ids@);
            assert(self@.dom() =~= ids.to_set());
            assert(ids.no_duplicates()) by {
                assert forall|i: int, j: int| 0 <= i < ids.len() && 0 <= j < ids.len() && i
                    != j implies ids[i] != ids[j] by {
                    if ids[i] == ids[j] {
                        lemma_ascending_is_unique(ids, i, j);
                    }
                }
            }
            ids.unique_seq_to_set();
        }
        self.ids.len()
    }

    /// Map `id` to `target`, in place of what it was mapped to before.
    pub fn insert(&mut self, id: String, target: (u32, u16))
        requires
            old(self).well_formed(),
        ensures
            final(self).well_formed(),
            final(self)@ == old(self)@.insert(id@, target),
    {
        let ghost old_ids = texts(self.ids@);
        let ghost old_targets = self.targets@;
        let (at, inserted) = insert_name(&mut self.ids, id.as_str());
        if inserted {
            self.targets.insert(at, target);
        } else {
            self.targets.set(at, target);
        }
        proof {
            let ids = texts(self.ids@);
            let targets = self.targets@;
            assert forall|k: Seq<char>|
                #[trigger] self@.contains_key(k) <==> old(self)@.insert(id@, target).contains_key(
                    k,
                ) by {}
            assert forall|k: Seq<char>| #[trigger] self@.contains_key(k) implies self@[k] == old(
                self,
            )@.insert(id@, target)[k] by {
                let i = ids.index_of(k);
                lemma_entry(ids, targets, i);
                if k != id@ {
                    if inserted {
                        assert(ids == old_ids.insert(at as int, id@));
                        assert(ids[at as int] == id@);
                        let j = if i < at { i } else { i - 1 };
                        assert(old_ids[j] == k);
                        lemma_entry(old_ids, old_targets, j);
                    } else {
                        lemma_ascending_is_unique(ids, i, i);
                        lemma_entry(old_ids, old_targets, i);
                    }
                } else {
                    lemma_ascending_is_unique(ids, i, at as int);
                }
            }
            assert(self@ =~= old(self)@.insert(id@, target));
        }
    }

    /// What `id` is mapped to, if it is in the map.
    pub fn get(&self, id: &str) -> (target: Option<(u32, u16)>)
        requires
            self.well_formed(),
        ensures
            target == (if self@.contains_key(id@) {
                Some(self@[id@])
            } else {
                None
            }),
    {
        let (at, found) = position(&self.ids, id);
        if found {
            proof {
                lemma_entry(texts(self.ids@), self.targets@, at as int);
            }
            Some(self.targets[at])
        } else {
            None
        }
    }
}

} // verus!
