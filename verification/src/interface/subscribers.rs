//! Who is told of changes.
use vstd::prelude::*;

use crate::base::ordered::{add_ascending, ascending, lemma_remove_contains};

verus! {

/// The numbers of the subscribers.
pub struct Subscribers {
    pub ids: Vec<u64>,
}

impl Subscribers {
    pub open spec fn wf(&self) -> bool {
        ascending(self.ids@)
    }

    pub open spec fn view(&self) -> Set<u64> {
        self.ids@.to_set()
    }

    pub fn new() -> (subscribers: Subscribers)
        ensures
            subscribers.wf(),
            subscribers.view() == Set::<u64>::empty(),
    {
        let subscribers = Subscribers { ids: Vec::new() };
        assert(subscribers.view() =~= Set::<u64>::empty());
        subscribers
    }

    pub fn insert(&mut self, id: u64)
        requires
            old(self).wf(),
        ensures
            final(self).wf(),
            final(self).view() == old(self).view().insert(id),
    {
        let ghost before = self.ids@;
        add_ascending(&mut self.ids, id);
        assert(self.view() =~= before.to_set().insert(id)) by {
            assert forall|x: u64| self.view().contains(x) == before.to_set().insert(id).contains(x) by {
                assert(self.ids@.contains(x) == (before.contains(x) || x == id));
            }
        }
    }

    pub fn remove(&mut self, id: u64)
        requires
            old(self).wf(),
        ensures
            final(self).wf(),
            final(self).view() == old(self).view().remove(id),
    {
        let ghost before = self.ids@;
        let mut index: usize = 0;
        while index < self.ids.len() && self.ids[index] != id
            invariant
                self.ids@ == before,
                index <= before.len(),
                forall|i: int| #![trigger before[i]] 0 <= i < index ==> before[i] != id,
            decreases before.len() - index,
        {
            index = index + 1;
        }
        if index < self.ids.len() {
            proof {
                lemma_remove_contains(before, index as int);
            }
            let _ = self.ids.remove(index);
        }
        assert(self.view() =~= before.to_set().remove(id)) by {
            assert forall|x: u64| self.view().contains(x) == before.to_set().remove(id).contains(x) by {
                assert(self.ids@.contains(x) == (before.contains(x) && x != id));
            }
        }
    }

    /// Forgets subscribers that could not be reached.
    pub fn drop_all(&mut self, gone: &Vec<u64>)
        requires
            old(self).wf(),
        ensures
            final(self).wf(),
            final(self).view() == old(self).view().difference(gone@.to_set()),
    {
        let ghost start = self.view();
        let mut at: usize = 0;
        assert(start.difference(gone@.take(0).to_set()) =~= start);
        while at < gone.len()
            invariant
                self.wf(),
                at <= gone@.len(),
                self.view() == start.difference(gone@.take(at as int).to_set()),
            decreases gone@.len() - at,
        {
            let ghost before = gone@.take(at as int);
            self.remove(gone[at]);
            at = at + 1;
            proof {
                let after = gone@.take(at as int);
                assert(after =~= before.push(gone@[at as int - 1]));
                assert forall|x: u64| after.to_set().contains(x) == (before.to_set().contains(x) || x == gone@[at as int
                    - 1]) by {
                    assert(after.contains(x) == (before.contains(x) || x == gone@[at as int - 1])) by {
                        if before.contains(x) {
                            let i = before.index_of(x);
                            assert(after[i] == x);
                        }
                        if x == gone@[at as int - 1] {
                            assert(after[at as int - 1] == x);
                        }
                        if after.contains(x) {
                            let i = after.index_of(x);
                            if i < at - 1 {
                                assert(before[i] == x);
                            }
                        }
                    }
                }
                assert(self.view() =~= start.difference(after.to_set()));
            }
        }
        assert(gone@.take(gone@.len() as int) =~= gone@);
    }

    /// How many subscribers there are.
    pub fn count(&self) -> (count: usize)
        requires
            self.wf(),
        ensures
            count == self.view().len(),
    {
        proof {
            assert(self.ids@.no_duplicates()) by {
                assert forall|i: int, j: int| 0 <= i < self.ids@.len() && 0 <= j < self.ids@.len() && i != j implies
                    self.ids@[i] != self.ids@[j] by {
                    if i < j {
                        assert(self.ids@[i] < self.ids@[j]);
                    } else {
                        assert(self.ids@[j] < self.ids@[i]);
                    }
                }
            }
            self.ids@.unique_seq_to_set();
        }
        self.ids.len()
    }
}

} // verus!
