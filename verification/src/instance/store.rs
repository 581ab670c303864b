//! The instances that are known, by their identities.
use vstd::prelude::*;
use crate::instance::models::{Instance, InstanceError, InstanceModel};
use crate::text::same;

verus! {

spec fn holds_at(list: Seq<Instance>, id: Seq<char>, i: int) -> bool {
    0 <= i < list.len() && list[i].id@ == id
}

spec fn distinct_ids(list: Seq<Instance>) -> bool {
    forall|i: int, j: int|
        0 <= i < j < list.len() ==> #[trigger] list[i].id@ != #[trigger] list[j].id@
}

/// The instances that are known. No two have the same identity.
#[derive(Debug)]
pub struct InstanceStore {
    list: Vec<Instance>,
}

impl View for InstanceStore {
    type V = Map<Seq<char>, InstanceModel>;

    closed spec fn view(&self) -> Map<Seq<char>, InstanceModel> {
        Map::new(
            |id: Seq<char>| exists|i: int| holds_at(self.list@, id, i),
            |id: Seq<char>| self.list@[choose|i: int| holds_at(self.list@, id, i)]@,
        )
    }
}

/// A store files every instance under its own identity.
pub open spec fn files_under_own_id(m: Map<Seq<char>, InstanceModel>) -> bool {
    forall|id: Seq<char>| #[trigger] m.dom().contains(id) ==> m[id].id == id
}

proof fn lemma_at(s: &InstanceStore, i: int)
    requires
        distinct_ids(s.list@),
        0 <= i < s.list.len(),
    ensures
        s@.dom().contains(s.list@[i].id@),
        s@[s.list@[i].id@] == s.list@[i]@,
{
    let id = s.list@[i].id@;
    assert(holds_at(s.list@, id, i));
    let k = choose|k: int| holds_at(s.list@, id, k);
    if k < i {
        assert(s.list@[k].id@ != s.list@[i].id@);
    } else if i < k {
        assert(s.list@[i].id@ != s.list@[k].id@);
    }
}

impl InstanceStore {
    #[verifier::type_invariant]
    spec fn inv(self) -> bool {
        distinct_ids(self.list@)
    }

    /// No instance is known.
    pub fn new() -> (r: Self)
        ensures
            r@ == Map::<Seq<char>, InstanceModel>::empty(),
    {
        let r = InstanceStore { list: Vec::new() };
        assert(r@ =~= Map::<Seq<char>, InstanceModel>::empty());
        r
    }

    fn index(&self, id: &str) -> (r: Option<usize>)
        ensures
            match r {
                Some(i) => holds_at(self.list@, id@, i as int) && self@.dom().contains(id@)
                    && self@[id@] == self.list@[i as int]@,
                None => !self@.dom().contains(id@),
            },
    {
        proof {
            use_type_invariant(self);
        }
        let mut i: usize = 0;
        while i < self.list.len()
            invariant
                i <= self.list.len(),
                distinct_ids(self.list@),
                forall|j: int| 0 <= j < i ==> self.list@[j].id@ != id@,
            decreases self.list.len() - i,
        {
            if same(self.list[i].id.as_str(), id) {
                proof {
                    lemma_at(self, i as int);
                }
                return Some(i);
            }
            i += 1;
        }
        None
    }

    /// The instance with an identity.
    pub fn get(&self, id: &str) -> (r: Option<&Instance>)
        ensures
            match r {
                Some(instance) => self@.dom().contains(id@) && self@[id@] == instance@
                    && instance.id@ == id@,
                None => !self@.dom().contains(id@),
            },
            files_under_own_id(self@),
    {
        proof {
            use_type_invariant(self);
            assert forall|id: Seq<char>| #[trigger] self@.dom().contains(id) implies self@[id].id
                == id by {
                let k = choose|k: int| holds_at(self.list@, id, k);
                lemma_at(self, k);
            }
        }
        match self.index(id) {
            Some(i) => Some(&self.list[i]),
            None => None,
        }
    }

    /// A copy of the instance with an identity.
    pub fn get_instance(&self, id: &str) -> (r: Result<Instance, InstanceError>)
        ensures
            match r {
                Ok(instance) => self@.dom().contains(id@) && self@[id@] == instance@
                    && instance.id@ == id@,
                Err(error) => !self@.dom().contains(id@) && error
                    == InstanceError::InstanceNotFoundByID,
            },
    {
        match self.get(id) {
            Some(instance) => Ok(instance.duplicate()),
            None => Err(InstanceError::InstanceNotFoundByID),
        }
    }

    /// Files an instance under its identity, in the place of the one that was there.
    pub fn insert(&mut self, instance: Instance)
        ensures
            final(self)@ == old(self)@.insert(instance.id@, instance@),
    {
        proof {
            use_type_invariant(&*self);
        }
        let ghost before = *self;
        let ghost id = instance.id@;
        let ghost model = instance@;
        let found = self.index(instance.id.as_str());
        let mut list: Vec<Instance> = Vec::new();
        std::mem::swap(&mut list, &mut self.list);
        match found {
            Some(i) => {
                list.set(i, instance);
            },
            None => {
                list.push(instance);
                assert forall|i: int, j: int| 0 <= i < j < list.len() implies #[trigger] list@[i].id@
                    != #[trigger] list@[j].id@ by {
                    if j == before.list.len() {
                        if list@[i].id@ == id {
                            assert(holds_at(before.list@, id, i));
                        }
                    }
                }
            },
        }
        self.list = list;
        proof {
            let after = *self;
            assert forall|x: Seq<char>| #[trigger] after@.dom().contains(x) <==> before@.dom().contains(
                x,
            ) || x == id by {
                if before@.dom().contains(x) {
                    let k = choose|k: int| holds_at(before.list@, x, k);
                    assert(holds_at(after.list@, x, k));
                }
                if x == id {
                    let k = match found {
                        Some(i) => i as int,
                        None => before.list.len() as int,
                    };
                    assert(holds_at(after.list@, x, k));
                }
                if after@.dom().contains(x) && x != id {
                    let k = choose|k: int| holds_at(after.list@, x, k);
                    assert(holds_at(before.list@, x, k));
                }
            }
            assert forall|x: Seq<char>| #[trigger] after@.dom().contains(x) implies after@[x]
                == before@.insert(id, model)[x] by {
                let k = choose|k: int| holds_at(after.list@, x, k);
                let at = match found {
                    Some(i) => i as int,
                    None => before.list.len() as int,
                };
                lemma_at(&after, k);
                lemma_at(&after, at);
                assert(after.list@[at]@ == model);
                if x != id {
                    assert(holds_at(before.list@, x, k));
                    lemma_at(&before, k);
                }
            }
            assert(after@ =~= before@.insert(id, model));
        }
    }

    /// Forgets the instance with an identity.
    pub fn remove(&mut self, id: &str)
        ensures
            final(self)@ == old(self)@.remove(id@),
    {
        proof {
            use_type_invariant(&*self);
        }
        let ghost before = *self;
        let found = self.index(id);
        match found {
            Some(i) => {
                let mut list: Vec<Instance> = Vec::new();
                std::mem::swap(&mut list, &mut self.list);
                list.remove(i);
                assert forall|a: int, b: int| 0 <= a < b < list.len() implies #[trigger] list@[a].id@
                    != #[trigger] list@[b].id@ by {
                    let x = if a < i {
                        a
                    } else {
                        a + 1
                    };
                    let y = if b < i {
                        b
                    } else {
                        b + 1
                    };
                    assert(list@[a] == before.list@[x]);
                    assert(list@[b] == before.list@[y]);
                }
                self.list = list;
                proof {
                    let after = *self;
                    assert forall|x: Seq<char>| #[trigger] after@.dom().contains(x)
                        <==> before@.dom().contains(x) && x != id@ by {
                        if before@.dom().contains(x) && x != id@ {
                            let k = choose|k: int| holds_at(before.list@, x, k);
                            if k < i {
                                assert(holds_at(after.list@, x, k));
                            } else {
                                assert(holds_at(after.list@, x, k - 1));
                            }
                        }
                        if after@.dom().contains(x) {
                            let k = choose|k: int| holds_at(after.list@, x, k);
                            let m = if k < i {
                                k
                            } else {
                                k + 1
                            };
                            assert(after.list@[k] == before.list@[m]);
                            assert(holds_at(before.list@, x, m));
                            if x == id@ {
                                if m < i {
                                    assert(before.list@[m].id@ != before.list@[i as int].id@);
                                } else {
                                    assert(before.list@[i as int].id@ != before.list@[m].id@);
                                }
                            }
                        }
                    }
                    assert forall|x: Seq<char>| #[trigger] after@.dom().contains(x) implies after@[x]
                        == before@[x] by {
                        let k = choose|k: int| holds_at(after.list@, x, k);
                        let m = if k < i {
                            k
                        } else {
                            k + 1
                        };
                        lemma_at(&after, k);
                        lemma_at(&before, m);
                    }
                    assert(after@ =~= before@.remove(id@));
                }
            },
            None => {
                assert(self@ =~= before@.remove(id@));
            },
        }
    }

    /// The identity of the instance that was filed first; an empty text if there is none.
    pub fn first_id(&self) -> (r: String)
        ensures
            self@.dom() == Set::<Seq<char>>::empty() ==> r@ == ""@,
            self@.dom() != Set::<Seq<char>>::empty() ==> self@.dom().contains(r@),
    {
        proof {
            use_type_invariant(self);
        }
        if self.list.len() == 0 {
            assert(self@.dom() =~= Set::<Seq<char>>::empty());
            "".to_owned()
        } else {
            proof {
                lemma_at(self, 0);
            }
            self.list[0].id.clone()
        }
    }
}

/// Filing an instance that was not there and forgetting it again leaves everything as it was.
pub proof fn registering_and_rolling_back_restores_the_store(
    m: Map<Seq<char>, InstanceModel>,
    instance: InstanceModel,
)
    requires
        !m.dom().contains(instance.id),
    ensures
        m.insert(instance.id, instance).remove(instance.id) == m,
{
    assert(m.insert(instance.id, instance).remove(instance.id) =~= m);
}

} // verus!
