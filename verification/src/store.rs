//! The persistent configuration store, modeled: a keyed collection with
//! the semantics the rest of the crate relies on from its database.

use vstd::prelude::*;

verus! {

/// A configuration that carries the identifier it is stored under.
pub trait LandscapeDBStore<Id>: Sized {
    /// The stored identifier, as a mathematical value.
    spec fn spec_id(&self) -> Id;

    /// The identifier this configuration is stored under.
    fn get_id(&self) -> (r: Id)
        ensures
            r == self.spec_id(),
    ;
}

/// What merges a configuration into a stored row.
pub trait UpdateActiveModel<ActiveModel>: Sized {
    /// Writes this configuration's fields into `active`.
    fn update(self, active: &mut ActiveModel);
}

/// An in-memory model of one table of the configuration store, keyed
/// by string identifier.
pub struct ConfigStore<T: LandscapeDBStore<String>> {
    pub items: Vec<T>,
}

impl<T: LandscapeDBStore<String>> ConfigStore<T> {
    /// Identifiers are pairwise distinct.
    pub open spec fn wf(&self) -> bool {
        forall|i: int, j: int|
            0 <= i < j < self.items@.len() ==> (#[trigger] self.items@[i]).spec_id()@ != (
            #[trigger] self.items@[j]).spec_id()@
    }

    /// Some row carries identifier `id`.
    pub open spec fn has_id(&self, id: Seq<char>) -> bool {
        exists|i: int|
            0 <= i < self.items@.len() && (#[trigger] self.items@[i]).spec_id()@ == id
    }

    /// The position of the row with identifier `id`.
    pub open spec fn id_pos(&self, id: Seq<char>) -> int {
        choose|i: int|
            0 <= i < self.items@.len() && (#[trigger] self.items@[i]).spec_id()@ == id
    }

    /// An empty table.
    pub fn new() -> (r: ConfigStore<T>)
        ensures
            r.wf(),
            r.items@.len() == 0,
    {
        ConfigStore { items: Vec::new() }
    }

    /// Every stored row.
    pub fn list_all(&self) -> (r: &Vec<T>)
        ensures
            r == &self.items,
    {
        &self.items
    }

    /// The position of the row with identifier `id`.
    fn find(&self, id: &String) -> (r: Option<usize>)
        ensures
            match r {
                Some(i) => i < self.items@.len() && self.items@[i as int].spec_id()@ == id@,
                None => !self.has_id(id@),
            },
    {
        let mut i: usize = 0;
        while i < self.items.len()
            invariant
                i <= self.items@.len(),
                forall|j: int|
                    0 <= j < i ==> (#[trigger] self.items@[j]).spec_id()@ != id@,
            decreases self.items.len() - i,
        {
            if self.items[i].get_id().eq(id) {
                return Some(i);
            }
            i = i + 1;
        }
        None
    }

    /// Stores a new row; its identifier must be free.
    pub fn set_model(&mut self, data: T)
        requires
            old(self).wf(),
            !old(self).has_id(data.spec_id()@),
        ensures
            final(self).wf(),
            final(self).items@ == old(self).items@.push(data),
    {
        proof {
            assert(!self.has_id(data.spec_id()@));
        }
        self.items.push(data);
        proof {
            assert forall|i: int, j: int| 0 <= i < j < self.items@.len() implies (
            #[trigger] self.items@[i]).spec_id()@ != (#[trigger] self.items@[j]).spec_id()@ by {
                if j == self.items@.len() - 1 {
                    assert(self.items@[i] == old(self).items@[i]);
                    assert(old(self).has_id(old(self).items@[i].spec_id()@));
                }
            }
        }
    }

    /// Removes the row with identifier `id`, if one is stored.
    pub fn delete_model(&mut self, id: &String)
        requires
            old(self).wf(),
        ensures
            final(self).wf(),
            final(self).items@ == if old(self).has_id(id@) {
                old(self).items@.remove(old(self).id_pos(id@))
            } else {
                old(self).items@
            },
    {
        match self.find(id) {
            Some(i) => {
                proof {
                    let p = self.id_pos(id@);
                    if p != i {
                        if p < i {
                            assert(self.items@[p].spec_id()@ != self.items@[i as int].spec_id()@);
                        } else {
                            assert(self.items@[i as int].spec_id()@ != self.items@[p].spec_id()@);
                        }
                    }
                }
                let _ = self.items.remove(i);
                proof {
                    assert forall|a: int, b: int| 0 <= a < b < self.items@.len() implies (
                    #[trigger] self.items@[a]).spec_id()@ != (
                    #[trigger] self.items@[b]).spec_id()@ by {
                        let a0 = if a < i { a } else { a + 1 };
                        let b0 = if b < i { b } else { b + 1 };
                        assert(self.items@[a] == old(self).items@[a0]);
                        assert(self.items@[b] == old(self).items@[b0]);
                    }
                }
            },
            None => {},
        }
    }

    /// The row with identifier `id`, if one is stored.
    pub fn find_by_id(&self, id: &String) -> (r: Option<&T>)
        requires
            self.wf(),
        ensures
            r is Some <==> self.has_id(id@),
            r matches Some(v) ==> *v == self.items@[self.id_pos(id@)],
    {
        match self.find(id) {
            Some(i) => {
                proof {
                    let p = self.id_pos(id@);
                    if p != i {
                        if p < i {
                            assert(self.items@[p].spec_id()@ != self.items@[i as int].spec_id()@);
                        } else {
                            assert(self.items@[i as int].spec_id()@ != self.items@[p].spec_id()@);
                        }
                    }
                }
                Some(&self.items[i])
            },
            None => None,
        }
    }

    /// Removes every row.
    pub fn truncate_table(&mut self)
        ensures
            final(self).wf(),
            final(self).items@.len() == 0,
    {
        self.items = Vec::new();
    }

    /// Stores `config` under `id`: a stored row is replaced, a free
    /// identifier gets a new row.
    pub fn set_or_update_model(&mut self, id: &String, config: T)
        requires
            old(self).wf(),
            config.spec_id()@ == id@,
        ensures
            final(self).wf(),
            final(self).items@ == if old(self).has_id(id@) {
                old(self).items@.update(old(self).id_pos(id@), config)
            } else {
                old(self).items@.push(config)
            },
    {
        match self.find(id) {
            Some(i) => {
                proof {
                    let p = self.id_pos(id@);
                    if p != i {
                        if p < i {
                            assert(self.items@[p].spec_id()@ != self.items@[i as int].spec_id()@);
                        } else {
                            assert(self.items@[i as int].spec_id()@ != self.items@[p].spec_id()@);
                        }
                    }
                }
                self.items.set(i, config);
                proof {
                    assert forall|a: int, b: int| 0 <= a < b < self.items@.len() implies (
                    #[trigger] self.items@[a]).spec_id()@ != (
                    #[trigger] self.items@[b]).spec_id()@ by {
                        assert(self.items@[a].spec_id()@ == old(self).items@[a].spec_id()@);
                        assert(self.items@[b].spec_id()@ == old(self).items@[b].spec_id()@);
                    }
                }
            },
            None => {
                self.set_model(config);
            },
        }
    }
}

} // verus!
