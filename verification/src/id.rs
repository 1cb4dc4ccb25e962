//! Dense integer identities for tasks, functions, traits, value types and
//! backend jobs, together with the factory that mints and recycles them.

use vstd::prelude::*;

verus! {

/// Identity of a task.
#[derive(Clone, Copy, PartialEq, Eq, Structural, Hash, Debug)]
pub struct TaskId(pub usize);

/// Identity of a registered native function.
#[derive(Clone, Copy, PartialEq, Eq, Structural, Hash, Debug)]
pub struct FunctionId(pub usize);

/// Identity of a registered trait type.
#[derive(Clone, Copy, PartialEq, Eq, Structural, Hash, Debug)]
pub struct TraitTypeId(pub usize);

/// Identity of a registered value type.
#[derive(Clone, Copy, PartialEq, Eq, Structural, Hash, Debug)]
pub struct ValueTypeId(pub usize);

/// Identity of a pluggable backend job.
#[derive(Clone, Copy, PartialEq, Eq, Structural, Hash, Debug)]
pub struct BackendJobId(pub usize);

/// Hands out monotonically increasing task ids with a freelist of returned
/// ones. An id is *live* from the moment it is handed out until it is
/// returned through [`IdFactory::reuse`].
pub struct IdFactory {
    pub next_id: usize,
    pub free_ids: Vec<usize>,
}

impl IdFactory {
    /// `id` has been handed out and not yet returned.
    pub open spec fn live(self, id: usize) -> bool {
        id < self.next_id && !self.free_ids@.contains(id)
    }

    pub open spec fn wf(self) -> bool {
        &&& forall|i: int| 0 <= i < self.free_ids@.len() ==> self.free_ids@[i] < self.next_id
        &&& forall|i: int, j: int|
            0 <= i < j < self.free_ids@.len() ==> self.free_ids@[i] != self.free_ids@[j]
    }

    pub fn new() -> (r: IdFactory)
        ensures
            r.wf(),
            forall|id: usize| !r.live(id),
    {
        IdFactory { next_id: 0, free_ids: Vec::new() }
    }

    /// Mints an id that no live handle refers to. Recycled ids are preferred.
    pub fn get(&mut self) -> (r: TaskId)
        requires
            old(self).wf(),
            old(self).next_id < usize::MAX,
        ensures
            final(self).wf(),
            final(self).next_id < usize::MAX || final(self).free_ids@.len() == 0,
            !old(self).live(r.0),
            final(self).live(r.0),
            forall|id: usize| old(self).live(id) ==> final(self).live(id),
            forall|id: usize| final(self).live(id) ==> old(self).live(id) || id == r.0,
    {
        if let Some(id) = self.free_ids.pop() {
            proof {
                assert forall|x: usize| #[trigger] self.free_ids@.contains(x)
                    implies old(self).free_ids@.contains(x) by {
                    let i = choose|i: int|
                        0 <= i < self.free_ids@.len() && self.free_ids@[i] == x;
                    assert(old(self).free_ids@[i] == x);
                }
                assert(!self.free_ids@.contains(id));
                assert forall|x: usize| old(self).free_ids@.contains(x) && x != id
                    implies self.free_ids@.contains(x) by {
                    let i = choose|i: int|
                        0 <= i < old(self).free_ids@.len() && old(self).free_ids@[i] == x;
                    assert(i < old(self).free_ids@.len() - 1);
                    assert(self.free_ids@[i] == x);
                }
            }
            TaskId(id)
        } else {
            let id = self.next_id;
            self.next_id = id + 1;
            TaskId(id)
        }
    }

    /// Returns an id to the freelist. The caller asserts that no live
    /// reference to `id` remains: that obligation is this `requires`.
    pub fn reuse(&mut self, id: TaskId)
        requires
            old(self).wf(),
            old(self).live(id.0),
        ensures
            final(self).wf(),
            !final(self).live(id.0),
            forall|x: usize| final(self).live(x) <==> old(self).live(x) && x != id.0,
    {
        self.free_ids.push(id.0);
        proof {
            assert forall|x: usize| final(self).live(x)
                implies old(self).live(x) && x != id.0 by {
                assert(!self.free_ids@.contains(x));
                assert(self.free_ids@.last() == id.0);
                if old(self).free_ids@.contains(x) {
                    let i = choose|i: int|
                        0 <= i < old(self).free_ids@.len() && old(self).free_ids@[i] == x;
                    assert(self.free_ids@[i] == x);
                }
            }
            assert forall|x: usize| old(self).live(x) && x != id.0
                implies final(self).live(x) by {
                if self.free_ids@.contains(x) {
                    let i = choose|i: int|
                        0 <= i < self.free_ids@.len() && self.free_ids@[i] == x;
                    if i < old(self).free_ids@.len() {
                        assert(old(self).free_ids@[i] == x);
                    }
                }
            }
        }
    }
}

/// Mints and recycles task ids. Recycling demands that the caller prove no
/// live reference to the id remains, which is expressed by the `requires`
/// of [`TaskIdProvider::reuse_task_id`].
pub trait TaskIdProvider {
    /// `id` has been handed out by this provider and not yet returned.
    spec fn id_live(&self, id: usize) -> bool;

    /// The provider's internal bookkeeping is consistent.
    spec fn ids_wf(&self) -> bool;

    /// The provider has not exhausted the id space.
    spec fn can_mint(&self) -> bool;

    fn get_fresh_task_id(&mut self) -> (r: TaskId)
        requires
            old(self).ids_wf(),
            old(self).can_mint(),
        ensures
            final(self).ids_wf(),
            !old(self).id_live(r.0),
            final(self).id_live(r.0),
            forall|id: usize| old(self).id_live(id) ==> final(self).id_live(id),
    ;

    fn reuse_task_id(&mut self, id: TaskId)
        requires
            old(self).ids_wf(),
            old(self).id_live(id.0),
        ensures
            final(self).ids_wf(),
            !final(self).id_live(id.0),
            forall|x: usize| final(self).id_live(x) ==> old(self).id_live(x),
    ;
}

impl TaskIdProvider for IdFactory {
    open spec fn id_live(&self, id: usize) -> bool {
        self.live(id)
    }

    open spec fn ids_wf(&self) -> bool {
        self.wf()
    }

    open spec fn can_mint(&self) -> bool {
        self.next_id < usize::MAX
    }

    fn get_fresh_task_id(&mut self) -> (r: TaskId) {
        self.get()
    }

    fn reuse_task_id(&mut self, id: TaskId) {
        self.reuse(id)
    }
}

} // verus!
