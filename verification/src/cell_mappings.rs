//! Per-task cell mapping tables. They make cell allocation deterministic
//! across re-executions, so that a task producing cells in the same logical
//! order hits the same slots and downstream references stay stable.

use vstd::prelude::*;
use crate::id::{TaskId, ValueTypeId};
use crate::raw_vc::RawVc;
use crate::task_input::SharedValue;

verus! {

/// One association of a caller-chosen typed key with a cell index.
#[derive(Clone, Copy, PartialEq, Eq, Debug)]
pub struct KeyEntry {
    pub type_id: ValueTypeId,
    pub key: SharedValue,
    pub index: usize,
}

/// Per-value-type next-slot cursor and ordered list of cell indices.
#[derive(PartialEq, Eq, Debug)]
pub struct TypeEntry {
    pub type_id: ValueTypeId,
    pub cursor: usize,
    pub indices: Vec<usize>,
}

/// The per-task table mapping a typed key, or a value type's slot cursor,
/// to a cell index.
#[derive(PartialEq, Eq, Debug)]
pub struct CellMappings {
    pub by_key: Vec<KeyEntry>,
    pub by_type: Vec<TypeEntry>,
}

impl CellMappings {
    pub open spec fn wf(self) -> bool {
        &&& forall|i: int, j: int|
            0 <= i < j < self.by_key@.len() ==> !((#[trigger] self.by_key@[i]).type_id
                == (#[trigger] self.by_key@[j]).type_id && self.by_key@[i].key
                == self.by_key@[j].key)
        &&& forall|i: int, j: int|
            0 <= i < j < self.by_type@.len() ==> (#[trigger] self.by_type@[i]).type_id
                != (#[trigger] self.by_type@[j]).type_id
        &&& forall|i: int|
            0 <= i < self.by_type@.len() ==> (#[trigger] self.by_type@[i]).cursor
                <= self.by_type@[i].indices@.len()
    }

    /// Some entry associates `(t, k)` with a cell index.
    pub open spec fn spec_has_key(self, t: ValueTypeId, k: SharedValue) -> bool {
        exists|i: int|
            0 <= i < self.by_key@.len() && (#[trigger] self.by_key@[i]).type_id == t
                && self.by_key@[i].key == k
    }

    /// The cell index stored for `(t, k)`; meaningful under `spec_has_key`.
    pub open spec fn spec_key_index(self, t: ValueTypeId, k: SharedValue) -> usize {
        let i = choose|i: int|
            0 <= i < self.by_key@.len() && (#[trigger] self.by_key@[i]).type_id == t
                && self.by_key@[i].key == k;
        self.by_key@[i].index
    }

    /// Some entry tracks value type `t`.
    pub open spec fn spec_has_type(self, t: ValueTypeId) -> bool {
        exists|i: int|
            0 <= i < self.by_type@.len() && (#[trigger] self.by_type@[i]).type_id == t
    }

    /// The position of the entry of value type `t`; meaningful under
    /// `spec_has_type`.
    pub open spec fn spec_type_pos(self, t: ValueTypeId) -> int {
        choose|i: int|
            0 <= i < self.by_type@.len() && (#[trigger] self.by_type@[i]).type_id == t
    }

    pub fn new() -> (r: CellMappings)
        ensures
            r.wf(),
            r.by_key@.len() == 0,
            r.by_type@.len() == 0,
    {
        CellMappings { by_key: Vec::new(), by_type: Vec::new() }
    }

    pub fn lookup_key(&self, t: ValueTypeId, k: SharedValue) -> (r: Option<usize>)
        requires
            self.wf(),
        ensures
            match r {
                Some(idx) => self.spec_has_key(t, k) && idx == self.spec_key_index(t, k),
                None => !self.spec_has_key(t, k),
            },
    {
        let mut i: usize = 0;
        while i < self.by_key.len()
            invariant
                self.wf(),
                i <= self.by_key@.len(),
                forall|j: int|
                    0 <= j < i ==> !((#[trigger] self.by_key@[j]).type_id == t
                        && self.by_key@[j].key == k),
            decreases self.by_key@.len() - i,
        {
            let e = &self.by_key[i];
            if e.type_id == t && e.key.eq_value(&k) {
                proof {
                    let w = choose|w: int|
                        0 <= w < self.by_key@.len() && (#[trigger] self.by_key@[w]).type_id
                            == t && self.by_key@[w].key == k;
                    if w != i {
                        assert(false);
                    }
                }
                return Some(e.index);
            }
            i = i + 1;
        }
        None
    }

    /// Records a fresh association. The caller has looked the key up first.
    pub fn insert_key(&mut self, t: ValueTypeId, k: SharedValue, index: usize)
        requires
            old(self).wf(),
            !old(self).spec_has_key(t, k),
        ensures
            final(self).wf(),
            final(self).by_key@ == old(self).by_key@.push(
                KeyEntry { type_id: t, key: k, index },
            ),
            final(self).by_type == old(self).by_type,
            final(self).spec_has_key(t, k),
            final(self).spec_key_index(t, k) == index,
    {
        self.by_key.push(KeyEntry { type_id: t, key: k, index });
        proof {
            let n = self.by_key@.len() - 1;
            assert(self.by_key@[n].type_id == t && self.by_key@[n].key == k);
            let w = choose|w: int|
                0 <= w < self.by_key@.len() && (#[trigger] self.by_key@[w]).type_id == t
                    && self.by_key@[w].key == k;
            if w != n {
                assert(old(self).by_key@[w] == self.by_key@[w]);
                assert(false);
            }
        }
    }

    pub fn find_type_pos(&self, t: ValueTypeId) -> (r: Option<usize>)
        requires
            self.wf(),
        ensures
            match r {
                Some(p) => p < self.by_type@.len() && self.by_type@[p as int].type_id == t
                    && p == self.spec_type_pos(t),
                None => !self.spec_has_type(t),
            },
    {
        let mut i: usize = 0;
        while i < self.by_type.len()
            invariant
                self.wf(),
                i <= self.by_type@.len(),
                forall|j: int| 0 <= j < i ==> (#[trigger] self.by_type@[j]).type_id != t,
            decreases self.by_type@.len() - i,
        {
            if self.by_type[i].type_id == t {
                proof {
                    let w = self.spec_type_pos(t);
                    assert(self.by_type@[i as int].type_id == t);
                    if w != i {
                        assert(false);
                    }
                }
                return Some(i);
            }
            i = i + 1;
        }
        None
    }

    /// Opens a new execution: every next-slot cursor starts over at zero,
    /// while the recorded keys and index lists survive.
    pub fn reset_cursors(&mut self)
        requires
            old(self).wf(),
        ensures
            final(self).wf(),
            final(self).by_key == old(self).by_key,
            final(self).by_type@.len() == old(self).by_type@.len(),
            forall|i: int|
                0 <= i < final(self).by_type@.len() ==> (#[trigger] final(self).by_type@[i]).type_id
                    == old(self).by_type@[i].type_id && final(self).by_type@[i].indices
                    == old(self).by_type@[i].indices && final(self).by_type@[i].cursor == 0,
    {
        let n = self.by_type.len();
        let mut i: usize = 0;
        while i < n
            invariant
                n == self.by_type@.len(),
                i <= n,
                self.by_key == old(self).by_key,
                forall|j: int|
                    0 <= j < n ==> (#[trigger] self.by_type@[j]).type_id
                        == old(self).by_type@[j].type_id && self.by_type@[j].indices
                        == old(self).by_type@[j].indices,
                forall|j: int| 0 <= j < i ==> (#[trigger] self.by_type@[j]).cursor == 0,
                forall|j: int|
                    i <= j < n ==> (#[trigger] self.by_type@[j]).cursor
                        == old(self).by_type@[j].cursor,
                old(self).wf(),
            decreases n - i,
        {
            let e = &mut self.by_type[i];
            e.cursor = 0;
            i = i + 1;
        }
        proof {
            assert forall|i: int, j: int|
                0 <= i < j < self.by_type@.len() implies (#[trigger] self.by_type@[i]).type_id
                != (#[trigger] self.by_type@[j]).type_id by {
                assert(old(self).by_type@[i].type_id == self.by_type@[i].type_id);
                assert(old(self).by_type@[j].type_id == self.by_type@[j].type_id);
            }
        }
    }
}

/// A reference to a cell of the currently executing task.
#[derive(Clone, Copy, PartialEq, Eq, Structural, Debug)]
pub struct CurrentCellRef {
    pub current_task: TaskId,
    pub index: usize,
    pub type_id: ValueTypeId,
}

impl From<CurrentCellRef> for RawVc {
    fn from(cell: CurrentCellRef) -> (r: RawVc) {
        RawVc::TaskCell(cell.current_task, cell.index)
    }
}

impl vstd::std_specs::convert::FromSpecImpl<CurrentCellRef> for RawVc {
    open spec fn obeys_from_spec() -> bool {
        true
    }

    open spec fn from_spec(cell: CurrentCellRef) -> RawVc {
        RawVc::TaskCell(cell.current_task, cell.index)
    }
}

} // verus!
