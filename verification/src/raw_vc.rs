//! Typeless references to a task's terminal output or to one of its cells,
//! and their compact integer serialization.

use vstd::prelude::*;
use crate::id::TaskId;

verus! {

/// A raw value handle: either the single terminal value of a task, or slot
/// `index` of a task. Handles are copyable and serialize as their integers.
#[derive(Clone, Copy, PartialEq, Eq, Structural, Hash, Debug)]
pub enum RawVc {
    TaskOutput(TaskId),
    TaskCell(TaskId, usize),
}

/// Tag of the output variant in the encoded form.
pub const RAW_VC_OUTPUT_TAG: usize = 0;

/// Tag of the cell variant in the encoded form.
pub const RAW_VC_CELL_TAG: usize = 1;

impl RawVc {
    /// The handle refers to a cell, not to a lazy task output.
    pub open spec fn spec_is_resolved(self) -> bool {
        self is TaskCell
    }

    pub fn is_resolved(&self) -> (r: bool)
        ensures
            r == self.spec_is_resolved(),
    {
        match self {
            RawVc::TaskOutput(_) => false,
            RawVc::TaskCell(_, _) => true,
        }
    }

    /// The task the handle refers into.
    pub open spec fn spec_task(self) -> TaskId {
        match self {
            RawVc::TaskOutput(t) => t,
            RawVc::TaskCell(t, _) => t,
        }
    }

    pub fn get_task_id(&self) -> (r: TaskId)
        ensures
            r == self.spec_task(),
    {
        match self {
            RawVc::TaskOutput(t) => *t,
            RawVc::TaskCell(t, _) => *t,
        }
    }

    pub open spec fn spec_encode(self) -> (usize, usize, usize) {
        match self {
            RawVc::TaskOutput(t) => (RAW_VC_OUTPUT_TAG, t.0, 0),
            RawVc::TaskCell(t, i) => (RAW_VC_CELL_TAG, t.0, i),
        }
    }

    /// Compact newtype-integer form: a variant tag, the task id, and the
    /// cell index (zero for outputs).
    pub fn encode(&self) -> (r: (usize, usize, usize))
        ensures
            r == self.spec_encode(),
    {
        match self {
            RawVc::TaskOutput(t) => (RAW_VC_OUTPUT_TAG, t.0, 0),
            RawVc::TaskCell(t, i) => (RAW_VC_CELL_TAG, t.0, *i),
        }
    }

    pub open spec fn spec_decode(code: (usize, usize, usize)) -> Option<RawVc> {
        if code.0 == RAW_VC_OUTPUT_TAG && code.2 == 0 {
            Some(RawVc::TaskOutput(TaskId(code.1)))
        } else if code.0 == RAW_VC_CELL_TAG {
            Some(RawVc::TaskCell(TaskId(code.1), code.2))
        } else {
            None
        }
    }

    /// Decodes the integer form; an unknown tag is a serialization error.
    pub fn decode(code: (usize, usize, usize)) -> (r: Option<RawVc>)
        ensures
            r == Self::spec_decode(code),
    {
        if code.0 == RAW_VC_OUTPUT_TAG && code.2 == 0 {
            Some(RawVc::TaskOutput(TaskId(code.1)))
        } else if code.0 == RAW_VC_CELL_TAG {
            Some(RawVc::TaskCell(TaskId(code.1), code.2))
        } else {
            None
        }
    }
}

/// Handles survive round-trip serialization: decoding an encoded handle
/// yields the same reference.
pub proof fn lemma_raw_vc_roundtrip(v: RawVc)
    ensures
        RawVc::spec_decode(v.spec_encode()) == Some(v),
{
}

} // verus!
