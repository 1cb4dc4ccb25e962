//! Task inputs: tagged values handed to calls, shared value snapshots, and
//! the content held by cells.

use vstd::prelude::*;
use crate::id::{FunctionId, TraitTypeId, ValueTypeId};
use crate::raw_vc::RawVc;

verus! {

/// A shared, immutable value snapshot: a value-type tag and its payload.
#[derive(Clone, Copy, PartialEq, Eq, Debug)]
pub struct SharedValue {
    pub type_id: Option<ValueTypeId>,
    pub data: u64,
}

impl SharedValue {
    pub fn eq_value(&self, other: &SharedValue) -> (r: bool)
        ensures
            r == (*self == *other),
    {
        let tags_equal = match (self.type_id, other.type_id) {
            (Some(a), Some(b)) => a == b,
            (None, None) => true,
            _ => false,
        };
        tags_equal && self.data == other.data
    }
}

/// The content of a cell: nothing yet, or a shared value snapshot.
#[derive(Clone, Copy, PartialEq, Eq, Debug)]
pub struct CellContent(pub Option<SharedValue>);

impl CellContent {
    pub fn eq_content(&self, other: &CellContent) -> (r: bool)
        ensures
            r == (*self == *other),
    {
        match (&self.0, &other.0) {
            (Some(a), Some(b)) => a.eq_value(b),
            (None, None) => true,
            _ => false,
        }
    }
}

/// An input of a task call.
#[derive(PartialEq, Eq, Debug)]
pub enum TaskInput {
    /// A raw value handle; resolved when it addresses a concrete cell.
    Handle(RawVc),
    /// A primitive literal.
    Literal(u64),
    /// A tuple of inputs.
    List(Vec<TaskInput>),
    /// The nothing-sentinel.
    Nothing,
    /// A serialized shared value.
    Shared(SharedValue),
}

/// Every input of the sequence is resolved.
pub open spec fn seq_resolved(s: Seq<TaskInput>) -> bool
    decreases s,
{
    s.len() == 0 || (s[0].spec_resolved() && seq_resolved(s.drop_first()))
}

impl TaskInput {
    /// No unresolved handle occurs in the input.
    pub open spec fn spec_resolved(self) -> bool
        decreases self,
    {
        match self {
            TaskInput::Handle(vc) => vc.spec_is_resolved(),
            TaskInput::Literal(_) => true,
            TaskInput::List(l) => seq_resolved(l@),
            TaskInput::Nothing => true,
            TaskInput::Shared(_) => true,
        }
    }

    /// The input is the nothing-sentinel.
    pub open spec fn spec_is_nothing(self) -> bool {
        self is Nothing
    }

    pub fn is_resolved(&self) -> (r: bool)
        ensures
            r == self.spec_resolved(),
        decreases *self,
    {
        match self {
            TaskInput::Handle(vc) => vc.is_resolved(),
            TaskInput::Literal(_) => true,
            TaskInput::List(l) => {
                proof {
                    assert(l@.subrange(0, l@.len() as int) =~= l@);
                }
                let mut i: usize = 0;
                while i < l.len()
                    invariant
                        i <= l@.len(),
                        *self == TaskInput::List(*l),
                        seq_resolved(l@) == seq_resolved(
                            l@.subrange(i as int, l@.len() as int),
                        ),
                    decreases l@.len() - i,
                {
                    proof {
                        assert(decreases_to!(*self => self->List_0));
                        assert(decreases_to!(self->List_0 => self->List_0@));
                        assert(decreases_to!(self->List_0@ => self->List_0@[i as int]));
                        assert(decreases_to!(*self => l@[i as int]));
                    }
                    let sub = l[i].is_resolved();
                    proof {
                        let tail = l@.subrange(i as int, l@.len() as int);
                        assert(tail[0] == l@[i as int]);
                        assert(tail.drop_first() =~= l@.subrange(
                            i as int + 1,
                            l@.len() as int,
                        ));
                    }
                    if !sub {
                        return false;
                    }
                    i = i + 1;
                }
                proof {
                    assert(l@.subrange(l@.len() as int, l@.len() as int).len() == 0);
                }
                true
            },
            TaskInput::Nothing => true,
            TaskInput::Shared(_) => true,
        }
    }

    pub fn is_nothing(&self) -> (r: bool)
        ensures
            r == self.spec_is_nothing(),
    {
        match self {
            TaskInput::Nothing => true,
            _ => false,
        }
    }

    /// Structural equality with `other`: lists are compared element by
    /// element. This is the relation the memoization cache interns by.
    pub open spec fn spec_eq(self, other: TaskInput) -> bool
        decreases self,
    {
        match self {
            TaskInput::Handle(v) => other is Handle && v == other->Handle_0,
            TaskInput::Literal(x) => other is Literal && x == other->Literal_0,
            TaskInput::List(l) => other is List && seq_input_eq(l@, other->List_0@),
            TaskInput::Nothing => other is Nothing,
            TaskInput::Shared(v) => other is Shared && v == other->Shared_0,
        }
    }

    pub fn eq_input(&self, other: &TaskInput) -> (r: bool)
        ensures
            r == self.spec_eq(*other),
        decreases *self,
    {
        match (self, other) {
            (TaskInput::Handle(a), TaskInput::Handle(b)) => a == b,
            (TaskInput::Literal(a), TaskInput::Literal(b)) => a == b,
            (TaskInput::List(a), TaskInput::List(b)) => {
                if a.len() != b.len() {
                    return false;
                }
                proof {
                    assert(a@.subrange(0, a@.len() as int) =~= a@);
                    assert(b@.subrange(0, b@.len() as int) =~= b@);
                }
                let mut i: usize = 0;
                while i < a.len()
                    invariant
                        i <= a@.len(),
                        a@.len() == b@.len(),
                        *self == TaskInput::List(*a),
                        *other == TaskInput::List(*b),
                        seq_input_eq(a@, b@) == seq_input_eq(
                            a@.subrange(i as int, a@.len() as int),
                            b@.subrange(i as int, b@.len() as int),
                        ),
                    decreases a@.len() - i,
                {
                    proof {
                        assert(decreases_to!(*self => self->List_0));
                        assert(decreases_to!(self->List_0 => self->List_0@));
                        assert(decreases_to!(self->List_0@ => self->List_0@[i as int]));
                        assert(decreases_to!(*self => a@[i as int]));
                    }
                    let sub = a[i].eq_input(&b[i]);
                    proof {
                        let ta = a@.subrange(i as int, a@.len() as int);
                        let tb = b@.subrange(i as int, b@.len() as int);
                        assert(ta[0] == a@[i as int]);
                        assert(tb[0] == b@[i as int]);
                        assert(ta.drop_first() =~= a@.subrange(i as int + 1, a@.len() as int));
                        assert(tb.drop_first() =~= b@.subrange(i as int + 1, b@.len() as int));
                    }
                    if !sub {
                        return false;
                    }
                    i = i + 1;
                }
                proof {
                    assert(a@.subrange(a@.len() as int, a@.len() as int).len() == 0);
                    assert(b@.subrange(b@.len() as int, b@.len() as int).len() == 0);
                }
                true
            },
            (TaskInput::Nothing, TaskInput::Nothing) => true,
            (TaskInput::Shared(a), TaskInput::Shared(b)) => a.eq_value(b),
            _ => false,
        }
    }
}

/// Element-wise structural equality of two input sequences.
pub open spec fn seq_input_eq(x: Seq<TaskInput>, y: Seq<TaskInput>) -> bool
    decreases x,
{
    if x.len() != y.len() {
        false
    } else if x.len() == 0 {
        true
    } else {
        x[0].spec_eq(y[0]) && seq_input_eq(x.drop_first(), y.drop_first())
    }
}

/// Structural equality is reflexive: every input equals itself.
pub proof fn lemma_input_eq_reflexive(a: TaskInput)
    ensures
        a.spec_eq(a),
    decreases a,
{
    match a {
        TaskInput::List(l) => {
            lemma_seq_input_eq_reflexive(l@);
        },
        _ => {},
    }
}

/// Element-wise structural equality is reflexive.
pub proof fn lemma_seq_input_eq_reflexive(s: Seq<TaskInput>)
    ensures
        seq_input_eq(s, s),
    decreases s,
{
    if s.len() > 0 {
        lemma_input_eq_reflexive(s[0]);
        lemma_seq_input_eq_reflexive(s.drop_first());
    }
}

/// Every input of the list is resolved and none is the nothing-sentinel,
/// as a native call demands.
pub open spec fn spec_all_resolved(s: Seq<TaskInput>) -> bool {
    forall|i: int|
        0 <= i < s.len() ==> (#[trigger] s[i]).spec_resolved() && !s[i].spec_is_nothing()
}

pub fn all_resolved(inputs: &Vec<TaskInput>) -> (r: bool)
    ensures
        r == spec_all_resolved(inputs@),
{
    let mut i: usize = 0;
    while i < inputs.len()
        invariant
            i <= inputs@.len(),
            forall|j: int|
                0 <= j < i ==> (#[trigger] inputs@[j]).spec_resolved()
                    && !inputs@[j].spec_is_nothing(),
        decreases inputs@.len() - i,
    {
        if !inputs[i].is_resolved() || inputs[i].is_nothing() {
            return false;
        }
        proof {
            assert(inputs@[i as int].spec_resolved());
            assert(!inputs@[i as int].spec_is_nothing());
        }
        i = i + 1;
    }
    true
}

pub fn eq_input_list(a: &Vec<TaskInput>, b: &Vec<TaskInput>) -> (r: bool)
    ensures
        r == seq_input_eq(a@, b@),
{
    if a.len() != b.len() {
        return false;
    }
    proof {
        assert(a@.subrange(0, a@.len() as int) =~= a@);
        assert(b@.subrange(0, b@.len() as int) =~= b@);
    }
    let mut i: usize = 0;
    while i < a.len()
        invariant
            i <= a@.len(),
            a@.len() == b@.len(),
            seq_input_eq(a@, b@) == seq_input_eq(
                a@.subrange(i as int, a@.len() as int),
                b@.subrange(i as int, b@.len() as int),
            ),
        decreases a@.len() - i,
    {
        let sub = a[i].eq_input(&b[i]);
        proof {
            let ta = a@.subrange(i as int, a@.len() as int);
            let tb = b@.subrange(i as int, b@.len() as int);
            assert(ta[0] == a@[i as int]);
            assert(tb[0] == b@[i as int]);
            assert(ta.drop_first() =~= a@.subrange(i as int + 1, a@.len() as int));
            assert(tb.drop_first() =~= b@.subrange(i as int + 1, b@.len() as int));
        }
        if !sub {
            return false;
        }
        i = i + 1;
    }
    proof {
        assert(a@.subrange(a@.len() as int, a@.len() as int).len() == 0);
        assert(b@.subrange(b@.len() as int, b@.len() as int).len() == 0);
    }
    true
}

/// The type of a persistent, memoized task: a call of a native function,
/// or a resolver wrapper that awaits its inputs' resolution first.
#[derive(PartialEq, Eq, Debug)]
pub enum PersistentTaskType {
    Native(FunctionId, Vec<TaskInput>),
    ResolveNative(FunctionId, Vec<TaskInput>),
    ResolveTrait(TraitTypeId, String, Vec<TaskInput>),
}

impl PersistentTaskType {
    /// Structural equality with `other`; it is what the memoization cache
    /// interns by.
    pub open spec fn spec_eq(self, other: PersistentTaskType) -> bool {
        match self {
            PersistentTaskType::Native(f, a) => {
                other is Native && f == other->Native_0 && seq_input_eq(a@, other->Native_1@)
            },
            PersistentTaskType::ResolveNative(f, a) => {
                other is ResolveNative && f == other->ResolveNative_0 && seq_input_eq(
                    a@,
                    other->ResolveNative_1@,
                )
            },
            PersistentTaskType::ResolveTrait(t, m, a) => {
                other is ResolveTrait && t == other->ResolveTrait_0
                    && m@ == other->ResolveTrait_1@ && seq_input_eq(a@, other->ResolveTrait_2@)
            },
        }
    }

    pub fn eq_type(&self, other: &PersistentTaskType) -> (r: bool)
        ensures
            r == self.spec_eq(*other),
    {
        match self {
            PersistentTaskType::Native(f, a) => match other {
                PersistentTaskType::Native(g, b) => f == g && eq_input_list(a, b),
                _ => false,
            },
            PersistentTaskType::ResolveNative(f, a) => match other {
                PersistentTaskType::ResolveNative(g, b) => f == g && eq_input_list(a, b),
                _ => false,
            },
            PersistentTaskType::ResolveTrait(t, m, a) => match other {
                PersistentTaskType::ResolveTrait(u, n, b) => {
                    let names_equal: bool = *m == *n;
                    proof {
                        assert(names_equal == (m@ == n@));
                    }
                    t == u && names_equal && eq_input_list(a, b)
                },
                _ => false,
            },
        }
    }
}

/// Structural equality of task types is reflexive.
pub proof fn lemma_type_eq_reflexive(t: PersistentTaskType)
    ensures
        t.spec_eq(t),
{
    match t {
        PersistentTaskType::Native(_, a) => {
            lemma_seq_input_eq_reflexive(a@);
        },
        PersistentTaskType::ResolveNative(_, a) => {
            lemma_seq_input_eq_reflexive(a@);
        },
        PersistentTaskType::ResolveTrait(_, _, a) => {
            lemma_seq_input_eq_reflexive(a@);
        },
    }
}

/// Structural equality of inputs is symmetric.
pub proof fn lemma_input_eq_symmetric(a: TaskInput, b: TaskInput)
    requires
        a.spec_eq(b),
    ensures
        b.spec_eq(a),
    decreases a,
{
    match a {
        TaskInput::List(l) => {
            lemma_seq_input_eq_symmetric(l@, b->List_0@);
        },
        _ => {},
    }
}

/// Element-wise structural equality is symmetric.
pub proof fn lemma_seq_input_eq_symmetric(x: Seq<TaskInput>, y: Seq<TaskInput>)
    requires
        seq_input_eq(x, y),
    ensures
        seq_input_eq(y, x),
    decreases x,
{
    if x.len() > 0 {
        lemma_input_eq_symmetric(x[0], y[0]);
        lemma_seq_input_eq_symmetric(x.drop_first(), y.drop_first());
    }
}

/// Structural equality of inputs is transitive.
pub proof fn lemma_input_eq_transitive(a: TaskInput, b: TaskInput, c: TaskInput)
    requires
        a.spec_eq(b),
        b.spec_eq(c),
    ensures
        a.spec_eq(c),
    decreases a,
{
    match a {
        TaskInput::List(l) => {
            lemma_seq_input_eq_transitive(l@, b->List_0@, c->List_0@);
        },
        _ => {},
    }
}

/// Element-wise structural equality is transitive.
pub proof fn lemma_seq_input_eq_transitive(x: Seq<TaskInput>, y: Seq<TaskInput>, z: Seq<TaskInput>)
    requires
        seq_input_eq(x, y),
        seq_input_eq(y, z),
    ensures
        seq_input_eq(x, z),
    decreases x,
{
    if x.len() > 0 {
        lemma_input_eq_transitive(x[0], y[0], z[0]);
        lemma_seq_input_eq_transitive(x.drop_first(), y.drop_first(), z.drop_first());
    }
}

/// Structural equality of task types is symmetric.
pub proof fn lemma_type_eq_symmetric(a: PersistentTaskType, b: PersistentTaskType)
    requires
        a.spec_eq(b),
    ensures
        b.spec_eq(a),
{
    match a {
        PersistentTaskType::Native(_, x) => {
            lemma_seq_input_eq_symmetric(x@, b->Native_1@);
        },
        PersistentTaskType::ResolveNative(_, x) => {
            lemma_seq_input_eq_symmetric(x@, b->ResolveNative_1@);
        },
        PersistentTaskType::ResolveTrait(_, _, x) => {
            lemma_seq_input_eq_symmetric(x@, b->ResolveTrait_2@);
        },
    }
}

/// Structural equality of task types is transitive.
pub proof fn lemma_type_eq_transitive(
    a: PersistentTaskType,
    b: PersistentTaskType,
    c: PersistentTaskType,
)
    requires
        a.spec_eq(b),
        b.spec_eq(c),
    ensures
        a.spec_eq(c),
{
    match a {
        PersistentTaskType::Native(_, x) => {
            lemma_seq_input_eq_transitive(x@, b->Native_1@, c->Native_1@);
        },
        PersistentTaskType::ResolveNative(_, x) => {
            lemma_seq_input_eq_transitive(x@, b->ResolveNative_1@, c->ResolveNative_1@);
        },
        PersistentTaskType::ResolveTrait(_, _, x) => {
            lemma_seq_input_eq_transitive(x@, b->ResolveTrait_2@, c->ResolveTrait_2@);
        },
    }
}

} // verus!
