//! The task manager: task lifecycle, the cell memoization protocol,
//! dependency tracking and invalidation, and the quiescence bookkeeping of
//! the scheduler.
//!
//! The engine is a state machine over plain data. The host that owns it
//! drives executions: it asks for the next scheduled task, runs the task's
//! body (reading cells and outputs through the engine, which records
//! dependency edges), and reports completion. Everything the engine decides
//! — interning, memoization, cell allocation, invalidation, the counters
//! that define quiescence — is verified here.

use vstd::prelude::*;
use crate::cell_mappings::{CellMappings, CurrentCellRef};
use crate::id::{FunctionId, TaskId, TraitTypeId, ValueTypeId};
use crate::raw_vc::RawVc;
use crate::task_input::{
    all_resolved, spec_all_resolved, CellContent, PersistentTaskType, SharedValue, TaskInput,
};

verus! {

/// Why an engine operation could not complete.
#[derive(Clone, Copy, PartialEq, Eq, Structural, Debug)]
pub enum EngineError {
    /// The id does not name a task of this engine.
    UnknownTask,
    /// The task's body failed; the failure is re-surfaced to its readers.
    TaskFailed,
    /// New work arrived while the engine is stopping.
    ShutdownInProgress,
    /// A serialized handle or invalidator could not be decoded.
    Serialization,
}

/// Lifecycle state of a task.
#[derive(Clone, Copy, PartialEq, Eq, Structural, Debug)]
pub enum TaskState {
    /// Invalidated (or never run) and not queued.
    Dirty,
    /// Waiting in the run queue.
    Scheduled,
    /// An iteration of the task is executing.
    InProgress,
    /// Executing, and invalidated while doing so: it re-executes after the
    /// current iteration commits.
    InProgressDirty,
    /// The last iteration committed and nothing invalidated it since.
    Done,
}

/// What kind of computation a task stands for.
pub enum TaskKind {
    /// Interned by its `PersistentTaskType`; re-executes on invalidation.
    Persistent(PersistentTaskType),
    /// Created explicitly; may re-execute indefinitely.
    Root,
    /// Created explicitly; executes exactly once and never invalidates.
    Once,
}

/// One addressable slot of a task: its current snapshot and the readers to
/// invalidate when the snapshot changes.
pub struct CellSlot {
    pub content: CellContent,
    pub dependents: Vec<TaskId>,
}

/// A task record.
pub struct Task {
    pub kind: TaskKind,
    pub state: TaskState,
    pub cells: Vec<CellSlot>,
    pub mappings: CellMappings,
    pub output: Option<Result<RawVc, EngineError>>,
    pub output_dependents: Vec<TaskId>,
    pub executions: u64,
}

/// A waker-style event: waiters snapshot the generation and are woken by
/// any later notification. The generation is ghost bookkeeping that lets
/// proofs speak about lost wakeups.
pub struct NotifyEvent {
    pub inner: event_listener::Event,
    pub generation: Ghost<nat>,
}

impl NotifyEvent {
    pub fn new() -> (r: NotifyEvent)
        ensures
            r.generation@ == 0,
    {
        NotifyEvent { inner: crate::event::event_new(), generation: Ghost(0) }
    }

    /// Wakes every waiter that listened before this call.
    pub fn notify_all(&mut self)
        ensures
            final(self).generation@ == old(self).generation@ + 1,
            final(self).inner == old(self).inner,
    {
        let g = Ghost(self.generation@ + 1);
        self.generation = g;
        crate::event::event_notify_all(&self.inner);
    }

    /// Registers a waiter woken by the next notification.
    pub fn listen(&self) -> event_listener::EventListener {
        crate::event::event_listen(&self.inner)
    }
}

/// The per-execution ambient state: the current task id, the cell mapping
/// table of this execution, and the tasks to notify on commit.
pub struct ExecutionCtx {
    pub task: TaskId,
    pub mappings: CellMappings,
    pub tasks_to_notify: Vec<TaskId>,
}

/// The task manager.
pub struct TurboTasks {
    pub tasks: Vec<Task>,
    pub task_cache: Vec<TaskId>,
    pub queue: Vec<TaskId>,
    pub stopped: bool,
    pub currently_scheduled_tasks: usize,
    pub currently_scheduled_foreground_jobs: usize,
    pub currently_scheduled_background_jobs: usize,
    pub scheduled_tasks: u64,
    pub last_update: Option<u64>,
    pub event: NotifyEvent,
    pub event_foreground: NotifyEvent,
    pub event_background: NotifyEvent,
}

/// The task counts toward the foreground quiescence counter.
pub open spec fn task_active(t: Task) -> bool {
    t.state is Scheduled || t.state is InProgress || t.state is InProgressDirty
}

/// How many tasks of the sequence are active.
pub open spec fn count_active(s: Seq<Task>) -> nat
    decreases s.len(),
{
    if s.len() == 0 {
        0
    } else {
        count_active(s.drop_last()) + if task_active(s.last()) {
            1nat
        } else {
            0nat
        }
    }
}

pub proof fn lemma_count_active_push(s: Seq<Task>, t: Task)
    ensures
        count_active(s.push(t)) == count_active(s) + if task_active(t) {
            1nat
        } else {
            0nat
        },
{
    assert(s.push(t).drop_last() =~= s);
    assert(s.push(t).last() == t);
}

pub proof fn lemma_count_active_update(s: Seq<Task>, i: int, t: Task)
    requires
        0 <= i < s.len(),
    ensures
        count_active(s.update(i, t)) == count_active(s) - (if task_active(s[i]) {
            1int
        } else {
            0int
        }) + (if task_active(t) {
            1int
        } else {
            0int
        }),
    decreases s.len(),
{
    if i == s.len() - 1 {
        assert(s.update(i, t).drop_last() =~= s.drop_last());
        assert(s.update(i, t).last() == t);
        assert(s.last() == s[i]);
    } else {
        lemma_count_active_update(s.drop_last(), i, t);
        assert(s.update(i, t).drop_last() =~= s.drop_last().update(i, t));
        assert(s.update(i, t).last() == s.last());
        assert(s.drop_last()[i] == s[i]);
    }
}

pub proof fn lemma_count_active_bound(s: Seq<Task>)
    ensures
        count_active(s) <= s.len(),
    decreases s.len(),
{
    if s.len() > 0 {
        lemma_count_active_bound(s.drop_last());
    }
}

impl TurboTasks {
    /// `t` names a task of this engine.
    pub open spec fn valid_task(self, t: TaskId) -> bool {
        t.0 < self.tasks@.len()
    }

    /// Every dependent id recorded in the task is a task of this engine.
    pub open spec fn task_deps_wf(self, t: Task) -> bool {
        &&& forall|i: int|
            0 <= i < t.output_dependents@.len() ==> (#[trigger] t.output_dependents@[i]).0
                < self.tasks@.len()
        &&& forall|c: int, i: int|
            0 <= c < t.cells@.len() && 0 <= i < t.cells@[c].dependents@.len() ==> (
            #[trigger] t.cells@[c].dependents@[i]).0 < self.tasks@.len()
        &&& t.mappings.wf()
        &&& t.state is Done ==> t.output is Some
    }

    /// The engine's internal bookkeeping is consistent: the foreground
    /// counter counts active tasks and foreground jobs, the run queue holds
    /// exactly the tasks in the `Scheduled` state, and every recorded id
    /// names a task.
    pub open spec fn wf(self) -> bool {
        &&& self.currently_scheduled_tasks == count_active(self.tasks@)
            + self.currently_scheduled_foreground_jobs
        &&& forall|i: int|
            0 <= i < self.queue@.len() ==> (#[trigger] self.queue@[i]).0 < self.tasks@.len()
                && self.tasks@[self.queue@[i].0 as int].state is Scheduled
        &&& forall|i: int, j: int|
            0 <= i < j < self.queue@.len() ==> self.queue@[i] != self.queue@[j]
        &&& forall|k: int|
            0 <= k < self.tasks@.len() && (#[trigger] self.tasks@[k]).state is Scheduled
                ==> self.queue@.contains(TaskId(k as usize))
        &&& forall|i: int|
            0 <= i < self.task_cache@.len() ==> (#[trigger] self.task_cache@[i]).0
                < self.tasks@.len() && self.tasks@[self.task_cache@[i].0 as int].kind
                is Persistent
        &&& forall|k: int|
            0 <= k < self.tasks@.len() ==> self.task_deps_wf(#[trigger] self.tasks@[k])
    }

    /// There is room to activate one more task or job without the
    /// foreground counter overflowing.
    pub open spec fn has_headroom(self) -> bool {
        self.tasks@.len() + self.currently_scheduled_foreground_jobs + 2 < usize::MAX
    }

    pub fn new() -> (r: TurboTasks)
        ensures
            r.wf(),
            r.tasks@.len() == 0,
            r.task_cache@.len() == 0,
            r.queue@.len() == 0,
            !r.stopped,
            r.currently_scheduled_tasks == 0,
            r.currently_scheduled_foreground_jobs == 0,
            r.currently_scheduled_background_jobs == 0,
            r.scheduled_tasks == 0,
            r.last_update is None,
            r.event.generation@ == 0,
            r.event_foreground.generation@ == 0,
            r.event_background.generation@ == 0,
    {
        TurboTasks {
            tasks: Vec::new(),
            task_cache: Vec::new(),
            queue: Vec::new(),
            stopped: false,
            currently_scheduled_tasks: 0,
            currently_scheduled_foreground_jobs: 0,
            currently_scheduled_background_jobs: 0,
            scheduled_tasks: 0,
            last_update: None,
            event: NotifyEvent::new(),
            event_foreground: NotifyEvent::new(),
            event_background: NotifyEvent::new(),
        }
    }

    /// Requests that the engine stop: tasks observe the flag at their loop
    /// head and exit without re-execution.
    pub fn stop(&mut self)
        ensures
            *final(self) == (TurboTasks { stopped: true, ..*old(self) }),
    {
        self.stopped = true;
    }

    /// Non-blocking probe of foreground quiescence.
    pub fn foreground_is_done(&self) -> (r: bool)
        ensures
            r == (self.currently_scheduled_tasks == 0),
    {
        self.currently_scheduled_tasks == 0
    }

    /// Non-blocking probe of background quiescence.
    pub fn background_is_done(&self) -> (r: bool)
        ensures
            r == (self.currently_scheduled_background_jobs == 0),
    {
        self.currently_scheduled_background_jobs == 0
    }

    /// What `wait_done` resolves to once the foreground is quiescent: the
    /// number of tasks scheduled since the previous quiescence.
    pub fn try_done(&self) -> (r: Option<u64>)
        ensures
            match r {
                Some(n) => self.currently_scheduled_tasks == 0 && self.last_update == Some(n),
                None => self.currently_scheduled_tasks != 0 || self.last_update is None,
            },
    {
        if self.currently_scheduled_tasks == 0 {
            self.last_update
        } else {
            None
        }
    }

    /// Accounts one new unit of foreground work.
    fn begin_foreground_task(&mut self)
        requires
            old(self).currently_scheduled_tasks < usize::MAX,
        ensures
            *final(self) == (TurboTasks {
                currently_scheduled_tasks: (old(self).currently_scheduled_tasks + 1) as usize,
                ..*old(self)
            }),
    {
        self.currently_scheduled_tasks = self.currently_scheduled_tasks + 1;
    }

    /// Accounts one finished unit of foreground work; on reaching
    /// quiescence it records the scheduled count and wakes the waiters of
    /// the done-event.
    fn finish_foreground_task(&mut self)
        requires
            old(self).currently_scheduled_tasks > 0,
        ensures
            final(self).currently_scheduled_tasks == old(self).currently_scheduled_tasks - 1,
            final(self).tasks == old(self).tasks,
            final(self).task_cache == old(self).task_cache,
            final(self).queue == old(self).queue,
            final(self).stopped == old(self).stopped,
            final(self).currently_scheduled_foreground_jobs == old(self).currently_scheduled_foreground_jobs,
            final(self).currently_scheduled_background_jobs == old(self).currently_scheduled_background_jobs,
            final(self).event_foreground == old(self).event_foreground,
            final(self).event_background == old(self).event_background,
            old(self).currently_scheduled_tasks == 1 ==> {
                &&& final(self).scheduled_tasks == 0
                &&& final(self).last_update == Some(old(self).scheduled_tasks)
                &&& final(self).event.generation@ == old(self).event.generation@ + 1
            },
            old(self).currently_scheduled_tasks != 1 ==> {
                &&& final(self).scheduled_tasks == old(self).scheduled_tasks
                &&& final(self).last_update == old(self).last_update
                &&& final(self).event == old(self).event
            },
    {
        let remaining = self.currently_scheduled_tasks - 1;
        self.currently_scheduled_tasks = remaining;
        if remaining == 0 {
            let total = self.scheduled_tasks;
            self.scheduled_tasks = 0;
            self.last_update = Some(total);
            self.event.notify_all();
        }
    }

    /// Accounts a backend foreground job: work that must complete before
    /// the engine reports idle.
    pub fn begin_foreground_job(&mut self)
        requires
            old(self).wf(),
            old(self).has_headroom(),
        ensures
            final(self).wf(),
            *final(self) == (TurboTasks {
                currently_scheduled_tasks: (old(self).currently_scheduled_tasks + 1) as usize,
                currently_scheduled_foreground_jobs: (old(self).currently_scheduled_foreground_jobs + 1) as usize,
                ..*old(self)
            }),
    {
        proof {
            lemma_count_active_bound(self.tasks@);
        }
        self.begin_foreground_task();
        self.currently_scheduled_foreground_jobs = self.currently_scheduled_foreground_jobs + 1;
    }

    /// Accounts a finished backend foreground job; wakes foreground-done
    /// waiters when it was the last one.
    pub fn finish_foreground_job(&mut self)
        requires
            old(self).wf(),
            old(self).currently_scheduled_foreground_jobs > 0,
        ensures
            final(self).wf(),
            final(self).currently_scheduled_foreground_jobs == old(self).currently_scheduled_foreground_jobs - 1,
            final(self).currently_scheduled_tasks == old(self).currently_scheduled_tasks - 1,
            final(self).tasks == old(self).tasks,
            final(self).queue == old(self).queue,
            final(self).task_cache == old(self).task_cache,
            final(self).stopped == old(self).stopped,
            old(self).currently_scheduled_foreground_jobs == 1 ==> final(self).event_foreground.generation@ == old(self).event_foreground.generation@ + 1,
            old(self).currently_scheduled_tasks == 1 ==> final(self).event.generation@ == old(self).event.generation@ + 1,
    {
        let remaining = self.currently_scheduled_foreground_jobs - 1;
        self.currently_scheduled_foreground_jobs = remaining;
        if remaining == 0 {
            self.event_foreground.notify_all();
        }
        self.finish_foreground_task();
    }

    /// Accounts a backend background job: work that may continue past
    /// foreground idle.
    pub fn begin_background_job(&mut self)
        requires
            old(self).currently_scheduled_background_jobs < usize::MAX,
        ensures
            *final(self) == (TurboTasks {
                currently_scheduled_background_jobs: (old(self).currently_scheduled_background_jobs + 1) as usize,
                ..*old(self)
            }),
    {
        self.currently_scheduled_background_jobs = self.currently_scheduled_background_jobs + 1;
    }

    /// A background job holds until the foreground is quiescent before
    /// starting its unit of work, and is dropped entirely once the engine
    /// stops.
    pub fn background_job_may_run(&self) -> (r: bool)
        ensures
            r == (!self.stopped && self.currently_scheduled_tasks == 0),
    {
        !self.stopped && self.currently_scheduled_tasks == 0
    }

    /// Accounts a finished background job; wakes background-done waiters
    /// when it was the last one.
    pub fn finish_background_job(&mut self)
        requires
            old(self).currently_scheduled_background_jobs > 0,
        ensures
            final(self).currently_scheduled_background_jobs == old(self).currently_scheduled_background_jobs - 1,
            final(self).tasks == old(self).tasks,
            final(self).queue == old(self).queue,
            final(self).task_cache == old(self).task_cache,
            final(self).stopped == old(self).stopped,
            final(self).currently_scheduled_tasks == old(self).currently_scheduled_tasks,
            final(self).currently_scheduled_foreground_jobs == old(self).currently_scheduled_foreground_jobs,
            final(self).event == old(self).event,
            old(self).currently_scheduled_background_jobs == 1 ==> final(self).event_background.generation@ == old(self).event_background.generation@ + 1,
            old(self).currently_scheduled_background_jobs != 1 ==> final(self).event_background
                == old(self).event_background,
    {
        let remaining = self.currently_scheduled_background_jobs - 1;
        self.currently_scheduled_background_jobs = remaining;
        if remaining == 0 {
            self.event_background.notify_all();
        }
    }
}

/// First-match lookup in the memoization cache: the first cached task
/// whose persistent type structurally equals `ty`.
pub open spec fn cache_find_in(tasks: Seq<Task>, cache: Seq<TaskId>, ty: PersistentTaskType) -> Option<TaskId>
    decreases cache.len(),
{
    if cache.len() == 0 {
        None
    } else if cache[0].0 < tasks.len() && tasks[cache[0].0 as int].kind is Persistent
        && tasks[cache[0].0 as int].kind->Persistent_0.spec_eq(ty) {
        Some(cache[0])
    } else {
        cache_find_in(tasks, cache.drop_first(), ty)
    }
}

/// The task will run again without outside help: it is queued, or it is
/// executing and already marked for another iteration.
pub open spec fn pending_reexecution(t: Task) -> bool {
    t.state is Scheduled || t.state is InProgressDirty
}

/// `scheduled_tasks` counts saturating: the statistics stay exact until
/// the counter's range is exhausted.
pub open spec fn bumped(n: u64) -> u64 {
    if n < u64::MAX {
        (n + 1) as u64
    } else {
        n
    }
}

impl TurboTasks {
    fn bump_scheduled_count(&mut self)
        ensures
            *final(self) == (TurboTasks { scheduled_tasks: bumped(old(self).scheduled_tasks), ..*old(self) }),
    {
        if self.scheduled_tasks < u64::MAX {
            self.scheduled_tasks = self.scheduled_tasks + 1;
        }
    }

    /// Puts a dirty task on the run queue and accounts it as foreground
    /// work.
    fn schedule_task(&mut self, t: TaskId)
        requires
            old(self).wf(),
            old(self).currently_scheduled_tasks < usize::MAX,
            old(self).valid_task(t),
            old(self).tasks@[t.0 as int].state is Dirty,
        ensures
            final(self).wf(),
            final(self).tasks@ == old(self).tasks@.update(
                t.0 as int,
                (Task { state: TaskState::Scheduled, ..old(self).tasks@[t.0 as int] }),
            ),
            final(self).queue@ == old(self).queue@.push(t),
            final(self).currently_scheduled_tasks == old(self).currently_scheduled_tasks + 1,
            final(self).scheduled_tasks == bumped(old(self).scheduled_tasks),
            final(self).task_cache == old(self).task_cache,
            final(self).stopped == old(self).stopped,
            final(self).currently_scheduled_foreground_jobs == old(self).currently_scheduled_foreground_jobs,
            final(self).currently_scheduled_background_jobs == old(self).currently_scheduled_background_jobs,
            final(self).last_update == old(self).last_update,
            final(self).event == old(self).event,
            final(self).event_foreground == old(self).event_foreground,
            final(self).event_background == old(self).event_background,
    {
        proof {
            lemma_count_active_bound(self.tasks@);
        }
        let i = t.0;
        let task = &mut self.tasks[i];
        task.state = TaskState::Scheduled;
        proof {
            assert(self.tasks@ =~= old(self).tasks@.update(
                i as int,
                (Task { state: TaskState::Scheduled, ..old(self).tasks@[i as int] }),
            ));
            lemma_count_active_update(
                old(self).tasks@,
                i as int,
                self.tasks@[i as int],
            );
        }
        self.queue.push(t);
        self.currently_scheduled_tasks = self.currently_scheduled_tasks + 1;
        self.bump_scheduled_count();
        proof {
            let oldt = old(self).tasks@;
            let newt = self.tasks@;
            assert forall|k: int|
                0 <= k < newt.len() && (#[trigger] newt[k]).state is Scheduled implies self
                .queue@.contains(TaskId(k as usize)) by {
                if k != t.0 {
                    assert(oldt[k].state is Scheduled);
                    let w = choose|w: int|
                        0 <= w < old(self).queue@.len() && old(self).queue@[w] == TaskId(
                            k as usize,
                        );
                    assert(self.queue@[w] == TaskId(k as usize));
                } else {
                    assert(self.queue@.last() == t);
                }
            }
            assert forall|i2: int, j2: int|
                0 <= i2 < j2 < self.queue@.len() implies self.queue@[i2] != self.queue@[j2] by {
                if j2 == self.queue@.len() - 1 {
                    assert(self.queue@[i2] == old(self).queue@[i2]);
                    if self.queue@[i2] == t {
                        assert(oldt[t.0 as int].state is Scheduled);
                    }
                }
            }
            assert forall|k: int|
                0 <= k < newt.len() implies self.task_deps_wf(#[trigger] newt[k]) by {
                assert(old(self).task_deps_wf(oldt[k]));
            }
        }
    }

    /// Interns a new task record in the `Dirty` state and schedules it.
    fn create_task(&mut self, kind: TaskKind) -> (r: TaskId)
        requires
            old(self).wf(),
            old(self).has_headroom(),
        ensures
            final(self).wf(),
            r.0 == old(self).tasks@.len(),
            final(self).valid_task(r),
            final(self).tasks@.len() == old(self).tasks@.len() + 1,
            forall|k: int|
                0 <= k < old(self).tasks@.len() ==> final(self).tasks@[k] == old(self).tasks@[k],
            final(self).tasks@[r.0 as int].kind == kind,
            final(self).tasks@[r.0 as int].state is Scheduled,
            final(self).tasks@[r.0 as int].cells@.len() == 0,
            final(self).tasks@[r.0 as int].output is None,
            final(self).tasks@[r.0 as int].output_dependents@.len() == 0,
            final(self).tasks@[r.0 as int].executions == 0,
            final(self).queue@ == old(self).queue@.push(r),
            final(self).currently_scheduled_tasks == old(self).currently_scheduled_tasks + 1,
            final(self).scheduled_tasks == bumped(old(self).scheduled_tasks),
            final(self).task_cache == old(self).task_cache,
            final(self).stopped == old(self).stopped,
            final(self).currently_scheduled_foreground_jobs == old(self).currently_scheduled_foreground_jobs,
            final(self).currently_scheduled_background_jobs == old(self).currently_scheduled_background_jobs,
            final(self).last_update == old(self).last_update,
            final(self).event == old(self).event,
            final(self).event_foreground == old(self).event_foreground,
            final(self).event_background == old(self).event_background,
    {
        let id = TaskId(self.tasks.len());
        let task = Task {
            kind,
            state: TaskState::Dirty,
            cells: Vec::new(),
            mappings: CellMappings::new(),
            output: None,
            output_dependents: Vec::new(),
            executions: 0,
        };
        self.tasks.push(task);
        proof {
            lemma_count_active_push(old(self).tasks@, self.tasks@.last());
            let newt = self.tasks@;
            assert forall|k: int|
                0 <= k < newt.len() && (#[trigger] newt[k]).state is Scheduled implies self
                .queue@.contains(TaskId(k as usize)) by {
                assert(old(self).tasks@[k].state is Scheduled);
            }
            assert forall|k: int|
                0 <= k < newt.len() implies self.task_deps_wf(#[trigger] newt[k]) by {
                if k < old(self).tasks@.len() {
                    assert(old(self).task_deps_wf(old(self).tasks@[k]));
                }
            }
        }
        proof {
            lemma_count_active_bound(self.tasks@);
        }
        self.schedule_task(id);
        id
    }
}

/// Effect of a cache-find over an appended entry: a missed lookup finds
/// the new entry exactly when it matches.
pub proof fn lemma_cache_find_push(
    tasks: Seq<Task>,
    cache: Seq<TaskId>,
    id: TaskId,
    ty: PersistentTaskType,
)
    requires
        cache_find_in(tasks, cache, ty) is None,
    ensures
        cache_find_in(tasks, cache.push(id), ty) == if id.0 < tasks.len() && tasks[id.0 as int].kind
            is Persistent && tasks[id.0 as int].kind->Persistent_0.spec_eq(ty) {
            Some(id)
        } else {
            None::<TaskId>
        },
    decreases cache.len(),
{
    if cache.len() == 0 {
        assert(cache.push(id)[0] == id);
        assert(cache.push(id).drop_first() =~= Seq::<TaskId>::empty());
        assert(cache_find_in(tasks, Seq::<TaskId>::empty(), ty) is None);
        assert(cache.push(id).len() == 1);
    } else {
        assert(cache.push(id)[0] == cache[0]);
        assert(cache.push(id).drop_first() =~= cache.drop_first().push(id));
        lemma_cache_find_push(tasks, cache.drop_first(), id, ty);
    }
}

/// A lookup stays valid when the task list only grows behind it.
pub proof fn lemma_cache_find_extend_tasks(
    tasks1: Seq<Task>,
    tasks2: Seq<Task>,
    cache: Seq<TaskId>,
    ty: PersistentTaskType,
)
    requires
        tasks1.len() <= tasks2.len(),
        forall|k: int| 0 <= k < tasks1.len() ==> (#[trigger] tasks2[k]).kind == tasks1[k].kind,
        forall|i: int| 0 <= i < cache.len() ==> (#[trigger] cache[i]).0 < tasks1.len(),
    ensures
        cache_find_in(tasks1, cache, ty) == cache_find_in(tasks2, cache, ty),
    decreases cache.len(),
{
    if cache.len() > 0 {
        assert(cache[0].0 < tasks1.len());
        assert(tasks2[cache[0].0 as int].kind == tasks1[cache[0].0 as int].kind);
        assert(forall|i: int|
            0 <= i < cache.drop_first().len() ==> (#[trigger] cache.drop_first()[i]).0
                < tasks1.len());
        lemma_cache_find_extend_tasks(tasks1, tasks2, cache.drop_first(), ty);
    }
}

/// The task differs at most in its lifecycle state.
pub open spec fn same_task_except_state(a: Task, b: Task) -> bool {
    &&& a.kind == b.kind
    &&& a.cells == b.cells
    &&& a.mappings == b.mappings
    &&& a.output == b.output
    &&& a.output_dependents == b.output_dependents
    &&& a.executions == b.executions
}

/// How a call of `ty` relates the engine before and after: the result task
/// is cached under `ty`; a hit changes nothing, a miss interns and
/// schedules one fresh task.
pub open spec fn interned(
    pre: TurboTasks,
    post: TurboTasks,
    ty: PersistentTaskType,
    t: TaskId,
) -> bool {
    &&& cache_find_in(post.tasks@, post.task_cache@, ty) == Some(t)
    &&& post.valid_task(t)
    &&& if cache_find_in(pre.tasks@, pre.task_cache@, ty) is Some {
        cache_find_in(pre.tasks@, pre.task_cache@, ty) == Some(t) && post == pre
    } else {
        &&& post.tasks@.len() == pre.tasks@.len() + 1
        &&& t.0 == pre.tasks@.len()
        &&& (forall|k: int| 0 <= k < pre.tasks@.len() ==> post.tasks@[k] == pre.tasks@[k])
        &&& post.tasks@[t.0 as int].kind == TaskKind::Persistent(ty)
        &&& post.tasks@[t.0 as int].state is Scheduled
        &&& post.tasks@[t.0 as int].executions == 0
        &&& post.tasks@[t.0 as int].cells@.len() == 0
        &&& post.tasks@[t.0 as int].output is None
        &&& post.queue@ == pre.queue@.push(t)
        &&& post.task_cache@ == pre.task_cache@.push(t)
        &&& post.currently_scheduled_tasks == pre.currently_scheduled_tasks + 1
        &&& post.scheduled_tasks == bumped(pre.scheduled_tasks)
        &&& post.stopped == pre.stopped
        &&& post.currently_scheduled_foreground_jobs == pre.currently_scheduled_foreground_jobs
        &&& post.currently_scheduled_background_jobs == pre.currently_scheduled_background_jobs
        &&& post.last_update == pre.last_update
        &&& post.event == pre.event
        &&& post.event_foreground == pre.event_foreground
        &&& post.event_background == pre.event_background
    }
}

/// A fresh transient (root or once) task was interned and scheduled.
pub open spec fn spawned(pre: TurboTasks, post: TurboTasks, kind: TaskKind, t: TaskId) -> bool {
    &&& post.tasks@.len() == pre.tasks@.len() + 1
    &&& t.0 == pre.tasks@.len()
    &&& (forall|k: int| 0 <= k < pre.tasks@.len() ==> post.tasks@[k] == pre.tasks@[k])
    &&& post.tasks@[t.0 as int].kind == kind
    &&& post.tasks@[t.0 as int].state is Scheduled
    &&& post.tasks@[t.0 as int].executions == 0
    &&& post.tasks@[t.0 as int].cells@.len() == 0
    &&& post.tasks@[t.0 as int].output is None
    &&& post.queue@ == pre.queue@.push(t)
    &&& post.task_cache == pre.task_cache
    &&& post.currently_scheduled_tasks == pre.currently_scheduled_tasks + 1
    &&& post.scheduled_tasks == bumped(pre.scheduled_tasks)
    &&& post.stopped == pre.stopped
    &&& post.currently_scheduled_foreground_jobs == pre.currently_scheduled_foreground_jobs
    &&& post.currently_scheduled_background_jobs == pre.currently_scheduled_background_jobs
    &&& post.last_update == pre.last_update
    &&& post.event == pre.event
    &&& post.event_foreground == pre.event_foreground
    &&& post.event_background == pre.event_background
}

impl TurboTasks {
    /// Interns a persistent task by its type: an existing task of a
    /// structurally equal type is reused without any scheduling; a new
    /// type creates and schedules a task. This is the memoization cache.
    pub fn get_or_create_persistent_task(&mut self, ty: PersistentTaskType) -> (r: TaskId)
        requires
            old(self).wf(),
            old(self).has_headroom(),
        ensures
            final(self).wf(),
            interned(*old(self), *final(self), ty, r),
    {
        proof {
            assert(self.task_cache@.subrange(0, self.task_cache@.len() as int)
                =~= self.task_cache@);
        }
        let n = self.task_cache.len();
        let mut i: usize = 0;
        while i < n
            invariant
                self.wf(),
                *self == *old(self),
                n == self.task_cache@.len(),
                i <= n,
                cache_find_in(self.tasks@, self.task_cache@, ty) == cache_find_in(
                    self.tasks@,
                    self.task_cache@.subrange(i as int, n as int),
                    ty,
                ),
            decreases n - i,
        {
            let id = self.task_cache[i];
            proof {
                let tail = self.task_cache@.subrange(i as int, n as int);
                assert(tail[0] == self.task_cache@[i as int]);
                assert(tail.drop_first() =~= self.task_cache@.subrange(i as int + 1, n as int));
            }
            let hit = match &self.tasks[id.0].kind {
                TaskKind::Persistent(stored) => stored.eq_type(&ty),
                _ => false,
            };
            if hit {
                return id;
            }
            i = i + 1;
        }
        proof {
            assert(self.task_cache@.subrange(n as int, n as int).len() == 0);
            assert(cache_find_in(self.tasks@, self.task_cache@, ty) is None);
        }
        let ghost pre = *self;
        let id = self.create_task(TaskKind::Persistent(ty));
        self.task_cache.push(id);
        proof {
            assert forall|j: int|
                0 <= j < self.task_cache@.len() implies (#[trigger] self.task_cache@[j]).0
                < self.tasks@.len() && self.tasks@[self.task_cache@[j].0 as int].kind
                is Persistent by {
                if j < pre.task_cache@.len() {
                    assert(pre.task_cache@[j].0 < pre.tasks@.len());
                    assert(self.tasks@[self.task_cache@[j].0 as int]
                        == pre.tasks@[pre.task_cache@[j].0 as int]);
                }
            }
            lemma_cache_find_extend_tasks(pre.tasks@, self.tasks@, pre.task_cache@, ty);
            crate::task_input::lemma_type_eq_reflexive(ty);
            lemma_cache_find_push(self.tasks@, pre.task_cache@, id, ty);
        }
        id
    }

    /// Calls a native function with arguments. All inputs must be
    /// resolved; the result is the lazy output handle of the memoized
    /// task.
    pub fn native_call(&mut self, func: FunctionId, inputs: Vec<TaskInput>) -> (r: RawVc)
        requires
            old(self).wf(),
            old(self).has_headroom(),
            spec_all_resolved(inputs@),
        ensures
            final(self).wf(),
            r is TaskOutput,
            interned(
                *old(self),
                *final(self),
                PersistentTaskType::Native(func, inputs),
                r->TaskOutput_0,
            ),
    {
        let t = self.get_or_create_persistent_task(PersistentTaskType::Native(func, inputs));
        RawVc::TaskOutput(t)
    }

    /// Calls a native function with arguments; where any input is still
    /// unresolved, a resolver task is interposed that resolves the inputs
    /// before dispatching the real call.
    pub fn dynamic_call(&mut self, func: FunctionId, inputs: Vec<TaskInput>) -> (r: RawVc)
        requires
            old(self).wf(),
            old(self).has_headroom(),
        ensures
            final(self).wf(),
            r is TaskOutput,
            spec_all_resolved(inputs@) ==> interned(
                *old(self),
                *final(self),
                PersistentTaskType::Native(func, inputs),
                r->TaskOutput_0,
            ),
            !spec_all_resolved(inputs@) ==> interned(
                *old(self),
                *final(self),
                PersistentTaskType::ResolveNative(func, inputs),
                r->TaskOutput_0,
            ),
    {
        if all_resolved(&inputs) {
            self.native_call(func, inputs)
        } else {
            let t = self.get_or_create_persistent_task(
                PersistentTaskType::ResolveNative(func, inputs),
            );
            RawVc::TaskOutput(t)
        }
    }

    /// Calls a trait method with arguments. The first input is the `self`
    /// value; a resolver task is always interposed, because the `self`
    /// value must resolve before a concrete function can be picked.
    pub fn trait_call(
        &mut self,
        trait_type: TraitTypeId,
        trait_fn_name: String,
        inputs: Vec<TaskInput>,
    ) -> (r: RawVc)
        requires
            old(self).wf(),
            old(self).has_headroom(),
        ensures
            final(self).wf(),
            r is TaskOutput,
            interned(
                *old(self),
                *final(self),
                PersistentTaskType::ResolveTrait(trait_type, trait_fn_name, inputs),
                r->TaskOutput_0,
            ),
    {
        let t = self.get_or_create_persistent_task(
            PersistentTaskType::ResolveTrait(trait_type, trait_fn_name, inputs),
        );
        RawVc::TaskOutput(t)
    }

    /// Creates a new root task. The host invokes its body anew on every
    /// re-execution.
    pub fn spawn_root_task(&mut self) -> (r: TaskId)
        requires
            old(self).wf(),
            old(self).has_headroom(),
        ensures
            final(self).wf(),
            spawned(*old(self), *final(self), TaskKind::Root, r),
    {
        self.create_task(TaskKind::Root)
    }

    /// Creates a new root task that executes only once: its dependencies
    /// never invalidate it.
    pub fn spawn_once_task(&mut self) -> (r: TaskId)
        requires
            old(self).wf(),
            old(self).has_headroom(),
        ensures
            final(self).wf(),
            spawned(*old(self), *final(self), TaskKind::Once, r),
    {
        self.create_task(TaskKind::Once)
    }

    /// Marks a task dirty from outside its own execution and re-schedules
    /// it. Once tasks never re-execute; a stopping engine silently drops
    /// the work.
    pub fn invalidate_task(&mut self, t: TaskId)
        requires
            old(self).wf(),
            old(self).has_headroom(),
            old(self).valid_task(t),
        ensures
            final(self).wf(),
            final(self).tasks@.len() == old(self).tasks@.len(),
            forall|k: int|
                0 <= k < old(self).tasks@.len() ==> same_task_except_state(
                    #[trigger] final(self).tasks@[k],
                    old(self).tasks@[k],
                ),
            forall|k: int|
                0 <= k < old(self).tasks@.len() && k != t.0 ==> final(self).tasks@[k] == old(self).tasks@[k],
            final(self).task_cache == old(self).task_cache,
            final(self).stopped == old(self).stopped,
            final(self).currently_scheduled_foreground_jobs == old(self).currently_scheduled_foreground_jobs,
            final(self).currently_scheduled_background_jobs == old(self).currently_scheduled_background_jobs,
            final(self).last_update == old(self).last_update,
            final(self).event == old(self).event,
            final(self).event_foreground == old(self).event_foreground,
            final(self).event_background == old(self).event_background,
            old(self).stopped ==> *final(self) == *old(self),
            old(self).tasks@[t.0 as int].kind is Once ==> *final(self) == *old(self),
            !old(self).stopped && !(old(self).tasks@[t.0 as int].kind is Once)
                ==> pending_reexecution(final(self).tasks@[t.0 as int]),
            pending_reexecution(old(self).tasks@[t.0 as int]) ==> *final(self) == *old(self),
            final(self).tasks@[t.0 as int].state == old(self).tasks@[t.0 as int].state
                ==> *final(self) == *old(self),
            old(self).tasks@[t.0 as int].state is InProgress ==> final(self).tasks@[t.0 as int].state
                is InProgress || final(self).tasks@[t.0 as int].state is InProgressDirty,
            old(self).tasks@[t.0 as int].state is InProgressDirty ==> final(self).tasks@[t.0 as int].state
                is InProgressDirty,
    {
        if self.stopped {
            return;
        }
        let is_once = match &self.tasks[t.0].kind {
            TaskKind::Once => true,
            _ => false,
        };
        if is_once {
            return;
        }
        let state = self.tasks[t.0].state;
        match state {
            TaskState::Done | TaskState::Dirty => {
                proof {
                    lemma_count_active_bound(self.tasks@);
                }
                if matches!(state, TaskState::Done) {
                    let task = &mut self.tasks[t.0];
                    task.state = TaskState::Dirty;
                    proof {
                        assert(self.tasks@ =~= old(self).tasks@.update(
                            t.0 as int,
                            (Task { state: TaskState::Dirty, ..old(self).tasks@[t.0 as int] }),
                        ));
                        lemma_count_active_update(
                            old(self).tasks@,
                            t.0 as int,
                            self.tasks@[t.0 as int],
                        );
                        assert forall|k: int|
                            0 <= k < self.tasks@.len() implies self.task_deps_wf(
                            #[trigger] self.tasks@[k]) by {
                            assert(old(self).task_deps_wf(old(self).tasks@[k]));
                        }
                        assert forall|k: int|
                            0 <= k < self.tasks@.len() && (#[trigger] self.tasks@[k]).state
                                is Scheduled implies self.queue@.contains(TaskId(k as usize)) by {
                            assert(old(self).tasks@[k].state is Scheduled);
                        }
                    }
                }
                self.schedule_task(t);
            },
            TaskState::InProgress => {
                let task = &mut self.tasks[t.0];
                task.state = TaskState::InProgressDirty;
                proof {
                    assert(self.tasks@ =~= old(self).tasks@.update(
                        t.0 as int,
                        (Task {
                            state: TaskState::InProgressDirty,
                            ..old(self).tasks@[t.0 as int]
                        }),
                    ));
                    lemma_count_active_update(
                        old(self).tasks@,
                        t.0 as int,
                        self.tasks@[t.0 as int],
                    );
                    assert forall|k: int|
                        0 <= k < self.tasks@.len() implies self.task_deps_wf(
                        #[trigger] self.tasks@[k]) by {
                        assert(old(self).task_deps_wf(old(self).tasks@[k]));
                    }
                    assert forall|k: int|
                        0 <= k < self.tasks@.len() && (#[trigger] self.tasks@[k]).state
                            is Scheduled implies self.queue@.contains(TaskId(k as usize)) by {
                        assert(old(self).tasks@[k].state is Scheduled);
                    }
                    assert forall|i2: int|
                        0 <= i2 < self.queue@.len() implies (#[trigger] self.queue@[i2]).0
                        < self.tasks@.len() && self.tasks@[self.queue@[i2].0 as int].state
                        is Scheduled by {
                        assert(old(self).tasks@[old(self).queue@[i2].0 as int].state
                            is Scheduled);
                    }
                }
            },
            _ => {},
        }
    }
}

impl TurboTasks {
    /// Invalidates every task of the list: the pending-notification drain.
    pub fn invalidate_tasks(&mut self, tasks_list: &Vec<TaskId>)
        requires
            old(self).wf(),
            old(self).has_headroom(),
            forall|i: int|
                0 <= i < tasks_list@.len() ==> (#[trigger] tasks_list@[i]).0 < old(self).tasks@.len(),
        ensures
            final(self).wf(),
            final(self).tasks@.len() == old(self).tasks@.len(),
            forall|k: int|
                0 <= k < old(self).tasks@.len() ==> same_task_except_state(
                    #[trigger] final(self).tasks@[k],
                    old(self).tasks@[k],
                ),
            forall|k: int|
                0 <= k < old(self).tasks@.len() && (forall|j: int|
                    0 <= j < tasks_list@.len() ==> (#[trigger] tasks_list@[j]).0 != k) ==> final(self).tasks@[k] == old(self).tasks@[k],
            forall|k: int|
                0 <= k < old(self).tasks@.len() && (#[trigger] old(self).tasks@[k]).state
                    is InProgress ==> final(self).tasks@[k].state is InProgress || final(self).tasks@[k].state is InProgressDirty,
            forall|k: int|
                0 <= k < old(self).tasks@.len() && (#[trigger] old(self).tasks@[k]).state
                    is InProgressDirty ==> final(self).tasks@[k].state is InProgressDirty,
            final(self).task_cache == old(self).task_cache,
            final(self).stopped == old(self).stopped,
            final(self).currently_scheduled_foreground_jobs == old(self).currently_scheduled_foreground_jobs,
            final(self).currently_scheduled_background_jobs == old(self).currently_scheduled_background_jobs,
            final(self).last_update == old(self).last_update,
            final(self).event == old(self).event,
            final(self).event_foreground == old(self).event_foreground,
            final(self).event_background == old(self).event_background,
            old(self).stopped ==> *final(self) == *old(self),
            !old(self).stopped ==> forall|i: int|
                0 <= i < tasks_list@.len() && !(old(self).tasks@[(
                #[trigger] tasks_list@[i]).0 as int].kind is Once) ==> pending_reexecution(
                    final(self).tasks@[tasks_list@[i].0 as int],
                ),
    {
        let n = tasks_list.len();
        let mut i: usize = 0;
        while i < n
            invariant
                self.wf(),
                self.has_headroom(),
                n == tasks_list@.len(),
                i <= n,
                forall|j: int|
                    0 <= j < n ==> (#[trigger] tasks_list@[j]).0 < old(self).tasks@.len(),
                self.tasks@.len() == old(self).tasks@.len(),
                forall|k: int|
                    0 <= k < old(self).tasks@.len() ==> same_task_except_state(
                        #[trigger] self.tasks@[k],
                        old(self).tasks@[k],
                    ),
                forall|k: int|
                    0 <= k < old(self).tasks@.len() && (forall|j: int|
                        0 <= j < i ==> (#[trigger] tasks_list@[j]).0 != k) ==> self.tasks@[k]
                        == old(self).tasks@[k],
                forall|k: int|
                    0 <= k < old(self).tasks@.len() && (#[trigger] old(self).tasks@[k]).state
                        is InProgress ==> self.tasks@[k].state is InProgress
                        || self.tasks@[k].state is InProgressDirty,
                forall|k: int|
                    0 <= k < old(self).tasks@.len() && (#[trigger] old(self).tasks@[k]).state
                        is InProgressDirty ==> self.tasks@[k].state is InProgressDirty,
                self.task_cache == old(self).task_cache,
                self.stopped == old(self).stopped,
                self.currently_scheduled_foreground_jobs == old(self).currently_scheduled_foreground_jobs,
                self.currently_scheduled_background_jobs == old(self).currently_scheduled_background_jobs,
                self.last_update == old(self).last_update,
                self.event == old(self).event,
                self.event_foreground == old(self).event_foreground,
                self.event_background == old(self).event_background,
                old(self).stopped ==> *self == *old(self),
                !old(self).stopped ==> forall|j: int|
                    0 <= j < i && !(old(self).tasks@[(#[trigger] tasks_list@[j]).0 as int].kind
                        is Once) ==> pending_reexecution(
                        self.tasks@[tasks_list@[j].0 as int],
                    ),
            decreases n - i,
        {
            let ghost prev = *self;
            let t = tasks_list[i];
            self.invalidate_task(t);
            proof {
                assert forall|k: int|
                    0 <= k < old(self).tasks@.len() && (#[trigger] old(self).tasks@[k]).state
                        is InProgress implies self.tasks@[k].state is InProgress
                        || self.tasks@[k].state is InProgressDirty by {
                    if k != t.0 {
                        assert(self.tasks@[k] == prev.tasks@[k]);
                    }
                }
                assert forall|k: int|
                    0 <= k < old(self).tasks@.len() && (#[trigger] old(self).tasks@[k]).state
                        is InProgressDirty implies self.tasks@[k].state is InProgressDirty by {
                    if k != t.0 {
                        assert(self.tasks@[k] == prev.tasks@[k]);
                    }
                }
                assert forall|j: int|
                    0 <= j < i + 1 && !(old(self).tasks@[(#[trigger] tasks_list@[j]).0 as int].kind
                        is Once) && !old(self).stopped implies pending_reexecution(
                    self.tasks@[tasks_list@[j].0 as int],
                ) by {
                    let u = tasks_list@[j].0 as int;
                    if j < i {
                        if u != t.0 {
                            assert(self.tasks@[u] == prev.tasks@[u]);
                        } else {
                            assert(pending_reexecution(prev.tasks@[u]));
                            assert(*self == prev);
                        }
                    } else {
                        assert(same_task_except_state(prev.tasks@[u], old(self).tasks@[u]));
                        assert(prev.tasks@[u].kind == old(self).tasks@[u].kind);
                    }
                }
            }
            i = i + 1;
        }
    }

    /// Hands the host the next scheduled task to run, inside a fresh
    /// execution context whose cell mappings are the task's saved table
    /// with all cursors starting over. A stopping engine instead drains
    /// the whole queue without starting anything.
    pub fn start_next_execution(&mut self) -> (r: Option<ExecutionCtx>)
        requires
            old(self).wf(),
        ensures
            final(self).wf(),
            final(self).tasks@.len() == old(self).tasks@.len(),
            final(self).task_cache == old(self).task_cache,
            final(self).stopped == old(self).stopped,
            final(self).currently_scheduled_foreground_jobs == old(self).currently_scheduled_foreground_jobs,
            final(self).currently_scheduled_background_jobs == old(self).currently_scheduled_background_jobs,
            final(self).event_foreground == old(self).event_foreground,
            final(self).event_background == old(self).event_background,
            match r {
                Some(ctx) => {
                    &&& !old(self).stopped
                    &&& old(self).queue@.len() > 0
                    &&& ctx.task == old(self).queue@.last()
                    &&& final(self).valid_task(ctx.task)
                    &&& old(self).tasks@[ctx.task.0 as int].state is Scheduled
                    &&& final(self).tasks@[ctx.task.0 as int].state is InProgress
                    &&& final(self).tasks@[ctx.task.0 as int].executions == bumped(
                        old(self).tasks@[ctx.task.0 as int].executions,
                    )
                    &&& final(self).tasks@[ctx.task.0 as int].kind == old(self).tasks@[ctx.task.0 as int].kind
                    &&& final(self).tasks@[ctx.task.0 as int].cells == old(self).tasks@[ctx.task.0 as int].cells
                    &&& final(self).tasks@[ctx.task.0 as int].output == old(self).tasks@[ctx.task.0 as int].output
                    &&& final(self).tasks@[ctx.task.0 as int].output_dependents == old(self).tasks@[ctx.task.0 as int].output_dependents
                    &&& (forall|k: int|
                        0 <= k < old(self).tasks@.len() && k != ctx.task.0 ==> final(self).tasks@[k] == old(self).tasks@[k])
                    &&& ctx.mappings.wf()
                    &&& ctx.mappings.by_key == old(self).tasks@[ctx.task.0 as int].mappings.by_key
                    &&& ctx.mappings.by_type@.len() == old(self).tasks@[ctx.task.0 as int].mappings.by_type@.len()
                    &&& (forall|p: int|
                        0 <= p < ctx.mappings.by_type@.len() ==> (
                        #[trigger] ctx.mappings.by_type@[p]).type_id == old(self).tasks@[ctx.task.0 as int].mappings.by_type@[p].type_id
                            && ctx.mappings.by_type@[p].indices == old(self).tasks@[ctx.task.0 as int].mappings.by_type@[p].indices
                            && ctx.mappings.by_type@[p].cursor == 0)
                    &&& ctx.tasks_to_notify@.len() == 0
                    &&& final(self).queue@ == old(self).queue@.drop_last()
                    &&& final(self).currently_scheduled_tasks == old(self).currently_scheduled_tasks
                    &&& final(self).scheduled_tasks == old(self).scheduled_tasks
                    &&& final(self).last_update == old(self).last_update
                    &&& final(self).event == old(self).event
                },
                None => {
                    &&& final(self).queue@.len() == 0
                    &&& (!old(self).stopped ==> *final(self) == *old(self) && old(self).queue@.len() == 0)
                    &&& (old(self).stopped ==> {
                        &&& final(self).currently_scheduled_tasks == old(self).currently_scheduled_tasks - old(self).queue@.len()
                        &&& (forall|j: int|
                            0 <= j < old(self).queue@.len() ==> final(self).tasks@[(
                            #[trigger] old(self).queue@[j]).0 as int].state is Dirty
                                && same_task_except_state(
                                final(self).tasks@[old(self).queue@[j].0 as int],
                                old(self).tasks@[old(self).queue@[j].0 as int],
                            ))
                        &&& (forall|k: int|
                            0 <= k < old(self).tasks@.len() && (forall|j: int|
                                0 <= j < old(self).queue@.len() ==> (
                                #[trigger] old(self).queue@[j]).0 != k) ==> final(self).tasks@[k] == old(self).tasks@[k])
                        &&& (final(self).currently_scheduled_tasks > 0 ==> final(self).event
                            == old(self).event && final(self).last_update == old(self).last_update && final(self).scheduled_tasks == old(self).scheduled_tasks)
                        &&& (final(self).currently_scheduled_tasks == 0 && old(self).queue@.len() > 0 ==> final(self).event.generation@ == old(self).event.generation@ + 1 && final(self).last_update == Some(
                            old(self).scheduled_tasks,
                        ) && final(self).scheduled_tasks == 0)
                    })
                },
            },
    {
        if !self.stopped {
            if self.queue.len() == 0 {
                return None;
            }
            {
                {
                    let t = self.queue.pop().unwrap();
                    proof {
                        assert(old(self).queue@[old(self).queue@.len() - 1] == t);
                        assert forall|k: int|
                            0 <= k < self.tasks@.len() && (#[trigger] self.tasks@[k]).state
                                is Scheduled && k != t.0 implies self.queue@.contains(
                            TaskId(k as usize),
                        ) by {
                            assert(old(self).tasks@[k].state is Scheduled);
                            assert(old(self).queue@.contains(TaskId(k as usize)));
                            let w = choose|w: int|
                                0 <= w < old(self).queue@.len() && old(self).queue@[w] == TaskId(
                                    k as usize,
                                );
                            vstd::std_specs::vec::axiom_spec_len(&self.tasks);
                            assert(self.tasks@.len() <= usize::MAX);
                            assert((k as usize) as int == k);
                            assert(TaskId(k as usize) != t);
                            if w == old(self).queue@.len() - 1 {
                                assert(old(self).queue@[w] == t);
                                assert(false);
                            }
                            assert(self.queue@[w] == TaskId(k as usize));
                        }
                    }
                    let i = t.0;
                    let ghost mid = *self;
                    let task = &mut self.tasks[i];
                    task.state = TaskState::InProgress;
                    if task.executions < u64::MAX {
                        task.executions = task.executions + 1;
                    }
                    let mut mappings = CellMappings::new();
                    core::mem::swap(&mut mappings, &mut task.mappings);
                    proof {
                        assert(self.tasks@ =~= old(self).tasks@.update(
                            i as int,
                            self.tasks@[i as int],
                        ));
                        lemma_count_active_update(
                            old(self).tasks@,
                            i as int,
                            self.tasks@[i as int],
                        );
                        assert forall|k: int|
                            0 <= k < self.tasks@.len() implies self.task_deps_wf(
                            #[trigger] self.tasks@[k]) by {
                            assert(old(self).task_deps_wf(old(self).tasks@[k]));
                            if k == i as int {
                                assert(self.tasks@[k].mappings.by_key@.len() == 0);
                                assert(self.tasks@[k].mappings.by_type@.len() == 0);
                            }
                        }
                        assert forall|k: int|
                            0 <= k < self.tasks@.len() && (#[trigger] self.tasks@[k]).state
                                is Scheduled implies self.queue@.contains(TaskId(k as usize)) by {
                            assert(mid.tasks@[k].state is Scheduled);
                        }
                        assert forall|i2: int|
                            0 <= i2 < self.queue@.len() implies (#[trigger] self.queue@[i2]).0
                            < self.tasks@.len() && self.tasks@[self.queue@[i2].0 as int].state
                            is Scheduled by {
                            assert(old(self).queue@[i2] == self.queue@[i2]);
                            assert(old(self).tasks@[self.queue@[i2].0 as int].state
                                is Scheduled);
                            if self.queue@[i2].0 as int == i as int {
                                assert(old(self).queue@[i2] != old(self).queue@[old(self).queue@.len() - 1]);
                                assert(false);
                            }
                        }
                    }
                    mappings.reset_cursors();
                    return Some(
                        ExecutionCtx { task: t, mappings, tasks_to_notify: Vec::new() },
                    );
                }
            }
        }
        let ghost start = *self;
        proof {
            if self.currently_scheduled_tasks == 0 && self.queue@.len() > 0 {
                assert(self.tasks@[self.queue@[0].0 as int].state is Scheduled);
                lemma_count_active_member(self.tasks@, self.queue@[0].0 as int);
                assert(false);
            }
            assert(self.queue@ =~= start.queue@.subrange(0, self.queue@.len() as int));
        }
        while self.queue.len() > 0
            invariant
                self.wf(),
                self.stopped,
                start.stopped,
                start.wf(),
                *old(self) == start,
                self.tasks@.len() == start.tasks@.len(),
                self.queue@.len() <= start.queue@.len(),
                self.queue@ == start.queue@.subrange(0, self.queue@.len() as int),
                self.currently_scheduled_tasks == start.currently_scheduled_tasks - (
                start.queue@.len() - self.queue@.len()),
                forall|j: int|
                    self.queue@.len() <= j < start.queue@.len() ==> self.tasks@[(
                    #[trigger] start.queue@[j]).0 as int].state is Dirty
                        && same_task_except_state(
                        self.tasks@[start.queue@[j].0 as int],
                        start.tasks@[start.queue@[j].0 as int],
                    ),
                forall|k: int|
                    0 <= k < start.tasks@.len() && (forall|j: int|
                        self.queue@.len() <= j < start.queue@.len() ==> (
                        #[trigger] start.queue@[j]).0 != k) ==> self.tasks@[k]
                        == start.tasks@[k],
                self.task_cache == start.task_cache,
                self.currently_scheduled_foreground_jobs == start.currently_scheduled_foreground_jobs,
                self.currently_scheduled_background_jobs == start.currently_scheduled_background_jobs,
                self.event_foreground == start.event_foreground,
                self.event_background == start.event_background,
                self.currently_scheduled_tasks > 0 ==> self.event == start.event
                    && self.last_update == start.last_update && self.scheduled_tasks
                    == start.scheduled_tasks,
                self.currently_scheduled_tasks == 0 ==> self.queue@.len() == 0,
                self.currently_scheduled_tasks == 0 && start.queue@.len() > 0
                    ==> self.event.generation@ == start.event.generation@ + 1
                        && self.last_update == Some(start.scheduled_tasks)
                        && self.scheduled_tasks == 0,
            decreases self.queue@.len(),
        {
            let ghost prev = *self;
            let t = self.queue.pop().unwrap();
            proof {
                assert(prev.queue@[prev.queue@.len() - 1] == t);
                assert(prev.tasks@[t.0 as int].state is Scheduled);
                assert(count_active(prev.tasks@) >= 1) by {
                    lemma_count_active_member(prev.tasks@, t.0 as int);
                }
                assert forall|k: int|
                    0 <= k < self.tasks@.len() && (#[trigger] self.tasks@[k]).state
                        is Scheduled && k != t.0 implies self.queue@.contains(
                    TaskId(k as usize),
                ) by {
                    assert(prev.tasks@[k].state is Scheduled);
                    assert(prev.queue@.contains(TaskId(k as usize)));
                    let w = choose|w: int|
                        0 <= w < prev.queue@.len() && prev.queue@[w] == TaskId(k as usize);
                    vstd::std_specs::vec::axiom_spec_len(&self.tasks);
                    assert(self.tasks@.len() <= usize::MAX);
                    assert((k as usize) as int == k);
                    assert(TaskId(k as usize) != t);
                    if w == prev.queue@.len() - 1 {
                        assert(prev.queue@[w] == t);
                        assert(false);
                    }
                    assert(self.queue@[w] == TaskId(k as usize));
                }
            }
            let i = t.0;
            let task = &mut self.tasks[i];
            task.state = TaskState::Dirty;
            proof {
                assert(self.tasks@ =~= prev.tasks@.update(i as int, self.tasks@[i as int]));
                lemma_count_active_update(prev.tasks@, i as int, self.tasks@[i as int]);
                assert forall|k: int|
                    0 <= k < self.tasks@.len() implies self.task_deps_wf(
                    #[trigger] self.tasks@[k]) by {
                    assert(prev.task_deps_wf(prev.tasks@[k]));
                }
                assert forall|k: int|
                    0 <= k < self.tasks@.len() && (#[trigger] self.tasks@[k]).state
                        is Scheduled implies self.queue@.contains(TaskId(k as usize)) by {
                    assert(prev.tasks@[k].state is Scheduled);
                }
                assert forall|i2: int|
                    0 <= i2 < self.queue@.len() implies (#[trigger] self.queue@[i2]).0
                    < self.tasks@.len() && self.tasks@[self.queue@[i2].0 as int].state
                    is Scheduled by {
                    assert(prev.queue@[i2] == self.queue@[i2]);
                    assert(prev.tasks@[prev.queue@[i2].0 as int].state is Scheduled);
                    if self.queue@[i2].0 as int == i as int {
                        assert(prev.queue@[i2] != prev.queue@[prev.queue@.len() - 1]);
                        assert(false);
                    }
                }
            }
            self.finish_foreground_task();
            proof {
                let m = prev.queue@.len() as int;
                assert(self.queue@.len() == m - 1);
                assert(prev.queue@ == start.queue@.subrange(0, m));
                assert(self.queue@ == prev.queue@.subrange(0, m - 1));
                assert forall|i2: int| 0 <= i2 < m - 1 implies self.queue@[i2]
                    == start.queue@[i2] by {
                    assert(self.queue@[i2] == prev.queue@.subrange(0, m - 1)[i2]);
                    assert(prev.queue@[i2] == start.queue@.subrange(0, m)[i2]);
                }
                assert(self.queue@ =~= start.queue@.subrange(0, self.queue@.len() as int));
                if self.currently_scheduled_tasks == 0 && self.queue@.len() > 0 {
                    assert(self.tasks@[self.queue@[0].0 as int].state is Scheduled);
                    lemma_count_active_member(self.tasks@, self.queue@[0].0 as int);
                    assert(false);
                }
                assert(m - 1 < start.queue@.len());
                assert(t == prev.queue@[m - 1]);
                assert(prev.queue@[m - 1] == start.queue@.subrange(0, m)[m - 1]);
                assert(t == start.queue@[m - 1]);
                assert forall|k: int|
                    0 <= k < start.tasks@.len() && (forall|j: int|
                        self.queue@.len() <= j < start.queue@.len() ==> (
                        #[trigger] start.queue@[j]).0 != k) implies self.tasks@[k]
                    == start.tasks@[k] by {
                    assert(start.queue@[m - 1].0 != k);
                    assert(k != t.0);
                    assert(forall|j: int|
                        m <= j < start.queue@.len() ==> (#[trigger] start.queue@[j]).0 != k);
                    assert(prev.tasks@[k] == start.tasks@[k]);
                    assert(self.tasks@[k] == prev.tasks@[k]);
                }
            }
        }
        None
    }
}

/// A sequence with an active member counts at least one active task.
pub proof fn lemma_count_active_member(s: Seq<Task>, i: int)
    requires
        0 <= i < s.len(),
        task_active(s[i]),
    ensures
        count_active(s) >= 1,
    decreases s.len(),
{
    if i == s.len() - 1 {
    } else {
        lemma_count_active_member(s.drop_last(), i);
    }
}

/// Outcome of a read that may have to wait for the producer.
#[derive(PartialEq, Eq, Debug)]
pub enum TryRead<T> {
    /// The current snapshot.
    Ready(T),
    /// Nothing produced yet (or an invalidation is still pending): listen
    /// and retry.
    Pending,
}

/// An update of one task that keeps its lifecycle state and kind keeps the
/// whole engine well-formed.
pub proof fn lemma_wf_update_task(pre: TurboTasks, post: TurboTasks, i: int)
    requires
        pre.wf(),
        0 <= i < pre.tasks@.len(),
        post.tasks@ == pre.tasks@.update(i, post.tasks@[i]),
        post.tasks@.len() == pre.tasks@.len(),
        post.tasks@[i].state == pre.tasks@[i].state,
        post.tasks@[i].kind == pre.tasks@[i].kind,
        post.task_deps_wf(post.tasks@[i]),
        post.queue == pre.queue,
        post.task_cache == pre.task_cache,
        post.currently_scheduled_tasks == pre.currently_scheduled_tasks,
        post.currently_scheduled_foreground_jobs == pre.currently_scheduled_foreground_jobs,
    ensures
        post.wf(),
{
    lemma_count_active_update(pre.tasks@, i, post.tasks@[i]);
    assert(count_active(post.tasks@) == count_active(pre.tasks@));
    assert forall|k: int|
        0 <= k < post.tasks@.len() && (#[trigger] post.tasks@[k]).state is Scheduled
        implies post.queue@.contains(TaskId(k as usize)) by {
        assert(pre.tasks@[k].state is Scheduled);
    }
    assert forall|j: int|
        0 <= j < post.queue@.len() implies (#[trigger] post.queue@[j]).0 < post.tasks@.len()
        && post.tasks@[post.queue@[j].0 as int].state is Scheduled by {
        assert(pre.tasks@[pre.queue@[j].0 as int].state is Scheduled);
    }
    assert forall|j: int|
        0 <= j < post.task_cache@.len() implies (#[trigger] post.task_cache@[j]).0
        < post.tasks@.len() && post.tasks@[post.task_cache@[j].0 as int].kind is Persistent by {
        assert(pre.tasks@[pre.task_cache@[j].0 as int].kind is Persistent);
    }
    assert forall|k: int|
        0 <= k < post.tasks@.len() implies post.task_deps_wf(#[trigger] post.tasks@[k]) by {
        if k != i {
            assert(pre.task_deps_wf(pre.tasks@[k]));
        }
    }
}

fn contains_task(v: &Vec<TaskId>, t: TaskId) -> (r: bool)
    ensures
        r == v@.contains(t),
{
    let mut i: usize = 0;
    while i < v.len()
        invariant
            i <= v@.len(),
            forall|j: int| 0 <= j < i ==> v@[j] != t,
        decreases v@.len() - i,
    {
        if v[i] == t {
            return true;
        }
        i = i + 1;
    }
    false
}

impl TurboTasks {
    /// Commits a finished iteration: stores the cell mappings and the
    /// result, notifies every reader collected during the execution, and
    /// decides whether the task re-executes at once (an invalidation
    /// arrived while it ran).
    pub fn task_execution_completed(
        &mut self,
        ctx: ExecutionCtx,
        result: Result<RawVc, EngineError>,
    ) -> (reexecute: bool)
        requires
            old(self).wf(),
            old(self).has_headroom(),
            old(self).valid_task(ctx.task),
            old(self).tasks@[ctx.task.0 as int].state is InProgress || old(self).tasks@[ctx.task.0 as int].state is InProgressDirty,
            ctx.mappings.wf(),
            forall|i: int|
                0 <= i < ctx.tasks_to_notify@.len() ==> (#[trigger] ctx.tasks_to_notify@[i]).0
                    < old(self).tasks@.len(),
        ensures
            final(self).wf(),
            final(self).tasks@.len() == old(self).tasks@.len(),
            final(self).task_cache == old(self).task_cache,
            final(self).stopped == old(self).stopped,
            final(self).currently_scheduled_foreground_jobs == old(self).currently_scheduled_foreground_jobs,
            final(self).currently_scheduled_background_jobs == old(self).currently_scheduled_background_jobs,
            final(self).event_foreground == old(self).event_foreground,
            final(self).event_background == old(self).event_background,
            final(self).tasks@[ctx.task.0 as int].mappings == ctx.mappings,
            final(self).tasks@[ctx.task.0 as int].output == Some(result),
            final(self).tasks@[ctx.task.0 as int].kind == old(self).tasks@[ctx.task.0 as int].kind,
            final(self).tasks@[ctx.task.0 as int].cells == old(self).tasks@[ctx.task.0 as int].cells,
            final(self).tasks@[ctx.task.0 as int].executions == old(self).tasks@[ctx.task.0 as int].executions,
            reexecute ==> final(self).tasks@[ctx.task.0 as int].state is Scheduled,
            !reexecute ==> final(self).tasks@[ctx.task.0 as int].state is Done,
            old(self).tasks@[ctx.task.0 as int].kind is Once ==> !reexecute,
            old(self).stopped ==> !reexecute,
            !old(self).stopped ==> forall|i: int|
                0 <= i < ctx.tasks_to_notify@.len() && !(old(self).tasks@[(
                #[trigger] ctx.tasks_to_notify@[i]).0 as int].kind is Once)
                    && ctx.tasks_to_notify@[i].0 != ctx.task.0 ==> pending_reexecution(
                    final(self).tasks@[ctx.tasks_to_notify@[i].0 as int],
                ),
            !old(self).stopped && old(self).tasks@[ctx.task.0 as int].output != Some(result)
                ==> forall|i: int|
                0 <= i < old(self).tasks@[ctx.task.0 as int].output_dependents@.len() && !(old(self).tasks@[(#[trigger] old(self).tasks@[ctx.task.0 as int].output_dependents@[i]).0 as int].kind
                    is Once) && old(self).tasks@[ctx.task.0 as int].output_dependents@[i].0
                    != ctx.task.0 ==> pending_reexecution(
                    final(self).tasks@[old(self).tasks@[ctx.task.0 as int].output_dependents@[i].0 as int],
                ),
            !reexecute && final(self).currently_scheduled_tasks == 0 ==> final(self).event.generation@ == old(self).event.generation@ + 1 && final(self).last_update
                is Some,
    {
        let ExecutionCtx { task: t, mappings, tasks_to_notify } = ctx;
        let i = t.0;
        let changed = match (&self.tasks[i].output, &result) {
            (Some(Ok(a)), Ok(b)) => a != b,
            (Some(Err(a)), Err(b)) => a != b,
            _ => true,
        };
        let mut to_notify = tasks_to_notify;
        let ghost base_len = to_notify@.len();
        if changed {
            let n = self.tasks[i].output_dependents.len();
            let mut j: usize = 0;
            while j < n
                invariant
                    *self == *old(self),
                    n == self.tasks@[i as int].output_dependents@.len(),
                    i == t.0,
                    i < self.tasks@.len(),
                    j <= n,
                    to_notify@.len() == base_len + j,
                    forall|q: int| 0 <= q < base_len ==> to_notify@[q] == ctx.tasks_to_notify@[q],
                    forall|q: int|
                        0 <= q < j ==> to_notify@[base_len + q] == self.tasks@[i as int].output_dependents@[q],
                decreases n - j,
            {
                let dep = self.tasks[i].output_dependents[j];
                to_notify.push(dep);
                j = j + 1;
            }
        }
        proof {
            assert(old(self).task_deps_wf(old(self).tasks@[i as int]));
            assert forall|q: int|
                0 <= q < to_notify@.len() implies (#[trigger] to_notify@[q]).0
                < self.tasks@.len() by {
                if q < base_len {
                    assert(to_notify@[q] == ctx.tasks_to_notify@[q]);
                } else {
                    let q2 = q - base_len;
                    assert(to_notify@[base_len as int + q2] == self.tasks@[i as int].output_dependents@[q2]);
                    assert((self.tasks@[i as int].output_dependents@[q2]).0
                        < self.tasks@.len());
                }
            }
        }
        let ghost pre_store = *self;
        {
            let task = &mut self.tasks[i];
            task.mappings = mappings;
            task.output = Some(result);
        }
        proof {
            assert(self.tasks@ =~= pre_store.tasks@.update(i as int, self.tasks@[i as int]));
            lemma_wf_update_task(pre_store, *self, i as int);
        }
        let ghost pre_drain = *self;
        self.invalidate_tasks(&to_notify);
        proof {
            assert(self.tasks@[i as int].mappings == mappings);
            assert(self.tasks@[i as int].output == Some(result));
        }
        let state = self.tasks[i].state;
        let is_once = match &self.tasks[i].kind {
            TaskKind::Once => true,
            _ => false,
        };
        let stopped = self.stopped;
        let reexecute = match state {
            TaskState::InProgressDirty => !stopped && !is_once,
            _ => false,
        };
        let ghost pre_fin = *self;
        if reexecute {
            proof {
                assert forall|i2: int|
                    0 <= i2 < self.queue@.len() implies self.queue@[i2] != t by {
                    assert(pre_fin.tasks@[pre_fin.queue@[i2].0 as int].state is Scheduled);
                }
            }
            {
                let task = &mut self.tasks[i];
                task.state = TaskState::Scheduled;
            }
            self.queue.push(t);
            proof {
                assert(self.tasks@ =~= pre_fin.tasks@.update(i as int, self.tasks@[i as int]));
                lemma_count_active_update(pre_fin.tasks@, i as int, self.tasks@[i as int]);
                assert forall|k: int|
                    0 <= k < self.tasks@.len() && (#[trigger] self.tasks@[k]).state
                        is Scheduled implies self.queue@.contains(TaskId(k as usize)) by {
                    if k != i as int {
                        assert(pre_fin.tasks@[k].state is Scheduled);
                        let w = choose|w: int|
                            0 <= w < pre_fin.queue@.len() && pre_fin.queue@[w] == TaskId(
                                k as usize,
                            );
                        assert(self.queue@[w] == TaskId(k as usize));
                    } else {
                        assert(self.queue@.last() == t);
                        vstd::std_specs::vec::axiom_spec_len(&self.tasks);
                        assert((k as usize) as int == k);
                    }
                }
                assert forall|i2: int, j2: int|
                    0 <= i2 < j2 < self.queue@.len() implies self.queue@[i2]
                    != self.queue@[j2] by {
                    if j2 == self.queue@.len() - 1 {
                        assert(self.queue@[i2] == pre_fin.queue@[i2]);
                    }
                }
                assert forall|k: int|
                    0 <= k < self.tasks@.len() implies self.task_deps_wf(
                    #[trigger] self.tasks@[k]) by {
                    assert(pre_fin.task_deps_wf(pre_fin.tasks@[k]));
                }
                assert forall|j2: int|
                    0 <= j2 < self.task_cache@.len() implies (#[trigger] self.task_cache@[j2]).0
                    < self.tasks@.len() && self.tasks@[self.task_cache@[j2].0 as int].kind
                    is Persistent by {
                    assert(pre_fin.tasks@[pre_fin.task_cache@[j2].0 as int].kind is Persistent);
                }
            }
        } else {
            proof {
                lemma_count_active_member(pre_fin.tasks@, i as int);
            }
            {
                let task = &mut self.tasks[i];
                task.state = TaskState::Done;
            }
            proof {
                assert(self.tasks@ =~= pre_fin.tasks@.update(i as int, self.tasks@[i as int]));
                lemma_count_active_update(pre_fin.tasks@, i as int, self.tasks@[i as int]);
                assert forall|k: int|
                    0 <= k < self.tasks@.len() && (#[trigger] self.tasks@[k]).state
                        is Scheduled implies self.queue@.contains(TaskId(k as usize)) by {
                    assert(pre_fin.tasks@[k].state is Scheduled);
                }
                assert forall|i2: int|
                    0 <= i2 < self.queue@.len() implies (#[trigger] self.queue@[i2]).0
                    < self.tasks@.len() && self.tasks@[self.queue@[i2].0 as int].state
                    is Scheduled by {
                    assert(pre_fin.tasks@[pre_fin.queue@[i2].0 as int].state is Scheduled);
                }
                assert forall|k: int|
                    0 <= k < self.tasks@.len() implies self.task_deps_wf(
                    #[trigger] self.tasks@[k]) by {
                    assert(pre_fin.task_deps_wf(pre_fin.tasks@[k]));
                }
                assert forall|j2: int|
                    0 <= j2 < self.task_cache@.len() implies (#[trigger] self.task_cache@[j2]).0
                    < self.tasks@.len() && self.tasks@[self.task_cache@[j2].0 as int].kind
                    is Persistent by {
                    assert(pre_fin.tasks@[pre_fin.task_cache@[j2].0 as int].kind is Persistent);
                }
            }
            self.finish_foreground_task();
        }
        proof {
            if !old(self).stopped {
                assert forall|i2: int|
                    0 <= i2 < ctx.tasks_to_notify@.len() && !(old(self).tasks@[(
                    #[trigger] ctx.tasks_to_notify@[i2]).0 as int].kind is Once)
                        && ctx.tasks_to_notify@[i2].0 != ctx.task.0 implies pending_reexecution(
                    self.tasks@[ctx.tasks_to_notify@[i2].0 as int],
                ) by {
                    let u = ctx.tasks_to_notify@[i2].0 as int;
                    assert(to_notify@[i2] == ctx.tasks_to_notify@[i2]);
                    assert(pre_drain.tasks@[u] == old(self).tasks@[u]);
                    assert(!(pre_drain.tasks@[to_notify@[i2].0 as int].kind is Once));
                    assert(pending_reexecution(pre_fin.tasks@[u]));
                    assert(self.tasks@[u] == pre_fin.tasks@[u]);
                }
                if changed {
                    assert forall|i2: int|
                        0 <= i2 < old(self).tasks@[i as int].output_dependents@.len() && !(old(self).tasks@[(#[trigger] old(self).tasks@[i as int].output_dependents@[i2]).0 as int].kind
                        is Once) && old(self).tasks@[i as int].output_dependents@[i2].0
                        != ctx.task.0 implies pending_reexecution(
                        self.tasks@[old(self).tasks@[i as int].output_dependents@[i2].0 as int],
                    ) by {
                        let u = old(self).tasks@[i as int].output_dependents@[i2].0 as int;
                        assert(to_notify@[base_len as int + i2] == old(self).tasks@[i as int].output_dependents@[i2]);
                        assert(pre_drain.tasks@[u] == old(self).tasks@[u]);
                        assert(!(pre_drain.tasks@[to_notify@[base_len as int + i2].0 as int].kind
                            is Once));
                        assert(pending_reexecution(pre_fin.tasks@[u]));
                        assert(self.tasks@[u] == pre_fin.tasks@[u]);
                    }
                }
            }
        }
        reexecute
    }
}

impl TurboTasks {
    /// Reads a task's terminal output from within `reader`'s execution,
    /// recording the dependency edge before returning. A strongly
    /// consistent read — and in this engine any output read — returns a
    /// value only when no committed invalidation for the target is still
    /// pending, and that value is the last committed output.
    pub fn try_read_task_output(
        &mut self,
        task: TaskId,
        reader: TaskId,
        strongly_consistent: bool,
    ) -> (r: Result<TryRead<RawVc>, EngineError>)
        requires
            old(self).wf(),
            old(self).valid_task(task),
            old(self).valid_task(reader),
        ensures
            final(self).wf(),
            final(self).tasks@.len() == old(self).tasks@.len(),
            forall|k: int|
                0 <= k < old(self).tasks@.len() && k != task.0 ==> final(self).tasks@[k] == old(self).tasks@[k],
            final(self).tasks@[task.0 as int] == (Task {
                output_dependents: final(self).tasks@[task.0 as int].output_dependents,
                ..old(self).tasks@[task.0 as int]
            }),
            final(self).tasks@[task.0 as int].output_dependents@ == if old(self).tasks@[task.0 as int].output_dependents@.contains(reader) {
                old(self).tasks@[task.0 as int].output_dependents@
            } else {
                old(self).tasks@[task.0 as int].output_dependents@.push(reader)
            },
            final(self).tasks@[task.0 as int].output_dependents@.contains(reader),
            final(self).queue == old(self).queue,
            final(self).task_cache == old(self).task_cache,
            final(self).stopped == old(self).stopped,
            final(self).currently_scheduled_tasks == old(self).currently_scheduled_tasks,
            final(self).currently_scheduled_foreground_jobs == old(self).currently_scheduled_foreground_jobs,
            final(self).currently_scheduled_background_jobs == old(self).currently_scheduled_background_jobs,
            final(self).scheduled_tasks == old(self).scheduled_tasks,
            final(self).last_update == old(self).last_update,
            final(self).event == old(self).event,
            final(self).event_foreground == old(self).event_foreground,
            final(self).event_background == old(self).event_background,
            match r {
                Ok(TryRead::Ready(v)) => old(self).tasks@[task.0 as int].state is Done && old(self).tasks@[task.0 as int].output == Some(Ok::<RawVc, EngineError>(v)),
                Ok(TryRead::Pending) => !(old(self).tasks@[task.0 as int].state is Done),
                Err(e) => old(self).tasks@[task.0 as int].state is Done && (exists|e2: EngineError|
                    old(self).tasks@[task.0 as int].output == Some(
                        Err::<RawVc, EngineError>(e2),
                    )) && e == EngineError::TaskFailed,
            },
    {
        let i = task.0;
        let ghost pre = *self;
        let already = contains_task(&self.tasks[i].output_dependents, reader);
        if !already {
            let t = &mut self.tasks[i];
            t.output_dependents.push(reader);
        }
        proof {
            assert(self.tasks@ =~= pre.tasks@.update(i as int, self.tasks@[i as int]));
            assert(pre.task_deps_wf(pre.tasks@[i as int]));
            lemma_wf_update_task(pre, *self, i as int);
            if !already {
                assert(self.tasks@[i as int].output_dependents@ == pre.tasks@[i as int].output_dependents@.push(reader));
                assert(self.tasks@[i as int].output_dependents@.last() == reader);
            }
        }
        // an output read already waits for the last commit, so the strong
        // consistency flag asks for nothing further here
        let _ = strongly_consistent;
        match self.tasks[i].state {
            TaskState::Done => match &self.tasks[i].output {
                Some(Ok(v)) => Ok(TryRead::Ready(*v)),
                Some(Err(e)) => {
                    proof {
                        assert(old(self).tasks@[i as int].output == Some(
                            Err::<RawVc, EngineError>(*e),
                        ));
                    }
                    Err(EngineError::TaskFailed)
                },
                None => {
                    proof {
                        assert(pre.task_deps_wf(pre.tasks@[i as int]));
                        assert(false);
                    }
                    Ok(TryRead::Pending)
                },
            },
            _ => Ok(TryRead::Pending),
        }
    }

    /// Reads a task's output without recording a dependency edge. The
    /// caller explicitly accepts the loss of reactivity: nothing will
    /// re-execute it when the output changes.
    pub fn try_read_task_output_untracked(
        &self,
        task: TaskId,
        strongly_consistent: bool,
    ) -> (r: Result<TryRead<RawVc>, EngineError>)
        requires
            self.wf(),
            self.valid_task(task),
        ensures
            match r {
                Ok(TryRead::Ready(v)) => self.tasks@[task.0 as int].state is Done
                    && self.tasks@[task.0 as int].output == Some(Ok::<RawVc, EngineError>(v)),
                Ok(TryRead::Pending) => !(self.tasks@[task.0 as int].state is Done),
                Err(e) => self.tasks@[task.0 as int].state is Done && e
                    == EngineError::TaskFailed,
            },
    {
        // see try_read_task_output: output reads always wait for the commit
        let _ = strongly_consistent;
        let i = task.0;
        match self.tasks[i].state {
            TaskState::Done => match &self.tasks[i].output {
                Some(Ok(v)) => Ok(TryRead::Ready(*v)),
                Some(Err(_)) => Err(EngineError::TaskFailed),
                None => Ok(TryRead::Pending),
            },
            _ => Ok(TryRead::Pending),
        }
    }

    /// Reads cell `index` of `task` from within `reader`'s execution,
    /// recording the dependency edge before returning. A slot that the
    /// owner has not produced yet reads as pending.
    pub fn try_read_task_cell(
        &mut self,
        task: TaskId,
        index: usize,
        reader: TaskId,
    ) -> (r: Result<TryRead<CellContent>, EngineError>)
        requires
            old(self).wf(),
            old(self).valid_task(task),
            old(self).valid_task(reader),
        ensures
            final(self).wf(),
            final(self).tasks@.len() == old(self).tasks@.len(),
            forall|k: int|
                0 <= k < old(self).tasks@.len() && k != task.0 ==> final(self).tasks@[k] == old(self).tasks@[k],
            final(self).queue == old(self).queue,
            final(self).task_cache == old(self).task_cache,
            final(self).stopped == old(self).stopped,
            final(self).currently_scheduled_tasks == old(self).currently_scheduled_tasks,
            final(self).currently_scheduled_foreground_jobs == old(self).currently_scheduled_foreground_jobs,
            final(self).currently_scheduled_background_jobs == old(self).currently_scheduled_background_jobs,
            final(self).scheduled_tasks == old(self).scheduled_tasks,
            final(self).last_update == old(self).last_update,
            final(self).event == old(self).event,
            final(self).event_foreground == old(self).event_foreground,
            final(self).event_background == old(self).event_background,
            index >= old(self).tasks@[task.0 as int].cells@.len() ==> r == Ok::<
                TryRead<CellContent>,
                EngineError,
            >(TryRead::Pending) && *final(self) == *old(self),
            index < old(self).tasks@[task.0 as int].cells@.len() ==> {
                &&& final(self).tasks@[task.0 as int] == (Task {
                    cells: final(self).tasks@[task.0 as int].cells,
                    ..old(self).tasks@[task.0 as int]
                })
                &&& final(self).tasks@[task.0 as int].cells@.len() == old(self).tasks@[task.0 as int].cells@.len()
                &&& (forall|c: int|
                    0 <= c < old(self).tasks@[task.0 as int].cells@.len() && c != index
                        ==> final(self).tasks@[task.0 as int].cells@[c] == old(self).tasks@[task.0 as int].cells@[c])
                &&& final(self).tasks@[task.0 as int].cells@[index as int].content == old(self).tasks@[task.0 as int].cells@[index as int].content
                &&& final(self).tasks@[task.0 as int].cells@[index as int].dependents@.contains(
                    reader,
                )
                &&& r == Ok::<TryRead<CellContent>, EngineError>(
                    match old(self).tasks@[task.0 as int].cells@[index as int].content.0 {
                        Some(v) => TryRead::Ready(CellContent(Some(v))),
                        None => TryRead::Pending,
                    },
                )
            },
    {
        let i = task.0;
        if index >= self.tasks[i].cells.len() {
            return Ok(TryRead::Pending);
        }
        let ghost pre = *self;
        let already = contains_task(&self.tasks[i].cells[index].dependents, reader);
        if !already {
            let t = &mut self.tasks[i];
            let slot = &mut t.cells[index];
            slot.dependents.push(reader);
        }
        proof {
            assert(self.tasks@ =~= pre.tasks@.update(i as int, self.tasks@[i as int]));
            assert(self.tasks@[i as int].cells@ =~= pre.tasks@[i as int].cells@.update(
                index as int,
                self.tasks@[i as int].cells@[index as int],
            ));
            assert(pre.task_deps_wf(pre.tasks@[i as int]));
            assert forall|c: int, q: int|
                0 <= c < self.tasks@[i as int].cells@.len() && 0 <= q < self.tasks@[i as int].cells@[c].dependents@.len()
                implies (#[trigger] self.tasks@[i as int].cells@[c].dependents@[q]).0
                < self.tasks@.len() by {
                if c != index || q < pre.tasks@[i as int].cells@[c].dependents@.len() {
                    assert((pre.tasks@[i as int].cells@[c].dependents@[q]).0
                        < pre.tasks@.len());
                }
            }
            lemma_wf_update_task(pre, *self, i as int);
            if !already {
                assert(self.tasks@[i as int].cells@[index as int].dependents@.last() == reader);
            }
        }
        let content = self.tasks[i].cells[index].content;
        match content.0 {
            Some(v) => Ok(TryRead::Ready(CellContent(Some(v)))),
            None => Ok(TryRead::Pending),
        }
    }

    /// Reads a cell without recording a dependency edge; reactivity is
    /// lost, which is safe only outside any task execution.
    pub fn try_read_task_cell_untracked(
        &self,
        task: TaskId,
        index: usize,
    ) -> (r: Result<TryRead<CellContent>, EngineError>)
        requires
            self.wf(),
            self.valid_task(task),
        ensures
            r == Ok::<TryRead<CellContent>, EngineError>(
                if index < self.tasks@[task.0 as int].cells@.len() {
                    match self.tasks@[task.0 as int].cells@[index as int].content.0 {
                        Some(v) => TryRead::Ready(CellContent(Some(v))),
                        None => TryRead::<CellContent>::Pending,
                    }
                } else {
                    TryRead::<CellContent>::Pending
                },
            ),
    {
        let i = task.0;
        if index >= self.tasks[i].cells.len() {
            return Ok(TryRead::Pending);
        }
        let content = self.tasks[i].cells[index].content;
        match content.0 {
            Some(v) => Ok(TryRead::Ready(CellContent(Some(v)))),
            None => Ok(TryRead::Pending),
        }
    }

    /// Reads one of the current task's own cells; a slot it has not
    /// produced yet reads as empty content.
    pub fn try_read_own_task_cell(&self, current_task: TaskId, index: usize) -> (r: CellContent)
        requires
            self.wf(),
            self.valid_task(current_task),
        ensures
            r == if index < self.tasks@[current_task.0 as int].cells@.len() {
                self.tasks@[current_task.0 as int].cells@[index as int].content
            } else {
                CellContent(None)
            },
    {
        let i = current_task.0;
        if index < self.tasks[i].cells.len() {
            self.tasks[i].cells[index].content
        } else {
            CellContent(None)
        }
    }

    /// Reads a cell of the currently executing task through its context.
    pub fn read_current_task_cell(&self, ctx: &ExecutionCtx, index: usize) -> (r: CellContent)
        requires
            self.wf(),
            self.valid_task(ctx.task),
        ensures
            r == if index < self.tasks@[ctx.task.0 as int].cells@.len() {
                self.tasks@[ctx.task.0 as int].cells@[index as int].content
            } else {
                CellContent(None)
            },
    {
        self.try_read_own_task_cell(ctx.task, index)
    }

    /// Allocates the next cell slot of `task`.
    pub fn get_fresh_cell(&mut self, task: TaskId) -> (r: usize)
        requires
            old(self).wf(),
            old(self).valid_task(task),
            old(self).tasks@[task.0 as int].state is InProgress || old(self).tasks@[task.0 as int].state is InProgressDirty,
        ensures
            final(self).wf(),
            r == old(self).tasks@[task.0 as int].cells@.len(),
            final(self).tasks@.len() == old(self).tasks@.len(),
            forall|k: int|
                0 <= k < old(self).tasks@.len() && k != task.0 ==> final(self).tasks@[k] == old(self).tasks@[k],
            final(self).tasks@[task.0 as int] == (Task {
                cells: final(self).tasks@[task.0 as int].cells,
                ..old(self).tasks@[task.0 as int]
            }),
            final(self).tasks@[task.0 as int].cells@ == old(self).tasks@[task.0 as int].cells@.push(
                CellSlot { content: CellContent(None), dependents: final(self).tasks@[task.0 as int].cells@.last().dependents },
            ),
            final(self).tasks@[task.0 as int].cells@.last().content == CellContent(None),
            final(self).tasks@[task.0 as int].cells@.last().dependents@.len() == 0,
            final(self).queue == old(self).queue,
            final(self).task_cache == old(self).task_cache,
            final(self).stopped == old(self).stopped,
            final(self).currently_scheduled_tasks == old(self).currently_scheduled_tasks,
            final(self).currently_scheduled_foreground_jobs == old(self).currently_scheduled_foreground_jobs,
            final(self).currently_scheduled_background_jobs == old(self).currently_scheduled_background_jobs,
            final(self).scheduled_tasks == old(self).scheduled_tasks,
            final(self).last_update == old(self).last_update,
            final(self).event == old(self).event,
            final(self).event_foreground == old(self).event_foreground,
            final(self).event_background == old(self).event_background,
    {
        let i = task.0;
        let ghost pre = *self;
        let t = &mut self.tasks[i];
        let r = t.cells.len();
        t.cells.push(CellSlot { content: CellContent(None), dependents: Vec::new() });
        proof {
            assert(self.tasks@ =~= pre.tasks@.update(i as int, self.tasks@[i as int]));
            assert(pre.task_deps_wf(pre.tasks@[i as int]));
            assert forall|c: int, q: int|
                0 <= c < self.tasks@[i as int].cells@.len() && 0 <= q < self.tasks@[i as int].cells@[c].dependents@.len()
                implies (#[trigger] self.tasks@[i as int].cells@[c].dependents@[q]).0
                < self.tasks@.len() by {
                if c < pre.tasks@[i as int].cells@.len() {
                    assert((pre.tasks@[i as int].cells@[c].dependents@[q]).0
                        < pre.tasks@.len());
                }
            }
            lemma_wf_update_task(pre, *self, i as int);
        }
        r
    }

    /// Replaces the snapshot of one of the current task's cells and
    /// collects every reader of that cell for notification on commit.
    pub fn update_current_task_cell(
        &mut self,
        ctx: &mut ExecutionCtx,
        index: usize,
        content: CellContent,
    )
        requires
            old(self).wf(),
            old(self).valid_task(old(ctx).task),
            old(self).tasks@[old(ctx).task.0 as int].state is InProgress || old(self).tasks@[old(ctx).task.0 as int].state is InProgressDirty,
            index < old(self).tasks@[old(ctx).task.0 as int].cells@.len(),
        ensures
            final(self).wf(),
            final(ctx).task == old(ctx).task,
            final(ctx).mappings == old(ctx).mappings,
            final(ctx).tasks_to_notify@ == old(ctx).tasks_to_notify@ + old(self).tasks@[old(ctx).task.0 as int].cells@[index as int].dependents@,
            final(self).tasks@.len() == old(self).tasks@.len(),
            forall|k: int|
                0 <= k < old(self).tasks@.len() && k != old(ctx).task.0 ==> final(self).tasks@[k]
                    == old(self).tasks@[k],
            final(self).tasks@[old(ctx).task.0 as int] == (Task {
                cells: final(self).tasks@[old(ctx).task.0 as int].cells,
                ..old(self).tasks@[old(ctx).task.0 as int]
            }),
            final(self).tasks@[old(ctx).task.0 as int].cells@ == old(self).tasks@[old(ctx).task.0 as int].cells@.update(
                index as int,
                (CellSlot {
                    content,
                    dependents: old(self).tasks@[old(ctx).task.0 as int].cells@[index as int].dependents,
                }),
            ),
            final(self).queue == old(self).queue,
            final(self).task_cache == old(self).task_cache,
            final(self).stopped == old(self).stopped,
            final(self).currently_scheduled_tasks == old(self).currently_scheduled_tasks,
            final(self).currently_scheduled_foreground_jobs == old(self).currently_scheduled_foreground_jobs,
            final(self).currently_scheduled_background_jobs == old(self).currently_scheduled_background_jobs,
            final(self).scheduled_tasks == old(self).scheduled_tasks,
            final(self).last_update == old(self).last_update,
            final(self).event == old(self).event,
            final(self).event_foreground == old(self).event_foreground,
            final(self).event_background == old(self).event_background,
    {
        let i = ctx.task.0;
        let ghost pre = *self;
        let n = self.tasks[i].cells[index].dependents.len();
        let mut j: usize = 0;
        while j < n
            invariant
                *self == pre,
                i == ctx.task.0,
                ctx.task == old(ctx).task,
                ctx.mappings == old(ctx).mappings,
                i < self.tasks@.len(),
                index < self.tasks@[i as int].cells@.len(),
                n == self.tasks@[i as int].cells@[index as int].dependents@.len(),
                j <= n,
                ctx.tasks_to_notify@.len() == old(ctx).tasks_to_notify@.len() + j,
                forall|q: int|
                    0 <= q < old(ctx).tasks_to_notify@.len() ==> ctx.tasks_to_notify@[q] == old(ctx).tasks_to_notify@[q],
                forall|q: int|
                    0 <= q < j ==> ctx.tasks_to_notify@[old(ctx).tasks_to_notify@.len() + q]
                        == self.tasks@[i as int].cells@[index as int].dependents@[q],
            decreases n - j,
        {
            let dep = self.tasks[i].cells[index].dependents[j];
            ctx.tasks_to_notify.push(dep);
            j = j + 1;
        }
        let t = &mut self.tasks[i];
        let slot = &mut t.cells[index];
        slot.content = content;
        proof {
            assert(self.tasks@ =~= pre.tasks@.update(i as int, self.tasks@[i as int]));
            assert(self.tasks@[i as int].cells@ =~= pre.tasks@[i as int].cells@.update(
                index as int,
                self.tasks@[i as int].cells@[index as int],
            ));
            assert(pre.task_deps_wf(pre.tasks@[i as int]));
            assert forall|c: int, q: int|
                0 <= c < self.tasks@[i as int].cells@.len() && 0 <= q < self.tasks@[i as int].cells@[c].dependents@.len()
                implies (#[trigger] self.tasks@[i as int].cells@[c].dependents@[q]).0
                < self.tasks@.len() by {
                assert((pre.tasks@[i as int].cells@[c].dependents@[q]).0 < pre.tasks@.len());
            }
            lemma_wf_update_task(pre, *self, i as int);
            assert(ctx.tasks_to_notify@ =~= old(ctx).tasks_to_notify@ + pre.tasks@[i as int].cells@[index as int].dependents@);
        }
    }
}

/// Returns the cell of the current task associated with `key` under
/// `type_id`, allocating a fresh slot the first time the key is seen.
/// Because the association is stored in the cell mappings, a re-execution
/// that asks for the same key receives the same index.
pub fn find_cell_by_key(
    tt: &mut TurboTasks,
    ctx: &mut ExecutionCtx,
    type_id: ValueTypeId,
    key: SharedValue,
) -> (r: CurrentCellRef)
    requires
        old(tt).wf(),
        old(tt).valid_task(old(ctx).task),
        old(tt).tasks@[old(ctx).task.0 as int].state is InProgress || old(tt).tasks@[old(ctx).task.0 as int].state is InProgressDirty,
        old(ctx).mappings.wf(),
    ensures
        final(tt).wf(),
        final(ctx).mappings.wf(),
        r.current_task == old(ctx).task,
        r.type_id == type_id,
        final(ctx).task == old(ctx).task,
        final(ctx).tasks_to_notify == old(ctx).tasks_to_notify,
        final(ctx).mappings.spec_has_key(type_id, key),
        final(ctx).mappings.spec_key_index(type_id, key) == r.index,
        old(ctx).mappings.spec_has_key(type_id, key) ==> {
            &&& r.index == old(ctx).mappings.spec_key_index(type_id, key)
            &&& *final(tt) == *old(tt)
            &&& *final(ctx) == *old(ctx)
        },
        !old(ctx).mappings.spec_has_key(type_id, key) ==> {
            &&& r.index == old(tt).tasks@[old(ctx).task.0 as int].cells@.len()
            &&& final(ctx).mappings.by_key@ == old(ctx).mappings.by_key@.push(
                crate::cell_mappings::KeyEntry { type_id, key, index: r.index },
            )
            &&& final(ctx).mappings.by_type == old(ctx).mappings.by_type
            &&& final(tt).tasks@[old(ctx).task.0 as int].cells@.len() == old(tt).tasks@[old(ctx).task.0 as int].cells@.len() + 1
        },
{
    match ctx.mappings.lookup_key(type_id, key) {
        Some(index) => CurrentCellRef { current_task: ctx.task, index, type_id },
        None => {
            let index = tt.get_fresh_cell(ctx.task);
            ctx.mappings.insert_key(type_id, key, index);
            CurrentCellRef { current_task: ctx.task, index, type_id }
        },
    }
}

/// Returns the next cell of the current task for `type_id`, in the
/// per-type deterministic order: the n-th request of a value type in an
/// execution maps to the n-th recorded index, so re-executions hit the
/// same slots; slots past the recorded list are allocated fresh.
pub fn find_cell_by_type(
    tt: &mut TurboTasks,
    ctx: &mut ExecutionCtx,
    type_id: ValueTypeId,
) -> (r: CurrentCellRef)
    requires
        old(tt).wf(),
        old(tt).valid_task(old(ctx).task),
        old(tt).tasks@[old(ctx).task.0 as int].state is InProgress || old(tt).tasks@[old(ctx).task.0 as int].state is InProgressDirty,
        old(ctx).mappings.wf(),
    ensures
        final(tt).wf(),
        final(ctx).mappings.wf(),
        r.current_task == old(ctx).task,
        r.type_id == type_id,
        final(ctx).task == old(ctx).task,
        final(ctx).tasks_to_notify == old(ctx).tasks_to_notify,
        final(ctx).mappings.by_key == old(ctx).mappings.by_key,
        old(ctx).mappings.spec_has_type(type_id) && old(ctx).mappings.by_type@[old(ctx).mappings.spec_type_pos(type_id)].cursor < old(ctx).mappings.by_type@[old(ctx).mappings.spec_type_pos(type_id)].indices@.len() ==> {
            let p = old(ctx).mappings.spec_type_pos(type_id);
            &&& r.index == old(ctx).mappings.by_type@[p].indices@[old(ctx).mappings.by_type@[p].cursor as int]
            &&& *final(tt) == *old(tt)
            &&& final(ctx).mappings.by_type@ == old(ctx).mappings.by_type@.update(
                p,
                (crate::cell_mappings::TypeEntry {
                    cursor: (old(ctx).mappings.by_type@[p].cursor + 1) as usize,
                    ..old(ctx).mappings.by_type@[p]
                }),
            )
        },
        !old(ctx).mappings.spec_has_type(type_id) ==> {
            &&& r.index == old(tt).tasks@[old(ctx).task.0 as int].cells@.len()
            &&& final(tt).tasks@[old(ctx).task.0 as int].cells@.len() == old(tt).tasks@[old(ctx).task.0 as int].cells@.len() + 1
        },
{
    match ctx.mappings.find_type_pos(type_id) {
        Some(p) => {
            let has_stored = ctx.mappings.by_type[p].cursor < ctx.mappings.by_type[p].indices.len();
            if has_stored {
                let e = &mut ctx.mappings.by_type[p];
                let index = e.indices[e.cursor];
                e.cursor = e.cursor + 1;
                proof {
                    assert(ctx.mappings.by_type@ =~= old(ctx).mappings.by_type@.update(
                        p as int,
                        ctx.mappings.by_type@[p as int],
                    ));
                    assert forall|a: int, b: int|
                        0 <= a < b < ctx.mappings.by_type@.len() implies (
                        #[trigger] ctx.mappings.by_type@[a]).type_id != (
                        #[trigger] ctx.mappings.by_type@[b]).type_id by {
                        assert(old(ctx).mappings.by_type@[a].type_id != old(ctx).mappings.by_type@[b].type_id);
                    }
                }
                CurrentCellRef { current_task: ctx.task, index, type_id }
            } else {
                let index = tt.get_fresh_cell(ctx.task);
                let e = &mut ctx.mappings.by_type[p];
                e.indices.push(index);
                proof {
                    vstd::std_specs::vec::axiom_spec_len(&e.indices);
                }
                e.cursor = e.cursor + 1;
                proof {
                    assert(ctx.mappings.by_type@ =~= old(ctx).mappings.by_type@.update(
                        p as int,
                        ctx.mappings.by_type@[p as int],
                    ));
                    assert forall|a: int, b: int|
                        0 <= a < b < ctx.mappings.by_type@.len() implies (
                        #[trigger] ctx.mappings.by_type@[a]).type_id != (
                        #[trigger] ctx.mappings.by_type@[b]).type_id by {
                        assert(old(ctx).mappings.by_type@[a].type_id != old(ctx).mappings.by_type@[b].type_id);
                    }
                }
                CurrentCellRef { current_task: ctx.task, index, type_id }
            }
        },
        None => {
            let index = tt.get_fresh_cell(ctx.task);
            let mut indices: Vec<usize> = Vec::new();
            indices.push(index);
            ctx.mappings.by_type.push(
                crate::cell_mappings::TypeEntry { type_id, cursor: 1, indices },
            );
            proof {
                assert forall|a: int, b: int|
                    0 <= a < b < ctx.mappings.by_type@.len() implies (
                    #[trigger] ctx.mappings.by_type@[a]).type_id != (
                    #[trigger] ctx.mappings.by_type@[b]).type_id by {
                    if b < ctx.mappings.by_type@.len() - 1 {
                        assert(old(ctx).mappings.by_type@[a].type_id != old(ctx).mappings.by_type@[b].type_id);
                    } else {
                        assert(old(ctx).mappings.by_type@[a].type_id != type_id);
                    }
                }
            }
            CurrentCellRef { current_task: ctx.task, index, type_id }
        },
    }
}

impl CurrentCellRef {
    /// Replaces the cell's snapshot with a fresh shared value carrying
    /// the cell's value-type tag, and collects the cell's readers for
    /// notification.
    pub fn update_shared(&self, tt: &mut TurboTasks, ctx: &mut ExecutionCtx, data: u64)
        requires
            old(tt).wf(),
            old(tt).valid_task(old(ctx).task),
            old(tt).tasks@[old(ctx).task.0 as int].state is InProgress || old(tt).tasks@[old(ctx).task.0 as int].state is InProgressDirty,
            self.current_task == old(ctx).task,
            self.index < old(tt).tasks@[old(ctx).task.0 as int].cells@.len(),
        ensures
            final(tt).wf(),
            final(ctx).task == old(ctx).task,
            final(ctx).mappings == old(ctx).mappings,
            final(ctx).tasks_to_notify@ == old(ctx).tasks_to_notify@ + old(tt).tasks@[old(ctx).task.0 as int].cells@[self.index as int].dependents@,
            final(tt).tasks@[old(ctx).task.0 as int].cells@[self.index as int].content
                == CellContent(
                Some(SharedValue { type_id: Some(self.type_id), data }),
            ),
            final(tt).tasks@.len() == old(tt).tasks@.len(),
            forall|k: int|
                0 <= k < old(tt).tasks@.len() && k != old(ctx).task.0 ==> final(tt).tasks@[k]
                    == old(tt).tasks@[k],
    {
        tt.update_current_task_cell(
            ctx,
            self.index,
            CellContent(Some(SharedValue { type_id: Some(self.type_id), data })),
        );
    }

    /// Applies a pre-computed conditional update: `None` leaves the cell
    /// — and the whole engine — untouched, `Some` replaces the snapshot.
    pub fn conditional_update_shared(
        &self,
        tt: &mut TurboTasks,
        ctx: &mut ExecutionCtx,
        update: Option<u64>,
    )
        requires
            old(tt).wf(),
            old(tt).valid_task(old(ctx).task),
            old(tt).tasks@[old(ctx).task.0 as int].state is InProgress || old(tt).tasks@[old(ctx).task.0 as int].state is InProgressDirty,
            self.current_task == old(ctx).task,
            self.index < old(tt).tasks@[old(ctx).task.0 as int].cells@.len(),
        ensures
            final(tt).wf(),
            final(ctx).task == old(ctx).task,
            final(ctx).mappings == old(ctx).mappings,
            update is None ==> *final(tt) == *old(tt) && *final(ctx) == *old(ctx),
            match update {
                Some(data) => {
                    &&& final(tt).tasks@[old(ctx).task.0 as int].cells@[self.index as int].content
                        == CellContent(
                        Some(SharedValue { type_id: Some(self.type_id), data }),
                    )
                    &&& final(ctx).tasks_to_notify@ == old(ctx).tasks_to_notify@ + old(tt).tasks@[old(ctx).task.0 as int].cells@[self.index as int].dependents@
                },
                None => true,
            },
    {
        match update {
            Some(data) => self.update_shared(tt, ctx, data),
            None => {},
        }
    }

    /// Replaces the snapshot only when the new value differs from the
    /// current one by value equality. An equal value changes nothing and
    /// notifies nobody: this is the equality channel that lets
    /// memoization short-circuit downstream re-execution.
    pub fn compare_and_update_shared(&self, tt: &mut TurboTasks, ctx: &mut ExecutionCtx, data: u64)
        requires
            old(tt).wf(),
            old(tt).valid_task(old(ctx).task),
            old(tt).tasks@[old(ctx).task.0 as int].state is InProgress || old(tt).tasks@[old(ctx).task.0 as int].state is InProgressDirty,
            self.current_task == old(ctx).task,
            self.index < old(tt).tasks@[old(ctx).task.0 as int].cells@.len(),
        ensures
            final(tt).wf(),
            final(ctx).task == old(ctx).task,
            final(ctx).mappings == old(ctx).mappings,
            old(tt).tasks@[old(ctx).task.0 as int].cells@[self.index as int].content
                == CellContent(Some(SharedValue { type_id: Some(self.type_id), data })) ==> *final(tt) == *old(tt) && *final(ctx) == *old(ctx),
            old(tt).tasks@[old(ctx).task.0 as int].cells@[self.index as int].content
                != CellContent(Some(SharedValue { type_id: Some(self.type_id), data })) ==> {
                &&& final(tt).tasks@[old(ctx).task.0 as int].cells@[self.index as int].content
                    == CellContent(
                    Some(SharedValue { type_id: Some(self.type_id), data }),
                )
                &&& final(ctx).tasks_to_notify@ == old(ctx).tasks_to_notify@ + old(tt).tasks@[old(ctx).task.0 as int].cells@[self.index as int].dependents@
            },
    {
        let current = tt.read_current_task_cell(ctx, self.index);
        let candidate = CellContent(Some(SharedValue { type_id: Some(self.type_id), data }));
        if current.eq_content(&candidate) {
        } else {
            self.update_shared(tt, ctx, data);
        }
    }
}

/// An external trigger that marks its task dirty from outside any task
/// execution. It serializes as a newtype around the task id.
#[derive(Clone, Copy, PartialEq, Eq, Structural, Debug)]
pub struct Invalidator {
    pub task: TaskId,
}

impl Invalidator {
    /// Marks the task dirty; the engine decides whether and when to
    /// re-schedule it.
    pub fn invalidate(self, tt: &mut TurboTasks)
        requires
            old(tt).wf(),
            old(tt).has_headroom(),
            old(tt).valid_task(self.task),
        ensures
            final(tt).wf(),
            final(tt).tasks@.len() == old(tt).tasks@.len(),
            old(tt).stopped ==> *final(tt) == *old(tt),
            old(tt).tasks@[self.task.0 as int].kind is Once ==> *final(tt) == *old(tt),
            !old(tt).stopped && !(old(tt).tasks@[self.task.0 as int].kind is Once)
                ==> pending_reexecution(final(tt).tasks@[self.task.0 as int]),
            forall|k: int|
                0 <= k < old(tt).tasks@.len() && k != self.task.0 ==> final(tt).tasks@[k] == old(tt).tasks@[k],
            forall|k: int|
                0 <= k < old(tt).tasks@.len() ==> same_task_except_state(
                    #[trigger] final(tt).tasks@[k],
                    old(tt).tasks@[k],
                ),
    {
        tt.invalidate_task(self.task);
    }

    /// Compact newtype-integer form of the invalidator.
    pub fn encode(&self) -> (r: usize)
        ensures
            r == self.task.0,
    {
        self.task.0
    }

    /// Decodes the integer form. Binding to a live engine and runtime is
    /// the embedder's part: a detached invalidator is never constructed
    /// from thin air beyond its task identity.
    pub fn decode(code: usize) -> (r: Invalidator)
        ensures
            r == Self::spec_decode(code),
    {
        Invalidator { task: TaskId(code) }
    }

    /// The encoded form, at the specification level.
    pub open spec fn spec_encode(self) -> usize {
        self.task.0
    }

    /// The decoded form, at the specification level.
    pub open spec fn spec_decode(code: usize) -> Invalidator {
        Invalidator { task: TaskId(code) }
    }
}

/// Invalidators survive round-trip serialization: decoding an encoded
/// invalidator yields an equivalent trigger.
pub proof fn lemma_invalidator_roundtrip(inv: Invalidator)
    ensures
        Invalidator::spec_decode(inv.spec_encode()) == inv,
{
}

/// The id of the currently executing task: with an explicit execution
/// context there is no ambient lookup that could fail.
pub fn current_task(ctx: &ExecutionCtx) -> (r: TaskId)
    ensures
        r == ctx.task,
{
    ctx.task
}

/// An invalidator for the current task, to be triggered by external
/// events.
pub fn get_invalidator(ctx: &ExecutionCtx) -> (r: Invalidator)
    ensures
        r == (Invalidator { task: ctx.task }),
{
    Invalidator { task: ctx.task }
}

/// See [`TurboTasks::dynamic_call`].
pub fn dynamic_call(tt: &mut TurboTasks, func: FunctionId, inputs: Vec<TaskInput>) -> (r: RawVc)
    requires
        old(tt).wf(),
        old(tt).has_headroom(),
    ensures
        final(tt).wf(),
        r is TaskOutput,
        spec_all_resolved(inputs@) ==> interned(
            *old(tt),
            *final(tt),
            PersistentTaskType::Native(func, inputs),
            r->TaskOutput_0,
        ),
        !spec_all_resolved(inputs@) ==> interned(
            *old(tt),
            *final(tt),
            PersistentTaskType::ResolveNative(func, inputs),
            r->TaskOutput_0,
        ),
{
    tt.dynamic_call(func, inputs)
}

/// See [`TurboTasks::trait_call`].
pub fn trait_call(
    tt: &mut TurboTasks,
    trait_type: TraitTypeId,
    trait_fn_name: String,
    inputs: Vec<TaskInput>,
) -> (r: RawVc)
    requires
        old(tt).wf(),
        old(tt).has_headroom(),
    ensures
        final(tt).wf(),
        r is TaskOutput,
        interned(
            *old(tt),
            *final(tt),
            PersistentTaskType::ResolveTrait(trait_type, trait_fn_name, inputs),
            r->TaskOutput_0,
        ),
{
    tt.trait_call(trait_type, trait_fn_name, inputs)
}

impl TurboTasks {
    /// Non-blocking probe of foreground quiescence that hands a waiter
    /// back on failure: the embedder awaits the listener and probes
    /// again. Success is exactly a zero foreground counter.
    pub fn try_foreground_done(&self) -> (r: Result<(), event_listener::EventListener>)
        ensures
            r is Ok <==> self.currently_scheduled_tasks == 0,
    {
        if self.currently_scheduled_tasks == 0 {
            return Ok(());
        }
        Err(self.event.listen())
    }

    /// A waiter on foreground quiescence (the `wait_done` family).
    pub fn listen_done(&self) -> event_listener::EventListener {
        self.event.listen()
    }

    /// A waiter on the foreground-job counter reaching zero.
    pub fn listen_foreground_done(&self) -> event_listener::EventListener {
        self.event_foreground.listen()
    }

    /// A waiter on background quiescence.
    pub fn listen_background_done(&self) -> event_listener::EventListener {
        self.event_background.listen()
    }
}

/// A positive active count names an active task.
pub proof fn lemma_count_active_nonzero_member(s: Seq<Task>)
    requires
        count_active(s) > 0,
    ensures
        exists|i: int| 0 <= i < s.len() && task_active(#[trigger] s[i]),
    decreases s.len(),
{
    if s.len() > 0 {
        if task_active(s.last()) {
            assert(task_active(s[s.len() - 1]));
        } else {
            lemma_count_active_nonzero_member(s.drop_last());
            let i = choose|i: int| 0 <= i < s.drop_last().len() && task_active(
                #[trigger] s.drop_last()[i],
            );
            assert(task_active(s[i]));
        }
    }
}

/// No wakeup deadlock. While the engine is not stopped, outstanding
/// foreground task work (a counter above the foreground-job share) with
/// no execution in flight means the run queue is non-empty: the host's
/// drive loop always has a task to start. Together with the commit
/// guarantee — the completion that brings the counter to zero bumps the
/// done-event generation and records the scheduled count (see
/// [`TurboTasks::task_execution_completed`]) — every `wait_done` waiter
/// is woken once all task bodies, each finite, have been driven.
pub proof fn lemma_scheduled_work_is_startable(tt: TurboTasks)
    requires
        tt.wf(),
        tt.currently_scheduled_tasks > tt.currently_scheduled_foreground_jobs,
        forall|k: int|
            0 <= k < tt.tasks@.len() ==> !((#[trigger] tt.tasks@[k]).state is InProgress) && !(
            tt.tasks@[k].state is InProgressDirty),
    ensures
        tt.queue@.len() > 0,
{
    assert(count_active(tt.tasks@) > 0);
    lemma_count_active_nonzero_member(tt.tasks@);
    let i = choose|i: int| 0 <= i < tt.tasks@.len() && task_active(#[trigger] tt.tasks@[i]);
    assert(tt.tasks@[i].state is Scheduled);
    assert(tt.queue@.contains(TaskId(i as usize)));
}

/// Re-executions re-find keyed cells: the key table survives between
/// iterations unchanged, so a key recorded by one execution maps to the
/// same cell index in every later execution (the keyed half of
/// deterministic cell allocation; see [`find_cell_by_key`]).
pub proof fn lemma_reexecution_preserves_keyed_cells(
    m: CellMappings,
    r: CellMappings,
    t: ValueTypeId,
    k: SharedValue,
)
    requires
        r.by_key == m.by_key,
    ensures
        r.spec_has_key(t, k) == m.spec_has_key(t, k),
        m.spec_has_key(t, k) ==> r.spec_key_index(t, k) == m.spec_key_index(t, k),
{
}

/// Re-executions re-find typed cells: resetting the cursors keeps every
/// per-type index list, so the n-th request of a value type in the new
/// execution receives the n-th index recorded by the old one (the typed
/// half of deterministic cell allocation; see [`find_cell_by_type`] and
/// [`CellMappings::reset_cursors`]).
pub proof fn lemma_reexecution_preserves_typed_cells(m: CellMappings, r: CellMappings, t: ValueTypeId)
    requires
        m.wf(),
        r.wf(),
        r.by_type@.len() == m.by_type@.len(),
        forall|p: int|
            0 <= p < r.by_type@.len() ==> (#[trigger] r.by_type@[p]).type_id
                == m.by_type@[p].type_id && r.by_type@[p].indices == m.by_type@[p].indices
                && r.by_type@[p].cursor == 0,
        m.spec_has_type(t),
    ensures
        r.spec_has_type(t),
        r.spec_type_pos(t) == m.spec_type_pos(t),
        r.by_type@[r.spec_type_pos(t)].indices == m.by_type@[m.spec_type_pos(t)].indices,
        r.by_type@[r.spec_type_pos(t)].cursor == 0,
{
    let pm = m.spec_type_pos(t);
    assert(0 <= pm < m.by_type@.len() && m.by_type@[pm].type_id == t);
    assert(r.by_type@[pm].type_id == t);
    assert(r.spec_has_type(t));
    let pr = r.spec_type_pos(t);
    assert(0 <= pr < r.by_type@.len() && r.by_type@[pr].type_id == t);
    if pr != pm {
        assert(m.by_type@[pr].type_id == t);
        if pr < pm {
            assert(m.by_type@[pr].type_id != m.by_type@[pm].type_id);
        } else {
            assert(m.by_type@[pm].type_id != m.by_type@[pr].type_id);
        }
        assert(false);
    }
}

/// The public call surface, as a trait over the engine: issuing native,
/// dynamic and trait calls, and spawning a task that runs once.
pub trait TurboTasksCallApi {
    /// The callee's internal bookkeeping is consistent.
    spec fn ok(&self) -> bool;

    /// There is room to intern and schedule one more task.
    spec fn can_call(&self) -> bool;

    fn dynamic_call(&mut self, func: FunctionId, inputs: Vec<TaskInput>) -> (r: RawVc)
        requires
            old(self).ok(),
            old(self).can_call(),
        ensures
            final(self).ok(),
            r is TaskOutput,
    ;

    fn native_call(&mut self, func: FunctionId, inputs: Vec<TaskInput>) -> (r: RawVc)
        requires
            old(self).ok(),
            old(self).can_call(),
            spec_all_resolved(inputs@),
        ensures
            final(self).ok(),
            r is TaskOutput,
    ;

    fn trait_call(
        &mut self,
        trait_type: TraitTypeId,
        trait_fn_name: String,
        inputs: Vec<TaskInput>,
    ) -> (r: RawVc)
        requires
            old(self).ok(),
            old(self).can_call(),
        ensures
            final(self).ok(),
            r is TaskOutput,
    ;

    fn run_once(&mut self) -> (r: TaskId)
        requires
            old(self).ok(),
            old(self).can_call(),
        ensures
            final(self).ok(),
    ;
}

impl TurboTasksCallApi for TurboTasks {
    open spec fn ok(&self) -> bool {
        self.wf()
    }

    open spec fn can_call(&self) -> bool {
        self.has_headroom()
    }

    fn dynamic_call(&mut self, func: FunctionId, inputs: Vec<TaskInput>) -> (r: RawVc) {
        TurboTasks::dynamic_call(self, func, inputs)
    }

    fn native_call(&mut self, func: FunctionId, inputs: Vec<TaskInput>) -> (r: RawVc) {
        TurboTasks::native_call(self, func, inputs)
    }

    fn trait_call(
        &mut self,
        trait_type: TraitTypeId,
        trait_fn_name: String,
        inputs: Vec<TaskInput>,
    ) -> (r: RawVc) {
        TurboTasks::trait_call(self, trait_type, trait_fn_name, inputs)
    }

    fn run_once(&mut self) -> (r: TaskId) {
        self.spawn_once_task()
    }
}

/// Liveness of invalidation, from collection to commit. A reader recorded
/// as dependent of an updated cell is collected into the execution's
/// notification set (see [`TurboTasks::update_current_task_cell`]); the
/// commit then leaves every collected reader scheduled or marked for
/// re-execution (see [`TurboTasks::task_execution_completed`]), with the
/// two exceptions those contracts name: once tasks never re-execute, and
/// a stopping engine drops the work.
pub proof fn lemma_cell_invalidation_liveness(
    pre: TurboTasks,
    ctx: ExecutionCtx,
    post: TurboTasks,
    reader: TaskId,
)
    requires
        ctx.tasks_to_notify@.contains(reader),
        reader.0 < pre.tasks@.len(),
        !pre.stopped,
        !(pre.tasks@[reader.0 as int].kind is Once),
        reader.0 != ctx.task.0,
        forall|i: int|
            0 <= i < ctx.tasks_to_notify@.len() && !(pre.tasks@[(
            #[trigger] ctx.tasks_to_notify@[i]).0 as int].kind is Once)
                && ctx.tasks_to_notify@[i].0 != ctx.task.0 ==> pending_reexecution(
                post.tasks@[ctx.tasks_to_notify@[i].0 as int],
            ),
    ensures
        pending_reexecution(post.tasks@[reader.0 as int]),
{
    let i = choose|i: int|
        0 <= i < ctx.tasks_to_notify@.len() && ctx.tasks_to_notify@[i] == reader;
    assert(pending_reexecution(post.tasks@[ctx.tasks_to_notify@[i].0 as int]));
}

/// Efficiency of the equality channel. When a cell is updated to a value
/// equal to its prior snapshot, [`CurrentCellRef::compare_and_update_shared`]
/// leaves engine and context untouched, so no reader is notified, nothing
/// new is scheduled, and no task's execution count changes.
pub proof fn lemma_equal_update_is_silent(pre: TurboTasks, post: TurboTasks)
    requires
        post == pre,
    ensures
        post.queue == pre.queue,
        post.currently_scheduled_tasks == pre.currently_scheduled_tasks,
        forall|k: int|
            0 <= k < pre.tasks@.len() ==> (#[trigger] post.tasks@[k]).executions
                == pre.tasks@[k].executions && post.tasks@[k].state == pre.tasks@[k].state,
{
}

impl TurboTasks {
    /// Eagerly drains the execution's pending-notification buffer: the
    /// collected readers are invalidated now rather than at commit. This
    /// is the early of the two drain points; committing drains whatever
    /// remains.
    pub fn notify_scheduled_tasks(&mut self, ctx: &mut ExecutionCtx)
        requires
            old(self).wf(),
            old(self).has_headroom(),
            forall|i: int|
                0 <= i < old(ctx).tasks_to_notify@.len() ==> (#[trigger] old(
                    ctx,
                ).tasks_to_notify@[i]).0 < old(self).tasks@.len(),
        ensures
            final(self).wf(),
            final(ctx).task == old(ctx).task,
            final(ctx).mappings == old(ctx).mappings,
            final(ctx).tasks_to_notify@.len() == 0,
            final(self).tasks@.len() == old(self).tasks@.len(),
            final(self).stopped == old(self).stopped,
            forall|k: int|
                0 <= k < old(self).tasks@.len() ==> same_task_except_state(
                    #[trigger] final(self).tasks@[k],
                    old(self).tasks@[k],
                ),
            !old(self).stopped ==> forall|i: int|
                0 <= i < old(ctx).tasks_to_notify@.len() && !(old(self).tasks@[(#[trigger] old(
                    ctx,
                ).tasks_to_notify@[i]).0 as int].kind is Once) ==> pending_reexecution(
                    final(self).tasks@[old(ctx).tasks_to_notify@[i].0 as int],
                ),
    {
        let mut pending: Vec<TaskId> = Vec::new();
        core::mem::swap(&mut pending, &mut ctx.tasks_to_notify);
        self.invalidate_tasks(&pending);
    }
}

/// The memoization cache answers structurally equal task types alike:
/// a lookup cannot tell two structurally equal types apart.
pub proof fn lemma_cache_find_respects_eq(
    tasks: Seq<Task>,
    cache: Seq<TaskId>,
    ty1: PersistentTaskType,
    ty2: PersistentTaskType,
)
    requires
        ty1.spec_eq(ty2),
    ensures
        cache_find_in(tasks, cache, ty1) == cache_find_in(tasks, cache, ty2),
    decreases cache.len(),
{
    if cache.len() > 0 {
        if cache[0].0 < tasks.len() && tasks[cache[0].0 as int].kind is Persistent {
            let stored = tasks[cache[0].0 as int].kind->Persistent_0;
            if stored.spec_eq(ty1) {
                crate::task_input::lemma_type_eq_transitive(stored, ty1, ty2);
            }
            if stored.spec_eq(ty2) {
                crate::task_input::lemma_type_eq_symmetric(ty1, ty2);
                crate::task_input::lemma_type_eq_transitive(stored, ty2, ty1);
            }
        }
        lemma_cache_find_respects_eq(tasks, cache.drop_first(), ty1, ty2);
    }
}

/// Memoization over structural equality: calls of two structurally equal
/// task types share one task. After the first call cached its type, the
/// second call — even with a separately built, structurally equal type —
/// returns the same task and changes nothing.
pub proof fn lemma_structurally_equal_calls_share_task(
    pre: TurboTasks,
    mid: TurboTasks,
    post: TurboTasks,
    ty1: PersistentTaskType,
    ty2: PersistentTaskType,
    r1: TaskId,
    r2: TaskId,
)
    requires
        ty1.spec_eq(ty2),
        interned(pre, mid, ty1, r1),
        interned(mid, post, ty2, r2),
    ensures
        r2 == r1,
        post == mid,
{
    lemma_cache_find_respects_eq(mid.tasks@, mid.task_cache@, ty1, ty2);
}

} // verus!
