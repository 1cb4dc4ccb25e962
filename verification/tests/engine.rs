use turbo_tasks::id::{FunctionId, TaskId, ValueTypeId};
use turbo_tasks::manager::{
    find_cell_by_key, find_cell_by_type, get_invalidator, EngineError, ExecutionCtx, Invalidator,
    TaskState, TryRead, TurboTasks,
};
use turbo_tasks::raw_vc::RawVc;
use turbo_tasks::task_input::{CellContent, SharedValue, TaskInput};

/// Runs the body of one execution: reads the `source` cell of `producer`
/// (when given) or takes `seed`, adds one, and writes the sum into this
/// task's cell by type. Returns the committed output handle.
fn run_add_one_body(
    tt: &mut TurboTasks,
    ctx: &mut ExecutionCtx,
    producer: Option<TaskId>,
    seed: u64,
) -> Result<RawVc, EngineError> {
    let input = match producer {
        Some(p) => {
            match tt.try_read_task_cell(p, 0, ctx.task).unwrap() {
                TryRead::Ready(CellContent(Some(sv))) => sv.data,
                _ => panic!("producer cell not ready"),
            }
        }
        None => seed,
    };
    let cell = find_cell_by_type(tt, ctx, ValueTypeId(1));
    cell.compare_and_update_shared(tt, ctx, input + 1);
    Ok(RawVc::TaskCell(cell.current_task, cell.index))
}

/// Drives the engine until the queue drains. `sources` gives, per task id,
/// the producer task and the seed for tasks without a producer.
fn drive(tt: &mut TurboTasks, chain: &[(TaskId, Option<TaskId>, u64)]) -> usize {
    let mut executions = 0;
    while let Some(mut ctx) = tt.start_next_execution() {
        executions += 1;
        let (_, producer, seed) = chain
            .iter()
            .find(|entry| entry.0 == ctx.task)
            .copied()
            .expect("unknown task started");
        let result = run_add_one_body(tt, &mut ctx, producer, seed);
        tt.task_execution_completed(ctx, result);
    }
    executions
}

fn cell_value(tt: &TurboTasks, task: TaskId) -> u64 {
    match tt.try_read_task_cell_untracked(task, 0).unwrap() {
        TryRead::Ready(CellContent(Some(sv))) => sv.data,
        _ => panic!("cell not ready"),
    }
}

#[test]
fn memoization_two_calls_one_execution() {
    let mut tt = TurboTasks::new();
    let f = FunctionId(7);
    let vc1 = tt.dynamic_call(f, vec![TaskInput::Literal(2)]);
    let vc2 = tt.dynamic_call(f, vec![TaskInput::Literal(2)]);
    let t1 = vc1.get_task_id();
    let t2 = vc2.get_task_id();
    assert_eq!(t1, t2);

    let chain = [(t1, None, 2u64)];
    let executions = drive(&mut tt, &chain);
    assert_eq!(executions, 1);
    assert_eq!(tt.tasks[t1.0].executions, 1);

    // both callers observe 3 through the shared task
    match tt.try_read_task_output_untracked(t1, false).unwrap() {
        TryRead::Ready(RawVc::TaskCell(owner, index)) => {
            assert_eq!(owner, t1);
            assert_eq!(index, 0);
        }
        other => panic!("unexpected output {:?}", other),
    }
    assert_eq!(cell_value(&tt, t1), 3);
    assert_eq!(cell_value(&tt, t2), 3);
}

#[test]
fn memoization_distinct_inputs_distinct_tasks() {
    let mut tt = TurboTasks::new();
    let f = FunctionId(7);
    let vc1 = tt.dynamic_call(f, vec![TaskInput::Literal(2)]);
    let vc2 = tt.dynamic_call(f, vec![TaskInput::Literal(3)]);
    assert_ne!(vc1.get_task_id(), vc2.get_task_id());
}

/// Builds the chain a -> b -> c (each later task reads the previous task's
/// cell) and drives it to quiescence. Returns (a, b, c).
fn build_chain(tt: &mut TurboTasks, seed: u64) -> (TaskId, TaskId, TaskId) {
    // spawn in reverse so the LIFO queue runs a, then b, then c
    let c = tt.spawn_root_task();
    let b = tt.spawn_root_task();
    let a = tt.spawn_root_task();
    let chain = [(a, None, seed), (b, Some(a), 0u64), (c, Some(b), 0u64)];
    let executions = drive(tt, &chain);
    assert_eq!(executions, 3);
    (a, b, c)
}

#[test]
fn transitive_invalidation_reexecutes_chain() {
    let mut tt = TurboTasks::new();
    let (a, b, c) = build_chain(&mut tt, 10);
    assert_eq!(cell_value(&tt, c), 13);

    // the external source changes and a is invalidated
    tt.invalidate_task(a);
    let chain = [(a, None, 20u64), (b, Some(a), 0u64), (c, Some(b), 0u64)];
    let executions = drive(&mut tt, &chain);
    // a re-ran with a new value, so b and c each re-ran exactly once
    assert_eq!(executions, 3);
    assert_eq!(tt.tasks[c.0].executions, 2);
    assert_eq!(cell_value(&tt, c), 23);
}

#[test]
fn equality_short_circuit_stops_propagation() {
    let mut tt = TurboTasks::new();
    let (a, b, c) = build_chain(&mut tt, 10);

    // a is invalidated but produces the same value: compare_and_update
    // fires no notification, so b and c do not re-execute
    tt.invalidate_task(a);
    let chain = [(a, None, 10u64), (b, Some(a), 0u64), (c, Some(b), 0u64)];
    let executions = drive(&mut tt, &chain);
    assert_eq!(executions, 1);
    assert_eq!(tt.tasks[a.0].executions, 2);
    assert_eq!(tt.tasks[b.0].executions, 1);
    assert_eq!(tt.tasks[c.0].executions, 1);
    assert_eq!(cell_value(&tt, c), 13);
}

#[test]
fn root_task_with_external_invalidator() {
    let mut tt = TurboTasks::new();
    let root = tt.spawn_root_task();
    let mut invalidator: Option<Invalidator> = None;

    // first run; the body registers an invalidator for external events
    while let Some(mut ctx) = tt.start_next_execution() {
        invalidator = Some(get_invalidator(&ctx));
        let result = run_add_one_body(&mut tt, &mut ctx, None, 1);
        tt.task_execution_completed(ctx, result);
    }
    assert_eq!(tt.tasks[root.0].executions, 1);

    // n timer ticks, each triggering the invalidator
    let n = 4;
    let mut scheduled_total = 0;
    for _ in 0..n {
        let inv = invalidator.take().expect("invalidator registered");
        inv.invalidate(&mut tt);
        while let Some(mut ctx) = tt.start_next_execution() {
            invalidator = Some(get_invalidator(&ctx));
            let result = run_add_one_body(&mut tt, &mut ctx, None, 1);
            tt.task_execution_completed(ctx, result);
        }
        scheduled_total += tt.try_done().expect("quiescent") as usize;
    }
    assert_eq!(tt.tasks[root.0].executions, (n + 1) as u64);
    assert!(scheduled_total >= n);
}

#[test]
fn once_task_runs_exactly_once() {
    let mut tt = TurboTasks::new();
    let once = tt.spawn_once_task();

    let mut ran = 0;
    while let Some(mut ctx) = tt.start_next_execution() {
        ran += 1;
        let cell = find_cell_by_type(&mut tt, &mut ctx, ValueTypeId(1));
        cell.update_shared(&mut tt, &mut ctx, 42);
        let out = RawVc::TaskCell(cell.current_task, cell.index);
        tt.task_execution_completed(ctx, Ok(out));
    }
    assert_eq!(ran, 1);
    assert_eq!(cell_value(&tt, once), 42);

    // invalidating a once task is a no-op: it never re-executes
    tt.invalidate_task(once);
    assert!(tt.start_next_execution().is_none());
    assert_eq!(tt.tasks[once.0].executions, 1);
    assert!(matches!(tt.tasks[once.0].state, TaskState::Done));
}

#[test]
fn stop_drains_scheduled_work() {
    let mut tt = TurboTasks::new();

    // one execution is already in flight when the stop arrives
    let running = tt.spawn_root_task();
    let ctx = tt.start_next_execution().expect("task to run");
    assert_eq!(ctx.task, running);

    let mut scheduled = Vec::new();
    for _ in 0..100 {
        scheduled.push(tt.spawn_root_task());
    }
    tt.begin_background_job();

    tt.stop();

    // the in-flight iteration finishes
    tt.task_execution_completed(ctx, Ok(RawVc::TaskOutput(running)));
    assert_eq!(tt.tasks[running.0].executions, 1);

    // no new iterations start; the queue drains completely
    assert!(tt.start_next_execution().is_none());
    for t in &scheduled {
        assert_eq!(tt.tasks[t.0].executions, 0);
    }
    assert_eq!(tt.currently_scheduled_tasks, 0);
    assert!(tt.try_foreground_done().is_ok());

    // background work finishes and background-done waiters return
    assert!(!tt.background_job_may_run());
    tt.finish_background_job();
    assert!(tt.background_is_done());
}

#[test]
fn strongly_consistent_read_waits_for_recommit() {
    let mut tt = TurboTasks::new();
    let (a, _b, _c) = build_chain(&mut tt, 10);

    // committed invalidation for a: a strongly consistent read pends
    tt.invalidate_task(a);
    match tt.try_read_task_output_untracked(a, true).unwrap() {
        TryRead::Pending => {}
        other => panic!("stale read {:?}", other),
    }

    // after the recommit the read observes the fresh output
    let chain = [(a, None, 10u64), (_b, Some(a), 0u64), (_c, Some(_b), 0u64)];
    drive(&mut tt, &chain);
    match tt.try_read_task_output_untracked(a, true).unwrap() {
        TryRead::Ready(RawVc::TaskCell(owner, 0)) => assert_eq!(owner, a),
        other => panic!("unexpected {:?}", other),
    }
}

#[test]
fn failed_body_surfaces_to_readers() {
    let mut tt = TurboTasks::new();
    let t = tt.spawn_once_task();
    let ctx = tt.start_next_execution().expect("task to run");
    tt.task_execution_completed(ctx, Err(EngineError::TaskFailed));
    match tt.try_read_task_output_untracked(t, false) {
        Err(EngineError::TaskFailed) => {}
        other => panic!("unexpected {:?}", other),
    }
}

#[test]
fn cell_indices_stable_across_reexecution() {
    let mut tt = TurboTasks::new();
    let root = tt.spawn_root_task();
    let key = SharedValue { type_id: Some(ValueTypeId(1)), data: 77 };

    let mut first_indices = Vec::new();
    while let Some(mut ctx) = tt.start_next_execution() {
        let by_key = find_cell_by_key(&mut tt, &mut ctx, ValueTypeId(1), key);
        let one = find_cell_by_type(&mut tt, &mut ctx, ValueTypeId(1));
        let two = find_cell_by_type(&mut tt, &mut ctx, ValueTypeId(1));
        first_indices = vec![by_key.index, one.index, two.index];
        one.update_shared(&mut tt, &mut ctx, 5);
        let out = RawVc::TaskCell(one.current_task, one.index);
        tt.task_execution_completed(ctx, Ok(out));
    }
    assert_eq!(first_indices.len(), 3);
    assert_ne!(first_indices[1], first_indices[2]);

    tt.invalidate_task(root);
    let mut second_indices = Vec::new();
    while let Some(mut ctx) = tt.start_next_execution() {
        let by_key = find_cell_by_key(&mut tt, &mut ctx, ValueTypeId(1), key);
        let one = find_cell_by_type(&mut tt, &mut ctx, ValueTypeId(1));
        let two = find_cell_by_type(&mut tt, &mut ctx, ValueTypeId(1));
        second_indices = vec![by_key.index, one.index, two.index];
        one.update_shared(&mut tt, &mut ctx, 5);
        let out = RawVc::TaskCell(one.current_task, one.index);
        tt.task_execution_completed(ctx, Ok(out));
    }
    assert_eq!(first_indices, second_indices);
    assert_eq!(tt.tasks[root.0].cells.len(), 3);
}

#[test]
fn conditional_update_applies_only_some() {
    let mut tt = TurboTasks::new();
    tt.spawn_once_task();
    let mut ctx = tt.start_next_execution().expect("task to run");
    let cell = find_cell_by_type(&mut tt, &mut ctx, ValueTypeId(1));
    cell.conditional_update_shared(&mut tt, &mut ctx, None);
    assert!(matches!(
        tt.read_current_task_cell(&ctx, cell.index),
        CellContent(None)
    ));
    cell.conditional_update_shared(&mut tt, &mut ctx, Some(9));
    match tt.read_current_task_cell(&ctx, cell.index) {
        CellContent(Some(sv)) => assert_eq!(sv.data, 9),
        CellContent(None) => panic!("cell not updated"),
    }
    let out = RawVc::TaskCell(cell.current_task, cell.index);
    tt.task_execution_completed(ctx, Ok(out));
}

#[test]
fn foreground_jobs_gate_quiescence() {
    let mut tt = TurboTasks::new();
    assert!(tt.try_foreground_done().is_ok());
    tt.begin_foreground_job();
    assert!(tt.try_foreground_done().is_err());
    assert!(tt.try_done().is_none());
    tt.finish_foreground_job();
    assert!(tt.try_foreground_done().is_ok());
    assert_eq!(tt.try_done(), Some(0));
    assert!(tt.foreground_is_done());
}

#[test]
fn current_task_reports_execution_context() {
    let mut tt = TurboTasks::new();
    let t = tt.spawn_once_task();
    let ctx = tt.start_next_execution().expect("task to run");
    assert_eq!(turbo_tasks::manager::current_task(&ctx), t);
    tt.task_execution_completed(ctx, Ok(RawVc::TaskOutput(t)));
}

#[test]
fn free_call_surface_delegates() {
    let mut tt = TurboTasks::new();
    let vc = turbo_tasks::manager::dynamic_call(
        &mut tt,
        FunctionId(1),
        vec![TaskInput::Literal(0)],
    );
    let vc2 = turbo_tasks::manager::trait_call(
        &mut tt,
        turbo_tasks::id::TraitTypeId(2),
        "content".to_string(),
        vec![],
    );
    assert_ne!(vc.get_task_id(), vc2.get_task_id());
}

#[test]
fn empty_input_lists_are_resolved() {
    assert!(turbo_tasks::task_input::all_resolved(&vec![]));
    let empty = TaskInput::List(vec![]);
    assert!(empty.is_resolved());
    assert!(empty.eq_input(&TaskInput::List(vec![])));
}

#[test]
fn eager_notification_drain_schedules_readers() {
    let mut tt = TurboTasks::new();
    let (a, b, _c) = build_chain(&mut tt, 10);

    tt.invalidate_task(a);
    let mut ctx = tt.start_next_execution().expect("a to run");
    assert_eq!(ctx.task, a);
    let cell = find_cell_by_type(&mut tt, &mut ctx, ValueTypeId(1));
    cell.compare_and_update_shared(&mut tt, &mut ctx, 99);
    assert!(!ctx.tasks_to_notify.is_empty());

    // drained before commit: the reader is scheduled while a still runs
    tt.notify_scheduled_tasks(&mut ctx);
    assert!(ctx.tasks_to_notify.is_empty());
    assert!(matches!(tt.tasks[b.0].state, TaskState::Scheduled));
    assert!(matches!(tt.tasks[a.0].state, TaskState::InProgress));

    let out = RawVc::TaskCell(cell.current_task, cell.index);
    tt.task_execution_completed(ctx, Ok(out));
}
