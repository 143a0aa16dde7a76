//! Driving the dispatch engine through whole scenarios: routing, per-key
//! ordering, backpressure, reaping and the default worker.

use dispatching::{
    DispatchOutcome, Dispatcher, Followup, HandlerOutcome, ShutdownState, Update,
};

fn upd(id: u64, chat: Option<i64>) -> Update {
    Update { id, chat, malformed: false }
}

fn enqueue(d: &mut Dispatcher, u: Update) {
    match d.process_update::<()>(Ok(u)) {
        DispatchOutcome::Enqueued => {}
        _ => panic!("expected the update to be enqueued"),
    }
}

/// Run one keyed handler invocation to completion, returning the update the
/// handler observed.
fn step_key(d: &mut Dispatcher, key: i64) -> u64 {
    let u = d.worker_begin(key).expect("expected a pending update for the key");
    let done = d.worker_finish(key);
    assert_eq!(u.id, done.id);
    done.id
}

#[test]
fn distribution_routes_by_chat_id() {
    assert_eq!(
        dispatching::default_distribution_function(&upd(1, Some(42))),
        Some(42)
    );
    assert_eq!(dispatching::default_distribution_function(&upd(1, None)), None);
}

#[test]
fn same_key_handled_in_arrival_order() {
    // Distribution maps [A, B, C] to keys [1, 1, 2].
    let mut d = Dispatcher::builder().build();
    d.start_dispatching();
    enqueue(&mut d, upd(10, Some(1)));
    enqueue(&mut d, upd(11, Some(1)));
    enqueue(&mut d, upd(12, Some(2)));

    // Schedule: drain key 1 first, then key 2.
    let mut log = Vec::new();
    log.push(step_key(&mut d, 1));
    log.push(step_key(&mut d, 1));
    log.push(step_key(&mut d, 2));
    assert_eq!(log, vec![10, 11, 12]);
}

#[test]
fn distinct_keys_interleave_freely() {
    // Same input as above, but C (key 2) is handled between A and B: the
    // engine accepts this interleaving too, while A still precedes B.
    let mut d = Dispatcher::builder().build();
    d.start_dispatching();
    enqueue(&mut d, upd(10, Some(1)));
    enqueue(&mut d, upd(11, Some(1)));
    enqueue(&mut d, upd(12, Some(2)));

    let mut log = Vec::new();
    log.push(step_key(&mut d, 1));
    log.push(step_key(&mut d, 2));
    log.push(step_key(&mut d, 1));
    assert_eq!(log, vec![10, 12, 11]);
    let a = log.iter().position(|&id| id == 10).unwrap();
    let b = log.iter().position(|&id| id == 11).unwrap();
    assert!(a < b);
}

#[test]
fn full_mailbox_stalls_ingestion_without_losing_updates() {
    // Capacity 2, a burst of 3 updates for one key.
    let mut d = Dispatcher::builder().worker_queue_size(2).build();
    d.start_dispatching();
    enqueue(&mut d, upd(1, Some(7)));
    enqueue(&mut d, upd(2, Some(7)));
    let blocked = match d.process_update::<()>(Ok(upd(3, Some(7)))) {
        DispatchOutcome::WouldBlock(u) => u,
        _ => panic!("expected backpressure on a full mailbox"),
    };
    assert_eq!(blocked.id, 3);
    assert_eq!(d.worker_mailbox_len(7), Some(2));

    // The worker frees capacity; offering the same update again succeeds.
    assert_eq!(step_key(&mut d, 7), 1);
    enqueue(&mut d, blocked);

    // Every update of the burst is handled, in arrival order.
    assert_eq!(step_key(&mut d, 7), 2);
    assert_eq!(step_key(&mut d, 7), 3);
    assert_eq!(d.worker_mailbox_len(7), Some(0));
}

#[test]
fn listener_error_is_routed_and_loop_continues() {
    // Listener yields [Ok(e1), Err(err1), Ok(e2)], both updates on one key.
    let mut d = Dispatcher::builder().build();
    d.start_dispatching();
    let mut listener_errors = 0;
    let items: Vec<Result<Update, &str>> =
        vec![Ok(upd(1, Some(9))), Err("bad payload"), Ok(upd(2, Some(9)))];
    for item in items {
        match d.process_update(item) {
            DispatchOutcome::Enqueued => {}
            DispatchOutcome::ListenerErr(e) => {
                assert_eq!(e, "bad payload");
                listener_errors += 1;
            }
            _ => panic!("unexpected outcome"),
        }
    }
    assert_eq!(listener_errors, 1);
    assert_eq!(step_key(&mut d, 9), 1);
    assert_eq!(step_key(&mut d, 9), 2);
    assert!(matches!(d.shutdown_state(), ShutdownState::Dispatching));
}

#[test]
fn malformed_update_is_dropped_not_routed() {
    let mut d = Dispatcher::builder().build();
    d.start_dispatching();
    let bad = Update { id: 1, chat: Some(4), malformed: true };
    assert!(matches!(
        d.process_update::<()>(Ok(bad)),
        DispatchOutcome::SkippedMalformed
    ));
    assert_eq!(d.worker_count(), 0);
    assert!(!d.has_worker(4));
}

#[test]
fn keyless_updates_run_on_the_default_worker_in_any_order() {
    let mut d = Dispatcher::builder().build();
    d.start_dispatching();
    assert!(d.default_worker_load().is_none());
    enqueue(&mut d, upd(1, None));
    enqueue(&mut d, upd(2, None));
    assert_eq!(d.default_worker_load(), Some((2, 0)));
    assert_eq!(d.worker_count(), 0);

    // Both go in flight concurrently; they may complete in reverse order.
    let a = d.default_begin().unwrap();
    let b = d.default_begin().unwrap();
    assert_eq!((a.id, b.id), (1, 2));
    assert_eq!(d.default_worker_load(), Some((0, 2)));
    let first_done = d.default_finish(1);
    let second_done = d.default_finish(0);
    assert_eq!((first_done.id, second_done.id), (2, 1));
    assert_eq!(d.default_worker_load(), Some((0, 0)));
}

#[test]
fn default_worker_mailbox_also_exerts_backpressure() {
    let mut d = Dispatcher::builder().worker_queue_size(1).build();
    d.start_dispatching();
    enqueue(&mut d, upd(1, None));
    match d.process_update::<()>(Ok(upd(2, None))) {
        DispatchOutcome::WouldBlock(u) => assert_eq!(u.id, 2),
        _ => panic!("expected backpressure on the default worker"),
    }
}

#[test]
fn default_worker_backpressure_clears_after_progress() {
    let mut d = Dispatcher::builder().worker_queue_size(1).build();
    d.start_dispatching();
    enqueue(&mut d, upd(1, None));
    let blocked = match d.process_update::<()>(Ok(upd(2, None))) {
        DispatchOutcome::WouldBlock(u) => u,
        _ => panic!("expected backpressure"),
    };
    let taken = d.default_begin().unwrap();
    assert_eq!(taken.id, 1);
    // The mailbox slot is free while the first update is still in flight.
    enqueue(&mut d, blocked);
    let i = d.default_find_in_flight(1).unwrap();
    let done = d.default_finish(i);
    assert_eq!(done.id, 1);
    let taken2 = d.default_begin().unwrap();
    assert_eq!(taken2.id, 2);
    assert!(d.default_find_in_flight(9).is_none());
    d.default_finish(0);
}

#[test]
fn long_run_keeps_arrival_order_per_key() {
    let mut d = Dispatcher::builder().build();
    d.start_dispatching();
    let mut logs: (Vec<u64>, Vec<u64>) = (Vec::new(), Vec::new());
    for round in 0..10u64 {
        enqueue(&mut d, upd(2 * round, Some(1)));
        enqueue(&mut d, upd(2 * round + 1, Some(2)));
        // Alternate which key's worker runs first each round.
        if round % 2 == 0 {
            logs.0.push(step_key(&mut d, 1));
            logs.1.push(step_key(&mut d, 2));
        } else {
            logs.1.push(step_key(&mut d, 2));
            logs.0.push(step_key(&mut d, 1));
        }
    }
    let expect_even: Vec<u64> = (0..10).map(|r| 2 * r).collect();
    let expect_odd: Vec<u64> = (0..10).map(|r| 2 * r + 1).collect();
    assert_eq!(logs.0, expect_even);
    assert_eq!(logs.1, expect_odd);
}

#[test]
fn reaper_removes_only_quiet_workers() {
    let mut d = Dispatcher::builder().build();
    d.start_dispatching();
    // Key 1 does a full round of work: the high-water mark becomes 1.
    enqueue(&mut d, upd(1, Some(1)));
    assert_eq!(step_key(&mut d, 1), 1);
    assert_eq!(d.max_active(), 1);
    assert_eq!(d.current_active(), 0);
    // Key 2 arrives and still has buffered work.
    enqueue(&mut d, upd(2, Some(2)));
    assert_eq!(d.worker_count(), 2);

    // Two live workers exceed the mark: the scan runs, key 1's quiet worker
    // is reclaimed, key 2's worker — its mailbox is not empty — survives.
    d.remove_inactive_workers_if_needed();
    assert!(!d.has_worker(1));
    assert!(d.has_worker(2));
    assert_eq!(d.worker_mailbox_len(2), Some(1));
    assert_eq!(d.worker_count(), 1);

    // Key 2 still handles its update; nothing was lost.
    assert_eq!(step_key(&mut d, 2), 2);
}

#[test]
fn reaper_never_removes_a_worker_with_a_busy_task() {
    let mut d = Dispatcher::builder().build();
    d.start_dispatching();
    enqueue(&mut d, upd(1, Some(1)));
    assert_eq!(step_key(&mut d, 1), 1);
    enqueue(&mut d, upd(2, Some(2)));
    // Key 2's update is in flight: mailbox empty, but the task is busy.
    let taken = d.worker_begin(2).unwrap();
    assert_eq!(taken.id, 2);
    d.remove_inactive_workers();
    assert!(d.has_worker(2));
    assert_eq!(d.worker_is_waiting(2), Some(false));
    let done = d.worker_finish(2);
    assert_eq!(done.id, 2);
}

#[test]
fn reaper_gate_skips_the_scan_while_pool_fits_the_mark() {
    let mut d = Dispatcher::builder().build();
    d.start_dispatching();
    enqueue(&mut d, upd(1, Some(1)));
    assert_eq!(step_key(&mut d, 1), 1);
    // One live quiet worker and a high-water mark of one: no reaping runs.
    d.remove_inactive_workers_if_needed();
    assert!(d.has_worker(1));
    // A direct scan does reclaim it.
    d.remove_inactive_workers();
    assert!(!d.has_worker(1));
}

#[test]
fn worker_begin_edges() {
    let mut d = Dispatcher::builder().build();
    d.start_dispatching();
    // No worker for the key yet.
    assert!(d.worker_begin(3).is_none());
    enqueue(&mut d, upd(1, Some(3)));
    let taken = d.worker_begin(3).unwrap();
    assert_eq!(taken.id, 1);
    // The single task is busy: nothing more can begin for this key.
    assert!(d.worker_begin(3).is_none());
    d.worker_finish(3);
    // Mailbox now empty.
    assert!(d.worker_begin(3).is_none());
}

#[test]
fn max_active_counter_is_monotone() {
    let mut d = Dispatcher::builder().build();
    d.start_dispatching();
    enqueue(&mut d, upd(1, Some(1)));
    enqueue(&mut d, upd(2, Some(2)));
    let mut high = d.max_active();
    let _ = d.worker_begin(1).unwrap();
    assert!(d.max_active() >= high);
    high = d.max_active();
    let _ = d.worker_begin(2).unwrap();
    assert!(d.max_active() >= high);
    high = d.max_active();
    assert_eq!(d.current_active(), 2);
    assert_eq!(high, 2);
    d.worker_finish(1);
    d.worker_finish(2);
    assert_eq!(d.current_active(), 0);
    assert_eq!(d.max_active(), 2);
}

#[test]
fn route_outcome_routes_each_outcome() {
    assert!(matches!(
        dispatching::route_outcome::<&str>(HandlerOutcome::Handled),
        Followup::NoAction
    ));
    match dispatching::route_outcome(HandlerOutcome::Failed("boom")) {
        Followup::ToErrorHandler(e) => assert_eq!(e, "boom"),
        _ => panic!("a failure must reach the error handler"),
    }
    assert!(matches!(
        dispatching::route_outcome::<&str>(HandlerOutcome::Unhandled),
        Followup::ToDefaultHandler
    ));
}

#[test]
fn builder_defaults_and_configuration() {
    let d = Dispatcher::builder().build();
    assert_eq!(d.queue_size(), dispatching::DEFAULT_WORKER_QUEUE_SIZE);
    assert_eq!(d.queue_size(), 64);
    assert!(!d.ctrlc_handler_enabled());
    assert!(matches!(d.shutdown_state(), ShutdownState::Idle));
    assert_eq!(d.worker_count(), 0);

    let d2 = Dispatcher::builder()
        .worker_queue_size(5)
        .enable_ctrlc_handler()
        .build();
    assert_eq!(d2.queue_size(), 5);
    assert!(d2.ctrlc_handler_enabled());
}
