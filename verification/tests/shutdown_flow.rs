//! The shutdown state machine and the graceful-stop flow of a whole run.

use dispatching::{
    DispatchOutcome, Dispatcher, ShutdownState, ShutdownToken, TryDispatchError, Update,
};

fn upd(id: u64, chat: Option<i64>) -> Update {
    Update { id, chat, malformed: false }
}

fn enqueue(d: &mut Dispatcher, u: Update) {
    match d.process_update::<()>(Ok(u)) {
        DispatchOutcome::Enqueued => {}
        _ => panic!("expected the update to be enqueued"),
    }
}

#[test]
fn token_walks_the_state_machine() {
    let mut t = ShutdownToken::new();
    assert!(matches!(t.state(), ShutdownState::Idle));
    t.start_dispatching();
    assert!(matches!(t.state(), ShutdownState::Dispatching));
    assert!(!t.is_shutting_down());
    assert!(t.shutdown().is_ok());
    assert!(t.is_shutting_down());
    t.done();
    assert!(matches!(t.state(), ShutdownState::Done));
}

#[test]
fn shutdown_while_idle_is_reported_and_spawns_nothing() {
    let mut d = Dispatcher::builder().build();
    let err = d.shutdown().expect_err("shutdown before dispatching must be refused");
    assert!(matches!(err.state_at_request, ShutdownState::Idle));
    assert!(matches!(d.shutdown_state(), ShutdownState::Idle));
    assert_eq!(d.worker_count(), 0);
    assert!(d.default_worker_load().is_none());
}

#[test]
fn shutdown_twice_reports_misuse_the_second_time() {
    let mut d = Dispatcher::builder().build();
    d.start_dispatching();
    assert!(d.shutdown().is_ok());
    let err = d.shutdown().expect_err("a second request is not dispatching any more");
    assert!(matches!(err.state_at_request, ShutdownState::ShuttingDown));
}

#[test]
fn stop_hook_fires_exactly_once_per_run() {
    let mut d = Dispatcher::builder().build();
    d.start_dispatching();
    // Before any request, a state-change observation asks for nothing.
    assert!(!d.note_state_change());
    d.shutdown().unwrap();
    let mut fires = 0;
    for _ in 0..3 {
        if d.note_state_change() {
            fires += 1;
        }
    }
    assert_eq!(fires, 1);
    assert!(d.stop_hook_invoked());
}

#[test]
fn graceful_shutdown_drains_before_done() {
    let mut d = Dispatcher::builder().build();
    d.start_dispatching();
    enqueue(&mut d, upd(1, Some(8)));
    enqueue(&mut d, upd(2, Some(8)));
    enqueue(&mut d, upd(3, None));

    d.shutdown().unwrap();
    assert!(d.note_state_change());
    assert!(!d.all_quiet());

    // The loop keeps draining what is already buffered.
    let a = d.worker_begin(8).unwrap();
    assert_eq!(a.id, 1);
    d.worker_finish(8);
    let b = d.worker_begin(8).unwrap();
    assert_eq!(b.id, 2);
    d.worker_finish(8);
    let c = d.default_begin().unwrap();
    assert_eq!(c.id, 3);
    d.default_finish(0);

    assert!(d.all_quiet());
    d.finish_run();
    assert!(matches!(d.shutdown_state(), ShutdownState::Done));
}

#[test]
fn run_without_shutdown_request_ends_done_directly() {
    let mut d = Dispatcher::builder().build();
    d.start_dispatching();
    enqueue(&mut d, upd(1, Some(2)));
    let u = d.worker_begin(2).unwrap();
    assert_eq!(u.id, 1);
    d.worker_finish(2);
    assert!(d.all_quiet());
    // The listener's stream ended on its own: no stop hook was ever owed.
    assert!(!d.stop_hook_invoked());
    d.finish_run();
    assert!(matches!(d.shutdown_state(), ShutdownState::Done));
}

#[test]
fn try_dispatch_error_distinguishes_its_sources() {
    let get_me: TryDispatchError<&str, &str> = TryDispatchError::GetMe("identity refused");
    match get_me {
        TryDispatchError::GetMe(e) => assert_eq!(e, "identity refused"),
        TryDispatchError::ListenerSetup(_) => panic!("wrong variant"),
    }
    let setup: TryDispatchError<&str, &str> = TryDispatchError::ListenerSetup("no socket");
    assert!(matches!(setup, TryDispatchError::ListenerSetup("no socket")));
}
