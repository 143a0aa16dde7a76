//! The update dispatcher: per-key routing with backpressure, the worker
//! pool with its idle reaper, and the shutdown plumbing.
//!
//! The dispatcher is driven from outside: the embedding's dispatch loop feeds
//! it listener items through [`Dispatcher::process_update`] and plays the
//! scheduler for the worker tasks through [`Dispatcher::worker_begin`] /
//! [`Dispatcher::worker_finish`] (and the `default_*` pair for keyless
//! updates). A ghost history of every routed update ties the pool to the
//! ingestion order: updates that share a key are observed by the handler in
//! arrival order, and no accepted update is ever dropped.

use vstd::multiset::Multiset;
use vstd::prelude::*;

use crate::pool::{
    busy1, busy_count, keyed_seq, keyless_seq, keys_distinct, lemma_busy_count_le,
    lemma_busy_count_push, lemma_busy_count_remove, lemma_busy_count_update,
    lemma_keyed_seq_push, lemma_keyless_seq_push, lemma_pool_idx, lemma_pool_push_frame,
    lemma_pool_remove_frame, lemma_pool_update_frame, pool_has, pool_idx, pool_worker,
};
use crate::shutdown::{ShutdownMisuseError, ShutdownState, ShutdownToken};
use crate::update::{default_distribution_function, key_of, Update};
use crate::worker::Worker;

verus! {

/// The default bound of every worker's mailbox.
pub const DEFAULT_WORKER_QUEUE_SIZE: usize = 64;

/// An error that prevented a dispatch run from starting: either the identity
/// handshake or the listener setup failed. Fatal to the run, reported to the
/// caller.
pub enum TryDispatchError<E, S> {
    /// The identity handshake made once at startup failed.
    GetMe(E),
    /// The listener's setup call failed.
    ListenerSetup(S),
}

/// What [`Dispatcher::process_update`] decided for one listener item.
pub enum DispatchOutcome<LErr> {
    /// The update was routed and buffered in its worker's mailbox.
    Enqueued,
    /// The update records a decode failure; it is reported and dropped, not
    /// routed.
    SkippedMalformed,
    /// The target mailbox is full. The update is handed back untouched and
    /// nothing changed: the caller must let that worker drain and then offer
    /// the same update again — ingestion stalls, the update is never dropped.
    WouldBlock(Update),
    /// The listener yielded an error value; hand it to the listener-error
    /// handler and keep the loop running.
    ListenerErr(LErr),
}

/// The in-flight load of the default worker, as a bag: the keyless updates
/// it has completed, has in flight, or still buffers.
pub open spec fn default_load(w: Worker) -> Multiset<Update> {
    w.processed_view().to_multiset().add(w.in_flight_view().to_multiset()).add(
        w.mailbox_view().to_multiset(),
    )
}

/// The builder for [`Dispatcher`].
pub struct DispatcherBuilder {
    worker_queue_size: usize,
    ctrlc_handler: bool,
}

impl DispatcherBuilder {
    /// The configured mailbox capacity.
    pub closed spec fn spec_queue_size(self) -> usize {
        self.worker_queue_size
    }

    /// Whether a process-signal-driven shutdown request was asked for.
    pub closed spec fn spec_ctrlc(self) -> bool {
        self.ctrlc_handler
    }

    /// Specifies the size of the queue for workers. Must be positive.
    ///
    /// By default it's 64.
    #[must_use]
    pub fn worker_queue_size(self, size: usize) -> (b: Self)
        requires
            size >= 1,
        ensures
            b.spec_queue_size() == size,
            b.spec_ctrlc() == self.spec_ctrlc(),
    {
        Self { worker_queue_size: size, ..self }
    }

    /// Asks the embedding to install a process-signal handler that requests
    /// shutdown. The signal plumbing itself is outside this crate; the flag
    /// is recorded for the embedding to consult.
    #[must_use]
    pub fn enable_ctrlc_handler(self) -> (b: Self)
        ensures
            b.spec_queue_size() == self.spec_queue_size(),
            b.spec_ctrlc(),
    {
        Self { ctrlc_handler: true, ..self }
    }

    /// Constructs a [`Dispatcher`] in its initial state: no workers, nothing
    /// ingested, the shutdown machine idle.
    #[must_use]
    pub fn build(self) -> (d: Dispatcher)
        requires
            self.spec_queue_size() >= 1,
        ensures
            d.wf(),
            d.spec_queue_size() == self.spec_queue_size(),
            d.spec_ctrlc_enabled() == self.spec_ctrlc(),
            d.spec_shutdown_state() == ShutdownState::Idle,
            !d.spec_stop_invoked(),
            d.pool().len() == 0,
            d.spec_default() is None,
            d.history_view().len() == 0,
            d.spec_current_active() == 0,
            d.spec_max_active() == 0,
    {
        let d = Dispatcher {
            workers: Vec::new(),
            default_worker: None,
            worker_queue_size: self.worker_queue_size,
            current_number_of_active_workers: 0,
            max_number_of_active_workers: 0,
            state: ShutdownToken::new(),
            stop_invoked: false,
            ctrlc_enabled: self.ctrlc_handler,
            history: Ghost(Seq::empty()),
            retired: Ghost(Map::empty()),
        };
        proof {
            assert forall|k: i64| !pool_has(d.pool(), k) implies #[trigger] d.retired_of(k)
                == d.key_history(k) by {
                assert(d.key_history(k) =~= Seq::<Update>::empty());
            }
            assert(d.keyless_history() =~= Seq::<Update>::empty());
        }
        d
    }
}

/// The dispatch engine for one run.
pub struct Dispatcher {
    workers: Vec<(i64, Worker)>,
    default_worker: Option<Worker>,
    worker_queue_size: usize,
    current_number_of_active_workers: usize,
    max_number_of_active_workers: usize,
    state: ShutdownToken,
    stop_invoked: bool,
    ctrlc_enabled: bool,
    history: Ghost<Seq<Update>>,
    retired: Ghost<Map<i64, Seq<Update>>>,
}

impl Dispatcher {
    /// The keyed worker pool: key/worker pairs with pairwise-distinct keys.
    pub closed spec fn pool(self) -> Seq<(i64, Worker)> {
        self.workers@
    }

    /// The default worker for keyless updates, once one exists.
    pub closed spec fn spec_default(self) -> Option<Worker> {
        self.default_worker
    }

    /// Every update routed into a worker, in ingestion order.
    pub closed spec fn history_view(self) -> Seq<Update> {
        self.history@
    }

    /// The updates for key `k` fully handled by workers the reaper has
    /// already reclaimed, in their handling order.
    pub closed spec fn retired_of(self, k: i64) -> Seq<Update> {
        if self.retired@.dom().contains(k) {
            self.retired@[k]
        } else {
            Seq::empty()
        }
    }

    /// The configured mailbox capacity.
    pub closed spec fn spec_queue_size(self) -> usize {
        self.worker_queue_size
    }

    /// How many keyed workers have a handler invocation in flight.
    pub closed spec fn spec_current_active(self) -> usize {
        self.current_number_of_active_workers
    }

    /// The high-water mark of concurrently active keyed workers.
    pub closed spec fn spec_max_active(self) -> usize {
        self.max_number_of_active_workers
    }

    /// The shutdown machine's phase.
    pub closed spec fn spec_shutdown_state(self) -> ShutdownState {
        self.state.spec_state()
    }

    /// Whether the listener's stop hook has already been asked for.
    pub closed spec fn spec_stop_invoked(self) -> bool {
        self.stop_invoked
    }

    /// Whether a process-signal shutdown trigger was requested at build time.
    pub closed spec fn spec_ctrlc_enabled(self) -> bool {
        self.ctrlc_enabled
    }

    /// The ingested updates whose derived key is `k`, in arrival order.
    pub open spec fn key_history(self, k: i64) -> Seq<Update> {
        keyed_seq(self.history_view(), k)
    }

    /// The ingested updates that map to no key, in arrival order.
    pub open spec fn keyless_history(self) -> Seq<Update> {
        keyless_seq(self.history_view())
    }

    /// What the handler pipeline has observed for key `k` over the whole
    /// run, in observation order: the work of reclaimed workers for `k`
    /// followed by the live worker's completions.
    pub open spec fn observed(self, k: i64) -> Seq<Update> {
        self.retired_of(k) + if pool_has(self.pool(), k) {
            pool_worker(self.pool(), k).processed_view()
        } else {
            Seq::empty()
        }
    }

    /// The central ordering invariant for one keyed worker: past work, the
    /// completion log, the in-flight update and the mailbox, in that order,
    /// are exactly the arrivals for that key.
    pub open spec fn linked(self, k: i64, w: Worker) -> bool {
        self.retired_of(k) + w.processed_view() + w.in_flight_view() + w.mailbox_view()
            == self.key_history(k)
    }

    /// Well-formedness of the whole engine.
    pub open spec fn wf(self) -> bool {
        &&& self.spec_queue_size() >= 1
        &&& keys_distinct(self.pool())
        &&& forall|i: int|
            0 <= i < self.pool().len() ==> {
                &&& (#[trigger] self.pool()[i]).1.wf()
                &&& self.pool()[i].1.cap() == self.spec_queue_size()
                &&& self.pool()[i].1.in_flight_view().len() <= 1
                &&& self.linked(self.pool()[i].0, self.pool()[i].1)
            }
        &&& forall|k: i64|
            !pool_has(self.pool(), k) ==> #[trigger] self.retired_of(k) == self.key_history(k)
        &&& match self.spec_default() {
            Some(w) => {
                &&& w.wf()
                &&& w.cap() == self.spec_queue_size()
                &&& default_load(w) == self.keyless_history().to_multiset()
            },
            None => self.keyless_history().len() == 0,
        }
        &&& self.spec_current_active() == busy_count(self.pool())
        &&& self.spec_shutdown_state() == ShutdownState::Done ==> self.spec_all_quiet()
    }

    /// A dispatch run is in progress: listener items are still consumed.
    pub open spec fn running(self) -> bool {
        self.spec_shutdown_state() == ShutdownState::Dispatching
            || self.spec_shutdown_state() == ShutdownState::ShuttingDown
    }

    /// Every worker has an empty mailbox and nothing in flight.
    pub open spec fn spec_all_quiet(self) -> bool {
        &&& forall|i: int| 0 <= i < self.pool().len() ==> (#[trigger] self.pool()[i]).1.is_quiet()
        &&& match self.spec_default() {
            Some(w) => w.is_quiet(),
            None => true,
        }
    }

    /// The listener's stop hook is owed a call: a shutdown was requested and
    /// the hook has not been invoked yet.
    pub open spec fn stop_should_fire(self) -> bool {
        self.spec_shutdown_state() == ShutdownState::ShuttingDown && !self.spec_stop_invoked()
    }

    /// Constructs a new [`DispatcherBuilder`] with the default configuration:
    /// mailbox capacity 64, no signal-driven shutdown.
    #[must_use]
    pub fn builder() -> (b: DispatcherBuilder)
        ensures
            b.spec_queue_size() == DEFAULT_WORKER_QUEUE_SIZE,
            !b.spec_ctrlc(),
    {
        DispatcherBuilder { worker_queue_size: DEFAULT_WORKER_QUEUE_SIZE, ctrlc_handler: false }
    }

    /// The position of `key`'s worker in the pool, if it is live.
    fn find_idx(&self, key: i64) -> (r: Option<usize>)
        ensures
            match r {
                Some(i) => i < self.pool().len() && self.pool()[i as int].0 == key,
                None => !pool_has(self.pool(), key),
            },
    {
        let mut i: usize = 0;
        while i < self.workers.len()
            invariant
                i <= self.workers.len(),
                forall|j: int| 0 <= j < i ==> (#[trigger] self.workers@[j]).0 != key,
            decreases self.workers.len() - i,
        {
            if self.workers[i].0 == key {
                return Some(i);
            }
            i += 1;
        }
        None
    }

    /// The two states agree on everything but the pool, the default worker
    /// and the ingestion history.
    spec fn same_plumbing(self, pre: Dispatcher) -> bool {
        &&& self.retired@ == pre.retired@
        &&& self.worker_queue_size == pre.worker_queue_size
        &&& self.current_number_of_active_workers == pre.current_number_of_active_workers
        &&& self.max_number_of_active_workers == pre.max_number_of_active_workers
        &&& self.state == pre.state
        &&& self.stop_invoked == pre.stop_invoked
        &&& self.ctrlc_enabled == pre.ctrlc_enabled
    }

    /// After appending `u` to the mailbox of the live worker for its key.
    proof fn lemma_after_keyed_send(self, pre: Dispatcher, k: i64, i: int, u: Update, w1: Worker)
        requires
            pre.wf(),
            0 <= i < pre.pool().len(),
            pre.pool()[i].0 == k,
            key_of(u) == Some(k),
            pre.pool()[i].1.mailbox_view().len() < pre.spec_queue_size(),
            w1.mailbox_view() == pre.pool()[i].1.mailbox_view().push(u),
            w1.in_flight_view() == pre.pool()[i].1.in_flight_view(),
            w1.processed_view() == pre.pool()[i].1.processed_view(),
            w1.cap() == pre.pool()[i].1.cap(),
            self.pool() == pre.pool().update(i, (k, w1)),
            self.history_view() == pre.history_view().push(u),
            self.spec_default() == pre.spec_default(),
            self.same_plumbing(pre),
            pre.spec_shutdown_state() != ShutdownState::Done,
        ensures
            self.wf(),
            pool_has(self.pool(), k),
            pool_worker(self.pool(), k) == w1,
            forall|k2: i64| #[trigger] self.retired_of(k2) == pre.retired_of(k2),
            forall|k2: i64| #[trigger] self.observed(k2) == pre.observed(k2),
            forall|k2: i64|
                k2 != k ==> pool_has(self.pool(), k2) == pool_has(pre.pool(), k2),
            forall|k2: i64|
                k2 != k && pool_has(pre.pool(), k2) ==> pool_worker(self.pool(), k2)
                    == pool_worker(pre.pool(), k2),
    {
        lemma_pool_update_frame(pre.pool(), i, w1);
        assert forall|k2: i64| #[trigger] self.retired_of(k2) == pre.retired_of(k2) by {}
        assert forall|k2: i64| #[trigger] keyed_seq(self.history_view(), k2) == if k2 == k {
            keyed_seq(pre.history_view(), k2).push(u)
        } else {
            keyed_seq(pre.history_view(), k2)
        } by {
            lemma_keyed_seq_push(pre.history_view(), u, k2);
        }
        lemma_keyless_seq_push(pre.history_view(), u);
        lemma_pool_idx(pre.pool(), k);
        assert(pool_worker(pre.pool(), k) == pre.pool()[i].1);
        // Per-worker clauses of wf.
        assert forall|j: int| 0 <= j < self.pool().len() implies {
            &&& (#[trigger] self.pool()[j]).1.wf()
            &&& self.pool()[j].1.cap() == self.spec_queue_size()
            &&& self.pool()[j].1.in_flight_view().len() <= 1
            &&& self.linked(self.pool()[j].0, self.pool()[j].1)
        } by {
            assert(pre.pool()[j].1.wf());
            if j == i {
                assert(self.pool()[j] == (k, w1));
                assert(pre.linked(k, pre.pool()[i].1));
                assert(self.retired_of(k) + w1.processed_view() + w1.in_flight_view()
                    + w1.mailbox_view() =~= (pre.retired_of(k)
                    + pre.pool()[i].1.processed_view() + pre.pool()[i].1.in_flight_view()
                    + pre.pool()[i].1.mailbox_view()).push(u));
            } else {
                assert(self.pool()[j] == pre.pool()[j]);
                let k2 = pre.pool()[j].0;
                assert(k2 != k) by {
                    if j < i {
                        assert(pre.pool()[j].0 != pre.pool()[i].0);
                    } else {
                        assert(pre.pool()[i].0 != pre.pool()[j].0);
                    }
                }
                assert(pre.linked(k2, pre.pool()[j].1));
            }
        }
        // Keys without a live worker are unaffected.
        assert forall|k2: i64| !pool_has(self.pool(), k2) implies #[trigger] self.retired_of(k2)
            == self.key_history(k2) by {
            assert(!pool_has(pre.pool(), k2));
            assert(pool_has(self.pool(), k));
            assert(k2 != k);
            assert(pre.retired_of(k2) == pre.key_history(k2));
        }
        // The default worker sees no keyless change.
        assert(keyless_seq(self.history_view()) == keyless_seq(pre.history_view()));
        // The active-worker counter still counts the busy workers.
        lemma_busy_count_update(pre.pool(), i, (k, w1));
        // Nothing observed by the handler changed.
        assert forall|k2: i64| #[trigger] self.observed(k2) == pre.observed(k2) by {
            if k2 == k {
                assert(pool_worker(self.pool(), k2).processed_view() == pool_worker(
                    pre.pool(),
                    k2,
                ).processed_view());
            } else if pool_has(pre.pool(), k2) {
                assert(pool_worker(self.pool(), k2) == pool_worker(pre.pool(), k2));
            }
        }
    }

    /// After creating a worker for a fresh key and buffering `u` in it.
    proof fn lemma_after_keyed_create(self, pre: Dispatcher, k: i64, u: Update, w1: Worker)
        requires
            pre.wf(),
            !pool_has(pre.pool(), k),
            key_of(u) == Some(k),
            w1.mailbox_view() == seq![u],
            w1.in_flight_view() == Seq::<Update>::empty(),
            w1.processed_view() == Seq::<Update>::empty(),
            w1.cap() == pre.spec_queue_size(),
            pre.spec_queue_size() >= 1,
            self.pool() == pre.pool().push((k, w1)),
            self.history_view() == pre.history_view().push(u),
            self.spec_default() == pre.spec_default(),
            self.same_plumbing(pre),
            pre.spec_shutdown_state() != ShutdownState::Done,
        ensures
            self.wf(),
            pool_has(self.pool(), k),
            pool_worker(self.pool(), k) == w1,
            forall|k2: i64| #[trigger] self.retired_of(k2) == pre.retired_of(k2),
            forall|k2: i64| #[trigger] self.observed(k2) == pre.observed(k2),
            forall|k2: i64|
                k2 != k ==> pool_has(self.pool(), k2) == pool_has(pre.pool(), k2),
            forall|k2: i64|
                k2 != k && pool_has(pre.pool(), k2) ==> pool_worker(self.pool(), k2)
                    == pool_worker(pre.pool(), k2),
    {
        lemma_pool_push_frame(pre.pool(), k, w1);
        assert forall|k2: i64| #[trigger] self.retired_of(k2) == pre.retired_of(k2) by {}
        assert forall|k2: i64| #[trigger] keyed_seq(self.history_view(), k2) == if k2 == k {
            keyed_seq(pre.history_view(), k2).push(u)
        } else {
            keyed_seq(pre.history_view(), k2)
        } by {
            lemma_keyed_seq_push(pre.history_view(), u, k2);
        }
        lemma_keyless_seq_push(pre.history_view(), u);
        // The new worker holds exactly the one new arrival for its key.
        assert(pre.retired_of(k) == pre.key_history(k));
        assert(self.linked(k, w1)) by {
            assert(self.retired_of(k) + w1.processed_view() + w1.in_flight_view()
                + w1.mailbox_view() =~= pre.key_history(k).push(u));
        }
        // Per-worker clauses of wf.
        assert forall|j: int| 0 <= j < self.pool().len() implies {
            &&& (#[trigger] self.pool()[j]).1.wf()
            &&& self.pool()[j].1.cap() == self.spec_queue_size()
            &&& self.pool()[j].1.in_flight_view().len() <= 1
            &&& self.linked(self.pool()[j].0, self.pool()[j].1)
        } by {
            if j == pre.pool().len() {
                assert(self.pool()[j] == (k, w1));
            } else {
                assert(self.pool()[j] == pre.pool()[j]);
                assert(pre.pool()[j].1.wf());
                let k2 = pre.pool()[j].0;
                assert(k2 != k) by {
                    assert(pool_has(pre.pool(), k2));
                }
                assert(pre.linked(k2, pre.pool()[j].1));
            }
        }
        assert forall|k2: i64| !pool_has(self.pool(), k2) implies #[trigger] self.retired_of(k2)
            == self.key_history(k2) by {
            assert(k2 != k);
            assert(!pool_has(pre.pool(), k2));
            assert(pre.retired_of(k2) == pre.key_history(k2));
        }
        assert(keyless_seq(self.history_view()) == keyless_seq(pre.history_view()));
        lemma_busy_count_push(pre.pool(), (k, w1));
        assert forall|k2: i64| #[trigger] self.observed(k2) == pre.observed(k2) by {
            if k2 == k {
                assert(pre.observed(k) =~= pre.retired_of(k));
                assert(self.observed(k) =~= self.retired_of(k) + w1.processed_view());
                assert(self.observed(k) =~= pre.observed(k));
            } else if pool_has(pre.pool(), k2) {
                assert(pool_worker(self.pool(), k2) == pool_worker(pre.pool(), k2));
            }
        }
    }

    /// After buffering a keyless `u` in the (possibly fresh) default worker.
    proof fn lemma_after_default_send(self, pre: Dispatcher, u: Update, w1: Worker)
        requires
            pre.wf(),
            key_of(u) is None,
            match pre.spec_default() {
                Some(w0) => {
                    &&& w0.mailbox_view().len() < pre.spec_queue_size()
                    &&& w1.mailbox_view() == w0.mailbox_view().push(u)
                    &&& w1.in_flight_view() == w0.in_flight_view()
                    &&& w1.processed_view() == w0.processed_view()
                    &&& w1.cap() == w0.cap()
                },
                None => {
                    &&& w1.mailbox_view() == seq![u]
                    &&& w1.in_flight_view() == Seq::<Update>::empty()
                    &&& w1.processed_view() == Seq::<Update>::empty()
                    &&& w1.cap() == pre.spec_queue_size()
                },
            },
            self.pool() == pre.pool(),
            self.history_view() == pre.history_view().push(u),
            self.spec_default() == Some(w1),
            self.same_plumbing(pre),
            pre.spec_shutdown_state() != ShutdownState::Done,
        ensures
            self.wf(),
            forall|k2: i64| #[trigger] self.retired_of(k2) == pre.retired_of(k2),
            forall|k2: i64| #[trigger] self.observed(k2) == pre.observed(k2),
    {
        broadcast use vstd::seq_lib::group_to_multiset_ensures;

        assert forall|k2: i64| #[trigger] self.retired_of(k2) == pre.retired_of(k2) by {}
        assert forall|k2: i64| #[trigger] keyed_seq(self.history_view(), k2) == keyed_seq(
            pre.history_view(),
            k2,
        ) by {
            lemma_keyed_seq_push(pre.history_view(), u, k2);
        }
        lemma_keyless_seq_push(pre.history_view(), u);
        assert(keyless_seq(self.history_view()) == keyless_seq(pre.history_view()).push(u));
        assert(keyless_seq(self.history_view()).to_multiset() =~= keyless_seq(
            pre.history_view(),
        ).to_multiset().insert(u));
        match pre.spec_default() {
            Some(w0) => {
                assert(w1.mailbox_view().to_multiset() =~= w0.mailbox_view().to_multiset().insert(
                    u,
                ));
                assert(default_load(w1) =~= default_load(w0).insert(u));
            },
            None => {
                assert(keyless_seq(pre.history_view()).to_multiset() =~= Multiset::empty()) by {
                    assert(keyless_seq(pre.history_view()) =~= Seq::<Update>::empty());
                }
                assert(w1.mailbox_view() =~= Seq::<Update>::empty().push(u));
                assert(w1.mailbox_view().to_multiset() =~= Multiset::empty().insert(u));
                assert(default_load(w1) =~= Multiset::empty().insert(u));
            },
        }
        assert forall|j: int| 0 <= j < self.pool().len() implies {
            &&& (#[trigger] self.pool()[j]).1.wf()
            &&& self.pool()[j].1.cap() == self.spec_queue_size()
            &&& self.pool()[j].1.in_flight_view().len() <= 1
            &&& self.linked(self.pool()[j].0, self.pool()[j].1)
        } by {
            assert(pre.pool()[j].1.wf());
            assert(pre.linked(pre.pool()[j].0, pre.pool()[j].1));
        }
        assert forall|k2: i64| !pool_has(self.pool(), k2) implies #[trigger] self.retired_of(k2)
            == self.key_history(k2) by {
            assert(pre.retired_of(k2) == pre.key_history(k2));
        }
        assert forall|k2: i64| #[trigger] self.observed(k2) == pre.observed(k2) by {
            if pool_has(pre.pool(), k2) {
                assert(pool_worker(self.pool(), k2) == pool_worker(pre.pool(), k2));
            }
        }
    }

    /// Handle one listener item, as the dispatch loop's body does: an error
    /// value goes to the listener-error handler; a malformed update is
    /// reported and dropped; a well-formed update is routed by its derived
    /// key to the (created-on-first-use) keyed or default worker. A full
    /// mailbox rejects the update — the backpressure that stalls ingestion —
    /// and changes nothing.
    pub fn process_update<LErr>(&mut self, update: Result<Update, LErr>) -> (r: DispatchOutcome<
        LErr,
    >)
        requires
            old(self).wf(),
            old(self).running(),
        ensures
            final(self).wf(),
            final(self).spec_shutdown_state() == old(self).spec_shutdown_state(),
            final(self).spec_stop_invoked() == old(self).spec_stop_invoked(),
            final(self).spec_queue_size() == old(self).spec_queue_size(),
            final(self).spec_ctrlc_enabled() == old(self).spec_ctrlc_enabled(),
            final(self).spec_current_active() == old(self).spec_current_active(),
            final(self).spec_max_active() == old(self).spec_max_active(),
            forall|k2: i64| #[trigger] final(self).retired_of(k2) == old(self).retired_of(k2),
            forall|k2: i64| #[trigger] final(self).observed(k2) == old(self).observed(k2),
            match update {
                Err(e) => r matches DispatchOutcome::ListenerErr(e2) && e2 == e && *final(self)
                    == *old(self),
                Ok(u) => {
                    if u.malformed {
                        r is SkippedMalformed && *final(self) == *old(self)
                    } else {
                        match key_of(u) {
                            Some(k) => {
                                if pool_has(old(self).pool(), k) && pool_worker(
                                    old(self).pool(),
                                    k,
                                ).mailbox_view().len() == old(self).spec_queue_size() {
                                    &&& r matches DispatchOutcome::WouldBlock(u2) && u2 == u
                                    &&& *final(self) == *old(self)
                                } else {
                                    &&& r is Enqueued
                                    &&& final(self).history_view() == old(self).history_view().push(
                                        u,
                                    )
                                    &&& pool_has(final(self).pool(), k)
                                    &&& pool_worker(final(self).pool(), k).mailbox_view() == if
                                        pool_has(old(self).pool(), k) {
                                        pool_worker(old(self).pool(), k).mailbox_view().push(u)
                                    } else {
                                        seq![u]
                                    }
                                    &&& pool_worker(final(self).pool(), k).processed_view() == if
                                        pool_has(old(self).pool(), k) {
                                        pool_worker(old(self).pool(), k).processed_view()
                                    } else {
                                        Seq::<Update>::empty()
                                    }
                                    &&& pool_worker(final(self).pool(), k).in_flight_view() == if
                                        pool_has(old(self).pool(), k) {
                                        pool_worker(old(self).pool(), k).in_flight_view()
                                    } else {
                                        Seq::<Update>::empty()
                                    }
                                    &&& forall|k2: i64|
                                        k2 != k ==> pool_has(final(self).pool(), k2) == pool_has(
                                            old(self).pool(),
                                            k2,
                                        )
                                    &&& forall|k2: i64|
                                        k2 != k && pool_has(old(self).pool(), k2) ==> pool_worker(
                                            final(self).pool(),
                                            k2,
                                        ) == pool_worker(old(self).pool(), k2)
                                    &&& final(self).spec_default() == old(self).spec_default()
                                }
                            },
                            None => {
                                if old(self).spec_default() matches Some(w0)
                                    && w0.mailbox_view().len() == old(self).spec_queue_size() {
                                    &&& r matches DispatchOutcome::WouldBlock(u2) && u2 == u
                                    &&& *final(self) == *old(self)
                                } else {
                                    &&& r is Enqueued
                                    &&& final(self).history_view() == old(self).history_view().push(
                                        u,
                                    )
                                    &&& final(self).pool() == old(self).pool()
                                    &&& final(self).spec_default() matches Some(w) && {
                                        &&& w.mailbox_view() == (match old(self).spec_default() {
                                            Some(w0) => w0.mailbox_view().push(u),
                                            None => seq![u],
                                        })
                                        &&& w.in_flight_view() == (match old(
                                            self,
                                        ).spec_default() {
                                            Some(w0) => w0.in_flight_view(),
                                            None => Seq::<Update>::empty(),
                                        })
                                        &&& w.processed_view() == (match old(
                                            self,
                                        ).spec_default() {
                                            Some(w0) => w0.processed_view(),
                                            None => Seq::<Update>::empty(),
                                        })
                                    }
                                }
                            },
                        }
                    }
                },
            },
    {
        let ghost pre = *self;
        match update {
            Err(e) => DispatchOutcome::ListenerErr(e),
            Ok(u) => {
                if u.malformed {
                    return DispatchOutcome::SkippedMalformed;
                }
                match default_distribution_function(&u) {
                    Some(k) => {
                        match self.find_idx(k) {
                            Some(i) => {
                                proof {
                                    assert(pool_has(pre.pool(), k));
                                    lemma_pool_idx(pre.pool(), k);
                                    assert(pre.pool()[i as int].0 == k);
                                    assert(pool_worker(pre.pool(), k) == pre.pool()[i as int].1);
                                }
                                if self.workers[i].1.mailbox_len() == self.worker_queue_size {
                                    return DispatchOutcome::WouldBlock(u);
                                }
                                let ghost s0 = self.workers@;
                                let mut pair = self.workers.remove(i);
                                let ok = pair.1.try_send(u);
                                let ghost w1 = pair.1;
                                self.workers.insert(i, pair);
                                proof {
                                    assert(ok);
                                    assert(self.workers@ =~= s0.update(i as int, (k, w1)));
                                    self.history@ = pre.history_view().push(u);
                                    self.lemma_after_keyed_send(pre, k, i as int, u, w1);
                                }
                                DispatchOutcome::Enqueued
                            },
                            None => {
                                let mut w = Worker::new(self.worker_queue_size);
                                let ok = w.try_send(u);
                                let ghost w1 = w;
                                self.workers.push((k, w));
                                proof {
                                    assert(ok);
                                    self.history@ = pre.history_view().push(u);
                                    self.lemma_after_keyed_create(pre, k, u, w1);
                                }
                                DispatchOutcome::Enqueued
                            },
                        }
                    },
                    None => {
                        let mut w = match self.default_worker.take() {
                            Some(w0) => w0,
                            None => Worker::new(self.worker_queue_size),
                        };
                        let ok = w.try_send(u);
                        if !ok {
                            self.default_worker = Some(w);
                            proof {
                                assert(*self == pre);
                            }
                            return DispatchOutcome::WouldBlock(u);
                        }
                        let ghost w1 = w;
                        self.default_worker = Some(w);
                        proof {
                            self.history@ = pre.history_view().push(u);
                            self.lemma_after_default_send(pre, u, w1);
                        }
                        DispatchOutcome::Enqueued
                    },
                }
            },
        }
    }

    /// After the worker for `key` took the head of its mailbox in flight and
    /// the active-worker counters were lifted.
    proof fn lemma_after_begin(self, pre: Dispatcher, k: i64, i: int, w1: Worker)
        requires
            pre.wf(),
            0 <= i < pre.pool().len(),
            pre.pool()[i].0 == k,
            pre.pool()[i].1.in_flight_view().len() == 0,
            pre.pool()[i].1.mailbox_view().len() > 0,
            w1.mailbox_view() == pre.pool()[i].1.mailbox_view().drop_first(),
            w1.in_flight_view() == pre.pool()[i].1.in_flight_view().push(
                pre.pool()[i].1.mailbox_view()[0],
            ),
            w1.processed_view() == pre.pool()[i].1.processed_view(),
            w1.cap() == pre.pool()[i].1.cap(),
            w1.wf(),
            self.pool() == pre.pool().update(i, (k, w1)),
            self.history_view() == pre.history_view(),
            self.spec_default() == pre.spec_default(),
            self.retired@ == pre.retired@,
            self.worker_queue_size == pre.worker_queue_size,
            self.current_number_of_active_workers as int == pre.current_number_of_active_workers
                + 1,
            self.state == pre.state,
            pre.spec_shutdown_state() != ShutdownState::Done,
            self.stop_invoked == pre.stop_invoked,
            self.ctrlc_enabled == pre.ctrlc_enabled,
        ensures
            self.wf(),
            pool_has(self.pool(), k),
            pool_worker(self.pool(), k) == w1,
            forall|k2: i64| #[trigger] self.retired_of(k2) == pre.retired_of(k2),
            forall|k2: i64| #[trigger] self.observed(k2) == pre.observed(k2),
            forall|k2: i64| k2 != k ==> pool_has(self.pool(), k2) == pool_has(pre.pool(), k2),
            forall|k2: i64|
                k2 != k && pool_has(pre.pool(), k2) ==> pool_worker(self.pool(), k2)
                    == pool_worker(pre.pool(), k2),
    {
        lemma_pool_update_frame(pre.pool(), i, w1);
        lemma_pool_idx(pre.pool(), k);
        assert forall|k2: i64| #[trigger] self.retired_of(k2) == pre.retired_of(k2) by {}
        assert forall|j: int| 0 <= j < self.pool().len() implies {
            &&& (#[trigger] self.pool()[j]).1.wf()
            &&& self.pool()[j].1.cap() == self.spec_queue_size()
            &&& self.pool()[j].1.in_flight_view().len() <= 1
            &&& self.linked(self.pool()[j].0, self.pool()[j].1)
        } by {
            assert(pre.pool()[j].1.wf());
            if j == i {
                assert(self.pool()[j] == (k, w1));
                assert(pre.linked(k, pre.pool()[i].1));
                let p0 = pre.pool()[i].1;
                assert(self.retired_of(k) + w1.processed_view() + w1.in_flight_view()
                    + w1.mailbox_view() =~= pre.retired_of(k) + p0.processed_view()
                    + p0.in_flight_view() + p0.mailbox_view());
            } else {
                assert(self.pool()[j] == pre.pool()[j]);
                assert(pre.linked(pre.pool()[j].0, pre.pool()[j].1));
            }
        }
        assert forall|k2: i64| !pool_has(self.pool(), k2) implies #[trigger] self.retired_of(k2)
            == self.key_history(k2) by {
            assert(!pool_has(pre.pool(), k2));
            assert(pre.retired_of(k2) == pre.key_history(k2));
        }
        lemma_busy_count_update(pre.pool(), i, (k, w1));
        assert forall|k2: i64| #[trigger] self.observed(k2) == pre.observed(k2) by {
            if k2 == k {
                assert(pool_worker(self.pool(), k2).processed_view() == pool_worker(
                    pre.pool(),
                    k2,
                ).processed_view());
            } else if pool_has(pre.pool(), k2) {
                assert(pool_worker(self.pool(), k2) == pool_worker(pre.pool(), k2));
            }
        }
    }

    /// The worker's task for `key` dequeues the next buffered update and
    /// marks itself busy: the idle flag is cleared, the active-worker counter
    /// rises and the high-water mark follows it. Returns nothing — and
    /// changes nothing — when no worker is live for `key`, when its one task
    /// is already busy, or when its mailbox is empty; otherwise it returns
    /// the front of the mailbox, preserving arrival order.
    pub fn worker_begin(&mut self, key: i64) -> (r: Option<Update>)
        requires
            old(self).wf(),
            old(self).running(),
        ensures
            final(self).wf(),
            final(self).spec_shutdown_state() == old(self).spec_shutdown_state(),
            final(self).spec_stop_invoked() == old(self).spec_stop_invoked(),
            final(self).spec_queue_size() == old(self).spec_queue_size(),
            final(self).spec_ctrlc_enabled() == old(self).spec_ctrlc_enabled(),
            final(self).history_view() == old(self).history_view(),
            final(self).spec_default() == old(self).spec_default(),
            final(self).spec_max_active() >= old(self).spec_max_active(),
            forall|k2: i64| #[trigger] final(self).retired_of(k2) == old(self).retired_of(k2),
            forall|k2: i64| #[trigger] final(self).observed(k2) == old(self).observed(k2),
            !(pool_has(old(self).pool(), key) && pool_worker(old(self).pool(), key).in_flight_view().len()
                == 0 && pool_worker(old(self).pool(), key).mailbox_view().len() > 0) ==> r is None
                && *final(self) == *old(self),
            (pool_has(old(self).pool(), key) && pool_worker(old(self).pool(), key).in_flight_view().len()
                == 0 && pool_worker(old(self).pool(), key).mailbox_view().len() > 0) ==> {
                &&& r == Some(pool_worker(old(self).pool(), key).mailbox_view()[0])
                &&& pool_has(final(self).pool(), key)
                &&& pool_worker(final(self).pool(), key).mailbox_view() == pool_worker(
                    old(self).pool(),
                    key,
                ).mailbox_view().drop_first()
                &&& pool_worker(final(self).pool(), key).in_flight_view() == seq![
                    pool_worker(old(self).pool(), key).mailbox_view()[0],
                ]
                &&& pool_worker(final(self).pool(), key).processed_view() == pool_worker(
                    old(self).pool(),
                    key,
                ).processed_view()
                &&& final(self).spec_current_active() == old(self).spec_current_active() + 1
                &&& final(self).spec_max_active() as int == if old(self).spec_max_active() >= old(
                    self,
                ).spec_current_active() + 1 {
                    old(self).spec_max_active() as int
                } else {
                    old(self).spec_current_active() + 1
                }
                &&& forall|k2: i64|
                    k2 != key ==> pool_has(final(self).pool(), k2) == pool_has(
                        old(self).pool(),
                        k2,
                    )
                &&& forall|k2: i64|
                    k2 != key && pool_has(old(self).pool(), k2) ==> pool_worker(
                        final(self).pool(),
                        k2,
                    ) == pool_worker(old(self).pool(), k2)
            },
    {
        let ghost pre = *self;
        match self.find_idx(key) {
            None => None,
            Some(i) => {
                proof {
                    lemma_pool_idx(pre.pool(), key);
                    assert(pool_worker(pre.pool(), key) == pre.pool()[i as int].1);
                    assert(pre.pool()[i as int].1.wf());
                }
                if self.workers[i].1.in_flight_len() > 0 {
                    return None;
                }
                if self.workers[i].1.mailbox_len() == 0 {
                    return None;
                }
                let ghost s0 = self.workers@;
                let mut pair = self.workers.remove(i);
                let r = pair.1.begin_next();
                let ghost w1 = pair.1;
                self.workers.insert(i, pair);
                proof {
                    assert(self.workers@ =~= s0.update(i as int, (key, w1)));
                    lemma_busy_count_update(s0, i as int, (key, w1));
                    lemma_busy_count_le(s0.update(i as int, (key, w1)));
                    assert(self.workers.len() == self.workers@.len());
                    assert(self.current_number_of_active_workers + 1 <= s0.len());
                    assert(s0.len() <= usize::MAX);
                }
                self.current_number_of_active_workers = self.current_number_of_active_workers + 1;
                if self.current_number_of_active_workers > self.max_number_of_active_workers {
                    self.max_number_of_active_workers = self.current_number_of_active_workers;
                }
                proof {
                    self.lemma_after_begin(pre, key, i as int, w1);
                    assert(w1.in_flight_view() =~= seq![
                        pool_worker(pre.pool(), key).mailbox_view()[0],
                    ]);
                }
                r
            },
        }
    }

    /// After the in-flight update of `key`'s worker completed and moved to
    /// the processed log, with the active-worker counter lowered.
    proof fn lemma_after_finish(self, pre: Dispatcher, k: i64, i: int, u: Update, w1: Worker)
        requires
            pre.wf(),
            0 <= i < pre.pool().len(),
            pre.pool()[i].0 == k,
            pre.pool()[i].1.in_flight_view().len() == 1,
            u == pre.pool()[i].1.in_flight_view()[0],
            w1.mailbox_view() == pre.pool()[i].1.mailbox_view(),
            w1.in_flight_view() == pre.pool()[i].1.in_flight_view().remove(0),
            w1.processed_view() == pre.pool()[i].1.processed_view().push(u),
            w1.cap() == pre.pool()[i].1.cap(),
            self.pool() == pre.pool().update(i, (k, w1)),
            self.history_view() == pre.history_view(),
            self.spec_default() == pre.spec_default(),
            self.retired@ == pre.retired@,
            self.worker_queue_size == pre.worker_queue_size,
            self.current_number_of_active_workers as int == pre.current_number_of_active_workers
                - 1,
            self.max_number_of_active_workers == pre.max_number_of_active_workers,
            self.state == pre.state,
            pre.spec_shutdown_state() != ShutdownState::Done,
            self.stop_invoked == pre.stop_invoked,
            self.ctrlc_enabled == pre.ctrlc_enabled,
        ensures
            self.wf(),
            pool_has(self.pool(), k),
            pool_worker(self.pool(), k) == w1,
            self.observed(k) == pre.observed(k).push(u),
            forall|k2: i64| #[trigger] self.retired_of(k2) == pre.retired_of(k2),
            forall|k2: i64| k2 != k ==> #[trigger] self.observed(k2) == pre.observed(k2),
            forall|k2: i64| k2 != k ==> pool_has(self.pool(), k2) == pool_has(pre.pool(), k2),
            forall|k2: i64|
                k2 != k && pool_has(pre.pool(), k2) ==> pool_worker(self.pool(), k2)
                    == pool_worker(pre.pool(), k2),
    {
        lemma_pool_update_frame(pre.pool(), i, w1);
        lemma_pool_idx(pre.pool(), k);
        assert forall|k2: i64| #[trigger] self.retired_of(k2) == pre.retired_of(k2) by {}
        assert(w1.in_flight_view() =~= Seq::<Update>::empty());
        assert forall|j: int| 0 <= j < self.pool().len() implies {
            &&& (#[trigger] self.pool()[j]).1.wf()
            &&& self.pool()[j].1.cap() == self.spec_queue_size()
            &&& self.pool()[j].1.in_flight_view().len() <= 1
            &&& self.linked(self.pool()[j].0, self.pool()[j].1)
        } by {
            assert(pre.pool()[j].1.wf());
            if j == i {
                assert(self.pool()[j] == (k, w1));
                assert(pre.linked(k, pre.pool()[i].1));
                let p0 = pre.pool()[i].1;
                assert(p0.in_flight_view() =~= seq![u]);
                assert(self.retired_of(k) + w1.processed_view() + w1.in_flight_view()
                    + w1.mailbox_view() =~= pre.retired_of(k) + p0.processed_view()
                    + p0.in_flight_view() + p0.mailbox_view());
            } else {
                assert(self.pool()[j] == pre.pool()[j]);
                assert(pre.linked(pre.pool()[j].0, pre.pool()[j].1));
            }
        }
        assert forall|k2: i64| !pool_has(self.pool(), k2) implies #[trigger] self.retired_of(k2)
            == self.key_history(k2) by {
            assert(!pool_has(pre.pool(), k2));
            assert(pre.retired_of(k2) == pre.key_history(k2));
        }
        lemma_busy_count_update(pre.pool(), i, (k, w1));
        assert(self.observed(k) =~= pre.observed(k).push(u));
        assert forall|k2: i64| k2 != k implies #[trigger] self.observed(k2) == pre.observed(
            k2,
        ) by {
            if pool_has(pre.pool(), k2) {
                assert(pool_worker(self.pool(), k2) == pool_worker(pre.pool(), k2));
            }
        }
    }

    /// The handler invocation for `key`'s in-flight update completes: the
    /// update joins the observation log for its key — in arrival order — the
    /// worker is idle again and the active-worker counter falls. The caller
    /// routes the invocation's outcome separately, through
    /// [`crate::handler::route_outcome`].
    pub fn worker_finish(&mut self, key: i64) -> (u: Update)
        requires
            old(self).wf(),
            old(self).running(),
            pool_has(old(self).pool(), key),
            pool_worker(old(self).pool(), key).in_flight_view().len() == 1,
        ensures
            final(self).wf(),
            final(self).spec_shutdown_state() == old(self).spec_shutdown_state(),
            final(self).spec_stop_invoked() == old(self).spec_stop_invoked(),
            final(self).spec_queue_size() == old(self).spec_queue_size(),
            final(self).spec_ctrlc_enabled() == old(self).spec_ctrlc_enabled(),
            final(self).history_view() == old(self).history_view(),
            final(self).spec_default() == old(self).spec_default(),
            final(self).spec_max_active() == old(self).spec_max_active(),
            final(self).spec_current_active() == old(self).spec_current_active() - 1,
            u == pool_worker(old(self).pool(), key).in_flight_view()[0],
            final(self).observed(key) == old(self).observed(key).push(u),
            pool_has(final(self).pool(), key),
            pool_worker(final(self).pool(), key).in_flight_view().len() == 0,
            pool_worker(final(self).pool(), key).mailbox_view() == pool_worker(
                old(self).pool(),
                key,
            ).mailbox_view(),
            forall|k2: i64| #[trigger] final(self).retired_of(k2) == old(self).retired_of(k2),
            forall|k2: i64|
                k2 != key ==> #[trigger] final(self).observed(k2) == old(self).observed(k2),
            forall|k2: i64|
                k2 != key ==> pool_has(final(self).pool(), k2) == pool_has(old(self).pool(), k2),
            forall|k2: i64|
                k2 != key && pool_has(old(self).pool(), k2) ==> pool_worker(
                    final(self).pool(),
                    k2,
                ) == pool_worker(old(self).pool(), k2),
    {
        let ghost pre = *self;
        match self.find_idx(key) {
            None => vstd::pervasive::unreached(),
            Some(i) => {
                proof {
                    lemma_pool_idx(pre.pool(), key);
                    assert(pool_worker(pre.pool(), key) == pre.pool()[i as int].1);
                    assert(pre.pool()[i as int].1.wf());
                    lemma_busy_count_remove(pre.pool(), i as int);
                    lemma_busy_count_le(pre.pool().remove(i as int));
                    assert(self.current_number_of_active_workers >= 1);
                }
                let ghost s0 = self.workers@;
                let mut pair = self.workers.remove(i);
                let u = pair.1.finish_at(0);
                let ghost w1 = pair.1;
                self.workers.insert(i, pair);
                proof {
                    assert(self.workers@ =~= s0.update(i as int, (key, w1)));
                }
                self.current_number_of_active_workers = self.current_number_of_active_workers - 1;
                proof {
                    self.lemma_after_finish(pre, key, i as int, u, w1);
                }
                u
            },
        }
    }

    /// The idle reaper's scan: remove every keyed worker whose mailbox is
    /// empty and whose task is idle, reclaiming its mailbox and joining its
    /// task. (The running system detects the empty mailbox through the
    /// capacity heuristic — free capacity equal to the configured size —
    /// which is best-effort there; in this engine's state it is exactly an
    /// empty mailbox.) A worker with buffered or in-flight work is never
    /// removed, and a removed worker had completed everything it accepted,
    /// so the per-key observation logs are untouched.
    pub fn remove_inactive_workers(&mut self)
        requires
            old(self).wf(),
        ensures
            final(self).wf(),
            final(self).spec_shutdown_state() == old(self).spec_shutdown_state(),
            final(self).spec_stop_invoked() == old(self).spec_stop_invoked(),
            final(self).spec_queue_size() == old(self).spec_queue_size(),
            final(self).spec_ctrlc_enabled() == old(self).spec_ctrlc_enabled(),
            final(self).history_view() == old(self).history_view(),
            final(self).spec_default() == old(self).spec_default(),
            final(self).spec_current_active() == old(self).spec_current_active(),
            final(self).spec_max_active() == old(self).spec_max_active(),
            forall|k2: i64| #[trigger] final(self).observed(k2) == old(self).observed(k2),
            forall|k2: i64|
                #[trigger] pool_has(final(self).pool(), k2) ==> pool_has(old(self).pool(), k2)
                    && pool_worker(final(self).pool(), k2) == pool_worker(old(self).pool(), k2),
            forall|k2: i64|
                pool_has(old(self).pool(), k2) && !(#[trigger] pool_worker(
                    old(self).pool(),
                    k2,
                )).is_quiet() ==> pool_has(final(self).pool(), k2),
            forall|k2: i64|
                pool_has(old(self).pool(), k2) && !pool_has(final(self).pool(), k2)
                    ==> (#[trigger] pool_worker(old(self).pool(), k2)).is_quiet(),
            forall|k2: i64|
                #[trigger] pool_has(final(self).pool(), k2) ==> !pool_worker(
                    final(self).pool(),
                    k2,
                ).is_quiet(),
    {
        let ghost pre = *self;
        let mut i: usize = self.workers.len();
        while i > 0
            invariant
                pre.wf(),
                self.wf(),
                i <= self.workers@.len(),
                i <= pre.pool().len(),
                self.workers@.subrange(0, i as int) == pre.pool().subrange(0, i as int),
                forall|j: int|
                    i <= j < self.workers@.len() ==> !(#[trigger] self.workers@[j]).1.is_quiet(),
                forall|k2: i64|
                    #[trigger] pool_has(self.workers@, k2) ==> pool_has(pre.pool(), k2)
                        && pool_worker(self.workers@, k2) == pool_worker(pre.pool(), k2),
                forall|k2: i64|
                    pool_has(pre.pool(), k2) && !(#[trigger] pool_worker(
                        pre.pool(),
                        k2,
                    )).is_quiet() ==> pool_has(self.workers@, k2),
                forall|k2: i64|
                    pool_has(pre.pool(), k2) && !pool_has(self.workers@, k2) ==> (
                    #[trigger] pool_worker(pre.pool(), k2)).is_quiet(),
                forall|k2: i64| #[trigger] self.observed(k2) == pre.observed(k2),
                self.history@ == pre.history@,
                self.default_worker == pre.default_worker,
                self.worker_queue_size == pre.worker_queue_size,
                self.current_number_of_active_workers == pre.current_number_of_active_workers,
                self.max_number_of_active_workers == pre.max_number_of_active_workers,
                self.state == pre.state,
                self.stop_invoked == pre.stop_invoked,
                self.ctrlc_enabled == pre.ctrlc_enabled,
            decreases i,
        {
            i = i - 1;
            let quiet = self.workers[i].1.mailbox_len() == 0 && self.workers[i].1.is_waiting();
            if quiet {
                let ghost cur = *self;
                let pair = self.workers.remove(i);
                proof {
                    let k = pair.0;
                    let iv = i as int;
                    assert(cur.pool()[iv] == pre.pool()[iv]) by {
                        assert(cur.pool().subrange(0, iv + 1)[iv] == cur.pool()[iv]);
                        assert(pre.pool().subrange(0, iv + 1)[iv] == pre.pool()[iv]);
                    }
                    assert(pool_has(cur.pool(), k)) by {
                        assert(cur.pool()[iv].0 == k);
                    }
                    lemma_pool_remove_frame(cur.pool(), iv);
                    lemma_busy_count_remove(cur.pool(), iv);
                    lemma_pool_idx(cur.pool(), k);
                    assert(pool_idx(cur.pool(), k) == iv);
                    assert(pool_worker(cur.pool(), k) == pair.1);
                    assert(pool_has(pre.pool(), k)) by {
                        assert(pre.pool()[iv].0 == k);
                    }
                    lemma_pool_idx(pre.pool(), k);
                    assert(pool_worker(pre.pool(), k) == pair.1);
                    // The worker was quiet, so its log is complete for `k`:
                    // fold it into the retired map.
                    assert(cur.linked(k, pair.1));
                    self.retired@ = self.retired@.insert(k, cur.retired_of(k) + pair.1.processed_view());
                    assert(self.retired_of(k) == cur.retired_of(k) + pair.1.processed_view());
                    assert forall|k2: i64| k2 != k implies #[trigger] self.retired_of(k2)
                        == cur.retired_of(k2) by {}
                    assert(self.retired_of(k) =~= cur.key_history(k)) by {
                        assert(pair.1.in_flight_view() =~= Seq::<Update>::empty());
                        assert(pair.1.mailbox_view() =~= Seq::<Update>::empty());
                        assert(cur.retired_of(k) + pair.1.processed_view() =~= cur.retired_of(k)
                            + pair.1.processed_view() + pair.1.in_flight_view()
                            + pair.1.mailbox_view());
                    }
                    // Well-formedness of the shrunken pool.
                    assert forall|j: int| 0 <= j < self.pool().len() implies {
                        &&& (#[trigger] self.pool()[j]).1.wf()
                        &&& self.pool()[j].1.cap() == self.spec_queue_size()
                        &&& self.pool()[j].1.in_flight_view().len() <= 1
                        &&& self.linked(self.pool()[j].0, self.pool()[j].1)
                    } by {
                        let j0 = if j < iv {
                            j
                        } else {
                            j + 1
                        };
                        assert(self.pool()[j] == cur.pool()[j0]);
                        assert(cur.pool()[j0].1.wf());
                        assert(cur.linked(cur.pool()[j0].0, cur.pool()[j0].1));
                        assert(cur.pool()[j0].0 != k);
                        assert(self.retired_of(cur.pool()[j0].0) == cur.retired_of(
                            cur.pool()[j0].0,
                        ));
                    }
                    assert forall|k2: i64| !pool_has(self.pool(), k2) implies
                        #[trigger] self.retired_of(k2) == self.key_history(k2) by {
                        if k2 != k {
                            assert(!pool_has(cur.pool(), k2));
                            assert(cur.retired_of(k2) == cur.key_history(k2));
                        }
                    }
                    // Observation logs are untouched.
                    assert forall|k2: i64| #[trigger] self.observed(k2) == pre.observed(k2) by {
                        if k2 == k {
                            assert(cur.observed(k) =~= cur.retired_of(k)
                                + pair.1.processed_view());
                            assert(self.observed(k) =~= self.retired_of(k));
                        } else if pool_has(cur.pool(), k2) {
                            assert(pool_worker(self.pool(), k2) == pool_worker(cur.pool(), k2));
                            assert(self.observed(k2) =~= cur.observed(k2));
                        } else {
                            assert(self.observed(k2) =~= cur.observed(k2));
                        }
                    }
                    // The removed worker was quiet in the pre state too.
                    assert(pool_worker(pre.pool(), k).is_quiet());
                    // A drained Done state stays drained.
                    if self.state.spec_state() == ShutdownState::Done {
                        assert(cur.spec_all_quiet());
                        assert forall|j: int| 0 <= j < self.pool().len() implies (
                        #[trigger] self.pool()[j]).1.is_quiet() by {
                            let j0 = if j < iv {
                                j
                            } else {
                                j + 1
                            };
                            assert(self.pool()[j] == cur.pool()[j0]);
                            assert(cur.pool()[j0].1.is_quiet());
                        }
                    }
                }
            }
        }
        proof {
            assert forall|k2: i64| #[trigger] pool_has(final(self).pool(), k2) implies
                !pool_worker(final(self).pool(), k2).is_quiet() by {
                lemma_pool_idx(final(self).pool(), k2);
            }
        }
    }

    /// The reaper's gate, run once per loop iteration: the scan is paid only
    /// when the number of live keyed workers exceeds the high-water mark of
    /// concurrently active workers — that is, when pool growth plausibly
    /// exceeds the working set.
    pub fn remove_inactive_workers_if_needed(&mut self)
        requires
            old(self).wf(),
        ensures
            final(self).wf(),
            final(self).spec_shutdown_state() == old(self).spec_shutdown_state(),
            final(self).spec_stop_invoked() == old(self).spec_stop_invoked(),
            final(self).spec_queue_size() == old(self).spec_queue_size(),
            final(self).spec_ctrlc_enabled() == old(self).spec_ctrlc_enabled(),
            final(self).history_view() == old(self).history_view(),
            final(self).spec_default() == old(self).spec_default(),
            final(self).spec_current_active() == old(self).spec_current_active(),
            final(self).spec_max_active() == old(self).spec_max_active(),
            forall|k2: i64| #[trigger] final(self).observed(k2) == old(self).observed(k2),
            old(self).pool().len() <= old(self).spec_max_active() ==> *final(self) == *old(self),
            forall|k2: i64|
                #[trigger] pool_has(final(self).pool(), k2) ==> pool_has(old(self).pool(), k2)
                    && pool_worker(final(self).pool(), k2) == pool_worker(old(self).pool(), k2),
            forall|k2: i64|
                pool_has(old(self).pool(), k2) && !(#[trigger] pool_worker(
                    old(self).pool(),
                    k2,
                )).is_quiet() ==> pool_has(final(self).pool(), k2),
            forall|k2: i64|
                pool_has(old(self).pool(), k2) && !pool_has(final(self).pool(), k2)
                    ==> (#[trigger] pool_worker(old(self).pool(), k2)).is_quiet(),
            old(self).pool().len() > old(self).spec_max_active() ==> forall|k2: i64|
                #[trigger] pool_has(final(self).pool(), k2) ==> !pool_worker(
                    final(self).pool(),
                    k2,
                ).is_quiet(),
    {
        let workers = self.workers.len();
        let max = self.max_number_of_active_workers;
        if workers <= max {
            return ;
        }
        self.remove_inactive_workers();
    }

    /// Well-formedness transfers between states that agree on the pool, the
    /// default worker, the history, the retired log and the counters.
    proof fn lemma_wf_same_core(self, pre: Dispatcher)
        requires
            pre.wf(),
            self.workers@ == pre.workers@,
            self.default_worker == pre.default_worker,
            self.history@ == pre.history@,
            self.retired@ == pre.retired@,
            self.worker_queue_size == pre.worker_queue_size,
            self.current_number_of_active_workers == pre.current_number_of_active_workers,
            self.spec_shutdown_state() == ShutdownState::Done ==> (pre.spec_all_quiet()
                || pre.spec_shutdown_state() == ShutdownState::Done),
        ensures
            self.wf(),
            forall|k2: i64| #[trigger] self.retired_of(k2) == pre.retired_of(k2),
            forall|k2: i64| #[trigger] self.observed(k2) == pre.observed(k2),
            forall|k2: i64| #[trigger] self.key_history(k2) == pre.key_history(k2),
    {
        assert forall|j: int| 0 <= j < self.pool().len() implies {
            &&& (#[trigger] self.pool()[j]).1.wf()
            &&& self.pool()[j].1.cap() == self.spec_queue_size()
            &&& self.pool()[j].1.in_flight_view().len() <= 1
            &&& self.linked(self.pool()[j].0, self.pool()[j].1)
        } by {
            assert(pre.pool()[j].1.wf());
            assert(pre.linked(pre.pool()[j].0, pre.pool()[j].1));
        }
        assert forall|k2: i64| !pool_has(self.pool(), k2) implies #[trigger] self.retired_of(k2)
            == self.key_history(k2) by {
            assert(pre.retired_of(k2) == pre.key_history(k2));
        }
        if self.spec_shutdown_state() == ShutdownState::Done {
            assert(pre.spec_all_quiet());
            assert forall|j: int| 0 <= j < self.pool().len() implies (
            #[trigger] self.pool()[j]).1.is_quiet() by {
                assert(pre.pool()[j].1.is_quiet());
            }
        }
    }

    /// Well-formedness transfers when only the default worker changed, as
    /// long as its load (the bag of keyless updates it accounts for) did not.
    proof fn lemma_wf_default_only(self, pre: Dispatcher, w0: Worker, w1: Worker)
        requires
            pre.wf(),
            pre.spec_default() == Some(w0),
            self.spec_default() == Some(w1),
            w1.wf(),
            w1.cap() == w0.cap(),
            default_load(w1) == default_load(w0),
            self.workers@ == pre.workers@,
            self.history@ == pre.history@,
            self.retired@ == pre.retired@,
            self.worker_queue_size == pre.worker_queue_size,
            self.current_number_of_active_workers == pre.current_number_of_active_workers,
            self.spec_shutdown_state() != ShutdownState::Done,
        ensures
            self.wf(),
            forall|k2: i64| #[trigger] self.retired_of(k2) == pre.retired_of(k2),
            forall|k2: i64| #[trigger] self.observed(k2) == pre.observed(k2),
    {
        assert forall|j: int| 0 <= j < self.pool().len() implies {
            &&& (#[trigger] self.pool()[j]).1.wf()
            &&& self.pool()[j].1.cap() == self.spec_queue_size()
            &&& self.pool()[j].1.in_flight_view().len() <= 1
            &&& self.linked(self.pool()[j].0, self.pool()[j].1)
        } by {
            assert(pre.pool()[j].1.wf());
            assert(pre.linked(pre.pool()[j].0, pre.pool()[j].1));
        }
        assert forall|k2: i64| !pool_has(self.pool(), k2) implies #[trigger] self.retired_of(k2)
            == self.key_history(k2) by {
            assert(pre.retired_of(k2) == pre.key_history(k2));
        }
    }

    /// The default worker's task takes the next buffered keyless update in
    /// flight — concurrently with everything it already has in flight.
    /// Returns nothing, and changes nothing, when no default worker exists
    /// or its mailbox is empty.
    pub fn default_begin(&mut self) -> (r: Option<Update>)
        requires
            old(self).wf(),
            old(self).running(),
        ensures
            final(self).wf(),
            final(self).spec_shutdown_state() == old(self).spec_shutdown_state(),
            final(self).spec_stop_invoked() == old(self).spec_stop_invoked(),
            final(self).spec_queue_size() == old(self).spec_queue_size(),
            final(self).spec_ctrlc_enabled() == old(self).spec_ctrlc_enabled(),
            final(self).history_view() == old(self).history_view(),
            final(self).pool() == old(self).pool(),
            final(self).spec_current_active() == old(self).spec_current_active(),
            final(self).spec_max_active() == old(self).spec_max_active(),
            forall|k2: i64| #[trigger] final(self).retired_of(k2) == old(self).retired_of(k2),
            forall|k2: i64| #[trigger] final(self).observed(k2) == old(self).observed(k2),
            match old(self).spec_default() {
                None => r is None && *final(self) == *old(self),
                Some(w0) => {
                    if w0.mailbox_view().len() == 0 {
                        r is None && *final(self) == *old(self)
                    } else {
                        &&& r == Some(w0.mailbox_view()[0])
                        &&& final(self).spec_default() matches Some(w1) && {
                            &&& w1.mailbox_view() == w0.mailbox_view().drop_first()
                            &&& w1.in_flight_view() == w0.in_flight_view().push(
                                w0.mailbox_view()[0],
                            )
                            &&& w1.processed_view() == w0.processed_view()
                        }
                    }
                },
            },
    {
        let ghost pre = *self;
        match self.default_worker.take() {
            None => None,
            Some(mut w) => {
                let ghost w0 = w;
                let r = w.begin_next();
                self.default_worker = Some(w);
                proof {
                    if w0.mailbox_view().len() == 0 {
                        assert(*self == pre);
                        self.lemma_wf_same_core(pre);
                    } else {
                        broadcast use vstd::seq_lib::group_to_multiset_ensures;

                        let m0 = w0.mailbox_view()[0];
                        assert(w0.mailbox_view().drop_first() =~= w0.mailbox_view().remove(0));
                        assert(w.mailbox_view().to_multiset() =~= w0.mailbox_view().to_multiset()
                            .remove(m0));
                        assert(w.in_flight_view().to_multiset() =~= w0.in_flight_view()
                            .to_multiset().insert(m0));
                        assert(w0.mailbox_view().to_multiset().count(m0) > 0) by {
                            assert(w0.mailbox_view().contains(m0));
                        }
                        assert(default_load(w) =~= default_load(w0));
                        self.lemma_wf_default_only(pre, w0, w);
                    }
                }
                r
            },
        }
    }

    /// The handler invocation for the default worker's in-flight update at
    /// position `i` completes. Keyless updates complete in whatever order
    /// the embedding's scheduler chooses: no order is imposed on them.
    pub fn default_finish(&mut self, i: usize) -> (u: Update)
        requires
            old(self).wf(),
            old(self).running(),
            old(self).spec_default() matches Some(w0) && i < w0.in_flight_view().len(),
        ensures
            final(self).wf(),
            final(self).spec_shutdown_state() == old(self).spec_shutdown_state(),
            final(self).spec_stop_invoked() == old(self).spec_stop_invoked(),
            final(self).spec_queue_size() == old(self).spec_queue_size(),
            final(self).spec_ctrlc_enabled() == old(self).spec_ctrlc_enabled(),
            final(self).history_view() == old(self).history_view(),
            final(self).pool() == old(self).pool(),
            final(self).spec_current_active() == old(self).spec_current_active(),
            final(self).spec_max_active() == old(self).spec_max_active(),
            forall|k2: i64| #[trigger] final(self).retired_of(k2) == old(self).retired_of(k2),
            forall|k2: i64| #[trigger] final(self).observed(k2) == old(self).observed(k2),
            old(self).spec_default() matches Some(w0) && {
                &&& u == w0.in_flight_view()[i as int]
                &&& final(self).spec_default() matches Some(w1) && {
                    &&& w1.mailbox_view() == w0.mailbox_view()
                    &&& w1.in_flight_view() == w0.in_flight_view().remove(i as int)
                    &&& w1.processed_view() == w0.processed_view().push(u)
                }
            },
    {
        let ghost pre = *self;
        match self.default_worker.take() {
            None => vstd::pervasive::unreached(),
            Some(mut w) => {
                let ghost w0 = w;
                let u = w.finish_at(i);
                self.default_worker = Some(w);
                proof {
                    broadcast use vstd::seq_lib::group_to_multiset_ensures;

                    assert(w.processed_view().to_multiset() =~= w0.processed_view().to_multiset()
                        .insert(u));
                    assert(w.in_flight_view().to_multiset() =~= w0.in_flight_view().to_multiset()
                        .remove(u));
                    assert(w0.in_flight_view().to_multiset().count(u) > 0) by {
                        assert(w0.in_flight_view().contains(u));
                    }
                    assert(default_load(w) =~= default_load(w0));
                    self.lemma_wf_default_only(pre, w0, w);
                }
                u
            },
        }
    }

    /// Enter the dispatch loop: called once, after the startup handshake
    /// succeeded, before the first listener item is consumed.
    pub fn start_dispatching(&mut self)
        requires
            old(self).wf(),
            old(self).spec_shutdown_state() == ShutdownState::Idle,
        ensures
            final(self).wf(),
            final(self).spec_shutdown_state() == ShutdownState::Dispatching,
            final(self).spec_stop_invoked() == old(self).spec_stop_invoked(),
            final(self).spec_queue_size() == old(self).spec_queue_size(),
            final(self).spec_ctrlc_enabled() == old(self).spec_ctrlc_enabled(),
            final(self).history_view() == old(self).history_view(),
            final(self).pool() == old(self).pool(),
            final(self).spec_default() == old(self).spec_default(),
            final(self).spec_current_active() == old(self).spec_current_active(),
            final(self).spec_max_active() == old(self).spec_max_active(),
            forall|k2: i64| #[trigger] final(self).observed(k2) == old(self).observed(k2),
    {
        let ghost pre = *self;
        self.state.start_dispatching();
        proof {
            self.lemma_wf_same_core(pre);
        }
    }

    /// Request a graceful stop. Succeeds exactly while a run is dispatching
    /// (`Dispatching -> ShuttingDown`); the loop will then ask the listener
    /// to stop exactly once and keep draining what the listener still
    /// yields. In any other phase the request is a reported, non-fatal
    /// [`ShutdownMisuseError`]: nothing changes and no worker is spawned.
    pub fn shutdown(&mut self) -> (r: Result<(), ShutdownMisuseError>)
        requires
            old(self).wf(),
        ensures
            final(self).wf(),
            final(self).spec_stop_invoked() == old(self).spec_stop_invoked(),
            final(self).spec_queue_size() == old(self).spec_queue_size(),
            final(self).spec_ctrlc_enabled() == old(self).spec_ctrlc_enabled(),
            final(self).history_view() == old(self).history_view(),
            final(self).pool() == old(self).pool(),
            final(self).spec_default() == old(self).spec_default(),
            final(self).spec_current_active() == old(self).spec_current_active(),
            final(self).spec_max_active() == old(self).spec_max_active(),
            forall|k2: i64| #[trigger] final(self).observed(k2) == old(self).observed(k2),
            old(self).spec_shutdown_state() == ShutdownState::Dispatching ==> {
                &&& r is Ok
                &&& final(self).spec_shutdown_state() == ShutdownState::ShuttingDown
            },
            old(self).spec_shutdown_state() != ShutdownState::Dispatching ==> {
                &&& r matches Err(e) && e.state_at_request == old(self).spec_shutdown_state()
                &&& *final(self) == *old(self)
            },
    {
        let ghost pre = *self;
        let r = self.state.shutdown();
        proof {
            self.lemma_wf_same_core(pre);
        }
        r
    }

    /// The loop observed a change of the shutdown state (its race was won by
    /// the state change, not the listener). Returns whether the caller must
    /// now invoke the listener's stop hook: true exactly when a shutdown was
    /// requested and the hook has not fired yet. The flag this sets is never
    /// reset, so over one run the hook fires at most once — and a shutdown
    /// request while dispatching makes the loop observe the change, so it
    /// fires exactly once.
    pub fn note_state_change(&mut self) -> (fire: bool)
        requires
            old(self).wf(),
        ensures
            final(self).wf(),
            fire == old(self).stop_should_fire(),
            final(self).spec_stop_invoked() == (old(self).spec_stop_invoked() || fire),
            !fire ==> *final(self) == *old(self),
            final(self).spec_shutdown_state() == old(self).spec_shutdown_state(),
            final(self).spec_queue_size() == old(self).spec_queue_size(),
            final(self).spec_ctrlc_enabled() == old(self).spec_ctrlc_enabled(),
            final(self).history_view() == old(self).history_view(),
            final(self).pool() == old(self).pool(),
            final(self).spec_default() == old(self).spec_default(),
            final(self).spec_current_active() == old(self).spec_current_active(),
            final(self).spec_max_active() == old(self).spec_max_active(),
            forall|k2: i64| #[trigger] final(self).observed(k2) == old(self).observed(k2),
    {
        let ghost pre = *self;
        if self.state.is_shutting_down() && !self.stop_invoked {
            self.stop_invoked = true;
            proof {
                self.lemma_wf_same_core(pre);
            }
            true
        } else {
            false
        }
    }

    /// End the run. The listener is exhausted, every mailbox has drained and
    /// every handler invocation has completed — every worker's task joins
    /// immediately — so only now does the run report `Done`. After this, no
    /// listener item is dispatched again.
    pub fn finish_run(&mut self)
        requires
            old(self).wf(),
            old(self).running(),
            old(self).spec_all_quiet(),
        ensures
            final(self).wf(),
            final(self).spec_shutdown_state() == ShutdownState::Done,
            final(self).spec_stop_invoked() == old(self).spec_stop_invoked(),
            final(self).spec_queue_size() == old(self).spec_queue_size(),
            final(self).spec_ctrlc_enabled() == old(self).spec_ctrlc_enabled(),
            final(self).history_view() == old(self).history_view(),
            final(self).pool() == old(self).pool(),
            final(self).spec_default() == old(self).spec_default(),
            final(self).spec_current_active() == old(self).spec_current_active(),
            final(self).spec_max_active() == old(self).spec_max_active(),
            forall|k2: i64| #[trigger] final(self).observed(k2) == old(self).observed(k2),
    {
        let ghost pre = *self;
        self.state.done();
        proof {
            self.lemma_wf_same_core(pre);
        }
    }

    /// The current phase of the run.
    pub fn shutdown_state(&self) -> (s: ShutdownState)
        ensures
            s == self.spec_shutdown_state(),
    {
        self.state.state()
    }

    /// Whether a stop has been requested and the run is still draining.
    pub fn is_shutting_down(&self) -> (b: bool)
        ensures
            b == (self.spec_shutdown_state() == ShutdownState::ShuttingDown),
    {
        self.state.is_shutting_down()
    }

    /// Whether the listener's stop hook has already been asked for.
    pub fn stop_hook_invoked(&self) -> (b: bool)
        ensures
            b == self.spec_stop_invoked(),
    {
        self.stop_invoked
    }

    /// How many keyed workers are live.
    pub fn worker_count(&self) -> (n: usize)
        ensures
            n == self.pool().len(),
    {
        self.workers.len()
    }

    /// Whether a worker is live for `key`.
    pub fn has_worker(&self, key: i64) -> (b: bool)
        ensures
            b == pool_has(self.pool(), key),
    {
        match self.find_idx(key) {
            Some(_) => true,
            None => false,
        }
    }

    /// How many updates `key`'s worker has buffered, if one is live.
    pub fn worker_mailbox_len(&self, key: i64) -> (r: Option<usize>)
        requires
            self.wf(),
        ensures
            match r {
                Some(n) => pool_has(self.pool(), key) && n == pool_worker(
                    self.pool(),
                    key,
                ).mailbox_view().len(),
                None => !pool_has(self.pool(), key),
            },
    {
        match self.find_idx(key) {
            Some(i) => {
                proof {
                    lemma_pool_idx(self.pool(), key);
                }
                Some(self.workers[i].1.mailbox_len())
            },
            None => None,
        }
    }

    /// Whether `key`'s worker task is waiting on its mailbox, if one is live.
    pub fn worker_is_waiting(&self, key: i64) -> (r: Option<bool>)
        requires
            self.wf(),
        ensures
            match r {
                Some(b) => pool_has(self.pool(), key) && b == (pool_worker(
                    self.pool(),
                    key,
                ).in_flight_view().len() == 0),
                None => !pool_has(self.pool(), key),
            },
    {
        match self.find_idx(key) {
            Some(i) => {
                proof {
                    lemma_pool_idx(self.pool(), key);
                }
                Some(self.workers[i].1.is_waiting())
            },
            None => None,
        }
    }

    /// The default worker's buffered and in-flight counts, once it exists.
    pub fn default_worker_load(&self) -> (r: Option<(usize, usize)>)
        ensures
            match r {
                Some(p) => self.spec_default() matches Some(w) && p.0 == w.mailbox_view().len()
                    && p.1 == w.in_flight_view().len(),
                None => self.spec_default() is None,
            },
    {
        match &self.default_worker {
            Some(w) => Some((w.mailbox_len(), w.in_flight_len())),
            None => None,
        }
    }

    /// The position in the default worker's in-flight list of an update
    /// carrying `id`, for the embedding to report which invocation finished.
    pub fn default_find_in_flight(&self, id: u64) -> (r: Option<usize>)
        ensures
            match r {
                Some(i) => self.spec_default() matches Some(w) && i < w.in_flight_view().len()
                    && w.in_flight_view()[i as int].id == id,
                None => match self.spec_default() {
                    Some(w) => forall|j: int|
                        0 <= j < w.in_flight_view().len() ==> (
                        #[trigger] w.in_flight_view()[j]).id != id,
                    None => true,
                },
            },
    {
        match &self.default_worker {
            Some(w) => w.find_in_flight(id),
            None => None,
        }
    }

    /// How many keyed workers are busy right now.
    pub fn current_active(&self) -> (n: usize)
        ensures
            n == self.spec_current_active(),
    {
        self.current_number_of_active_workers
    }

    /// The high-water mark of concurrently busy keyed workers. It never
    /// decreases during a run.
    pub fn max_active(&self) -> (n: usize)
        ensures
            n == self.spec_max_active(),
    {
        self.max_number_of_active_workers
    }

    /// The configured mailbox capacity.
    pub fn queue_size(&self) -> (n: usize)
        ensures
            n == self.spec_queue_size(),
    {
        self.worker_queue_size
    }

    /// Whether a process-signal shutdown trigger was requested at build time.
    pub fn ctrlc_handler_enabled(&self) -> (b: bool)
        ensures
            b == self.spec_ctrlc_enabled(),
    {
        self.ctrlc_enabled
    }

    /// Whether every worker has drained and gone idle.
    pub fn all_quiet(&self) -> (b: bool)
        ensures
            b == self.spec_all_quiet(),
    {
        let mut i: usize = 0;
        while i < self.workers.len()
            invariant
                i <= self.workers@.len(),
                forall|j: int| 0 <= j < i ==> (#[trigger] self.workers@[j]).1.is_quiet(),
            decreases self.workers@.len() - i,
        {
            let quiet = self.workers[i].1.mailbox_len() == 0 && self.workers[i].1.is_waiting();
            if !quiet {
                proof {
                    assert(!self.pool()[i as int].1.is_quiet());
                }
                return false;
            }
            i += 1;
        }
        match &self.default_worker {
            Some(w) => w.mailbox_len() == 0 && w.in_flight_len() == 0,
            None => true,
        }
    }
}

} // verus!
