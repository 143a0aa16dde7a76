//! The engine's global guarantees, stated and proved over [`Dispatcher`]'s
//! well-formedness invariant.

use vstd::multiset::Multiset;
use vstd::prelude::*;

use crate::dispatcher::Dispatcher;
use crate::pool::{lemma_pool_idx, pool_has, pool_idx, pool_worker};
use crate::shutdown::ShutdownState;
use crate::update::Update;

verus! {

/// Per-key ordering: at every reachable state, what the handler pipeline has
/// observed for a key is a prefix — in arrival order — of all updates the
/// run ingested for that key. Updates sharing a key are therefore handled
/// strictly in the order they were read from the listener, with none skipped
/// and none reordered.
pub proof fn lemma_per_key_fifo(d: Dispatcher, k: i64)
    requires
        d.wf(),
    ensures
        d.observed(k).is_prefix_of(d.key_history(k)),
{
    if pool_has(d.pool(), k) {
        lemma_pool_idx(d.pool(), k);
        let i = pool_idx(d.pool(), k);
        assert(d.pool()[i].1.wf());
        let w = d.pool()[i].1;
        assert(d.linked(k, w));
        assert(pool_worker(d.pool(), k) == w);
        let obs = d.retired_of(k) + w.processed_view();
        assert(d.observed(k) == obs);
        assert(obs =~= d.key_history(k).subrange(0, obs.len() as int));
    } else {
        assert(d.retired_of(k) == d.key_history(k));
        assert(d.observed(k) =~= d.key_history(k));
        assert(d.observed(k) =~= d.key_history(k).subrange(0, d.observed(k).len() as int));
    }
}

/// A run that has fully drained — every mailbox empty, every handler
/// invocation complete, which is what [`Dispatcher::finish_run`] requires
/// before the run may report `Done` — has observed every ingested keyed
/// update, in arrival order: nothing the listener yielded was dropped.
pub proof fn lemma_quiet_run_observed_everything(d: Dispatcher, k: i64)
    requires
        d.wf(),
        d.spec_all_quiet(),
    ensures
        d.observed(k) == d.key_history(k),
{
    if pool_has(d.pool(), k) {
        lemma_pool_idx(d.pool(), k);
        let i = pool_idx(d.pool(), k);
        assert(d.pool()[i].1.wf());
        let w = d.pool()[i].1;
        assert(w.is_quiet());
        assert(d.linked(k, w));
        assert(w.in_flight_view() =~= Seq::<Update>::empty());
        assert(w.mailbox_view() =~= Seq::<Update>::empty());
        assert(d.observed(k) =~= d.retired_of(k) + w.processed_view() + w.in_flight_view()
            + w.mailbox_view());
    } else {
        assert(d.retired_of(k) == d.key_history(k));
        assert(d.observed(k) =~= d.key_history(k));
    }
}

/// The keyless counterpart: once the run has fully drained, the default
/// worker has completed exactly the keyless updates the run ingested — as a
/// bag, since no order is promised among keyless updates.
pub proof fn lemma_quiet_run_keyless_complete(d: Dispatcher)
    requires
        d.wf(),
        d.spec_all_quiet(),
    ensures
        match d.spec_default() {
            Some(w) => w.processed_view().to_multiset() == d.keyless_history().to_multiset(),
            None => d.keyless_history().len() == 0,
        },
{
    broadcast use vstd::seq_lib::group_to_multiset_ensures;

    match d.spec_default() {
        Some(w) => {
            assert(w.is_quiet());
            assert forall|u: Update| #[trigger] w.in_flight_view().to_multiset().count(u)
                == 0 by {
                assert(!w.in_flight_view().contains(u));
            }
            assert forall|u: Update| #[trigger] w.mailbox_view().to_multiset().count(u) == 0 by {
                assert(!w.mailbox_view().contains(u));
            }
            assert(crate::dispatcher::default_load(w) =~= w.processed_view().to_multiset());
        },
        None => {},
    }
}

/// A run reports `Done` only after every in-flight update completes: in any
/// well-formed state whose phase is `Done`, every mailbox is empty, every
/// handler invocation has completed, and — per key — everything the run
/// ingested was observed by the handler, in arrival order. (The keyless
/// counterpart is [`lemma_quiet_run_keyless_complete`], which applies since
/// such a state is fully drained.)
pub proof fn lemma_done_run_observed_everything(d: Dispatcher, k: i64)
    requires
        d.wf(),
        d.spec_shutdown_state() == ShutdownState::Done,
    ensures
        d.spec_all_quiet(),
        d.observed(k) == d.key_history(k),
{
    lemma_quiet_run_observed_everything(d, k);
}

/// The listener's stop hook fires at most once in a run. A state-change
/// observation that fires the hook records that it did
/// ([`Dispatcher::note_state_change`]), no operation ever clears the record,
/// and an observation on a state that carries the record does not fire.
pub proof fn lemma_stop_fires_at_most_once(before: Dispatcher, after: Dispatcher)
    requires
        before.stop_should_fire(),
        after.spec_stop_invoked() == (before.spec_stop_invoked() || before.stop_should_fire()),
    ensures
        !after.stop_should_fire(),
{
}

/// The high-water mark of active workers only ever rises while the busy
/// count stays within the pool, so the reaper's gate (more live workers
/// than the mark) can only be passed by pool growth, never by the mark
/// falling.
pub proof fn lemma_active_bounded_by_pool(d: Dispatcher)
    requires
        d.wf(),
    ensures
        d.spec_current_active() <= d.pool().len(),
{
    crate::pool::lemma_busy_count_le(d.pool());
}

} // verus!
