//! Run-wide guarantees of the scheduling loop, proved from the run
//! records that [`crate::event_queue::process_event_queue`] returns.

use crate::agent::Agent;
use crate::event_queue::{
    apply_message, report_due, reports_after, run_consistent, tunables_after, EventEngineError,
    RunLog, TermCause, Tunables,
};
use crate::message::IncomingQueueMessage;
use crate::queue::{
    distinct_times, extend_entries, lemma_extend_entries, lemma_sorted_contents_unique,
    time_sorted, Entry,
};
use vstd::prelude::*;

verus! {

broadcast use vstd::seq_lib::group_to_multiset_ensures;

/// The dispatch bound stays at its starting value while no retune of it
/// is polled.
pub proof fn lemma_max_iter_stable(
    init: Tunables,
    polled: Seq<Option<IncomingQueueMessage>>,
    j: int,
)
    requires
        forall|k: int|
            0 <= k < j ==> !((#[trigger] polled[k]) matches Some(
                IncomingQueueMessage::ChangeMaxIter(..),
            )),
    ensures
        tunables_after(init, polled, j).max_iter == init.max_iter,
    decreases j,
{
    if j > 0 {
        lemma_max_iter_stable(init, polled, j - 1);
    }
}

/// The yield interval stays at its starting value while no retune of it
/// is polled.
pub proof fn lemma_every_stable(
    init: Tunables,
    polled: Seq<Option<IncomingQueueMessage>>,
    j: int,
)
    requires
        forall|k: int|
            0 <= k < j ==> !((#[trigger] polled[k]) matches Some(
                IncomingQueueMessage::ChangeSleepIterCount(..),
            )),
    ensures
        tunables_after(init, polled, j).every == init.every,
    decreases j,
{
    if j > 0 {
        lemma_every_stable(init, polled, j - 1);
    }
}

/// Report values are strictly increasing and never exceed the dispatch
/// count they account for.
pub proof fn lemma_reports_after_bounds(
    init: Tunables,
    polled: Seq<Option<IncomingQueueMessage>>,
    d: int,
)
    requires
        d <= u64::MAX as int,
    ensures
        forall|a: int, b: int|
            0 <= a < b < reports_after(init, polled, d).len() ==> reports_after(init, polled, d)[a]
                < reports_after(init, polled, d)[b],
        forall|a: int|
            0 <= a < reports_after(init, polled, d).len() ==> 1 <= #[trigger] reports_after(
                init,
                polled,
                d,
            )[a] <= d,
    decreases d,
{
    if d > 0 {
        lemma_reports_after_bounds(init, polled, d - 1);
        let r0 = reports_after(init, polled, d - 1);
        let r = reports_after(init, polled, d);
        if report_due(d, tunables_after(init, polled, d).every) {
            assert(r == r0.push(d as u64));
            assert forall|a: int, b: int| 0 <= a < b < r.len() implies r[a] < r[b] by {
                if b < r0.len() {
                    assert(r[a] == r0[a] && r[b] == r0[b]);
                } else {
                    assert(r[b] == d as u64);
                    if a < r0.len() {
                        assert(r[a] == r0[a]);
                        assert(1 <= r0[a] <= d - 1);
                    }
                }
            }
            assert forall|a: int| 0 <= a < r.len() implies 1 <= #[trigger] r[a] <= d by {
                if a < r0.len() {
                    assert(r[a] == r0[a]);
                    assert(1 <= r0[a] <= d - 1);
                }
            }
        } else {
            assert(r == r0);
            assert forall|a: int| 0 <= a < r.len() implies 1 <= #[trigger] r[a] <= d by {
                assert(1 <= r0[a] <= d - 1);
            }
        }
    }
}

/// With the yield interval never retuned, the reports after `d`
/// dispatches are exactly the successive positive multiples of the
/// starting interval, `d / every` of them.
pub proof fn lemma_reports_after_fixed_every(
    init: Tunables,
    polled: Seq<Option<IncomingQueueMessage>>,
    d: int,
)
    requires
        0 <= d <= u64::MAX as int,
        forall|k: int|
            0 <= k < d ==> !((#[trigger] polled[k]) matches Some(
                IncomingQueueMessage::ChangeSleepIterCount(..),
            )),
    ensures
        init.every == 0 ==> reports_after(init, polled, d).len() == 0,
        init.every != 0 ==> reports_after(init, polled, d).len() == d / (init.every as int),
        forall|a: int|
            0 <= a < reports_after(init, polled, d).len() ==> #[trigger] reports_after(
                init,
                polled,
                d,
            )[a] == (a + 1) * init.every,
    decreases d,
{
    if d > 0 {
        lemma_reports_after_fixed_every(init, polled, d - 1);
        lemma_every_stable(init, polled, d);
        let every = init.every as int;
        if every != 0 {
            vstd::arithmetic::div_mod::lemma_fundamental_div_mod(d, every);
            let q = d / every;
            let r = d % every;
            if r == 0 {
                assert(d == q * every);
                assert(q >= 1) by (nonlinear_arith)
                    requires
                        d == q * every,
                        d >= 1,
                        every >= 1,
                ;
                assert(d - 1 == (q - 1) * every + (every - 1)) by (nonlinear_arith)
                    requires
                        d == q * every,
                ;
                vstd::arithmetic::div_mod::lemma_fundamental_div_mod_converse(
                    d - 1,
                    every,
                    q - 1,
                    every - 1,
                );
                assert((d - 1) / every == q - 1);
                assert(report_due(d, tunables_after(init, polled, d).every));
                assert(reports_after(init, polled, d) == reports_after(init, polled, d - 1).push(
                    d as u64,
                ));
                assert forall|a: int| 0 <= a < reports_after(init, polled, d).len() implies #[trigger] reports_after(
                    init,
                    polled,
                    d,
                )[a] == (a + 1) * init.every by {
                    if a < q - 1 {
                        assert(reports_after(init, polled, d)[a] == reports_after(
                            init,
                            polled,
                            d - 1,
                        )[a]);
                    } else {
                        assert(a == q - 1);
                        assert(reports_after(init, polled, d)[a] == d as u64);
                        assert(d == q * every);
                    }
                }
            } else {
                assert(d - 1 == q * every + (r - 1)) by (nonlinear_arith)
                    requires
                        d == q * every + r,
                ;
                vstd::arithmetic::div_mod::lemma_fundamental_div_mod_converse(
                    d - 1,
                    every,
                    q,
                    r - 1,
                );
                assert((d - 1) / every == q);
                assert(!report_due(d, tunables_after(init, polled, d).every));
            }
        }
    }
}

/// Entries built from two batches whose times all lie at or above `t`
/// keep that lower bound.
proof fn lemma_extend_entries_lower_bound<TArgs>(
    s: Seq<Entry<TArgs>>,
    batch: Seq<Entry<TArgs>>,
    t: u64,
)
    requires
        time_sorted(s),
        forall|i: int| 0 <= i < s.len() ==> (#[trigger] s[i]).1 >= t,
        forall|i: int| 0 <= i < batch.len() ==> (#[trigger] batch[i]).1 >= t,
    ensures
        forall|i: int|
            0 <= i < extend_entries(s, batch).len() ==> (#[trigger] extend_entries(s, batch)[i]).1
                >= t,
{
    let r = extend_entries(s, batch);
    lemma_extend_entries(s, batch);
    assert forall|i: int| 0 <= i < r.len() implies (#[trigger] r[i]).1 >= t by {
        assert(r.contains(r[i]));
        assert(r.to_multiset().count(r[i]) > 0);
        assert(s.to_multiset().count(r[i]) + batch.to_multiset().count(r[i]) > 0);
        if s.to_multiset().count(r[i]) > 0 {
            assert(s.contains(r[i]));
            let k = choose|k: int| 0 <= k < s.len() && s[k] == r[i];
            assert(s[k].1 >= t);
        } else {
            assert(batch.contains(r[i]));
            let k = choose|k: int| 0 <= k < batch.len() && batch[k] == r[i];
            assert(batch[k].1 >= t);
        }
    }
}

/// Queue shape along a run whose handlers never schedule into the past:
/// every reached queue state is time-sorted, every entry pending after
/// dispatch `k` is due no earlier than that dispatch, and the dispatch
/// times seen so far are non-decreasing.
proof fn lemma_run_queue_states<A: Agent>(
    log: RunLog<A>,
    seed: Seq<Entry<A::TArgs>>,
    result: Result<(), EventEngineError>,
    k: int,
)
    requires
        run_consistent(log, seed, result),
        forall|j: int, m: int|
            0 <= j < log.batches.len() && 0 <= m < log.batches[j].len()
                ==> (#[trigger] log.batches[j][m]).1 >= log.popped[j].1,
        0 <= k <= log.batches.len(),
    ensures
        time_sorted(log.queues[k]),
        k > 0 ==> forall|i: int|
            0 <= i < (#[trigger] log.queues[k]).len() ==> log.queues[k][i].1 >= log.popped[k - 1].1,
        forall|a: int, b: int| 0 <= a <= b < k ==> log.popped[a].1 <= log.popped[b].1,
    decreases k,
{
    if k == 0 {
        lemma_extend_entries(Seq::<Entry<A::TArgs>>::empty(), seed);
    } else {
        lemma_run_queue_states(log, seed, result, k - 1);
        let prev = log.queues[k - 1];
        let tail = prev.drop_first();
        let batch = log.batches[k - 1];
        assert(log.queues[k] == extend_entries(tail, batch));
        assert(log.popped[k - 1] == prev[0]);
        assert(time_sorted(tail)) by {
            assert(forall|i: int| 0 <= i < tail.len() ==> tail[i] == prev[i + 1]);
        }
        assert(forall|i: int| 0 <= i < tail.len() ==> (#[trigger] tail[i]).1 >= prev[0].1) by {
            assert(forall|i: int| 0 <= i < tail.len() ==> tail[i] == prev[i + 1]);
        }
        assert(forall|m: int| 0 <= m < batch.len() ==> (#[trigger] batch[m]).1 >= prev[0].1);
        lemma_extend_entries(tail, batch);
        lemma_extend_entries_lower_bound(tail, batch, prev[0].1);
        if k - 1 > 0 {
            assert(prev[0].1 >= log.popped[k - 2].1);
        }
        assert forall|a: int, b: int| 0 <= a <= b < k implies log.popped[a].1 <= log.popped[b].1 by {
            if b < k - 1 {
            } else if a < k - 1 {
                assert(log.popped[a].1 <= log.popped[k - 2].1);
            }
        }
    }
}

/// Every queue state a run reaches is in ascending time order.
pub proof fn lemma_queue_sorted_at<A: Agent>(
    log: RunLog<A>,
    seed: Seq<Entry<A::TArgs>>,
    result: Result<(), EventEngineError>,
    k: int,
)
    requires
        run_consistent(log, seed, result),
        0 <= k <= log.batches.len(),
    ensures
        time_sorted(log.queues[k]),
    decreases k,
{
    if k == 0 {
        lemma_extend_entries(Seq::<Entry<A::TArgs>>::empty(), seed);
    } else {
        lemma_queue_sorted_at(log, seed, result, k - 1);
        let prev = log.queues[k - 1];
        let tail = prev.drop_first();
        assert(time_sorted(tail)) by {
            assert(forall|i: int| 0 <= i < tail.len() ==> tail[i] == prev[i + 1]);
        }
        lemma_extend_entries(tail, log.batches[k - 1]);
    }
}

/// The earliest-time entry is always the one dispatched next: at every
/// dispatch, the popped entry is due no later than anything then
/// pending.
pub proof fn lemma_earliest_first<A: Agent>(
    log: RunLog<A>,
    seed: Seq<Entry<A::TArgs>>,
    result: Result<(), EventEngineError>,
    k: int,
)
    requires
        run_consistent(log, seed, result),
        0 <= k < log.batches.len(),
    ensures
        forall|i: int|
            0 <= i < log.queues[k].len() ==> log.popped[k].1 <= (#[trigger] log.queues[k][i]).1,
{
    lemma_queue_sorted_at(log, seed, result, k);
    assert(log.popped[k] == log.queues[k][0]);
}

/// Consecutive dispatch times never decrease, provided no handler
/// scheduled an entry earlier than the dispatch that produced it. (A
/// handler may legally do so; then the queue simply orders the past
/// entry first and this bound does not apply.)
pub proof fn lemma_dispatch_times_monotone<A: Agent>(
    log: RunLog<A>,
    seed: Seq<Entry<A::TArgs>>,
    result: Result<(), EventEngineError>,
)
    requires
        run_consistent(log, seed, result),
        forall|j: int, m: int|
            0 <= j < log.batches.len() && 0 <= m < log.batches[j].len()
                ==> (#[trigger] log.batches[j][m]).1 >= log.popped[j].1,
    ensures
        forall|a: int, b: int|
            0 <= a <= b < log.batches.len() ==> log.popped[a].1 <= log.popped[b].1,
{
    lemma_run_queue_states(log, seed, result, log.batches.len() as int);
}

/// A run that ended at the dispatch bound, with the bound never retuned
/// and no halt polled, dispatched exactly `init.max_iter` events.
pub proof fn lemma_max_iter_exact<A: Agent>(
    log: RunLog<A>,
    seed: Seq<Entry<A::TArgs>>,
    result: Result<(), EventEngineError>,
)
    requires
        run_consistent(log, seed, result),
        forall|k: int|
            0 <= k < log.polled.len() ==> !((#[trigger] log.polled[k]) matches Some(
                IncomingQueueMessage::ChangeMaxIter(..),
            )),
        log.cause == TermCause::MaxIterReached,
    ensures
        log.batches.len() == log.init.max_iter,
        log.popped.len() == log.init.max_iter,
        result == Ok::<(), EventEngineError>(()),
{
    let d = log.batches.len() as int;
    lemma_max_iter_stable(log.init, log.polled, d + 1);
    if d > 0 {
        assert(d - 1 < tunables_after(log.init, log.polled, (d - 1) + 1).max_iter as int);
        assert(d - 1 < tunables_after(log.init, log.polled, d).max_iter as int);
        lemma_max_iter_stable(log.init, log.polled, d);
    }
}

/// A successful run that polled no halt and no retune of the dispatch
/// bound, and whose queue never ran dry, dispatched exactly the starting
/// bound's worth of events.
pub proof fn lemma_nonempty_run_dispatches_exactly_max<A: Agent>(
    log: RunLog<A>,
    seed: Seq<Entry<A::TArgs>>,
    result: Result<(), EventEngineError>,
)
    requires
        run_consistent(log, seed, result),
        forall|k: int| 0 <= k < log.polled.len() ==> (#[trigger] log.polled[k]) != Some(IncomingQueueMessage::Halt),
        forall|k: int|
            0 <= k < log.polled.len() ==> !((#[trigger] log.polled[k]) matches Some(
                IncomingQueueMessage::ChangeMaxIter(..),
            )),
        forall|k: int| 0 <= k < log.queues.len() ==> (#[trigger] log.queues[k]).len() > 0,
        result == Ok::<(), EventEngineError>(()),
    ensures
        log.batches.len() == log.init.max_iter,
{
    let d = log.batches.len() as int;
    match log.cause {
        TermCause::MaxIterReached => {
            lemma_max_iter_exact(log, seed, result);
        },
        TermCause::Halted => {
            assert(log.polled[d] == Some(IncomingQueueMessage::Halt));
        },
        TermCause::QueueEmpty => {
            assert(log.queues[d].len() == 0);
        },
        _ => {
        },
    }
}

/// With the dispatch bound zero at start and not retuned, no handler is
/// ever invoked and the run terminates successfully (unless even the
/// `Started` report could not be delivered).
pub proof fn lemma_zero_max_iter<A: Agent>(
    log: RunLog<A>,
    seed: Seq<Entry<A::TArgs>>,
    result: Result<(), EventEngineError>,
)
    requires
        run_consistent(log, seed, result),
        log.init.max_iter == 0,
        forall|k: int|
            0 <= k < log.polled.len() ==> !((#[trigger] log.polled[k]) matches Some(
                IncomingQueueMessage::ChangeMaxIter(..),
            )),
        log.cause != TermCause::StartSendFailed,
    ensures
        log.batches.len() == 0,
        log.popped.len() == 0,
        result == Ok::<(), EventEngineError>(()),
{
    let d = log.batches.len() as int;
    if d > 0 {
        assert(0 < tunables_after(log.init, log.polled, 1int).max_iter as int);
        lemma_max_iter_stable(log.init, log.polled, 1);
    }
    match log.cause {
        TermCause::QueueEmpty => {
            lemma_max_iter_stable(log.init, log.polled, d + 1);
        },
        TermCause::NoAgent => {
            lemma_max_iter_stable(log.init, log.polled, d + 1);
        },
        TermCause::ReportSendFailed => {
        },
        _ => {
        },
    }
}

/// The outbound sequence of a run: `Started` precedes every report,
/// report values are strictly increasing and never exceed the dispatch
/// count, and with the yield interval never retuned they are exactly the
/// successive multiples of the starting interval.
pub proof fn lemma_report_sequence<A: Agent>(
    log: RunLog<A>,
    seed: Seq<Entry<A::TArgs>>,
    result: Result<(), EventEngineError>,
)
    requires
        run_consistent(log, seed, result),
    ensures
        log.cause != TermCause::StartSendFailed ==> log.started,
        log.reports.len() > 0 ==> log.started,
        forall|a: int, b: int| 0 <= a < b < log.reports.len() ==> log.reports[a] < log.reports[b],
        forall|a: int|
            0 <= a < log.reports.len() ==> 1 <= #[trigger] log.reports[a] <= log.batches.len(),
        (forall|k: int|
            0 <= k < log.polled.len() ==> !((#[trigger] log.polled[k]) matches Some(
                IncomingQueueMessage::ChangeSleepIterCount(..),
            ))) ==> forall|a: int|
            0 <= a < log.reports.len() ==> #[trigger] log.reports[a] == (a + 1) * log.init.every,
{
    let d = log.batches.len() as int;
    match log.cause {
        TermCause::ReportSendFailed => {
            lemma_reports_after_bounds(log.init, log.polled, d - 1);
            if forall|k: int|
                0 <= k < log.polled.len() ==> !((#[trigger] log.polled[k]) matches Some(
                    IncomingQueueMessage::ChangeSleepIterCount(..),
                )) {
                lemma_reports_after_fixed_every(log.init, log.polled, d - 1);
            }
        },
        _ => {
            lemma_reports_after_bounds(log.init, log.polled, d);
            if forall|k: int|
                0 <= k < log.polled.len() ==> !((#[trigger] log.polled[k]) matches Some(
                    IncomingQueueMessage::ChangeSleepIterCount(..),
                )) {
                lemma_reports_after_fixed_every(log.init, log.polled, d);
            }
        },
    }
}

/// An event targeting an unknown identity is fatal, and only that: the
/// run fails with `EventHasNoAgent` exactly when the last popped entry's
/// target is unregistered, and every dispatched entry's target was
/// registered.
pub proof fn lemma_unknown_target<A: Agent>(
    log: RunLog<A>,
    seed: Seq<Entry<A::TArgs>>,
    result: Result<(), EventEngineError>,
)
    requires
        run_consistent(log, seed, result),
    ensures
        (result == Err::<(), EventEngineError>(EventEngineError::EventHasNoAgent)) <==> (
        log.cause == TermCause::NoAgent),
        log.cause == TermCause::NoAgent ==> {
            &&& log.popped.len() == log.batches.len() + 1
            &&& !log.ids.contains(log.popped[log.popped.len() - 1].0.agent)
        },
        forall|k: int|
            0 <= k < log.batches.len() ==> log.ids.contains(
                (#[trigger] log.popped[k]).0.agent,
            ),
{
    assert forall|k: int| 0 <= k < log.batches.len() implies log.ids.contains(
        (#[trigger] log.popped[k]).0.agent,
    ) by {
        assert(log.queues[k].len() > 0);
    }
}

/// A `Halt` polled at iteration `k` stops the run before the
/// `(k + 1)`-th dispatch: at most `k` events are dispatched after it was
/// sent.
pub proof fn lemma_halt_stops<A: Agent>(
    log: RunLog<A>,
    seed: Seq<Entry<A::TArgs>>,
    result: Result<(), EventEngineError>,
    k: int,
)
    requires
        run_consistent(log, seed, result),
        0 <= k < log.polled.len(),
        log.polled[k] == Some(IncomingQueueMessage::Halt),
    ensures
        log.batches.len() <= k,
        log.popped.len() <= k + 1,
{
    if log.batches.len() > k {
        assert(log.polled[k] != Some(IncomingQueueMessage::Halt));
    }
}

/// Applying the same retune message twice in a row has the same effect
/// on the tunables as applying it once.
pub proof fn lemma_retune_idempotent(t: Tunables, m: IncomingQueueMessage)
    ensures
        apply_message(apply_message(t, m), m) == apply_message(t, m),
{
}

/// An entry found at two distinct positions occurs at least twice in the
/// contents.
proof fn lemma_two_indices_count<TArgs>(s: Seq<Entry<TArgs>>, i: int, j: int)
    requires
        0 <= i < j < s.len(),
        s[i] == s[j],
    ensures
        s.to_multiset().count(s[i]) >= 2,
{
    let rest = s.remove(j);
    assert(s.remove(j).to_multiset() == s.to_multiset().remove(s[j]));
    assert(rest[i] == s[i]);
    assert(rest.contains(s[i]));
    assert(rest.to_multiset().count(s[i]) > 0);
}

/// An entry that occurs at least twice sits at two distinct positions.
proof fn lemma_count_two_indices<TArgs>(s: Seq<Entry<TArgs>>, x: Entry<TArgs>) -> (r: (int, int))
    requires
        s.to_multiset().count(x) >= 2,
    ensures
        0 <= r.0 < s.len(),
        0 <= r.1 < s.len(),
        r.0 != r.1,
        s[r.0] == x,
        s[r.1] == x,
{
    assert(s.contains(x));
    let a = choose|a: int| 0 <= a < s.len() && s[a] == x;
    let rest = s.remove(a);
    assert(s.remove(a).to_multiset() == s.to_multiset().remove(x));
    assert(rest.to_multiset().count(x) > 0);
    assert(rest.contains(x));
    let b0 = choose|b0: int| 0 <= b0 < rest.len() && rest[b0] == x;
    let b = if b0 < a {
        b0
    } else {
        b0 + 1
    };
    assert(s[b] == rest[b0]);
    (a, b)
}

/// Pairwise-distinct times survive any reordering of the entries.
proof fn lemma_multiset_distinct_times<TArgs>(s1: Seq<Entry<TArgs>>, s2: Seq<Entry<TArgs>>)
    requires
        distinct_times(s1),
        s1.to_multiset() == s2.to_multiset(),
    ensures
        distinct_times(s2),
{
    assert forall|i: int, j: int| 0 <= i < j < s2.len() implies s2[i].1 != s2[j].1 by {
        if s2[i].1 == s2[j].1 {
            if s2[i] == s2[j] {
                lemma_two_indices_count(s2, i, j);
                let (a, b) = lemma_count_two_indices(s1, s2[i]);
                assert(s1[a].1 == s1[b].1);
            } else {
                assert(s2.contains(s2[i]) && s2.contains(s2[j]));
                assert(s1.to_multiset().count(s2[i]) > 0);
                assert(s1.to_multiset().count(s2[j]) > 0);
                let a = choose|a: int| 0 <= a < s1.len() && s1[a] == s2[i];
                let b = choose|b: int| 0 <= b < s1.len() && s1[b] == s2[j];
                assert(a != b);
                assert(s1[a].1 == s1[b].1);
            }
        }
    }
}

/// Whether two runs' handlers answered alike: whenever the same entries
/// had been popped so far, the handler of the next dispatch returned the
/// same batch. Handlers that compute from their own state and the
/// dispatched entry alone satisfy this.
pub open spec fn handlers_agree<A: Agent>(log1: RunLog<A>, log2: RunLog<A>) -> bool {
    forall|j: int|
        0 <= j < log1.batches.len() && j < log2.batches.len() && log1.popped.take(j + 1)
            == log2.popped.take(j + 1) ==> (#[trigger] log1.batches[j]) == log2.batches[j]
}

/// Two consistent runs from the same starting queue, registry and
/// control timeline agree step by step while both are dispatching.
proof fn lemma_runs_agree_prefix<A: Agent>(
    log1: RunLog<A>,
    seed1: Seq<Entry<A::TArgs>>,
    r1: Result<(), EventEngineError>,
    log2: RunLog<A>,
    seed2: Seq<Entry<A::TArgs>>,
    r2: Result<(), EventEngineError>,
    k: int,
)
    requires
        run_consistent(log1, seed1, r1),
        run_consistent(log2, seed2, r2),
        log1.queues[0] == log2.queues[0],
        log1.ids == log2.ids,
        log1.polled == log2.polled,
        handlers_agree(log1, log2),
        0 <= k <= log1.batches.len(),
        k <= log2.batches.len(),
    ensures
        forall|j: int| 0 <= j <= k ==> #[trigger] log1.queues[j] == log2.queues[j],
        forall|j: int| 0 <= j < k ==> #[trigger] log1.popped[j] == log2.popped[j],
        forall|j: int| 0 <= j < k ==> #[trigger] log1.batches[j] == log2.batches[j],
        log1.popped.take(k) == log2.popped.take(k),
    decreases k,
{
    if k == 0 {
        assert(log1.popped.take(0) =~= log2.popped.take(0));
    } else {
        lemma_runs_agree_prefix(log1, seed1, r1, log2, seed2, r2, k - 1);
        assert(log1.queues[k - 1] == log2.queues[k - 1]);
        assert(log1.popped[k - 1] == log1.queues[k - 1][0]);
        assert(log2.popped[k - 1] == log2.queues[k - 1][0]);
        assert(log1.popped.take(k) =~= log2.popped.take(k)) by {
            assert(forall|j: int|
                0 <= j < k - 1 ==> #[trigger] log1.popped[j] == log2.popped[j]);
        }
        assert(log1.batches[k - 1] == log2.batches[k - 1]) by {
            assert(log1.popped.take((k - 1) + 1) == log2.popped.take((k - 1) + 1));
        }
        assert(log1.queues[k] == extend_entries(
            log1.queues[k - 1].drop_first(),
            log1.batches[k - 1],
        ));
        assert(log2.queues[k] == extend_entries(
            log2.queues[k - 1].drop_first(),
            log2.batches[k - 1],
        ));
    }
}

/// A consistent run cannot stop dispatching strictly earlier than
/// another one that saw the same starting queue, registry and control
/// timeline and whose handlers answered alike.
proof fn lemma_run_not_shorter<A: Agent>(
    log1: RunLog<A>,
    seed1: Seq<Entry<A::TArgs>>,
    r1: Result<(), EventEngineError>,
    log2: RunLog<A>,
    seed2: Seq<Entry<A::TArgs>>,
    r2: Result<(), EventEngineError>,
)
    requires
        run_consistent(log1, seed1, r1),
        run_consistent(log2, seed2, r2),
        log1.init == log2.init,
        log1.queues[0] == log2.queues[0],
        log1.ids == log2.ids,
        log1.polled == log2.polled,
        handlers_agree(log1, log2),
    ensures
        log1.batches.len() >= log2.batches.len(),
{
    let d1 = log1.batches.len() as int;
    let d2 = log2.batches.len() as int;
    if d1 < d2 {
        lemma_runs_agree_prefix(log1, seed1, r1, log2, seed2, r2, d1);
        assert(log2.queues[d1].len() > 0);
        assert(log2.popped[d1] == log2.queues[d1][0]);
        assert(log2.polled[d1] != Some(IncomingQueueMessage::Halt));
        assert(d1 < tunables_after(log2.init, log2.polled, d1 + 1).max_iter as int);
        match log1.cause {
            TermCause::Halted => {
                assert(log1.polled[d1] == Some(IncomingQueueMessage::Halt));
            },
            TermCause::MaxIterReached => {
                assert(d1 >= tunables_after(log1.init, log1.polled, d1 + 1).max_iter as int);
            },
            TermCause::QueueEmpty => {
                assert(log1.queues[d1].len() == 0);
                assert(log1.queues[d1] == log2.queues[d1]);
            },
            TermCause::NoAgent => {
                assert(log1.popped[d1] == log1.queues[d1][0]);
                assert(!log1.ids.contains(log1.popped[d1].0.agent));
                assert(log1.queues[d1] == log2.queues[d1]);
                assert(log2.ids.contains(log2.popped[d1].0.agent));
            },
            TermCause::ReportSendFailed => {
                assert(log1.polled.len() == d1);
                assert(log2.polled.len() >= d2);
            },
            TermCause::StartSendFailed => {
                assert(log1.polled.len() == 0);
                assert(log2.polled.len() >= d2);
            },
        }
    }
}

/// Seeding the queue with the same entries in any order produces the
/// same run: two consistent runs whose seeds hold the same entries, none
/// of them sharing a scheduled time, from the same starting tunables,
/// registry and control timeline, and whose handlers answered alike,
/// dispatch the same entries in the same order, deliver the same
/// reports, and end the same way.
pub proof fn lemma_seed_order_irrelevant<A: Agent>(
    log1: RunLog<A>,
    seed1: Seq<Entry<A::TArgs>>,
    r1: Result<(), EventEngineError>,
    log2: RunLog<A>,
    seed2: Seq<Entry<A::TArgs>>,
    r2: Result<(), EventEngineError>,
)
    requires
        run_consistent(log1, seed1, r1),
        run_consistent(log2, seed2, r2),
        seed1.to_multiset() == seed2.to_multiset(),
        distinct_times(seed1),
        log1.init == log2.init,
        log1.ids == log2.ids,
        log1.polled == log2.polled,
        handlers_agree(log1, log2),
    ensures
        log1.batches.len() == log2.batches.len(),
        log1.popped == log2.popped,
        log1.batches == log2.batches,
        log1.queues == log2.queues,
        log1.reports == log2.reports,
        log1.started == log2.started,
        log1.cause == log2.cause,
        r1 == r2,
{
    let sorted1 = extend_entries(Seq::<Entry<A::TArgs>>::empty(), seed1);
    let sorted2 = extend_entries(Seq::<Entry<A::TArgs>>::empty(), seed2);
    lemma_extend_entries(Seq::<Entry<A::TArgs>>::empty(), seed1);
    lemma_extend_entries(Seq::<Entry<A::TArgs>>::empty(), seed2);
    assert(sorted1.to_multiset() =~= seed1.to_multiset());
    assert(sorted2.to_multiset() =~= seed2.to_multiset());
    lemma_multiset_distinct_times(seed1, sorted1);
    lemma_sorted_contents_unique(sorted1, sorted2);
    assert(log1.queues[0] == log2.queues[0]);
    // symmetric handler agreement, for the symmetric application below
    assert(handlers_agree(log2, log1)) by {
        assert forall|j: int|
            0 <= j < log2.batches.len() && j < log1.batches.len() && log2.popped.take(j + 1)
                == log1.popped.take(j + 1) implies (#[trigger] log2.batches[j])
            == log1.batches[j] by {
            assert(log1.popped.take(j + 1) == log2.popped.take(j + 1));
        }
    }
    lemma_run_not_shorter(log1, seed1, r1, log2, seed2, r2);
    lemma_run_not_shorter(log2, seed2, r2, log1, seed1, r1);
    let d = log1.batches.len() as int;
    assert(log2.batches.len() == d);
    lemma_runs_agree_prefix(log1, seed1, r1, log2, seed2, r2, d);
    assert(log1.batches =~= log2.batches);
    assert forall|j: int| 0 <= j <= d implies #[trigger] log1.queues[j] == log2.queues[j] by {}
    assert(log1.queues =~= log2.queues);
    // the terminal iteration falls the same way for both runs
    if log1.polled.len() == 0 {
        assert(log1.cause == TermCause::StartSendFailed);
        assert(log2.cause == TermCause::StartSendFailed);
        assert(log1.popped =~= log2.popped);
    } else if log1.polled.len() == d {
        assert(log1.cause == TermCause::ReportSendFailed);
        assert(log2.cause == TermCause::ReportSendFailed);
        assert(log1.popped =~= log2.popped);
    } else {
        assert(log1.polled.len() == d + 1);
        assert(log2.polled.len() == d + 1);
        if log1.polled[d] == Some(IncomingQueueMessage::Halt) {
            assert(log1.cause == TermCause::Halted);
            assert(log2.cause == TermCause::Halted);
            assert(log1.popped =~= log2.popped);
        } else if d >= tunables_after(log1.init, log1.polled, d + 1).max_iter as int {
            assert(log1.cause == TermCause::MaxIterReached);
            assert(log2.cause == TermCause::MaxIterReached);
            assert(log1.popped =~= log2.popped);
        } else if log1.queues[d].len() == 0 {
            assert(log1.cause == TermCause::QueueEmpty);
            assert(log2.cause == TermCause::QueueEmpty);
            assert(log1.popped =~= log2.popped);
        } else {
            assert(log1.cause == TermCause::NoAgent);
            assert(log2.cause == TermCause::NoAgent);
            assert(log1.popped[d] == log1.queues[d][0]);
            assert(log2.popped[d] == log2.queues[d][0]);
            assert(log1.popped =~= log2.popped);
        }
    }
}

} // verus!
