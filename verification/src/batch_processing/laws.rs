//! What holds of the engine whatever happens to it.

use crate::batch_processing::config::BatchError;
use crate::batch_processing::config::BatchProcessorConfig;
use crate::batch_processing::engine::EngineState;
use crate::batch_processing::engine::Event;
use crate::batch_processing::invariants::lemma_cancel_inv;
use crate::batch_processing::invariants::lemma_complete_inv;
use crate::batch_processing::invariants::lemma_expire_each_inv;
use crate::batch_processing::invariants::lemma_expire_inv;
use crate::batch_processing::invariants::lemma_initial_inv;
use crate::batch_processing::invariants::lemma_insertion_point;
use crate::batch_processing::invariants::lemma_inv_lookups;
use crate::batch_processing::invariants::lemma_push_lookup;
use crate::batch_processing::invariants::lemma_replace_lookups;
use crate::batch_processing::invariants::lemma_report_progress_inv;
use crate::batch_processing::invariants::lemma_requeue_inv;
use crate::batch_processing::invariants::lemma_retained;
use crate::batch_processing::invariants::lemma_retained_keeps;
use crate::batch_processing::invariants::lemma_submit_inv;
use crate::batch_processing::invariants::lemma_sweep_inv;
use crate::batch_processing::invariants::lemma_tick_inv;
use crate::batch_processing::engine::count_of;
use crate::batch_processing::engine::count_upto;
use crate::batch_processing::engine::insertion_point;
use crate::batch_processing::engine::is_stale;
use crate::batch_processing::engine::yields_to;
use crate::batch_processing::engine::slot_ids;
use crate::batch_processing::job::completed_in;
use crate::batch_processing::job::index_of;
use crate::batch_processing::job::job_ids;
use crate::batch_processing::job::lemma_index_of;
use crate::batch_processing::lookup::lemma_position;
use crate::batch_processing::lookup::position;
use crate::batch_processing::job::record;
use crate::batch_processing::job::tracks;
use crate::batch_processing::job::JobModel;
use crate::batch_processing::job::JobStatus;
use crate::batch_processing::job::Outcome;
use crate::time::Timestamp;
use vstd::prelude::*;

verus! {

/// Whatever happens, a consistent engine stays consistent and keeps its
/// configuration.
pub proof fn lemma_step_inv(s: EngineState, event: Event)
    requires
        s.inv(),
    ensures
        s.step(event).inv(),
        s.step(event).config == s.config,
{
    match event {
        Event::Submit(job) => lemma_submit_inv(s, job),
        Event::Cancel(id, now) => lemma_cancel_inv(s, id, now),
        Event::Tick(now) => lemma_tick_inv(s, now),
        Event::Report(id, outcome, now) => lemma_complete_inv(s, id, outcome, now),
        Event::Requeue(id) => lemma_requeue_inv(s, id),
        Event::Expire(id, now) => lemma_expire_inv(s, id, now),
        Event::EnforceTimeouts(now) => lemma_expire_each_inv(s, slot_ids(s.running), now),
        Event::Progress(id, progress) => lemma_report_progress_inv(s, id, progress),
        Event::Sweep(now) => lemma_sweep_inv(s, now),
    }
}

/// Every state that an engine reaches from a consistent one is consistent.
pub proof fn lemma_run_inv(s: EngineState, events: Seq<Event>)
    requires
        s.inv(),
    ensures
        s.run(events).inv(),
        s.run(events).config == s.config,
    decreases events.len(),
{
    if events.len() > 0 {
        lemma_run_inv(s, events.drop_last());
        lemma_step_inv(s.run(events.drop_last()), events.last());
    }
}

/// Utilization bound: whatever has happened since the engine was created,
/// the number of running jobs does not exceed `max_concurrent_jobs`, nor does
/// the number of tracked jobs exceed `max_queue_size`, and the utilization
/// reported is at most 100 percent.
pub proof fn lemma_utilization_bound(
    config: BatchProcessorConfig,
    events: Seq<Event>,
    now: Timestamp,
)
    ensures
        EngineState::initial(config).run(events).running.len() <= config.max_concurrent_jobs,
        EngineState::initial(config).run(events).stats(now).running_jobs
            <= config.max_concurrent_jobs,
        EngineState::initial(config).run(events).stats(now).worker_utilization <= 100,
        EngineState::initial(config).run(events).jobs.len() <= config.max_queue_size,
{
    lemma_initial_inv(config);
    lemma_run_inv(EngineState::initial(config), events);
    let s = EngineState::initial(config).run(events);
    let used = s.running.len() as int;
    let capacity = config.max_concurrent_jobs as int;
    if capacity > 0 {
        assert(used * 100 / capacity <= 100) by (nonlinear_arith)
            requires
                0 <= used <= capacity,
                capacity > 0,
        ;
    }
}

/// Terminal immutability: the record of a job that is `Completed`, `Failed`
/// or `Cancelled` stays exactly as it is whatever happens, until a sweep
/// drops it.
pub proof fn lemma_terminal_is_final(s: EngineState, event: Event, id: Seq<char>)
    requires
        s.inv(),
        s.tracks(id),
        s.job(id).status.spec_is_terminal(),
    ensures
        (s.step(event).tracks(id) && s.step(event).job(id) == s.job(id)) || (event is Sweep
            && !s.step(event).tracks(id)),
{
    lemma_inv_lookups(s);
    let t = s.step(event);
    match event {
        Event::Submit(job) => {
            if s.submit_error(job) is None {
                lemma_push_lookup(s.jobs, job.admitted(), id);
            }
        },
        Event::Cancel(other, now) => {
            if s.tracks(other) && s.job(other).status == JobStatus::Queued {
                lemma_replace_lookups(s, other, s.job(other).cancelled(now));
            }
        },
        Event::Tick(now) => {
            if s.next_dispatch() is Some {
                let other = s.queue[0];
                lemma_replace_lookups(s, other, s.job(other).dispatched(now));
            }
        },
        Event::Report(other, outcome, now) => {
            lemma_frozen_by_report(s, other, outcome, now, id);
        },
        Event::Requeue(other) => {},
        Event::Expire(other, now) => {
            if s.timed_out(other, now) {
                lemma_frozen_by_report(
                    s,
                    other,
                    Outcome::Failure(crate::batch_processing::job::timeout_message()),
                    now,
                    id,
                );
            }
        },
        Event::EnforceTimeouts(now) => {
            lemma_frozen_by_expiries(s, slot_ids(s.running), now, id);
        },
        Event::Progress(other, progress) => {
            if s.tracks(other) && s.job(other).status == JobStatus::Running {
                lemma_replace_lookups(s, other, JobModel { progress, ..s.job(other) });
            }
        },
        Event::Sweep(now) => {
            let hours = s.config.cleanup_completed_jobs_after_hours;
            if !is_stale(s.job(id), now, hours) {
                lemma_retained_keeps(s.jobs, now, hours, id);
            } else if t.tracks(id) {
                crate::batch_processing::invariants::lemma_retained_was_tracked(
                    s.jobs,
                    now,
                    hours,
                    id,
                );
            }
        },
    }
}

/// Enforcing time limits leaves the record of every job in a final state as
/// it is.
proof fn lemma_frozen_by_expiries(s: EngineState, ids: Seq<Seq<char>>, now: Timestamp, id: Seq<char>)
    requires
        s.inv(),
        s.tracks(id),
        s.job(id).status.spec_is_terminal(),
    ensures
        s.expire_each(ids, now).tracks(id),
        s.expire_each(ids, now).job(id) == s.job(id),
    decreases ids.len(),
{
    if ids.len() > 0 {
        lemma_frozen_by_expiries(s, ids.drop_last(), now, id);
        let before = s.expire_each(ids.drop_last(), now);
        lemma_expire_each_inv(s, ids.drop_last(), now);
        if before.timed_out(ids.last(), now) {
            lemma_frozen_by_report(
                before,
                ids.last(),
                Outcome::Failure(crate::batch_processing::job::timeout_message()),
                now,
                id,
            );
        }
    }
}

/// A handler's report leaves the record of every job in a final state as it
/// is.
proof fn lemma_frozen_by_report(
    s: EngineState,
    other: Seq<char>,
    outcome: Outcome,
    now: Timestamp,
    id: Seq<char>,
)
    requires
        s.inv(),
        s.tracks(id),
        s.job(id).status.spec_is_terminal(),
    ensures
        s.complete(other, outcome, now).tracks(id),
        s.complete(other, outcome, now).job(id) == s.job(id),
{
    lemma_inv_lookups(s);
    if s.occupies_slot(other) && s.tracks(other) {
        lemma_position(slot_ids(s.running), other);
        assert(slot_ids(s.running).contains(other));
        assert(record(s.jobs, other).status == JobStatus::Running);
        lemma_replace_lookups(s, other, s.job(other).finished(outcome, now));
    }
}

/// Dependency gating: whatever happens, a job that is `Running` afterwards
/// either was `Running` before or is the job that a tick of the scheduler
/// dispatched, and then it was ready: `Queued`, with every dependency
/// tracked and `Completed`.
pub proof fn lemma_running_only_when_ready(s: EngineState, event: Event, id: Seq<char>)
    requires
        s.inv(),
        s.step(event).tracks(id),
        s.step(event).job(id).status == JobStatus::Running,
    ensures
        (s.tracks(id) && s.job(id).status == JobStatus::Running) || (event is Tick
            && s.next_dispatch() == Some(id) && s.tracks(id) && s.job(id).is_ready(s.jobs)),
{
    lemma_inv_lookups(s);
    let t = s.step(event);
    match event {
        Event::Submit(job) => {
            if s.submit_error(job) is None {
                lemma_push_lookup(s.jobs, job.admitted(), id);
            }
        },
        Event::Cancel(other, now) => {
            if s.tracks(other) && s.job(other).status == JobStatus::Queued {
                lemma_replace_lookups(s, other, s.job(other).cancelled(now));
            }
        },
        Event::Tick(now) => {
            if s.next_dispatch() is Some {
                let other = s.queue[0];
                lemma_replace_lookups(s, other, s.job(other).dispatched(now));
            }
        },
        Event::Report(other, outcome, now) => {
            lemma_running_after_report(s, other, outcome, now, id);
        },
        Event::Requeue(other) => {},
        Event::Expire(other, now) => {
            if s.timed_out(other, now) {
                lemma_running_after_report(
                    s,
                    other,
                    Outcome::Failure(crate::batch_processing::job::timeout_message()),
                    now,
                    id,
                );
            }
        },
        Event::EnforceTimeouts(now) => {
            lemma_running_after_expiries(s, slot_ids(s.running), now, id);
        },
        Event::Progress(other, progress) => {
            if s.tracks(other) && s.job(other).status == JobStatus::Running {
                lemma_replace_lookups(s, other, JobModel { progress, ..s.job(other) });
            }
        },
        Event::Sweep(now) => {
            crate::batch_processing::invariants::lemma_retained_was_tracked(
                s.jobs,
                now,
                s.config.cleanup_completed_jobs_after_hours,
                id,
            );
        },
    }
}

/// A job that is `Running` after time limits were enforced was `Running`
/// before.
proof fn lemma_running_after_expiries(
    s: EngineState,
    ids: Seq<Seq<char>>,
    now: Timestamp,
    id: Seq<char>,
)
    requires
        s.inv(),
        s.expire_each(ids, now).tracks(id),
        s.expire_each(ids, now).job(id).status == JobStatus::Running,
    ensures
        s.tracks(id),
        s.job(id).status == JobStatus::Running,
    decreases ids.len(),
{
    if ids.len() > 0 {
        let before = s.expire_each(ids.drop_last(), now);
        lemma_expire_each_inv(s, ids.drop_last(), now);
        if before.timed_out(ids.last(), now) {
            lemma_running_after_report(
                before,
                ids.last(),
                Outcome::Failure(crate::batch_processing::job::timeout_message()),
                now,
                id,
            );
        }
        lemma_running_after_expiries(s, ids.drop_last(), now, id);
    }
}

/// A job that is `Running` after a handler's report was `Running` before.
proof fn lemma_running_after_report(
    s: EngineState,
    other: Seq<char>,
    outcome: Outcome,
    now: Timestamp,
    id: Seq<char>,
)
    requires
        s.inv(),
        s.complete(other, outcome, now).tracks(id),
        s.complete(other, outcome, now).job(id).status == JobStatus::Running,
    ensures
        s.tracks(id),
        s.job(id).status == JobStatus::Running,
{
    lemma_inv_lookups(s);
    if s.occupies_slot(other) && s.tracks(other) {
        lemma_position(slot_ids(s.running), other);
        assert(slot_ids(s.running).contains(other));
        assert(record(s.jobs, other).status == JobStatus::Running);
        lemma_replace_lookups(s, other, s.job(other).finished(outcome, now));
    }
}

/// Dependency gating, the other way round: once every dependency of a
/// pending job is tracked and `Completed` the job is ready, and a tick that
/// finds it at the head of the queue while a slot is free dispatches it: it
/// is `Running` afterwards, in a slot, and gone from the queue.
pub proof fn lemma_ready_head_is_dispatched(s: EngineState, now: Timestamp)
    requires
        s.inv(),
        s.has_capacity(),
        s.queue.len() > 0,
        forall|k: int|
            0 <= k < s.job(s.queue[0]).dependencies.len() ==> crate::batch_processing::job::completed_in(
                s.jobs,
                #[trigger] s.job(s.queue[0]).dependencies[k],
            ),
    ensures
        s.next_dispatch() == Some(s.queue[0]),
        s.tick(now).tracks(s.queue[0]),
        s.tick(now).job(s.queue[0]) == s.job(s.queue[0]).dispatched(now),
        s.tick(now).job(s.queue[0]).status == JobStatus::Running,
        s.tick(now).occupies_slot(s.queue[0]),
        s.tick(now).queue == s.queue.drop_first(),
        !s.tick(now).queue.contains(s.queue[0]),
{
    lemma_inv_lookups(s);
    let id = s.queue[0];
    assert(s.queue.contains(id));
    lemma_tick_inv(s, now);
    lemma_replace_lookups(s, id, s.job(id).dispatched(now));
    lemma_inv_lookups(s.tick(now));
    assert(record(s.tick(now).jobs, id).status == JobStatus::Running);
    assert(slot_ids(s.tick(now).running).contains(id));
    assert(s.queue.drop_first() =~= s.queue.remove(0));
    crate::batch_processing::lookup::lemma_remove_keys(s.queue, 0);
}

/// One more round for a job that keeps asking for a retry: dispatched at
/// `dispatched_at`, its handler asks at `reported_at` for a retry for
/// `reason`.
pub struct RetryRound {
    pub dispatched_at: Timestamp,
    pub reason: Seq<char>,
    pub reported_at: Timestamp,
}

/// The record of a job after the given rounds. Only a pending job is
/// dispatched, so a round changes nothing once the job has left `Queued`.
pub open spec fn after_rounds(job: JobModel, rounds: Seq<RetryRound>) -> JobModel
    decreases rounds.len(),
{
    if rounds.len() == 0 {
        job
    } else {
        let before = after_rounds(job, rounds.drop_last());
        if before.status == JobStatus::Queued {
            before.dispatched(rounds.last().dispatched_at).finished(
                Outcome::Retry(rounds.last().reason),
                rounds.last().reported_at,
            )
        } else {
            before
        }
    }
}

/// How often the job was executed in the given rounds.
pub open spec fn executions(job: JobModel, rounds: Seq<RetryRound>) -> nat
    decreases rounds.len(),
{
    if rounds.len() == 0 {
        0
    } else {
        let before = after_rounds(job, rounds.drop_last());
        executions(job, rounds.drop_last()) + if before.status == JobStatus::Queued {
            1nat
        } else {
            0nat
        }
    }
}

/// Retry bound: a job whose handler always asks for a retry is executed
/// `max_retries + 1` times and no more. Up to `max_retries` rounds leave it
/// `Queued` with one retry counted per round; the round after that leaves it
/// `Failed` with `max_retries` retries counted, and it stays so.
pub proof fn lemma_retry_bound(job: JobModel, rounds: Seq<RetryRound>)
    requires
        job.status == JobStatus::Queued,
        job.retry_count == 0,
    ensures
        rounds.len() <= job.max_retries ==> after_rounds(job, rounds).status == JobStatus::Queued
            && after_rounds(job, rounds).retry_count == rounds.len() && executions(job, rounds)
            == rounds.len(),
        rounds.len() > job.max_retries ==> after_rounds(job, rounds).status == JobStatus::Failed
            && after_rounds(job, rounds).retry_count == job.max_retries && executions(job, rounds)
            == job.max_retries + 1,
        after_rounds(job, rounds).max_retries == job.max_retries,
    decreases rounds.len(),
{
    if rounds.len() > 0 {
        lemma_retry_bound(job, rounds.drop_last());
    }
}

/// How many of the submissions among `events` the engine accepts when they
/// reach it in order, starting from `s`.
pub open spec fn accepted(s: EngineState, events: Seq<Event>) -> nat
    decreases events.len(),
{
    if events.len() == 0 {
        0
    } else {
        let before = s.run(events.drop_last());
        accepted(s, events.drop_last()) + match events.last() {
            Event::Submit(job) => if before.submit_error(job) is None {
                1nat
            } else {
                0nat
            },
            _ => 0nat,
        }
    }
}

/// How many records the sweeps among `events` drop, starting from `s`.
pub open spec fn dropped(s: EngineState, events: Seq<Event>) -> nat
    decreases events.len(),
{
    if events.len() == 0 {
        0
    } else {
        let before = s.run(events.drop_last());
        dropped(s, events.drop_last()) + match events.last() {
            Event::Sweep(now) => (before.jobs.len() - before.sweep(now).jobs.len()) as nat,
            _ => 0nat,
        }
    }
}

/// The number of tracked jobs is the number of accepted submissions less the
/// number of dropped records.
pub proof fn lemma_tracked_count(s: EngineState, events: Seq<Event>)
    requires
        s.inv(),
    ensures
        s.run(events).jobs.len() == s.jobs.len() + accepted(s, events) - dropped(s, events),
    decreases events.len(),
{
    if events.len() > 0 {
        lemma_tracked_count(s, events.drop_last());
        lemma_run_inv(s, events.drop_last());
        let before = s.run(events.drop_last());
        let after = before.step(events.last());
        assert(s.run(events) == after);
        match events.last() {
            Event::Submit(job) => {
                if before.submit_error(job) is None {
                    assert(after.jobs.len() == before.jobs.len() + 1);
                } else {
                    assert(after.jobs.len() == before.jobs.len());
                }
            },
            Event::Sweep(now) => {
                lemma_retained(
                    before.jobs,
                    now,
                    before.config.cleanup_completed_jobs_after_hours,
                    before.jobs.len() as int,
                );
                assert(after.jobs.len() <= before.jobs.len());
            },
            Event::Cancel(id, now) => {
                lemma_index_of(before.jobs, id);
                assert(after.jobs.len() == before.jobs.len());
            },
            Event::Tick(now) => {
                if before.queue.len() > 0 {
                    lemma_index_of(before.jobs, before.queue[0]);
                }
                assert(after.jobs.len() == before.jobs.len());
            },
            Event::Report(id, outcome, now) => {
                lemma_index_of(before.jobs, id);
                assert(after.jobs.len() == before.jobs.len());
            },
            Event::Requeue(id) => {
                assert(after.jobs.len() == before.jobs.len());
            },
            Event::Expire(id, now) => {
                lemma_index_of(before.jobs, id);
                assert(after.jobs.len() == before.jobs.len());
            },
            Event::EnforceTimeouts(now) => {
                lemma_expire_each_inv(before, slot_ids(before.running), now);
                assert(after.jobs.len() == before.jobs.len());
            },
            Event::Progress(id, progress) => {
                lemma_index_of(before.jobs, id);
                assert(after.jobs.len() == before.jobs.len());
            },
        }
    }
}

/// Admission bound: once a new engine has accepted `max_queue_size` jobs and
/// no record has been dropped, the next submission is turned down because
/// the queue is full, and changes nothing.
pub proof fn lemma_admission_bound(config: BatchProcessorConfig, events: Seq<Event>, job: JobModel)
    requires
        accepted(EngineState::initial(config), events) == config.max_queue_size,
        dropped(EngineState::initial(config), events) == 0,
    ensures
        EngineState::initial(config).run(events).submit_error(job) == Some(BatchError::QueueFull),
        EngineState::initial(config).run(events).submit(job) == EngineState::initial(config).run(
            events,
        ),
{
    lemma_initial_inv(config);
    lemma_tracked_count(EngineState::initial(config), events);
    lemma_run_inv(EngineState::initial(config), events);
}

/// Whether the queue entry `a` is to be dispatched before the entry `b`: it
/// has the higher priority or, at equal priority, was admitted earlier.
pub open spec fn goes_before(jobs: Seq<JobModel>, a: Seq<char>, b: Seq<char>) -> bool {
    record(jobs, a).priority.rank() > record(jobs, b).priority.rank() || (record(
        jobs,
        a,
    ).priority.rank() == record(jobs, b).priority.rank() && index_of(jobs, a) < index_of(jobs, b))
}

/// Whether the queue is in dispatch order: highest priority first, and
/// first admitted first among equals.
pub open spec fn dispatch_ordered(s: EngineState) -> bool {
    forall|a: int, b: int|
        0 <= a < b < s.queue.len() ==> goes_before(s.jobs, #[trigger] s.queue[a], #[trigger] s.queue[b])
}

/// Whether every tracked job waits in the queue.
pub open spec fn all_queued(s: EngineState) -> bool {
    forall|i: int| 0 <= i < s.jobs.len() ==> s.queue.contains((#[trigger] s.jobs[i]).id)
}

/// Priority ordering, one submission: a queue in dispatch order is still in
/// dispatch order after a submission, whether the job was accepted or not.
pub proof fn lemma_submit_keeps_order(s: EngineState, job: JobModel)
    requires
        s.inv(),
        s.config.priority_scheduling,
        dispatch_ordered(s),
    ensures
        dispatch_ordered(s.submit(job)),
        all_queued(s) ==> all_queued(s.submit(job)),
{
    let t = s.submit(job);
    if s.submit_error(job) is None {
        lemma_inv_lookups(s);
        lemma_submit_inv(s, job);
        let added = job.admitted();
        let at = insertion_point(t.jobs, s.queue, job.priority);
        lemma_insertion_point(t.jobs, s.queue, job.priority, 0);
        assert(!s.queue.contains(job.id)) by {
            if s.queue.contains(job.id) {
                assert(tracks(s.jobs, job.id));
            }
        }
        crate::batch_processing::lookup::lemma_insert_no_duplicates(s.queue, at, job.id);
        crate::batch_processing::invariants::lemma_push_ids(s.jobs, added);
        assert forall|id: Seq<char>| tracks(s.jobs, id) implies #[trigger] record(t.jobs, id)
            == record(s.jobs, id) && index_of(t.jobs, id) == index_of(s.jobs, id) && tracks(
            t.jobs,
            id,
        ) by {
            lemma_push_lookup(s.jobs, added, id);
            crate::batch_processing::lookup::lemma_position_push(job_ids(s.jobs), job.id, id);
        }
        lemma_push_lookup(s.jobs, added, job.id);
        crate::batch_processing::lookup::lemma_position_push(job_ids(s.jobs), job.id, job.id);
        assert(index_of(t.jobs, job.id) == s.jobs.len());
        assert(record(t.jobs, job.id).priority == job.priority);
        assert forall|a: int, b: int| 0 <= a < b < t.queue.len() implies goes_before(
            t.jobs,
            #[trigger] t.queue[a],
            #[trigger] t.queue[b],
        ) by {
            let x = if a < at {
                a
            } else {
                a - 1
            };
            let y = if b < at {
                b
            } else {
                b - 1
            };
            if a != at && b != at {
                assert(s.queue.contains(s.queue[x]));
                assert(s.queue.contains(s.queue[y]));
                assert(goes_before(s.jobs, s.queue[x], s.queue[y]));
            } else if b == at {
                assert(s.queue.contains(s.queue[x]));
                assert(!yields_to(t.jobs, s.queue[x], job.priority));
            } else {
                assert(s.queue.contains(s.queue[y]));
                assert(s.queue.contains(s.queue[at]));
                assert(yields_to(t.jobs, s.queue[at], job.priority));
                if at < y {
                    assert(goes_before(s.jobs, s.queue[at], s.queue[y]));
                }
            }
        }
        if all_queued(s) {
            assert forall|i: int| 0 <= i < t.jobs.len() implies t.queue.contains(
                (#[trigger] t.jobs[i]).id,
            ) by {
                if i < s.jobs.len() {
                    assert(s.queue.contains(s.jobs[i].id));
                    let k = choose|k: int| 0 <= k < s.queue.len() && s.queue[k] == s.jobs[i].id;
                    if k < at {
                        assert(t.queue[k] == s.queue[k]);
                    } else {
                        assert(t.queue[k + 1] == s.queue[k]);
                    }
                } else {
                    assert(t.queue[at] == job.id);
                }
            }
        }
    }
}

/// Priority ordering, any number of submissions: after a new engine that
/// orders by priority has seen nothing but submissions, every tracked job
/// waits in the queue, and the queue is in dispatch order: highest priority
/// first, and among jobs of one priority the one submitted first.
pub proof fn lemma_submissions_ordered(config: BatchProcessorConfig, events: Seq<Event>)
    requires
        config.priority_scheduling,
        forall|k: int| 0 <= k < events.len() ==> #[trigger] events[k] is Submit,
    ensures
        dispatch_ordered(EngineState::initial(config).run(events)),
        all_queued(EngineState::initial(config).run(events)),
        EngineState::initial(config).run(events).inv(),
        EngineState::initial(config).run(events).running.len() == 0,
    decreases events.len(),
{
    let start = EngineState::initial(config);
    lemma_initial_inv(config);
    lemma_run_inv(start, events);
    if events.len() > 0 {
        let earlier = events.drop_last();
        assert forall|k: int| 0 <= k < earlier.len() implies #[trigger] earlier[k] is Submit by {
            assert(events[k] is Submit);
        }
        lemma_submissions_ordered(config, earlier);
        lemma_run_inv(start, earlier);
        assert(events[events.len() - 1] is Submit);
        lemma_submit_keeps_order(start.run(earlier), events.last()->Submit_0);
    }
}

/// Whether every job in the queue is ready.
pub open spec fn all_ready(s: EngineState) -> bool {
    forall|k: int| 0 <= k < s.queue.len() ==> s.job(#[trigger] s.queue[k]).is_ready(s.jobs)
}

/// The state after one tick of the scheduler at each of `times`, in order.
pub open spec fn after_ticks(s: EngineState, times: Seq<Timestamp>) -> EngineState
    decreases times.len(),
{
    if times.len() == 0 {
        s
    } else {
        after_ticks(s, times.drop_last()).tick(times.last())
    }
}

/// A tick that dispatches leaves the other jobs in the queue ready.
pub proof fn lemma_tick_keeps_ready(s: EngineState, now: Timestamp)
    requires
        s.inv(),
        all_ready(s),
        s.has_capacity(),
        s.queue.len() > 0,
    ensures
        s.next_dispatch() == Some(s.queue[0]),
        s.tick(now).queue == s.queue.drop_first(),
        s.tick(now).running.len() == s.running.len() + 1,
        s.tick(now).inv(),
        all_ready(s.tick(now)),
{
    let t = s.tick(now);
    let id = s.queue[0];
    lemma_inv_lookups(s);
    lemma_tick_inv(s, now);
    assert(s.queue.contains(id));
    assert(s.job(id).is_ready(s.jobs));
    lemma_replace_lookups(s, id, s.job(id).dispatched(now));
    assert(s.queue.drop_first() =~= s.queue.remove(0));
    crate::batch_processing::lookup::lemma_remove_keys(s.queue, 0);
    assert forall|k: int| 0 <= k < t.queue.len() implies t.job(#[trigger] t.queue[k]).is_ready(
        t.jobs,
    ) by {
        let other = t.queue[k];
        assert(other == s.queue[k + 1]);
        assert(s.queue.contains(other));
        assert(other != id);
        assert(s.job(other).is_ready(s.jobs));
        assert(record(t.jobs, other) == record(s.jobs, other));
        let waiting = s.job(other);
        assert forall|d: int| 0 <= d < waiting.dependencies.len() implies completed_in(
            t.jobs,
            #[trigger] waiting.dependencies[d],
        ) by {
            let dep = waiting.dependencies[d];
            assert(completed_in(s.jobs, dep));
            assert(tracks(t.jobs, dep) == tracks(s.jobs, dep));
            assert(record(s.jobs, id).status == JobStatus::Queued);
            assert(dep != id);
            assert(record(t.jobs, dep) == record(s.jobs, dep));
        }
    }
}

/// Priority ordering, the dispatches: while every job in the queue is ready
/// and slots are free, each tick dispatches the head of the queue, so the
/// jobs start in the order of the queue.
pub proof fn lemma_dispatch_follows_queue(s: EngineState, times: Seq<Timestamp>)
    requires
        s.inv(),
        all_ready(s),
        times.len() <= s.queue.len(),
        s.running.len() + times.len() <= s.config.max_concurrent_jobs,
    ensures
        after_ticks(s, times).queue == s.queue.skip(times.len() as int),
        after_ticks(s, times).running.len() == s.running.len() + times.len(),
        after_ticks(s, times).inv(),
        after_ticks(s, times).config == s.config,
        all_ready(after_ticks(s, times)),
        forall|j: int|
            0 <= j < times.len() ==> (#[trigger] after_ticks(s, times.take(j))).next_dispatch()
                == Some(s.queue[j]),
    decreases times.len(),
{
    if times.len() == 0 {
        assert(s.queue.skip(0) =~= s.queue);
    } else {
        let earlier = times.drop_last();
        let n = earlier.len() as int;
        lemma_dispatch_follows_queue(s, earlier);
        let before = after_ticks(s, earlier);
        assert(before.queue[0] == s.queue[n]);
        lemma_tick_keeps_ready(before, times.last());
        assert(before.queue.drop_first() =~= s.queue.skip(n + 1));
        assert forall|j: int| 0 <= j < times.len() implies (#[trigger] after_ticks(
            s,
            times.take(j),
        )).next_dispatch() == Some(s.queue[j]) by {
            if j < n {
                assert(times.take(j) =~= earlier.take(j));
            } else {
                assert(times.take(j) =~= earlier);
            }
        }
    }
}

/// What a handler's report does to the job it is about and to no other:
/// the record moves on as the report says, the slot is freed, every other
/// record and every other slot stays.
pub proof fn lemma_report_effect(s: EngineState, id: Seq<char>, outcome: Outcome, now: Timestamp)
    requires
        s.inv(),
        s.occupies_slot(id),
    ensures
        s.tracks(id),
        s.job(id).status == JobStatus::Running,
        s.complete(id, outcome, now).tracks(id),
        s.complete(id, outcome, now).job(id) == s.job(id).finished(outcome, now),
        !slot_ids(s.complete(id, outcome, now).running).contains(id),
        forall|other: Seq<char>|
            other != id ==> (#[trigger] tracks(s.complete(id, outcome, now).jobs, other)
                == tracks(s.jobs, other)),
        forall|other: Seq<char>|
            other != id && tracks(s.jobs, other) ==> #[trigger] record(
                s.complete(id, outcome, now).jobs,
                other,
            ) == record(s.jobs, other),
        forall|other: Seq<char>|
            other != id ==> (#[trigger] slot_ids(s.complete(id, outcome, now).running).contains(
                other,
            ) == slot_ids(s.running).contains(other)),
{
    lemma_inv_lookups(s);
    lemma_position(slot_ids(s.running), id);
    assert(slot_ids(s.running).contains(id));
    assert(record(s.jobs, id).status == JobStatus::Running);
    let k = s.slot_of(id);
    lemma_replace_lookups(s, id, s.job(id).finished(outcome, now));
    crate::batch_processing::invariants::lemma_remove_slot_ids(s.running, k);
    crate::batch_processing::lookup::lemma_remove_keys(slot_ids(s.running), k);
}

/// Whether the job `id` failed for running past its time limit: it is
/// `Failed` with the timeout message and holds no slot.
pub open spec fn failed_for_timeout(s: EngineState, id: Seq<char>) -> bool {
    &&& s.tracks(id)
    &&& s.job(id).status == JobStatus::Failed
    &&& s.job(id).error_message == Some(crate::batch_processing::job::timeout_message())
    &&& !slot_ids(s.running).contains(id)
}

/// Enforcing the time limits of `ids`, one after the other, fails exactly
/// those among them that were past their limit, and leaves every other job
/// and slot as it was.
pub proof fn lemma_expire_each(s: EngineState, ids: Seq<Seq<char>>, now: Timestamp)
    requires
        s.inv(),
        ids.no_duplicates(),
    ensures
        s.expire_each(ids, now).inv(),
        forall|id: Seq<char>|
            #[trigger] tracks(s.expire_each(ids, now).jobs, id) == tracks(s.jobs, id),
        forall|id: Seq<char>|
            ids.contains(id) && s.timed_out(id, now) ==> #[trigger] failed_for_timeout(
                s.expire_each(ids, now),
                id,
            ),
        forall|id: Seq<char>|
            ids.contains(id) && s.timed_out(id, now) ==> #[trigger] record(
                s.expire_each(ids, now).jobs,
                id,
            ) == record(s.jobs, id).finished(
                Outcome::Failure(crate::batch_processing::job::timeout_message()),
                now,
            ),
        forall|id: Seq<char>|
            tracks(s.jobs, id) && !(ids.contains(id) && s.timed_out(id, now)) ==> #[trigger] record(
                s.expire_each(ids, now).jobs,
                id,
            ) == record(s.jobs, id),
        forall|id: Seq<char>|
            !(ids.contains(id) && s.timed_out(id, now)) ==> (#[trigger] slot_ids(
                s.expire_each(ids, now).running,
            ).contains(id) == slot_ids(s.running).contains(id)),
    decreases ids.len(),
{
    if ids.len() > 0 {
        let earlier = ids.drop_last();
        let x = ids.last();
        assert forall|a: int, b: int| 0 <= a < earlier.len() && 0 <= b < earlier.len() && a
            != b implies earlier[a] != earlier[b] by {
            assert(ids[a] != ids[b]);
        }
        assert(!earlier.contains(x)) by {
            if earlier.contains(x) {
                let a = choose|a: int| 0 <= a < earlier.len() && earlier[a] == x;
                assert(ids[a] != ids[ids.len() - 1]);
            }
        }
        assert forall|id: Seq<char>| ids.contains(id) <==> earlier.contains(id) || id == x by {
            if ids.contains(id) {
                let a = choose|a: int| 0 <= a < ids.len() && ids[a] == id;
                if a < earlier.len() {
                    assert(earlier[a] == id);
                }
            }
            if earlier.contains(id) {
                let a = choose|a: int| 0 <= a < earlier.len() && earlier[a] == id;
                assert(ids[a] == id);
            }
            assert(ids[ids.len() - 1] == x);
        }
        lemma_expire_each(s, earlier, now);
        let before = s.expire_each(earlier, now);
        let after = s.expire_each(ids, now);
        lemma_position(slot_ids(before.running), x);
        lemma_position(slot_ids(s.running), x);
        assert(slot_ids(before.running).contains(x) == slot_ids(s.running).contains(x));
        assert(tracks(before.jobs, x) == tracks(s.jobs, x));
        if tracks(s.jobs, x) {
            assert(record(before.jobs, x) == record(s.jobs, x));
        }
        assert(before.timed_out(x, now) == s.timed_out(x, now));
        if before.timed_out(x, now) {
            let outcome = Outcome::Failure(crate::batch_processing::job::timeout_message());
            lemma_report_effect(before, x, outcome, now);
            lemma_complete_inv(before, x, outcome, now);
            assert(failed_for_timeout(after, x));
            assert forall|id: Seq<char>|
                ids.contains(id) && s.timed_out(id, now) implies #[trigger] failed_for_timeout(
                after,
                id,
            ) && record(after.jobs, id) == record(s.jobs, id).finished(outcome, now) by {
                if id != x {
                    assert(failed_for_timeout(before, id));
                    assert(tracks(after.jobs, id) == tracks(before.jobs, id));
                    assert(record(after.jobs, id) == record(before.jobs, id));
                    assert(record(before.jobs, id) == record(s.jobs, id).finished(outcome, now));
                    assert(slot_ids(after.running).contains(id) == slot_ids(
                        before.running,
                    ).contains(id));
                }
            }
            assert forall|id: Seq<char>|
                tracks(s.jobs, id) && !(ids.contains(id) && s.timed_out(
                    id,
                    now,
                )) implies #[trigger] record(after.jobs, id) == record(s.jobs, id) by {
                assert(tracks(before.jobs, id) == tracks(s.jobs, id));
                assert(record(before.jobs, id) == record(s.jobs, id));
                assert(record(after.jobs, id) == record(before.jobs, id));
            }
            assert forall|id: Seq<char>| !(ids.contains(id) && s.timed_out(id, now)) implies (
            #[trigger] slot_ids(after.running).contains(id) == slot_ids(s.running).contains(id)) by {
                assert(slot_ids(before.running).contains(id) == slot_ids(s.running).contains(id));
                assert(slot_ids(after.running).contains(id) == slot_ids(before.running).contains(
                    id,
                ));
            }
            assert forall|id: Seq<char>| #[trigger]
                tracks(after.jobs, id) == tracks(s.jobs, id) by {
                assert(tracks(before.jobs, id) == tracks(s.jobs, id));
                if id != x {
                    assert(tracks(after.jobs, id) == tracks(before.jobs, id));
                }
            }
        } else {
            assert(after == before);
            assert forall|id: Seq<char>|
                ids.contains(id) && s.timed_out(id, now) implies #[trigger] failed_for_timeout(
                after,
                id,
            ) && record(after.jobs, id) == record(s.jobs, id).finished(
                Outcome::Failure(crate::batch_processing::job::timeout_message()),
                now,
            ) by {
                assert(failed_for_timeout(before, id));
                assert(record(before.jobs, id) == record(s.jobs, id).finished(
                    Outcome::Failure(crate::batch_processing::job::timeout_message()),
                    now,
                ));
            }
        }
    }
}

/// Timeout enforcement: once the time limits were enforced at `now`, no job
/// is past its limit at `now`; the jobs that were are `Failed` with the
/// timeout message and hold no slot, and every other record is as it was.
pub proof fn lemma_enforce_timeouts(s: EngineState, now: Timestamp)
    requires
        s.inv(),
    ensures
        s.enforce_timeouts(now).inv(),
        forall|id: Seq<char>| !(#[trigger] s.enforce_timeouts(now).timed_out(id, now)),
        forall|id: Seq<char>|
            s.timed_out(id, now) ==> #[trigger] failed_for_timeout(s.enforce_timeouts(now), id),
        forall|id: Seq<char>|
            s.tracks(id) && !s.timed_out(id, now) ==> s.enforce_timeouts(now).tracks(id)
                && #[trigger] s.enforce_timeouts(now).job(id) == s.job(id),
{
    let ids = slot_ids(s.running);
    let after = s.enforce_timeouts(now);
    lemma_expire_each(s, ids, now);
    assert forall|id: Seq<char>| s.timed_out(id, now) implies ids.contains(id) by {
        lemma_position(ids, id);
    }
    assert forall|id: Seq<char>| !(#[trigger] after.timed_out(id, now)) by {
        lemma_position(slot_ids(after.running), id);
        lemma_position(ids, id);
        if after.timed_out(id, now) {
            assert(slot_ids(after.running).contains(id));
            if s.timed_out(id, now) {
                assert(failed_for_timeout(after, id));
            } else {
                assert(tracks(after.jobs, id) == tracks(s.jobs, id));
                assert(record(after.jobs, id) == record(s.jobs, id));
                assert(slot_ids(after.running).contains(id) == ids.contains(id));
            }
        }
    }
    assert forall|id: Seq<char>| s.timed_out(id, now) implies #[trigger] failed_for_timeout(
        after,
        id,
    ) by {
        assert(ids.contains(id));
    }
    assert forall|id: Seq<char>| s.tracks(id) && !s.timed_out(id, now) implies after.tracks(id)
        && #[trigger] after.job(id) == s.job(id) by {
        assert(tracks(after.jobs, id) == tracks(s.jobs, id));
        assert(record(after.jobs, id) == record(s.jobs, id));
    }
}

/// Counting among the first `upto` records looks at those records only.
pub proof fn lemma_count_prefix(jobs: Seq<JobModel>, other: Seq<JobModel>, status: JobStatus, upto: int)
    requires
        0 <= upto <= jobs.len(),
        upto <= other.len(),
        forall|i: int| 0 <= i < upto ==> #[trigger] jobs[i] == other[i],
    ensures
        count_upto(jobs, status, upto) == count_upto(other, status, upto),
    decreases upto,
{
    if upto > 0 {
        lemma_count_prefix(jobs, other, status, upto - 1);
        assert(jobs[upto - 1] == other[upto - 1]);
    }
}

/// When the keys without repetition are exactly the ids of the running
/// records, there are as many keys as running records.
pub proof fn lemma_count_matches_keys(jobs: Seq<JobModel>, keys: Seq<Seq<char>>)
    requires
        job_ids(jobs).no_duplicates(),
        keys.no_duplicates(),
        forall|i: int|
            0 <= i < jobs.len() ==> ((#[trigger] jobs[i]).status == JobStatus::Running
                <==> keys.contains(jobs[i].id)),
        forall|k: int| 0 <= k < keys.len() ==> job_ids(jobs).contains(#[trigger] keys[k]),
    ensures
        count_of(jobs, JobStatus::Running) == keys.len(),
    decreases jobs.len(),
{
    if jobs.len() == 0 {
        if keys.len() > 0 {
            assert(job_ids(jobs).contains(keys[0]));
        }
    } else {
        let last = jobs.last();
        let rest = jobs.drop_last();
        let n = rest.len() as int;
        assert forall|a: int, b: int| 0 <= a < n && 0 <= b < n && a != b implies job_ids(rest)[a]
            != job_ids(rest)[b] by {
            assert(job_ids(jobs)[a] != job_ids(jobs)[b]);
        }
        lemma_count_prefix(jobs, rest, JobStatus::Running, n);
        assert(jobs[n] == last);
        lemma_position(keys, last.id);
        let at = position(keys, last.id);
        if last.status == JobStatus::Running {
            crate::batch_processing::lookup::lemma_remove_keys(keys, at);
        }
        let fewer = if last.status == JobStatus::Running {
            keys.remove(at)
        } else {
            keys
        };
        assert forall|i: int| 0 <= i < n implies ((#[trigger] rest[i]).status == JobStatus::Running
            <==> fewer.contains(rest[i].id)) by {
            assert(rest[i] == jobs[i]);
            assert(job_ids(jobs)[i] != job_ids(jobs)[n]);
        }
        assert forall|k: int| 0 <= k < fewer.len() implies job_ids(rest).contains(
            #[trigger] fewer[k],
        ) by {
            assert(fewer.contains(fewer[k]));
            assert(keys.contains(fewer[k]));
            let q = choose|q: int| 0 <= q < keys.len() && keys[q] == fewer[k];
            assert(job_ids(jobs).contains(keys[q]));
            let i = choose|i: int| 0 <= i < job_ids(jobs).len() && job_ids(jobs)[i] == fewer[k];
            if i == n {
                assert(last.status == JobStatus::Running);
            }
            assert(job_ids(rest)[i] == fewer[k]);
        }
        lemma_count_matches_keys(rest, fewer);
    }
}

/// Utilization bound, by status: in a consistent engine the jobs that are
/// `Running` are exactly those that hold a slot, so there are no more of
/// them than `max_concurrent_jobs`.
pub proof fn lemma_running_count(s: EngineState)
    requires
        s.inv(),
    ensures
        count_of(s.jobs, JobStatus::Running) == s.running.len(),
        count_of(s.jobs, JobStatus::Running) <= s.config.max_concurrent_jobs,
{
    lemma_inv_lookups(s);
    let keys = slot_ids(s.running);
    assert forall|i: int| 0 <= i < s.jobs.len() implies ((#[trigger] s.jobs[i]).status
        == JobStatus::Running <==> keys.contains(s.jobs[i].id)) by {
        assert(record(s.jobs, s.jobs[i].id) == s.jobs[i]);
    }
    assert forall|k: int| 0 <= k < keys.len() implies job_ids(s.jobs).contains(
        #[trigger] keys[k],
    ) by {
        assert(keys.contains(keys[k]));
        assert(tracks(s.jobs, keys[k]));
        lemma_position(job_ids(s.jobs), keys[k]);
    }
    lemma_count_matches_keys(s.jobs, keys);
}

/// The moves between states that the engine makes: none, dispatch and
/// cancellation of a pending job, and from `Running` to a final state or,
/// for a retry, back to `Queued`.
pub open spec fn is_permitted(from: JobStatus, to: JobStatus) -> bool {
    ||| from == to
    ||| from == JobStatus::Queued && (to == JobStatus::Running || to == JobStatus::Cancelled)
    ||| from == JobStatus::Running && (to == JobStatus::Completed || to == JobStatus::Failed || to
        == JobStatus::Cancelled || to == JobStatus::Queued)
}

/// What may differ between the record `before` and the record `after` of a
/// job: the state, by a permitted move; the start time, set on the first
/// dispatch and kept from then on; the end time, set on reaching a final
/// state and kept from then on; the retry count, raised by one when a retry
/// is granted; progress, result and error message. Everything else stays.
pub open spec fn evolves_to(before: JobModel, after: JobModel) -> bool {
    &&& is_permitted(before.status, after.status)
    &&& after.id == before.id
    &&& after.job_type == before.job_type
    &&& after.priority == before.priority
    &&& after.created_at == before.created_at
    &&& after.max_retries == before.max_retries
    &&& after.timeout_seconds == before.timeout_seconds
    &&& after.metadata == before.metadata
    &&& after.dependencies == before.dependencies
    &&& before.started_at is Some ==> after.started_at == before.started_at
    &&& before.started_at is None && after.started_at is Some ==> before.status
        == JobStatus::Queued && after.status == JobStatus::Running
    &&& before.completed_at is Some ==> after == before
    &&& before.completed_at is None && after.completed_at is Some ==> after.status.spec_is_terminal()
    &&& after.retry_count == before.retry_count || (after.retry_count == before.retry_count + 1
        && before.status == JobStatus::Running && after.status == JobStatus::Queued)
}

/// What a handler's report does to a running record is a permitted
/// evolution.
pub proof fn lemma_finished_evolves(job: JobModel, outcome: Outcome, now: Timestamp)
    requires
        job.well_formed(),
        job.status == JobStatus::Running,
    ensures
        evolves_to(job, job.finished(outcome, now)),
{
}

/// State machine: whatever happens, the record of a job that stays tracked
/// changes only as `evolves_to` allows. In particular its state moves only
/// along the permitted transitions, its start time is set once, on its
/// first dispatch, and its end time is set once, when it reaches a final
/// state.
pub proof fn lemma_step_evolves(s: EngineState, event: Event, id: Seq<char>)
    requires
        s.inv(),
        s.tracks(id),
        s.step(event).tracks(id),
    ensures
        evolves_to(s.job(id), s.step(event).job(id)),
{
    lemma_inv_lookups(s);
    let t = s.step(event);
    assert(record(s.jobs, id).well_formed());
    match event {
        Event::Submit(job) => {
            if s.submit_error(job) is None {
                lemma_push_lookup(s.jobs, job.admitted(), id);
            }
        },
        Event::Cancel(other, now) => {
            if s.tracks(other) && s.job(other).status == JobStatus::Queued {
                lemma_replace_lookups(s, other, s.job(other).cancelled(now));
            }
        },
        Event::Tick(now) => {
            if s.next_dispatch() is Some {
                let other = s.queue[0];
                lemma_replace_lookups(s, other, s.job(other).dispatched(now));
            }
        },
        Event::Report(other, outcome, now) => {
            if s.occupies_slot(other) {
                lemma_report_effect(s, other, outcome, now);
                lemma_finished_evolves(s.job(other), outcome, now);
            }
        },
        Event::Requeue(other) => {},
        Event::Expire(other, now) => {
            if s.timed_out(other, now) {
                let outcome = Outcome::Failure(crate::batch_processing::job::timeout_message());
                lemma_report_effect(s, other, outcome, now);
                lemma_finished_evolves(s.job(other), outcome, now);
            }
        },
        Event::EnforceTimeouts(now) => {
            lemma_expire_each(s, slot_ids(s.running), now);
            if slot_ids(s.running).contains(id) && s.timed_out(id, now) {
                let outcome = Outcome::Failure(crate::batch_processing::job::timeout_message());
                assert(record(s.jobs, id).status == JobStatus::Running);
                lemma_finished_evolves(s.job(id), outcome, now);
            }
        },
        Event::Progress(other, progress) => {
            if s.tracks(other) && s.job(other).status == JobStatus::Running {
                lemma_replace_lookups(s, other, JobModel { progress, ..s.job(other) });
            }
        },
        Event::Sweep(now) => {
            crate::batch_processing::invariants::lemma_retained_was_tracked(
                s.jobs,
                now,
                s.config.cleanup_completed_jobs_after_hours,
                id,
            );
        },
    }
}

} // verus!
