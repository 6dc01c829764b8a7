//! Every operation of the engine keeps its state consistent.

use crate::batch_processing::engine::enqueue;
use crate::batch_processing::engine::insertion_point;
use crate::batch_processing::engine::is_stale;
use crate::batch_processing::engine::retained;
use crate::batch_processing::engine::retained_upto;
use crate::batch_processing::engine::insertion_point_from;
use crate::batch_processing::engine::job_ids_distinct;
use crate::batch_processing::engine::slot_ids;
use crate::batch_processing::engine::without;
use crate::batch_processing::engine::yields_to;
use crate::batch_processing::engine::EngineState;
use crate::batch_processing::engine::Slot;
use crate::batch_processing::job::index_of;
use crate::batch_processing::job::job_ids;
use crate::batch_processing::job::lemma_index_of;
use crate::batch_processing::job::lemma_index_of_unique;
use crate::batch_processing::lookup::lemma_position;
use crate::batch_processing::lookup::position;
use crate::batch_processing::job::record;
use crate::batch_processing::job::tracks;
use crate::batch_processing::job::JobModel;
use crate::batch_processing::job::JobPriority;
use crate::batch_processing::job::JobStatus;
use crate::batch_processing::job::Outcome;
use crate::time::Timestamp;
use crate::batch_processing::lookup::lemma_position_push;
use crate::batch_processing::lookup::lemma_insert_no_duplicates;
use crate::batch_processing::lookup::lemma_remove_keys;
use crate::batch_processing::lookup::lemma_push_no_duplicates;
use vstd::prelude::*;

verus! {

/// Replacing a record by one with the same id leaves every lookup where it
/// was.
pub proof fn lemma_update_keeps_ids(jobs: Seq<JobModel>, i: int, job: JobModel)
    requires
        0 <= i < jobs.len(),
        job.id == jobs[i].id,
    ensures
        job_ids(jobs.update(i, job)) == job_ids(jobs),
{
    assert(job_ids(jobs.update(i, job)) =~= job_ids(jobs));
}

/// The ids after a record was appended.
pub proof fn lemma_push_ids(jobs: Seq<JobModel>, job: JobModel)
    ensures
        job_ids(jobs.push(job)) == job_ids(jobs).push(job.id),
{
    assert(job_ids(jobs.push(job)) =~= job_ids(jobs).push(job.id));
}

/// Appending a record under an id that was not tracked leaves the records
/// that were tracked where they were, and the new record is found under its
/// id.
pub proof fn lemma_push_lookup(jobs: Seq<JobModel>, job: JobModel, id: Seq<char>)
    requires
        !tracks(jobs, job.id),
    ensures
        tracks(jobs.push(job), id) <==> tracks(jobs, id) || id == job.id,
        tracks(jobs, id) ==> jobs.push(job)[index_of(jobs.push(job), id)] == jobs[index_of(
            jobs,
            id,
        )],
        id == job.id ==> jobs.push(job)[index_of(jobs.push(job), id)] == job,
{
    lemma_push_ids(jobs, job);
    lemma_position_push(job_ids(jobs), job.id, id);
    lemma_index_of(jobs, id);
}

/// Where a newcomer joins the queue: after every entry that does not yield
/// to it and, unless at the back, right before one that does.
pub proof fn lemma_insertion_point(
    jobs: Seq<JobModel>,
    queue: Seq<Seq<char>>,
    priority: JobPriority,
    from: int,
)
    requires
        0 <= from <= queue.len(),
    ensures
        from <= insertion_point_from(jobs, queue, priority, from) <= queue.len(),
        forall|k: int|
            from <= k < insertion_point_from(jobs, queue, priority, from) ==> !yields_to(
                jobs,
                #[trigger] queue[k],
                priority,
            ),
        insertion_point_from(jobs, queue, priority, from) < queue.len() ==> yields_to(
            jobs,
            queue[insertion_point_from(jobs, queue, priority, from)],
            priority,
        ),
    decreases queue.len() - from,
{
    if from < queue.len() && !yields_to(jobs, queue[from], priority) {
        lemma_insertion_point(jobs, queue, priority, from + 1);
    }
}

/// The entries of a queue that `id` joined: `id` itself once, and the
/// entries that were there, in their order; no entry twice if none was
/// before and `id` is new.
pub proof fn lemma_enqueue(
    jobs: Seq<JobModel>,
    queue: Seq<Seq<char>>,
    id: Seq<char>,
    priority: JobPriority,
    by_priority: bool,
)
    requires
        queue.no_duplicates(),
        !queue.contains(id),
    ensures
        enqueue(jobs, queue, id, priority, by_priority).no_duplicates(),
        enqueue(jobs, queue, id, priority, by_priority).len() == queue.len() + 1,
        forall|k: int|
            0 <= k < queue.len() + 1 ==> (#[trigger] enqueue(
                jobs,
                queue,
                id,
                priority,
                by_priority,
            )[k]) == id || queue.contains(enqueue(jobs, queue, id, priority, by_priority)[k]),
        enqueue(jobs, queue, id, priority, by_priority).contains(id),
        forall|k: int|
            0 <= k < queue.len() ==> enqueue(jobs, queue, id, priority, by_priority).contains(
                #[trigger] queue[k],
            ),
{
    let longer = enqueue(jobs, queue, id, priority, by_priority);
    let at = if by_priority {
        insertion_point(jobs, queue, priority)
    } else {
        queue.len() as int
    };
    lemma_insertion_point(jobs, queue, priority, 0);
    lemma_insert_no_duplicates(queue, at, id);
    assert(queue.insert(at, id) =~= longer);
    assert(longer[at] == id);
    assert forall|k: int| 0 <= k < queue.len() implies longer.contains(#[trigger] queue[k]) by {
        if k < at {
            assert(longer[k] == queue[k]);
        } else {
            assert(longer[k + 1] == queue[k]);
        }
    }
    assert forall|k: int| 0 <= k < queue.len() + 1 implies (#[trigger] longer[k]) == id
        || queue.contains(longer[k]) by {
        if k < at {
            assert(longer[k] == queue[k]);
        } else if k > at {
            assert(longer[k] == queue[k - 1]);
        }
    }
}

/// What a queue without repetitions holds once `id` is taken out.
pub proof fn lemma_without(queue: Seq<Seq<char>>, id: Seq<char>)
    requires
        queue.no_duplicates(),
    ensures
        without(queue, id).no_duplicates(),
        !without(queue, id).contains(id),
        forall|key: Seq<char>|
            key != id ==> (#[trigger] without(queue, id).contains(key) <==> queue.contains(key)),
{
    lemma_position(queue, id);
    if position(queue, id) < queue.len() {
        lemma_remove_keys(queue, position(queue, id));
    }
}

/// With pairwise distinct ids, replacing the record at `i` by one with the
/// same id changes the lookup of that id only.
pub proof fn lemma_update_lookup(jobs: Seq<JobModel>, i: int, job: JobModel, id: Seq<char>)
    requires
        job_ids_distinct(jobs),
        0 <= i < jobs.len(),
        job.id == jobs[i].id,
    ensures
        job_ids(jobs.update(i, job)) == job_ids(jobs),
        tracks(jobs.update(i, job), id) == tracks(jobs, id),
        index_of(jobs.update(i, job), id) == index_of(jobs, id),
        tracks(jobs, id) ==> jobs.update(i, job)[index_of(jobs, id)] == if id == job.id {
            job
        } else {
            jobs[index_of(jobs, id)]
        },
{
    lemma_update_keeps_ids(jobs, i, job);
    lemma_index_of(jobs, id);
    lemma_index_of_unique(jobs, i);
}

/// The ids of the slots after one was added.
pub proof fn lemma_push_slot_ids(running: Seq<Slot>, slot: Slot)
    ensures
        slot_ids(running.push(slot)) == slot_ids(running).push(slot.id),
{
    assert(slot_ids(running.push(slot)) =~= slot_ids(running).push(slot.id));
}

/// The ids of the slots after one was freed.
pub proof fn lemma_remove_slot_ids(running: Seq<Slot>, at: int)
    requires
        0 <= at < running.len(),
    ensures
        slot_ids(running.remove(at)) == slot_ids(running).remove(at),
{
    assert(slot_ids(running.remove(at)) =~= slot_ids(running).remove(at));
}

/// What the consistency of a state says about its queue, its slots and its
/// records, with the lookups spelled out.
pub proof fn lemma_inv_lookups(s: EngineState)
    requires
        s.inv(),
    ensures
        forall|i: int|
            0 <= i < s.jobs.len() ==> tracks(s.jobs, (#[trigger] s.jobs[i]).id) && index_of(
                s.jobs,
                s.jobs[i].id,
            ) == i,
        forall|id: Seq<char>|
            tracks(s.jobs, id) ==> 0 <= index_of(s.jobs, id) < s.jobs.len() && (#[trigger] record(
                s.jobs,
                id,
            )).id == id,
        forall|id: Seq<char>|
            s.queue.contains(id) ==> tracks(s.jobs, id) && (#[trigger] record(s.jobs, id)).status
                == JobStatus::Queued,
        forall|id: Seq<char>|
            #[trigger] slot_ids(s.running).contains(id) ==> tracks(s.jobs, id) && record(
                s.jobs,
                id,
            ).status == JobStatus::Running,
        forall|id: Seq<char>|
            tracks(s.jobs, id) && (#[trigger] record(s.jobs, id)).status == JobStatus::Running
                ==> slot_ids(s.running).contains(id),
        forall|id: Seq<char>| tracks(s.jobs, id) ==> (#[trigger] record(s.jobs, id)).well_formed(),
        forall|id: Seq<char>|
            position(slot_ids(s.running), id) < s.running.len() <==> #[trigger] slot_ids(
                s.running,
            ).contains(id),
        forall|id: Seq<char>|
            #[trigger] slot_ids(s.running).contains(id) ==> 0 <= position(
                slot_ids(s.running),
                id,
            ) < s.running.len() && s.running[position(slot_ids(s.running), id)].id == id,
{
    assert forall|i: int| 0 <= i < s.jobs.len() implies tracks(s.jobs, (#[trigger] s.jobs[i]).id)
        && index_of(s.jobs, s.jobs[i].id) == i by {
        lemma_index_of_unique(s.jobs, i);
    }
    assert forall|id: Seq<char>| tracks(s.jobs, id) implies 0 <= index_of(s.jobs, id)
        < s.jobs.len() && (#[trigger] record(s.jobs, id)).id == id by {
        lemma_index_of(s.jobs, id);
    }
    assert forall|id: Seq<char>| s.queue.contains(id) implies tracks(s.jobs, id)
        && (#[trigger] record(s.jobs, id)).status == JobStatus::Queued by {
        let k = choose|k: int| 0 <= k < s.queue.len() && s.queue[k] == id;
        assert(s.tracks(s.queue[k]));
    }
    assert forall|id: Seq<char>|
        position(slot_ids(s.running), id) < s.running.len() <==> #[trigger] slot_ids(
            s.running,
        ).contains(id) by {
        lemma_position(slot_ids(s.running), id);
    }
    assert forall|id: Seq<char>| #[trigger] slot_ids(s.running).contains(id) implies tracks(
        s.jobs,
        id,
    ) && record(s.jobs, id).status == JobStatus::Running && 0 <= position(
        slot_ids(s.running),
        id,
    ) < s.running.len() && s.running[position(slot_ids(s.running), id)].id == id by {
        lemma_position(slot_ids(s.running), id);
        let k = s.slot_of(id);
        assert(slot_ids(s.running)[k] == id);
        assert(s.tracks(s.running[k].id));
    }
    assert forall|id: Seq<char>|
        tracks(s.jobs, id) && (#[trigger] record(s.jobs, id)).status
            == JobStatus::Running implies slot_ids(s.running).contains(id) by {
        lemma_index_of(s.jobs, id);
        let i = index_of(s.jobs, id);
        assert(s.jobs[i].status == JobStatus::Running);
        assert(s.occupies_slot(s.jobs[i].id));
        lemma_position(slot_ids(s.running), id);
    }
    assert forall|id: Seq<char>| tracks(s.jobs, id) implies (#[trigger] record(
        s.jobs,
        id,
    )).well_formed() by {
        lemma_index_of(s.jobs, id);
        assert(s.jobs[index_of(s.jobs, id)].well_formed());
    }
}

/// A state is consistent if its parts are, with the lookups spelled out.
pub proof fn lemma_inv_from_lookups(s: EngineState)
    requires
        job_ids_distinct(s.jobs),
        s.queue.no_duplicates(),
        slot_ids(s.running).no_duplicates(),
        forall|id: Seq<char>|
            s.queue.contains(id) ==> tracks(s.jobs, id) && (#[trigger] record(s.jobs, id)).status
                == JobStatus::Queued,
        forall|id: Seq<char>|
            #[trigger] slot_ids(s.running).contains(id) ==> tracks(s.jobs, id) && record(
                s.jobs,
                id,
            ).status == JobStatus::Running,
        forall|id: Seq<char>|
            tracks(s.jobs, id) && (#[trigger] record(s.jobs, id)).status == JobStatus::Running
                ==> slot_ids(s.running).contains(id),
        forall|id: Seq<char>| tracks(s.jobs, id) ==> (#[trigger] record(s.jobs, id)).well_formed(),
        s.running.len() <= s.config.max_concurrent_jobs,
        s.jobs.len() <= s.config.max_queue_size,
    ensures
        s.inv(),
{
    assert forall|k: int| 0 <= k < s.queue.len() implies s.tracks(#[trigger] s.queue[k]) && s.job(
        s.queue[k],
    ).status == JobStatus::Queued by {
        assert(s.queue.contains(s.queue[k]));
    }
    assert forall|k: int| 0 <= k < s.running.len() implies s.tracks((#[trigger] s.running[k]).id)
        && s.job(s.running[k].id).status == JobStatus::Running by {
        assert(slot_ids(s.running)[k] == s.running[k].id);
        assert(slot_ids(s.running).contains(s.running[k].id));
    }
    assert forall|i: int|
        0 <= i < s.jobs.len() && (#[trigger] s.jobs[i]).status
            == JobStatus::Running implies s.occupies_slot(s.jobs[i].id) by {
        lemma_index_of_unique(s.jobs, i);
        assert(record(s.jobs, s.jobs[i].id) == s.jobs[i]);
        lemma_position(slot_ids(s.running), s.jobs[i].id);
    }
    assert forall|i: int| 0 <= i < s.jobs.len() implies (#[trigger] s.jobs[i]).well_formed() by {
        lemma_index_of_unique(s.jobs, i);
        assert(record(s.jobs, s.jobs[i].id) == s.jobs[i]);
    }
}

/// A fresh engine is consistent.
pub proof fn lemma_initial_inv(config: crate::batch_processing::config::BatchProcessorConfig)
    ensures
        EngineState::initial(config).inv(),
{
    let s = EngineState::initial(config);
    assert(job_ids(s.jobs) =~= Seq::empty());
    assert(slot_ids(s.running) =~= Seq::empty());
}

/// Submitting a job keeps the engine consistent.
pub proof fn lemma_submit_inv(s: EngineState, job: JobModel)
    requires
        s.inv(),
    ensures
        s.submit(job).inv(),
{
    if s.submit_error(job) is None {
        let t = s.submit(job);
        let added = job.admitted();
        lemma_push_ids(s.jobs, added);
        lemma_position(job_ids(s.jobs), job.id);
        assert(job_ids(t.jobs).no_duplicates()) by {
            let ids = job_ids(s.jobs);
            assert forall|a: int, b: int|
                0 <= a < ids.len() + 1 && 0 <= b < ids.len() + 1 && a != b implies ids.push(
                job.id,
            )[a] != ids.push(job.id)[b] by {
                if a < ids.len() && b < ids.len() {
                    assert(ids[a] != ids[b]);
                } else if a < ids.len() {
                    assert(ids.contains(ids[a]));
                } else {
                    assert(ids.contains(ids[b]));
                }
            }
        }
        assert forall|id: Seq<char>| tracks(s.jobs, id) implies tracks(t.jobs, id) && t.job(id)
            == s.job(id) by {
            lemma_push_lookup(s.jobs, added, id);
        }
        lemma_push_lookup(s.jobs, added, job.id);
        assert(!s.queue.contains(job.id)) by {
            if s.queue.contains(job.id) {
                let k = choose|k: int| 0 <= k < s.queue.len() && s.queue[k] == job.id;
                assert(s.tracks(s.queue[k]));
            }
        }
        lemma_enqueue(t.jobs, s.queue, job.id, job.priority, s.config.priority_scheduling);
        assert forall|k: int| 0 <= k < t.queue.len() implies t.tracks(#[trigger] t.queue[k])
            && t.job(t.queue[k]).status == JobStatus::Queued by {
            if t.queue[k] != job.id {
                let q = choose|q: int| 0 <= q < s.queue.len() && s.queue[q] == t.queue[k];
                assert(s.tracks(s.queue[q]));
            }
        }
        assert forall|k: int| 0 <= k < t.running.len() implies t.tracks(
            (#[trigger] t.running[k]).id,
        ) && t.job(t.running[k].id).status == JobStatus::Running by {
            assert(s.tracks(s.running[k].id));
        }
        assert forall|i: int|
            0 <= i < t.jobs.len() && (#[trigger] t.jobs[i]).status
                == JobStatus::Running implies t.occupies_slot(t.jobs[i].id) by {
            assert(i < s.jobs.len());
            assert(s.jobs[i].status == JobStatus::Running);
        }
        assert forall|i: int| 0 <= i < t.jobs.len() implies (#[trigger] t.jobs[i]).well_formed() by {
            if i < s.jobs.len() {
                assert(s.jobs[i].well_formed());
            }
        }
    }
}

/// Replacing the record of `id` by `job`, which keeps the id, gives these
/// lookups.
pub proof fn lemma_replace_lookups(s: EngineState, id: Seq<char>, job: JobModel)
    requires
        s.inv(),
        s.tracks(id),
        job.id == id,
    ensures
        0 <= index_of(s.jobs, id) < s.jobs.len(),
        job_ids_distinct(s.jobs.update(index_of(s.jobs, id), job)),
        s.jobs.update(index_of(s.jobs, id), job).len() == s.jobs.len(),
        forall|other: Seq<char>|
            #[trigger] tracks(s.jobs.update(index_of(s.jobs, id), job), other) == tracks(
                s.jobs,
                other,
            ),
        forall|other: Seq<char>|
            tracks(s.jobs, other) ==> (#[trigger] record(
                s.jobs.update(index_of(s.jobs, id), job),
                other,
            )) == if other == id {
                job
            } else {
                record(s.jobs, other)
            },
{
    lemma_index_of(s.jobs, id);
    let i = index_of(s.jobs, id);
    let jobs = s.jobs.update(i, job);
    lemma_update_keeps_ids(s.jobs, i, job);
    assert forall|other: Seq<char>| tracks(s.jobs, other) implies (#[trigger] record(jobs, other))
        == if other == id {
        job
    } else {
        record(s.jobs, other)
    } by {
        lemma_update_lookup(s.jobs, i, job, other);
    }
}

/// Cancelling keeps the engine consistent.
pub proof fn lemma_cancel_inv(s: EngineState, id: Seq<char>, now: Timestamp)
    requires
        s.inv(),
    ensures
        s.cancel(id, now).inv(),
{
    let t = s.cancel(id, now);
    lemma_inv_lookups(s);
    if s.tracks(id) && s.job(id).status == JobStatus::Queued {
        lemma_replace_lookups(s, id, s.job(id).cancelled(now));
        lemma_without(s.queue, id);
        lemma_inv_from_lookups(t);
    } else if s.tracks(id) && s.job(id).status == JobStatus::Running && s.occupies_slot(id) {
        let k = s.slot_of(id);
        lemma_position(slot_ids(s.running), id);
        assert(slot_ids(t.running) =~= slot_ids(s.running));
        lemma_inv_from_lookups(t);
    }
}

/// A tick of the scheduler keeps the engine consistent.
pub proof fn lemma_tick_inv(s: EngineState, now: Timestamp)
    requires
        s.inv(),
    ensures
        s.tick(now).inv(),
{
    let t = s.tick(now);
    lemma_inv_lookups(s);
    if s.has_capacity() && s.queue.len() > 0 {
        let id = s.queue[0];
        let rest = s.queue.drop_first();
        assert(s.queue.contains(id));
        assert(rest =~= s.queue.remove(0));
        lemma_remove_keys(s.queue, 0);
        if s.job(id).is_ready(s.jobs) {
            lemma_replace_lookups(s, id, s.job(id).dispatched(now));
            let slot = Slot { id, started: now, cancel_requested: false };
            lemma_push_slot_ids(s.running, slot);
            assert(!slot_ids(s.running).contains(id));
            lemma_push_no_duplicates(slot_ids(s.running), id);
            assert forall|other: Seq<char>| #[trigger]
                slot_ids(t.running).contains(other) implies tracks(t.jobs, other) && record(
                t.jobs,
                other,
            ).status == JobStatus::Running by {
                if other != id {
                    let k = choose|k: int|
                        0 <= k < slot_ids(t.running).len() && slot_ids(t.running)[k] == other;
                    assert(slot_ids(s.running)[k] == other);
                    assert(slot_ids(s.running).contains(other));
                }
            }
            assert forall|other: Seq<char>|
                tracks(t.jobs, other) && (#[trigger] record(t.jobs, other)).status
                    == JobStatus::Running implies slot_ids(t.running).contains(other) by {
                if other == id {
                    assert(slot_ids(t.running)[s.running.len() as int] == id);
                } else {
                    assert(record(s.jobs, other).status == JobStatus::Running);
                    assert(slot_ids(s.running).contains(other));
                    let k = choose|k: int|
                        0 <= k < slot_ids(s.running).len() && slot_ids(s.running)[k] == other;
                    assert(slot_ids(t.running)[k] == other);
                }
            }
            lemma_inv_from_lookups(t);
        } else {
            lemma_push_no_duplicates(rest, id);
            assert forall|other: Seq<char>| t.queue.contains(other) implies s.queue.contains(
                other,
            ) by {
                let k = choose|k: int| 0 <= k < t.queue.len() && t.queue[k] == other;
                if k < rest.len() {
                    assert(rest.contains(other));
                }
            }
            lemma_inv_from_lookups(t);
        }
    }
}

/// Queueing a retried job again keeps the engine consistent.
pub proof fn lemma_requeue_inv(s: EngineState, id: Seq<char>)
    requires
        s.inv(),
    ensures
        s.requeue(id).inv(),
{
    let t = s.requeue(id);
    lemma_inv_lookups(s);
    if s.awaits_requeue(id) {
        lemma_enqueue(s.jobs, s.queue, id, s.job(id).priority, s.config.priority_scheduling);
        assert forall|other: Seq<char>| t.queue.contains(other) implies other == id
            || s.queue.contains(other) by {
            let k = choose|k: int| 0 <= k < t.queue.len() && t.queue[k] == other;
            assert(t.queue[k] == id || s.queue.contains(t.queue[k]));
        }
        lemma_inv_from_lookups(t);
    }
}

/// Taking progress keeps the engine consistent.
pub proof fn lemma_report_progress_inv(
    s: EngineState,
    id: Seq<char>,
    progress: crate::batch_processing::job::JobProgress,
)
    requires
        s.inv(),
    ensures
        s.report_progress(id, progress).inv(),
{
    let t = s.report_progress(id, progress);
    lemma_inv_lookups(s);
    if s.tracks(id) && s.job(id).status == JobStatus::Running {
        let job = JobModel { progress, ..s.job(id) };
        lemma_replace_lookups(s, id, job);
        lemma_inv_from_lookups(t);
    }
}

/// A record stays well formed whatever its handler reports.
pub proof fn lemma_finished_well_formed(job: JobModel, outcome: Outcome, now: Timestamp)
    requires
        job.well_formed(),
        job.status == JobStatus::Running,
    ensures
        job.finished(outcome, now).well_formed(),
        job.finished(outcome, now).id == job.id,
        job.finished(outcome, now).status != JobStatus::Running,
        job.finished(outcome, now).status == JobStatus::Queued <==> outcome is Retry
            && job.may_retry(),
{
}

/// Applying a handler's report keeps the engine consistent.
pub proof fn lemma_complete_inv(s: EngineState, id: Seq<char>, outcome: Outcome, now: Timestamp)
    requires
        s.inv(),
    ensures
        s.complete(id, outcome, now).inv(),
{
    let t = s.complete(id, outcome, now);
    lemma_inv_lookups(s);
    if s.occupies_slot(id) && s.tracks(id) {
        let k = s.slot_of(id);
        let job = s.job(id).finished(outcome, now);
        lemma_position(slot_ids(s.running), id);
        assert(slot_ids(s.running).contains(id));
        assert(record(s.jobs, id).status == JobStatus::Running);
        lemma_finished_well_formed(s.job(id), outcome, now);
        lemma_replace_lookups(s, id, job);
        lemma_position(slot_ids(s.running), id);
        lemma_remove_slot_ids(s.running, k);
        lemma_remove_keys(slot_ids(s.running), k);
        assert(!s.queue.contains(id));
        if s.completion(id, outcome) == crate::batch_processing::engine::Completion::Requeued {
            lemma_enqueue(t.jobs, s.queue, id, job.priority, s.config.priority_scheduling);
            assert forall|other: Seq<char>| t.queue.contains(other) implies other == id
                || s.queue.contains(other) by {
                let q = choose|q: int| 0 <= q < t.queue.len() && t.queue[q] == other;
                assert(t.queue[q] == id || s.queue.contains(t.queue[q]));
            }
        }
        lemma_inv_from_lookups(t);
    }
}

/// Enforcing a time limit keeps the engine consistent.
pub proof fn lemma_expire_inv(s: EngineState, id: Seq<char>, now: Timestamp)
    requires
        s.inv(),
    ensures
        s.expire(id, now).inv(),
{
    if s.timed_out(id, now) {
        lemma_complete_inv(
            s,
            id,
            Outcome::Failure(crate::batch_processing::job::timeout_message()),
            now,
        );
    }
}

/// Enforcing several time limits keeps the engine consistent, tracks the
/// same jobs and keeps the configuration.
pub proof fn lemma_expire_each_inv(s: EngineState, ids: Seq<Seq<char>>, now: Timestamp)
    requires
        s.inv(),
    ensures
        s.expire_each(ids, now).inv(),
        s.expire_each(ids, now).config == s.config,
        s.expire_each(ids, now).jobs.len() == s.jobs.len(),
    decreases ids.len(),
{
    if ids.len() > 0 {
        lemma_expire_each_inv(s, ids.drop_last(), now);
        let before = s.expire_each(ids.drop_last(), now);
        lemma_expire_inv(before, ids.last(), now);
        lemma_index_of(before.jobs, ids.last());
    }
}

/// Whether `job` is one of the first `upto` records of `jobs` and not stale.
pub open spec fn survives(
    jobs: Seq<JobModel>,
    now: Timestamp,
    hours: u32,
    upto: int,
    job: JobModel,
) -> bool {
    exists|x: int| 0 <= x < upto && #[trigger] jobs[x] == job && !is_stale(jobs[x], now, hours)
}

/// What is left after the stale records were dropped: exactly the records
/// that are not stale, each found under its id as before, and no id twice.
pub proof fn lemma_retained(jobs: Seq<JobModel>, now: Timestamp, hours: u32, upto: int)
    requires
        job_ids_distinct(jobs),
        0 <= upto <= jobs.len(),
    ensures
        retained_upto(jobs, now, hours, upto).len() <= upto,
        job_ids_distinct(retained_upto(jobs, now, hours, upto)),
        forall|r: int|
            0 <= r < retained_upto(jobs, now, hours, upto).len() ==> survives(
                jobs,
                now,
                hours,
                upto,
                #[trigger] retained_upto(jobs, now, hours, upto)[r],
            ),
        forall|x: int|
            0 <= x < upto && !is_stale(#[trigger] jobs[x], now, hours) ==> tracks(
                retained_upto(jobs, now, hours, upto),
                jobs[x].id,
            ) && record(retained_upto(jobs, now, hours, upto), jobs[x].id) == jobs[x],
    decreases upto,
{
    let kept = retained_upto(jobs, now, hours, upto);
    if upto == 0 {
        assert(job_ids(kept) =~= Seq::empty());
    } else {
        let earlier = retained_upto(jobs, now, hours, upto - 1);
        lemma_retained(jobs, now, hours, upto - 1);
        let last = jobs[upto - 1];
        if is_stale(last, now, hours) {
            assert forall|r: int| 0 <= r < kept.len() implies survives(
                jobs,
                now,
                hours,
                upto,
                #[trigger] kept[r],
            ) by {
                assert(survives(jobs, now, hours, upto - 1, earlier[r]));
                let x = choose|x: int|
                    0 <= x < upto - 1 && #[trigger] jobs[x] == earlier[r] && !is_stale(
                        jobs[x],
                        now,
                        hours,
                    );
                assert(jobs[x] == kept[r]);
            }
        } else {
            lemma_push_ids(earlier, last);
            assert(!tracks(earlier, last.id)) by {
                if tracks(earlier, last.id) {
                    lemma_index_of(earlier, last.id);
                    let r = index_of(earlier, last.id);
                    assert(survives(jobs, now, hours, upto - 1, earlier[r]));
                    let x = choose|x: int|
                        0 <= x < upto - 1 && #[trigger] jobs[x] == earlier[r] && !is_stale(
                            jobs[x],
                            now,
                            hours,
                        );
                    assert(job_ids(jobs)[x] == job_ids(jobs)[upto - 1]);
                }
            }
            lemma_position(job_ids(earlier), last.id);
            lemma_push_no_duplicates(job_ids(earlier), last.id);
            assert forall|r: int| 0 <= r < kept.len() implies survives(
                jobs,
                now,
                hours,
                upto,
                #[trigger] kept[r],
            ) by {
                if r < earlier.len() {
                    assert(survives(jobs, now, hours, upto - 1, earlier[r]));
                    let x = choose|x: int|
                        0 <= x < upto - 1 && #[trigger] jobs[x] == earlier[r] && !is_stale(
                            jobs[x],
                            now,
                            hours,
                        );
                    assert(jobs[x] == kept[r]);
                } else {
                    assert(jobs[upto - 1] == kept[r]);
                }
            }
            assert forall|x: int|
                0 <= x < upto && !is_stale(#[trigger] jobs[x], now, hours) implies tracks(
                kept,
                jobs[x].id,
            ) && record(kept, jobs[x].id) == jobs[x] by {
                lemma_push_lookup(earlier, last, jobs[x].id);
                if x < upto - 1 {
                    assert(tracks(earlier, jobs[x].id));
                } else {
                    assert(jobs[x].id == last.id);
                }
            }
        }
    }
}

/// A tracked record that is not stale is found unchanged after the stale
/// records were dropped.
pub proof fn lemma_retained_keeps(jobs: Seq<JobModel>, now: Timestamp, hours: u32, id: Seq<char>)
    requires
        job_ids_distinct(jobs),
        tracks(jobs, id),
        !is_stale(record(jobs, id), now, hours),
    ensures
        tracks(retained(jobs, now, hours), id),
        record(retained(jobs, now, hours), id) == record(jobs, id),
{
    lemma_retained(jobs, now, hours, jobs.len() as int);
    lemma_index_of(jobs, id);
    let x = index_of(jobs, id);
    assert(!is_stale(jobs[x], now, hours));
}

/// A record found after the stale records were dropped was tracked before,
/// unchanged, and is not stale.
pub proof fn lemma_retained_was_tracked(
    jobs: Seq<JobModel>,
    now: Timestamp,
    hours: u32,
    id: Seq<char>,
)
    requires
        job_ids_distinct(jobs),
        tracks(retained(jobs, now, hours), id),
    ensures
        tracks(jobs, id),
        record(retained(jobs, now, hours), id) == record(jobs, id),
        !is_stale(record(jobs, id), now, hours),
{
    let kept = retained(jobs, now, hours);
    lemma_retained(jobs, now, hours, jobs.len() as int);
    lemma_index_of(kept, id);
    let r = index_of(kept, id);
    assert(survives(jobs, now, hours, jobs.len() as int, kept[r]));
    let x = choose|x: int|
        0 <= x < jobs.len() && #[trigger] jobs[x] == kept[r] && !is_stale(jobs[x], now, hours);
    lemma_index_of_unique(jobs, x);
}

/// Dropping the stale records keeps the engine consistent.
pub proof fn lemma_sweep_inv(s: EngineState, now: Timestamp)
    requires
        s.inv(),
    ensures
        s.sweep(now).inv(),
{
    let t = s.sweep(now);
    let hours = s.config.cleanup_completed_jobs_after_hours;
    lemma_retained(s.jobs, now, hours, s.jobs.len() as int);
    assert forall|id: Seq<char>| t.queue.contains(id) implies tracks(t.jobs, id)
        && (#[trigger] record(t.jobs, id)).status == JobStatus::Queued by {
        lemma_inv_lookups(s);
        assert(record(s.jobs, id).status == JobStatus::Queued);
        lemma_retained_keeps(s.jobs, now, hours, id);
    }
    assert forall|id: Seq<char>| #[trigger] slot_ids(t.running).contains(id) implies tracks(
        t.jobs,
        id,
    ) && record(t.jobs, id).status == JobStatus::Running by {
        lemma_inv_lookups(s);
        assert(record(s.jobs, id).status == JobStatus::Running);
        lemma_retained_keeps(s.jobs, now, hours, id);
    }
    assert forall|id: Seq<char>|
        tracks(t.jobs, id) && (#[trigger] record(t.jobs, id)).status
            == JobStatus::Running implies slot_ids(t.running).contains(id) by {
        lemma_retained_was_tracked(s.jobs, now, hours, id);
        lemma_inv_lookups(s);
        assert(record(s.jobs, id).status == JobStatus::Running);
    }
    assert forall|id: Seq<char>| tracks(t.jobs, id) implies (#[trigger] record(
        t.jobs,
        id,
    )).well_formed() by {
        lemma_retained_was_tracked(s.jobs, now, hours, id);
        lemma_inv_lookups(s);
        assert(record(s.jobs, id).well_formed());
    }
    lemma_inv_from_lookups(t);
}

} // verus!
