//! The conversions of one tick, and what becomes of each.
//!
//! On a tick the caller probes the load of every pending entry and hands
//! over the outline of each scene that is ready. The plan lists one job for
//! every primitive that can be extracted from those scenes. The caller runs
//! the codec on each job's mesh and reports whether it took the mesh; a mesh
//! that the codec took is written in the background, and is counted as in
//! flight from before its write unit starts until after the unit has ended.
//! A mesh that the codec refused is reported and touches nothing else.

use crate::counter::{after_begin, InFlight};
use crate::path::destination_of;
use crate::queue::{is_ready, LoadQueue, QueueView};
use crate::scene::{declared_before, extractable, PrimitiveRef, SceneOutline};
use vstd::prelude::*;

verus! {

/// The conversion of one primitive.
#[derive(Clone, Debug, PartialEq, Eq)]
pub struct Job {
    /// The index of the pending entry whose scene holds the primitive.
    pub entry: usize,
    /// The index of the primitive's mesh in the scene.
    pub mesh: usize,
    /// The index of the primitive in its mesh.
    pub primitive: usize,
    /// Where the converted mesh is written.
    pub destination: String,
}

/// What the caller does with a job once the codec has run.
#[derive(Clone, Debug, PartialEq, Eq)]
pub enum Dispatch {
    /// Start a write unit that writes the converted mesh to `destination`.
    /// The counter already counts the unit.
    Write { destination: String },
    /// Report that the mesh from the entry at `entry` could not be
    /// converted. Nothing is written and nothing is counted.
    Rejected { entry: usize },
}

/// Whether the entry at `entry` is ready on this tick and its scene holds
/// the resolved primitive `primitive` of mesh `mesh`.
pub open spec fn convertible<T>(
    queue: QueueView<T>,
    loads: Seq<Option<SceneOutline>>,
    entry: int,
    mesh: int,
    primitive: int,
) -> bool {
    &&& 0 <= entry < queue.pending.len()
    &&& entry < loads.len()
    &&& loads[entry] matches Some(scene)
    &&& extractable(scene, mesh, primitive)
}

/// Whether `jobs` holds the conversion of that primitive.
pub open spec fn scheduled(jobs: Seq<Job>, entry: int, mesh: int, primitive: int) -> bool {
    exists|k: int|
        0 <= k < jobs.len() && (#[trigger] jobs[k]).entry == entry && jobs[k].mesh == mesh
            && jobs[k].primitive == primitive
}

/// Whether job `a` comes before job `b`: by entry in queue order, then by
/// primitive in declared order.
pub open spec fn job_before(a: Job, b: Job) -> bool {
    a.entry < b.entry || (a.entry == b.entry && declared_before(
        a.mesh as int,
        a.primitive as int,
        b.mesh as int,
        b.primitive as int,
    ))
}

/// Whether `jobs` is the plan of the tick: one job for every convertible
/// primitive, ordered by entry and then as declared, each bound for the
/// destination of its entry's source file, and nothing else.
pub open spec fn is_plan<T>(
    queue: QueueView<T>,
    loads: Seq<Option<SceneOutline>>,
    output_dir: Seq<char>,
    artifact_extension: Seq<char>,
    jobs: Seq<Job>,
) -> bool {
    &&& forall|k: int|
        0 <= k < jobs.len() ==> {
            &&& convertible(
                queue,
                loads,
                (#[trigger] jobs[k]).entry as int,
                jobs[k].mesh as int,
                jobs[k].primitive as int,
            )
            &&& destination_of(output_dir, queue.pending[jobs[k].entry as int].path, artifact_extension)
                == Some(jobs[k].destination@)
        }
    &&& forall|k: int, l: int|
        0 <= k < l < jobs.len() ==> job_before(#[trigger] jobs[k], #[trigger] jobs[l])
    &&& forall|entry: int, mesh: int, primitive: int| #[trigger]
        convertible(queue, loads, entry, mesh, primitive) ==> scheduled(
            jobs,
            entry,
            mesh,
            primitive,
        )
}

/// Whether `jobs` is the plan for the entries before `entry`, together with
/// the first `done` of `refs`, the extraction of the entry at `entry`.
spec fn planned_up_to<T>(
    queue: QueueView<T>,
    loads: Seq<Option<SceneOutline>>,
    output_dir: Seq<char>,
    artifact_extension: Seq<char>,
    jobs: Seq<Job>,
    entry: int,
    refs: Seq<PrimitiveRef>,
    done: int,
) -> bool {
    &&& forall|k: int|
        0 <= k < jobs.len() ==> {
            &&& convertible(
                queue,
                loads,
                (#[trigger] jobs[k]).entry as int,
                jobs[k].mesh as int,
                jobs[k].primitive as int,
            )
            &&& destination_of(output_dir, queue.pending[jobs[k].entry as int].path, artifact_extension)
                == Some(jobs[k].destination@)
            &&& jobs[k].entry <= entry
            &&& jobs[k].entry == entry ==> exists|r: int|
                0 <= r < done && (#[trigger] refs[r]).mesh == jobs[k].mesh && refs[r].primitive
                    == jobs[k].primitive
        }
    &&& forall|k: int, l: int|
        0 <= k < l < jobs.len() ==> job_before(#[trigger] jobs[k], #[trigger] jobs[l])
    &&& forall|e: int, m: int, p: int| #[trigger]
        convertible(queue, loads, e, m, p) && e < entry ==> scheduled(jobs, e, m, p)
    &&& forall|r: int|
        0 <= r < done ==> scheduled(
            jobs,
            entry,
            (#[trigger] refs[r]).mesh as int,
            refs[r].primitive as int,
        )
}

/// A further job at the end keeps what was scheduled.
proof fn lemma_push_keeps_scheduled(jobs: Seq<Job>, next: Job, e: int, m: int, p: int)
    requires
        scheduled(jobs, e, m, p) || (next.entry == e && next.mesh == m && next.primitive == p),
    ensures
        scheduled(jobs.push(next), e, m, p),
{
    let longer = jobs.push(next);
    if scheduled(jobs, e, m, p) {
        let k = choose|k: int|
            0 <= k < jobs.len() && (#[trigger] jobs[k]).entry == e && jobs[k].mesh == m
                && jobs[k].primitive == p;
        assert(longer[k] == jobs[k]);
    } else {
        assert(longer[jobs.len() as int] == next);
    }
}

/// The jobs of this tick. `loads[i]` is the outline of the scene of the
/// pending entry at `i` if that entry's load is ready, and `None` if it is
/// not; an entry that `loads` does not reach is not ready. The queue is not
/// changed: the entries leave it only after their jobs have been dealt with.
pub fn plan<T>(
    queue: &LoadQueue<T>,
    loads: &Vec<Option<SceneOutline>>,
    output_dir: &str,
    artifact_extension: &str,
) -> (jobs: Vec<Job>)
    requires
        queue@.names_files(),
    ensures
        is_plan(queue@, loads@, output_dir@, artifact_extension@, jobs@),
{
    let mut jobs: Vec<Job> = Vec::new();
    let pending = queue.pending_len();
    let count = if pending < loads.len() {
        pending
    } else {
        loads.len()
    };
    let mut e: usize = 0;
    while e < count
        invariant
            e <= count,
            count <= queue@.pending.len(),
            count <= loads@.len(),
            count == queue@.pending.len() || count == loads@.len(),
            queue@.names_files(),
            planned_up_to(
                queue@,
                loads@,
                output_dir@,
                artifact_extension@,
                jobs@,
                e as int,
                Seq::empty(),
                0,
            ),
        decreases count - e,
    {
        match &loads[e] {
            Some(scene) => {
                let refs = crate::scene::extract(scene);
                let entry = queue.entry(e);
                let destination = match entry {
                    Some(entry) => crate::path::destination(
                        output_dir,
                        entry.source_path.as_str(),
                        artifact_extension,
                    ),
                    None => None,
                };
                match destination {
                    Some(destination) => {
                        let mut r: usize = 0;
                        while r < refs.len()
                            invariant
                                e < count,
                                count <= queue@.pending.len(),
                                count <= loads@.len(),
                                loads@[e as int] == Some(*scene),
                                crate::scene::is_extraction(*scene, refs@),
                                r <= refs@.len(),
                                destination_of(
                                    output_dir@,
                                    queue@.pending[e as int].path,
                                    artifact_extension@,
                                ) == Some(destination@),
                                planned_up_to(
                                    queue@,
                                    loads@,
                                    output_dir@,
                                    artifact_extension@,
                                    jobs@,
                                    e as int,
                                    refs@,
                                    r as int,
                                ),
                            decreases refs@.len() - r,
                        {
                            let next = Job {
                                entry: e,
                                mesh: refs[r].mesh,
                                primitive: refs[r].primitive,
                                destination: destination.clone(),
                            };
                            let ghost before = jobs@;
                            jobs.push(next);
                            proof {
                                let after = jobs@;
                                let last = after[before.len() as int];
                                assert forall|k: int| 0 <= k < after.len() implies {
                                    &&& convertible(
                                        queue@,
                                        loads@,
                                        (#[trigger] after[k]).entry as int,
                                        after[k].mesh as int,
                                        after[k].primitive as int,
                                    )
                                    &&& destination_of(
                                        output_dir@,
                                        queue@.pending[after[k].entry as int].path,
                                        artifact_extension@,
                                    ) == Some(after[k].destination@)
                                    &&& after[k].entry <= e
                                    &&& after[k].entry == e ==> exists|x: int|
                                        0 <= x < r + 1 && (#[trigger] refs@[x]).mesh
                                            == after[k].mesh && refs@[x].primitive
                                            == after[k].primitive
                                } by {
                                    if k < before.len() {
                                        assert(after[k] == before[k]);
                                        if before[k].entry == e {
                                            let x = choose|x: int|
                                                0 <= x < r && (#[trigger] refs@[x]).mesh
                                                    == before[k].mesh && refs@[x].primitive
                                                    == before[k].primitive;
                                            assert(0 <= x < r + 1);
                                        }
                                    } else {
                                        assert(refs@[r as int].mesh == last.mesh);
                                    }
                                }
                                assert forall|k: int, l: int|
                                    0 <= k < l < after.len() implies job_before(
                                    #[trigger] after[k],
                                    #[trigger] after[l],
                                ) by {
                                    if l < before.len() {
                                        assert(after[k] == before[k] && after[l] == before[l]);
                                    } else {
                                        assert(after[k] == before[k]);
                                        if before[k].entry == e {
                                            let x = choose|x: int|
                                                0 <= x < r && (#[trigger] refs@[x]).mesh
                                                    == before[k].mesh && refs@[x].primitive
                                                    == before[k].primitive;
                                            assert(declared_before(
                                                refs@[x].mesh as int,
                                                refs@[x].primitive as int,
                                                refs@[r as int].mesh as int,
                                                refs@[r as int].primitive as int,
                                            ));
                                        }
                                    }
                                }
                                assert forall|ee: int, m: int, p: int| #[trigger]
                                    convertible(queue@, loads@, ee, m, p) && ee
                                        < e implies scheduled(after, ee, m, p) by {
                                    lemma_push_keeps_scheduled(before, last, ee, m, p);
                                }
                                assert forall|x: int| 0 <= x < r + 1 implies scheduled(
                                    after,
                                    e as int,
                                    (#[trigger] refs@[x]).mesh as int,
                                    refs@[x].primitive as int,
                                ) by {
                                    lemma_push_keeps_scheduled(
                                        before,
                                        last,
                                        e as int,
                                        refs@[x].mesh as int,
                                        refs@[x].primitive as int,
                                    );
                                }
                            }
                            r = r + 1;
                        }
                        proof {
                            assert forall|ee: int, m: int, p: int| #[trigger]
                                convertible(queue@, loads@, ee, m, p) && ee < e
                                    + 1 implies scheduled(jobs@, ee, m, p) by {
                                if ee == e {
                                    assert(crate::scene::listed(refs@, m, p));
                                    let x = choose|x: int|
                                        0 <= x < refs@.len() && (#[trigger] refs@[x]).mesh == m
                                            && refs@[x].primitive == p;
                                    assert(scheduled(
                                        jobs@,
                                        e as int,
                                        refs@[x].mesh as int,
                                        refs@[x].primitive as int,
                                    ));
                                }
                            }
                        }
                    },
                    None => {
                        proof {
                            assert(crate::path::file_stem_of(queue@.pending[e as int].path) is Some);
                            assert(false);
                        }
                    },
                }
            },
            None => {},
        }
        e = e + 1;
    }
    jobs
}

/// Which entries are ready on this tick: those whose scene was handed over.
/// These are the entries that leave the queue at the end of the tick.
pub fn ready_flags(loads: &Vec<Option<SceneOutline>>) -> (ready: Vec<bool>)
    ensures
        ready@.len() == loads@.len(),
        forall|i: int| 0 <= i < loads@.len() ==> ready@[i] == (#[trigger] loads@[i] is Some),
{
    let mut ready: Vec<bool> = Vec::new();
    let mut i: usize = 0;
    while i < loads.len()
        invariant
            i <= loads@.len(),
            ready@.len() == i,
            forall|j: int| 0 <= j < i ==> ready@[j] == (#[trigger] loads@[j] is Some),
        decreases loads@.len() - i,
    {
        ready.push(loads[i].is_some());
        i = i + 1;
    }
    ready
}

/// Extraction comes before removal. Every job of a tick belongs to an entry
/// that is ready on that tick, so an entry that stays pending has had none
/// of its meshes converted, and every ready entry has had all of them
/// planned before it leaves.
pub proof fn lemma_jobs_are_of_ready_entries<T>(
    queue: QueueView<T>,
    loads: Seq<Option<SceneOutline>>,
    ready: Seq<bool>,
    output_dir: Seq<char>,
    artifact_extension: Seq<char>,
    jobs: Seq<Job>,
)
    requires
        is_plan(queue, loads, output_dir, artifact_extension, jobs),
        ready.len() == loads.len(),
        forall|i: int| 0 <= i < loads.len() ==> ready[i] == (#[trigger] loads[i] is Some),
    ensures
        forall|k: int| 0 <= k < jobs.len() ==> is_ready(ready, (#[trigger] jobs[k]).entry as int),
        forall|entry: int, mesh: int, primitive: int| #[trigger]
            convertible(queue, loads, entry, mesh, primitive) ==> is_ready(ready, entry)
                && scheduled(jobs, entry, mesh, primitive),
{
    assert forall|k: int| 0 <= k < jobs.len() implies is_ready(
        ready,
        (#[trigger] jobs[k]).entry as int,
    ) by {
        assert(convertible(
            queue,
            loads,
            jobs[k].entry as int,
            jobs[k].mesh as int,
            jobs[k].primitive as int,
        ));
        assert(loads[jobs[k].entry as int] is Some);
    }
    assert forall|entry: int, mesh: int, primitive: int| #[trigger]
        convertible(queue, loads, entry, mesh, primitive) implies is_ready(ready, entry)
        && scheduled(jobs, entry, mesh, primitive) by {
        assert(loads[entry] is Some);
    }
}

/// Whether `dispatch` is what becomes of `job` when the codec took the mesh
/// (`converted`) or refused it.
pub open spec fn is_dispatch_of(dispatch: Dispatch, job: Job, converted: bool) -> bool {
    match dispatch {
        Dispatch::Write { destination } => converted && destination@ == job.destination@,
        Dispatch::Rejected { entry } => !converted && entry == job.entry,
    }
}

/// The count of units in flight once a job is settled: one more if the
/// codec took the mesh, the same if it did not.
pub open spec fn count_after_job(count: nat, converted: bool) -> nat {
    if converted {
        after_begin(count)
    } else {
        count
    }
}

/// Settles a job on the codec's verdict. A mesh that was converted is
/// counted as in flight at once, before the caller starts its write unit. A
/// mesh that the codec refused leaves the counter alone.
pub fn settle(job: Job, converted: bool, in_flight: &mut InFlight) -> (dispatch: Dispatch)
    requires
        old(in_flight)@ < usize::MAX,
    ensures
        is_dispatch_of(dispatch, job, converted),
        final(in_flight)@ == count_after_job(old(in_flight)@, converted),
{
    if converted {
        let begun = in_flight.begin();
        assert(begun);
        Dispatch::Write { destination: job.destination }
    } else {
        Dispatch::Rejected { entry: job.entry }
    }
}

/// The count of units in flight once the jobs of a tick are settled in
/// order, where `verdicts[k]` is the codec's verdict on the job at `k`.
pub open spec fn count_after_jobs(count: nat, verdicts: Seq<bool>) -> nat
    decreases verdicts.len(),
{
    if verdicts.len() == 0 {
        count
    } else {
        count_after_job(count_after_jobs(count, verdicts.drop_last()), verdicts.last())
    }
}

/// How many of the verdicts are for the mesh.
pub open spec fn conversions(verdicts: Seq<bool>) -> nat
    decreases verdicts.len(),
{
    if verdicts.len() == 0 {
        0
    } else if verdicts.last() {
        conversions(verdicts.drop_last()) + 1
    } else {
        conversions(verdicts.drop_last())
    }
}

/// After a tick the counter has gone up by the number of meshes that were
/// converted, whatever the order of successes and failures.
pub proof fn lemma_count_after_jobs(count: nat, verdicts: Seq<bool>)
    ensures
        count_after_jobs(count, verdicts) == count + conversions(verdicts),
    decreases verdicts.len(),
{
    if verdicts.len() > 0 {
        lemma_count_after_jobs(count, verdicts.drop_last());
    }
}

/// A codec failure is contained in its own job. Had the job at `k` failed
/// where it succeeded, every other job would have been settled as it was:
/// each is dispatched on its own verdict alone, and the counter differs by
/// that one unit and no more.
pub proof fn lemma_failure_is_isolated(count: nat, verdicts: Seq<bool>, k: int)
    requires
        0 <= k < verdicts.len(),
        verdicts[k],
    ensures
        conversions(verdicts) == conversions(verdicts.update(k, false)) + 1,
        count_after_jobs(count, verdicts) == count_after_jobs(count, verdicts.update(k, false))
            + 1,
        forall|j: int|
            0 <= j < verdicts.len() && j != k ==> verdicts.update(k, false)[j] == verdicts[j],
    decreases verdicts.len(),
{
    let failed = verdicts.update(k, false);
    lemma_count_after_jobs(count, verdicts);
    lemma_count_after_jobs(count, failed);
    if k == verdicts.len() - 1 {
        assert(failed.drop_last() =~= verdicts.drop_last());
    } else {
        assert(failed.drop_last() =~= verdicts.drop_last().update(k, false));
        lemma_failure_is_isolated(count, verdicts.drop_last(), k);
    }
}

} // verus!
