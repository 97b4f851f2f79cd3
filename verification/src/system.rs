//! The per-frame script pass: a consistent snapshot of every
//! (entity, script) pair in the world, and a state machine that decides,
//! pair by pair, whether to initialize and when to update.
//!
//! The sandboxed execution itself happens in the embedding application:
//! it asks [`ScriptSystemPass::next_action`] what to do, performs the
//! action against its script engine, and reports the outcome back
//! through [`ScriptSystemPass::report_init`] and
//! [`ScriptSystemPass::report_update`].  A pair transitions from
//! uninitialized to initialized at most once: initialization is only
//! ever requested for a pair whose flag is down, a successful report
//! raises the flag, and nothing lowers it again.  A failed
//! initialization leaves the flag down and moves on to the next pair,
//! so the pair is retried on the next frame and one failing script
//! never aborts the frame for its siblings.

use vstd::prelude::*;

use crate::world::{EntityId, World};

verus! {

/// One snapshot entry: a script attached to an entity at the moment the
/// pass was taken.
pub struct ScriptJob {
    pub entity_id: EntityId,
    pub script_index: usize,
    pub script_path: String,
    pub was_initialized: bool,
}

/// Whether `job` faithfully describes a script of a live entity of `w`.
pub open spec fn spec_job_matches(w: World, job: ScriptJob) -> bool {
    &&& w.is_live(job.entity_id)
    &&& w.spec_entity(job.entity_id).scripts matches Some(v) && job.script_index < v@.len()
        && v@[job.script_index as int].script_path@ == job.script_path@
        && v@[job.script_index as int].is_initialized == job.was_initialized
}

/// Whether entity `id` of `w` is live and carries a script at index `k`.
pub open spec fn spec_pair_exists(w: World, id: EntityId, k: int) -> bool {
    &&& w.is_live(id)
    &&& w.spec_entity(id).scripts matches Some(v) && 0 <= k < v@.len()
}

/// Whether `jobs` holds an entry for the pair `(id, k)`.
pub open spec fn spec_has_job(jobs: Seq<ScriptJob>, id: EntityId, k: int) -> bool {
    exists|j: int|
        0 <= j < jobs.len() && (#[trigger] jobs[j]).entity_id == id && jobs[j].script_index == k
}

/// Whether the pair `job` names currently needs initialization: it
/// still exists in `w` and its flag is down.
pub open spec fn spec_job_needs_init(w: World, job: ScriptJob) -> bool {
    &&& w.is_live(job.entity_id)
    &&& w.spec_entity(job.entity_id).scripts matches Some(v) && job.script_index < v@.len()
        && !v@[job.script_index as int].is_initialized
}

/// No (entity, script-index) pair appears more than once in `jobs`.
pub open spec fn spec_jobs_distinct(jobs: Seq<ScriptJob>) -> bool {
    forall|i: int, j: int|
        0 <= i < j < jobs.len() ==> !((#[trigger] jobs[i]).entity_id == (#[trigger] jobs[j]).entity_id
            && jobs[i].script_index == jobs[j].script_index)
}

/// The jobs of any one entity appear in ascending script-index order.
pub open spec fn spec_jobs_ordered(jobs: Seq<ScriptJob>) -> bool {
    forall|i: int, j: int|
        0 <= i < j < jobs.len() && (#[trigger] jobs[i]).entity_id == (#[trigger] jobs[j]).entity_id
            ==> jobs[i].script_index < jobs[j].script_index
}

spec fn among(e: EntityId, ids: Seq<EntityId>, bound: int) -> bool {
    exists|m: int| 0 <= m < bound && e == ids[m]
}

proof fn lemma_has_job_push(jobs: Seq<ScriptJob>, nj: ScriptJob, id: EntityId, k: int)
    requires
        spec_has_job(jobs, id, k),
    ensures
        spec_has_job(jobs.push(nj), id, k),
{
    let j = choose|j: int|
        0 <= j < jobs.len() && (#[trigger] jobs[j]).entity_id == id && jobs[j].script_index == k;
    assert(jobs.push(nj)[j] == jobs[j]);
}

/// Takes the consistent point-in-time snapshot of every
/// (entity, script) pair in `world`: every entry describes a live
/// script faithfully, every live script has an entry, no pair appears
/// twice, and one entity's entries come in ascending script-index
/// order.
pub fn collect_script_instances(world: &World) -> (jobs: Vec<ScriptJob>)
    ensures
        forall|j: int| 0 <= j < jobs@.len() ==> spec_job_matches(*world, #[trigger] jobs@[j]),
        forall|id: EntityId, k: int|
            #[trigger] spec_pair_exists(*world, id, k) ==> spec_has_job(jobs@, id, k),
        spec_jobs_distinct(jobs@),
        spec_jobs_ordered(jobs@),
{
    let ids = world.iter_entities();
    proof {
        world.lemma_live_ids_exact();
    }
    let n = ids.len();
    let mut jobs: Vec<ScriptJob> = Vec::new();
    let mut ii: usize = 0;
    while ii < n
        invariant
            ids@ == world.spec_live_ids(),
            forall|id: EntityId| #[trigger] ids@.contains(id) <==> world.is_live(id),
            ids@.no_duplicates(),
            n == ids@.len(),
            0 <= ii <= n,
            forall|j: int| 0 <= j < jobs@.len() ==> spec_job_matches(*world, #[trigger] jobs@[j]),
            forall|m: int, k: int|
                0 <= m < ii && #[trigger] spec_pair_exists(*world, ids@[m], k) ==> spec_has_job(
                    jobs@,
                    ids@[m],
                    k,
                ),
            forall|j: int|
                0 <= j < jobs@.len() ==> among((#[trigger] jobs@[j]).entity_id, ids@, ii as int),
            spec_jobs_ordered(jobs@),
        decreases n - ii,
    {
        let id = ids[ii];
        proof {
            assert(ids@.contains(ids@[ii as int]));
        }
        match world.get_entity(id) {
            Some(e) => {
                let ns = e.script_count();
                let ghost base: int = jobs@.len() as int;
                let mut kk: usize = 0;
                while kk < ns
                    invariant
                        ids@ == world.spec_live_ids(),
                        ids@.no_duplicates(),
                        n == ids@.len(),
                        0 <= ii < n,
                        id == ids@[ii as int],
                        world.is_live(id),
                        *e == world.spec_entity(id),
                        ns == (match e.scripts {
                            Some(v) => v@.len(),
                            None => 0,
                        }),
                        0 <= kk <= ns,
                        0 <= base,
                        jobs@.len() == base + kk,
                        forall|j: int|
                            0 <= j < jobs@.len() ==> spec_job_matches(*world, #[trigger] jobs@[j]),
                        forall|m: int, k: int|
                            0 <= m < ii && #[trigger] spec_pair_exists(*world, ids@[m], k)
                                ==> spec_has_job(jobs@, ids@[m], k),
                        forall|j: int|
                            0 <= j < base ==> among(
                                (#[trigger] jobs@[j]).entity_id,
                                ids@,
                                ii as int,
                            ),
                        forall|j: int|
                            base <= j < jobs@.len() ==> (#[trigger] jobs@[j]).entity_id == id
                                && jobs@[j].script_index == j - base,
                        forall|k: int| 0 <= k < kk ==> #[trigger] spec_has_job(jobs@, id, k),
                        spec_jobs_ordered(jobs@),
                    decreases ns - kk,
                {
                    match e.get_script(kk) {
                        Some(s) => {
                            let ghost prev = jobs@;
                            let nj = ScriptJob {
                                entity_id: id,
                                script_index: kk,
                                script_path: s.script_path.clone(),
                                was_initialized: s.is_initialized,
                            };
                            jobs.push(nj);
                            proof {
                                assert(jobs@ == prev.push(nj));
                                assert(jobs@[jobs@.len() - 1] == nj);
                                assert(spec_has_job(jobs@, id, kk as int));
                                assert(spec_job_matches(*world, nj));
                                assert forall|j: int|
                                    0 <= j < jobs@.len() implies spec_job_matches(
                                    *world,
                                    #[trigger] jobs@[j],
                                ) by {
                                    if j < prev.len() {
                                        assert(jobs@[j] == prev[j]);
                                    }
                                }
                                assert forall|m: int, k: int|
                                    0 <= m < ii && #[trigger] spec_pair_exists(*world, ids@[m], k)
                                        implies spec_has_job(jobs@, ids@[m], k) by {
                                    lemma_has_job_push(prev, nj, ids@[m], k);
                                }
                                assert forall|k: int|
                                    0 <= k < kk + 1 implies #[trigger] spec_has_job(
                                    jobs@,
                                    id,
                                    k,
                                ) by {
                                    if k < kk {
                                        lemma_has_job_push(prev, nj, id, k);
                                    }
                                }
                                assert forall|j1: int, j2: int|
                                    0 <= j1 < j2 < jobs@.len() && (#[trigger] jobs@[j1]).entity_id
                                        == (#[trigger] jobs@[j2]).entity_id implies jobs@[j1].script_index
                                    < jobs@[j2].script_index by {
                                    if j2 < prev.len() {
                                        assert(jobs@[j1] == prev[j1] && jobs@[j2] == prev[j2]);
                                    } else {
                                        assert(jobs@[j2] == nj);
                                        assert(jobs@[j1] == prev[j1]);
                                        if j1 < base {
                                            assert(among(prev[j1].entity_id, ids@, ii as int));
                                            let m = choose|m: int|
                                                0 <= m < ii && prev[j1].entity_id == ids@[m];
                                            assert(ids@[m] != ids@[ii as int]);
                                            assert(false);
                                        } else {
                                            assert(jobs@[j1].script_index == j1 - base);
                                        }
                                    }
                                }
                            }
                        },
                        None => {
                            proof {
                                assert(false);
                            }
                        },
                    }
                    kk += 1;
                }
                proof {
                    assert forall|k: int|
                        #[trigger] spec_pair_exists(*world, id, k) implies spec_has_job(
                        jobs@,
                        id,
                        k,
                    ) by {}
                    assert forall|j: int|
                        0 <= j < jobs@.len() implies among(
                        (#[trigger] jobs@[j]).entity_id,
                        ids@,
                        ii + 1,
                    ) by {
                        if j < base {
                            assert(among(jobs@[j].entity_id, ids@, ii as int));
                            let m = choose|m: int| 0 <= m < ii && jobs@[j].entity_id == ids@[m];
                            assert(0 <= m < ii + 1 && jobs@[j].entity_id == ids@[m]);
                        } else {
                            assert(jobs@[j].entity_id == ids@[ii as int]);
                        }
                    }
                }
            },
            None => {
                proof {
                    assert(false);
                }
            },
        }
        ii += 1;
    }
    proof {
        assert forall|id: EntityId, k: int|
            #[trigger] spec_pair_exists(*world, id, k) implies spec_has_job(jobs@, id, k) by {
            assert(ids@.contains(id));
            let m = choose|m: int| 0 <= m < ids@.len() && ids@[m] == id;
            assert(spec_pair_exists(*world, ids@[m], k));
        }
    }
    jobs
}

/// What the pass asks the embedding application to do next.
pub enum ScriptAction {
    /// Load and instantiate the module at `script_path` for this pair,
    /// then report the outcome through `report_init`.
    Init { entity_id: EntityId, script_index: usize, script_path: String },
    /// Call the pair's per-frame update entry point, then report through
    /// `report_update`.
    Update { entity_id: EntityId, script_index: usize, script_path: String },
    /// Every pair of the snapshot has been handled this frame.
    Finished,
}

/// One frame of the script system: a snapshot of the world's
/// (entity, script) pairs and a cursor over them.
pub struct ScriptSystemPass {
    jobs: Vec<ScriptJob>,
    cursor: usize,
}

impl ScriptSystemPass {
    /// The snapshot this pass works through.
    pub closed spec fn spec_jobs(self) -> Seq<ScriptJob> {
        self.jobs@
    }

    /// The position of the pair currently being handled.
    pub closed spec fn spec_cursor(self) -> int {
        self.cursor as int
    }

    /// Every snapshot entry faithfully describes a live script of `w`.
    pub open spec fn sound_for(self, w: World) -> bool {
        forall|j: int|
            0 <= j < self.spec_jobs().len() ==> spec_job_matches(w, #[trigger] self.spec_jobs()[j])
    }

    /// Every live script of `w` has a snapshot entry.
    pub open spec fn complete_for(self, w: World) -> bool {
        forall|id: EntityId, k: int|
            #[trigger] spec_pair_exists(w, id, k) ==> spec_has_job(self.spec_jobs(), id, k)
    }

    /// Snapshots `world` and starts a fresh pass over it.
    pub fn new(world: &World) -> (pass: ScriptSystemPass)
        ensures
            pass.sound_for(*world),
            pass.complete_for(*world),
            spec_jobs_distinct(pass.spec_jobs()),
            spec_jobs_ordered(pass.spec_jobs()),
            pass.spec_cursor() == 0,
    {
        let jobs = collect_script_instances(world);
        ScriptSystemPass { jobs, cursor: 0 }
    }

    /// Decides what to do for the pair under the cursor: initialize it
    /// when it still exists uninitialized in `world`, update it
    /// otherwise, and report the frame finished when the snapshot is
    /// exhausted.  Initialization is never requested for a pair whose
    /// initialized flag is already up.
    pub fn next_action(&self, world: &World) -> (a: ScriptAction)
        ensures
            match a {
                ScriptAction::Init { entity_id, script_index, script_path } => {
                    &&& self.spec_cursor() < self.spec_jobs().len()
                    &&& entity_id == self.spec_jobs()[self.spec_cursor()].entity_id
                    &&& script_index == self.spec_jobs()[self.spec_cursor()].script_index
                    &&& script_path == self.spec_jobs()[self.spec_cursor()].script_path
                    &&& spec_job_needs_init(*world, self.spec_jobs()[self.spec_cursor()])
                },
                ScriptAction::Update { entity_id, script_index, script_path } => {
                    &&& self.spec_cursor() < self.spec_jobs().len()
                    &&& entity_id == self.spec_jobs()[self.spec_cursor()].entity_id
                    &&& script_index == self.spec_jobs()[self.spec_cursor()].script_index
                    &&& script_path == self.spec_jobs()[self.spec_cursor()].script_path
                    &&& !spec_job_needs_init(*world, self.spec_jobs()[self.spec_cursor()])
                },
                ScriptAction::Finished => self.spec_cursor() >= self.spec_jobs().len(),
            },
    {
        if self.cursor >= self.jobs.len() {
            return ScriptAction::Finished;
        }
        let job = &self.jobs[self.cursor];
        let mut needs_init = false;
        match world.get_entity(job.entity_id) {
            Some(e) => {
                match e.get_script(job.script_index) {
                    Some(s) => {
                        if !s.is_initialized {
                            needs_init = true;
                        }
                    },
                    None => {},
                }
            },
            None => {},
        }
        if needs_init {
            ScriptAction::Init {
                entity_id: job.entity_id,
                script_index: job.script_index,
                script_path: job.script_path.clone(),
            }
        } else {
            ScriptAction::Update {
                entity_id: job.entity_id,
                script_index: job.script_index,
                script_path: job.script_path.clone(),
            }
        }
    }

    /// Takes the outcome of an initialization attempt for the pair under
    /// the cursor.  Success raises the pair's initialized flag in the
    /// world and keeps the cursor, so the pair's update runs next;
    /// failure touches nothing in the world and skips to the next pair,
    /// leaving the flag down for a retry on a later frame.
    pub fn report_init(&mut self, world: &mut World, ok: bool)
        requires
            old(world).wf(),
        ensures
            final(world).wf(),
            final(self).spec_jobs() == old(self).spec_jobs(),
            old(self).spec_cursor() >= old(self).spec_jobs().len() ==> *final(self) == *old(self)
                && *final(world) == *old(world),
            old(self).spec_cursor() < old(self).spec_jobs().len() && !ok ==> *final(world) == *old(world) && final(self).spec_cursor() == old(self).spec_cursor() + 1,
            old(self).spec_cursor() < old(self).spec_jobs().len() && ok ==> final(self).spec_cursor() == old(self).spec_cursor() && spec_mark_initialized_result(
                *old(world),
                *final(world),
                old(self).spec_jobs()[old(self).spec_cursor()].entity_id,
                old(self).spec_jobs()[old(self).spec_cursor()].script_index as int,
            ),
    {
        if self.cursor < self.jobs.len() {
            if ok {
                let job = &self.jobs[self.cursor];
                let _ = world.set_script_initialized(job.entity_id, job.script_index);
            } else {
                self.cursor += 1;
            }
        }
    }

    /// Takes the outcome of an update call for the pair under the
    /// cursor and moves on to the next pair.  The world is untouched
    /// either way: a failing update is logged by the embedding
    /// application and must not abort the frame for other pairs.
    pub fn report_update(&mut self)
        ensures
            final(self).spec_jobs() == old(self).spec_jobs(),
            old(self).spec_cursor() < old(self).spec_jobs().len() ==> final(self).spec_cursor()
                == old(self).spec_cursor() + 1,
            old(self).spec_cursor() >= old(self).spec_jobs().len() ==> *final(self) == *old(self),
    {
        if self.cursor < self.jobs.len() {
            self.cursor += 1;
        }
    }
}

/// What reporting a successful initialization does to the world: when
/// the pair still exists, exactly its script's initialized flag is
/// raised and everything else is untouched; when the pair is gone, the
/// world is untouched.
pub open spec fn spec_mark_initialized_result(pre: World, post: World, id: EntityId, k: int) -> bool {
    if pre.is_live(id) && (pre.spec_entity(id).scripts matches Some(v) && 0 <= k < v@.len()) {
        &&& crate::world::entity_update_step(pre, post, id)
        &&& post.spec_entity(id) == crate::entity::entity_with_scripts(
            pre.spec_entity(id),
            post.spec_entity(id).scripts,
        )
        &&& post.spec_entity(id).scripts matches Some(v2) && v2@ == pre.spec_entity(
            id,
        ).scripts.unwrap()@.update(
            k,
            crate::world::spec_script_initialized(pre.spec_entity(id).scripts.unwrap()@[k]),
        )
    } else {
        post == pre
    }
}

/// Once a pair's initialized flag is up, no pass ever asks to
/// initialize it again: initialization requests are made only for
/// pairs whose flag is down.  Together with
/// [`ScriptSystemPass::report_init`], which raises the flag exactly on
/// success, a pair transitions from uninitialized to initialized at
/// most once, however many frames run.
pub proof fn lemma_initialized_pair_never_reinitialized(w: World, job: ScriptJob)
    requires
        w.is_live(job.entity_id),
        w.spec_entity(job.entity_id).scripts matches Some(v) && job.script_index < v@.len()
            && v@[job.script_index as int].is_initialized,
    ensures
        !spec_job_needs_init(w, job),
{
}

/// A pair whose initialization failed is retried: the world is left
/// with the flag down, so the next frame's snapshot contains the pair
/// again and the pass asks to initialize it again.
pub proof fn lemma_failed_init_retried(w: World, jobs: Seq<ScriptJob>, id: EntityId, k: int)
    requires
        forall|j: int| 0 <= j < jobs.len() ==> spec_job_matches(w, #[trigger] jobs[j]),
        forall|id2: EntityId, k2: int|
            #[trigger] spec_pair_exists(w, id2, k2) ==> spec_has_job(jobs, id2, k2),
        spec_pair_exists(w, id, k),
        !(w.spec_entity(id).scripts.unwrap()@[k].is_initialized),
    ensures
        exists|j: int|
            0 <= j < jobs.len() && (#[trigger] jobs[j]).entity_id == id && jobs[j].script_index
                == k && spec_job_needs_init(w, jobs[j]),
{
    assert(spec_has_job(jobs, id, k));
    let j = choose|j: int|
        0 <= j < jobs.len() && (#[trigger] jobs[j]).entity_id == id && jobs[j].script_index == k;
    assert(spec_job_matches(w, jobs[j]));
    assert(spec_job_needs_init(w, jobs[j]));
}

} // verus!
