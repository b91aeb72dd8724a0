//! The job registry: the authoritative table of blocks awaiting proof, their
//! leases, and the registered workers. Time is handed in by the caller as a
//! millisecond clock reading, so every decision here is a function of its
//! arguments and of the table.
use vstd::prelude::*;

use crate::types::{ActionType, Operation};

verus! {

/// Errors the registry reports to workers. None of them is fatal to the
/// registry itself.
#[derive(PartialEq, Eq, Structural, Clone, Copy, Debug)]
pub enum RegistryError {
    /// An empty worker name.
    InvalidArgument,
    /// An unknown worker id or block.
    NotFound,
    /// A proof was already accepted for the block.
    AlreadyPublished,
    /// The witness data was not ready within the caller's timeout.
    Timeout,
}

/// Lease state of one proving job.
#[derive(Clone, Debug)]
pub enum LeaseState {
    Free,
    Held { worker_name: String, last_heartbeat_at: u64 },
    Done { proof: Vec<u8> },
}

/// One block awaiting (or holding) its proof.
#[derive(Clone, Debug)]
pub struct Job {
    pub block_number: u64,
    /// Identifier of the current lease (or of the creation, before any lease).
    pub job_id: u64,
    pub created_at: u64,
    pub lease: LeaseState,
}

/// A registered worker.
#[derive(Clone, Debug)]
pub struct WorkerRecord {
    pub worker_id: u64,
    pub worker_name: String,
    pub started_at: u64,
    pub stopped_at: Option<u64>,
}

/// Job and worker tables.
pub struct JobRegistry {
    jobs: Vec<Job>,
    workers: Vec<WorkerRecord>,
    next_job_id: u64,
}

/// A job whose lease is held and was refreshed no longer than `timeout` ago.
pub open spec fn lease_active(j: Job, now: int, timeout: int) -> bool {
    match j.lease {
        LeaseState::Held { last_heartbeat_at, .. } => now - last_heartbeat_at <= timeout,
        _ => false,
    }
}

/// A job that a selection may hand out: free, or held with a lapsed lease.
pub open spec fn selectable(j: Job, now: int, timeout: int) -> bool {
    match j.lease {
        LeaseState::Free => true,
        LeaseState::Held { last_heartbeat_at, .. } => last_heartbeat_at < now - timeout,
        LeaseState::Done { .. } => false,
    }
}

pub open spec fn any_selectable(jobs: Seq<Job>, now: int, timeout: int) -> bool {
    exists|i: int| 0 <= i < jobs.len() && #[trigger] selectable(jobs[i], now, timeout)
}

/// Index `i` holds the selectable job with the lowest block number.
pub open spec fn is_next_choice(jobs: Seq<Job>, i: int, now: int, timeout: int) -> bool {
    &&& 0 <= i < jobs.len()
    &&& selectable(jobs[i], now, timeout)
    &&& forall|k: int|
        0 <= k < jobs.len() && #[trigger] selectable(jobs[k], now, timeout)
            ==> jobs[i].block_number <= jobs[k].block_number
}

/// `j` is job `old` leased to `worker` at `now` under lease id `id`.
pub open spec fn leased(j: Job, old: Job, id: u64, worker: Seq<char>, now: u64) -> bool {
    &&& j.block_number == old.block_number
    &&& j.created_at == old.created_at
    &&& j.job_id == id
    &&& j.lease is Held
    &&& j.lease->worker_name@ == worker
    &&& j.lease->last_heartbeat_at == now
}

/// `j` with its lease replaced by `l`.
pub open spec fn with_lease(j: Job, l: LeaseState) -> Job {
    Job { block_number: j.block_number, job_id: j.job_id, created_at: j.created_at, lease: l }
}

pub open spec fn has_block(jobs: Seq<Job>, block: u64) -> bool {
    exists|i: int| 0 <= i < jobs.len() && #[trigger] jobs[i].block_number == block
}

/// Blocks are unique, block 0 never appears, and ids are unique and below `next`.
pub open spec fn jobs_wf(jobs: Seq<Job>, next: u64) -> bool {
    &&& forall|i: int, k: int|
        0 <= i < jobs.len() && 0 <= k < jobs.len() && i != k
            ==> #[trigger] jobs[i].block_number != #[trigger] jobs[k].block_number
    &&& forall|i: int, k: int|
        0 <= i < jobs.len() && 0 <= k < jobs.len() && i != k
            ==> #[trigger] jobs[i].job_id != #[trigger] jobs[k].job_id
    &&& forall|i: int|
        #![trigger jobs[i]]
        0 <= i < jobs.len() ==> 0 < jobs[i].block_number && 0 < jobs[i].job_id && jobs[i].job_id
            < next
    &&& 0 < next
}

/// Worker ids are positions counted from one.
pub open spec fn workers_wf(workers: Seq<WorkerRecord>) -> bool {
    forall|i: int| 0 <= i < workers.len() ==> #[trigger] workers[i].worker_id == i + 1
}

impl JobRegistry {
    pub closed spec fn job_seq(&self) -> Seq<Job> {
        self.jobs@
    }

    pub closed spec fn worker_seq(&self) -> Seq<WorkerRecord> {
        self.workers@
    }

    /// The id the next lease or job creation receives.
    pub closed spec fn next_id(&self) -> u64 {
        self.next_job_id
    }

    pub closed spec fn wf(&self) -> bool {
        jobs_wf(self.jobs@, self.next_job_id) && workers_wf(self.workers@)
    }

    /// Room remains for another job id and another worker id.
    pub open spec fn has_room(&self) -> bool {
        self.next_id() < u64::MAX && self.worker_seq().len() < u64::MAX - 1
    }

    pub fn new() -> (r: Self)
        ensures
            r.wf(),
            r.job_seq().len() == 0,
            r.worker_seq().len() == 0,
            r.next_id() == 1,
            r.has_room(),
    {
        JobRegistry { jobs: Vec::new(), workers: Vec::new(), next_job_id: 1 }
    }

    /// Whether another job id and worker id can be allocated.
    pub fn has_room_left(&self) -> (r: bool)
        ensures
            r == self.has_room(),
    {
        self.next_job_id < u64::MAX && (self.workers.len() as u64) < u64::MAX - 1
    }

    /// Position of the job for `block`, if there is one.
    fn find_block(&self, block: u64) -> (r: Option<usize>)
        requires
            self.wf(),
        ensures
            r is None ==> !has_block(self.jobs@, block),
            r matches Some(i) ==> i < self.jobs@.len() && self.jobs@[i as int].block_number == block,
    {
        let mut i: usize = 0;
        while i < self.jobs.len()
            invariant
                i <= self.jobs@.len(),
                forall|k: int| 0 <= k < i ==> #[trigger] self.jobs@[k].block_number != block,
            decreases self.jobs@.len() - i,
        {
            if self.jobs[i].block_number == block {
                return Some(i);
            }
            i += 1;
        }
        None
    }

    /// Records a committed block as a free job, unless block 0 (reserved for
    /// "no job") or a block that already has a job. Returns whether a job was
    /// created.
    pub fn ingest_commit(&mut self, block: u64, now: u64) -> (created: bool)
        requires
            old(self).wf(),
            old(self).has_room(),
        ensures
            final(self).wf(),
            created == (block != 0 && !has_block(old(self).job_seq(), block)),
            created ==> final(self).job_seq() == old(self).job_seq().push(
                (Job {
                    block_number: block,
                    job_id: old(self).next_id(),
                    created_at: now,
                    lease: LeaseState::Free,
                }),
            ) && final(self).next_id() == old(self).next_id() + 1,
            !created ==> final(self).job_seq() == old(self).job_seq() && final(self).next_id()
                == old(self).next_id(),
            final(self).worker_seq() == old(self).worker_seq(),
    {
        if block == 0 {
            assert(has_block(self.jobs@, 0) ==> false);
            return false;
        }
        match self.find_block(block) {
            Some(_) => false,
            None => {
                let id = self.next_job_id;
                let ghost old_jobs = self.jobs@;
                self.jobs.push(Job { block_number: block, job_id: id, created_at: now, lease: LeaseState::Free });
                self.next_job_id = id + 1;
                proof {
                    assert forall|i: int| 0 <= i < old_jobs.len() implies #[trigger] self.jobs@[i]
                        == old_jobs[i] && self.jobs@[i].block_number != block by {
                        if old_jobs[i].block_number == block {
                            assert(has_block(old_jobs, block));
                        }
                    }
                }
                true
            },
        }
    }

    /// Hands the free or lapsed job with the lowest block number to
    /// `worker_name` under a fresh lease id, or returns `None` when no job can
    /// be handed out. A lease lapses when its last heartbeat lies more than
    /// `prover_timeout` before `now`.
    pub fn next_unverified_commit(&mut self, worker_name: &str, prover_timeout: u64, now: u64) -> (r:
        Option<(u64, u64)>)
        requires
            old(self).wf(),
            old(self).has_room(),
        ensures
            final(self).wf(),
            final(self).worker_seq() == old(self).worker_seq(),
            r is None <==> !any_selectable(old(self).job_seq(), now as int, prover_timeout as int),
            r is None ==> final(self).job_seq() == old(self).job_seq() && final(self).next_id()
                == old(self).next_id(),
            r matches Some((b, id)) ==> {
                &&& id == old(self).next_id()
                &&& final(self).next_id() == id + 1
                &&& exists|i: int|
                    {
                        &&& is_next_choice(old(self).job_seq(), i, now as int, prover_timeout as int)
                        &&& old(self).job_seq()[i].block_number == b
                        &&& final(self).job_seq().len() == old(self).job_seq().len()
                        &&& leased(
                            #[trigger] final(self).job_seq()[i],
                            old(self).job_seq()[i],
                            id,
                            worker_name@,
                            now,
                        )
                        &&& forall|k: int|
                            0 <= k < old(self).job_seq().len() && k != i ==> final(self).job_seq()[k]
                                == old(self).job_seq()[k]
                    }
            },
    {
        let mut best: Option<usize> = None;
        let mut i: usize = 0;
        while i < self.jobs.len()
            invariant
                i <= self.jobs@.len(),
                best is None ==> forall|k: int|
                    0 <= k < i ==> !#[trigger] selectable(self.jobs@[k], now as int, prover_timeout as int),
                best matches Some(c) ==> {
                    &&& c < i
                    &&& selectable(self.jobs@[c as int], now as int, prover_timeout as int)
                    &&& forall|k: int|
                        0 <= k < i && #[trigger] selectable(self.jobs@[k], now as int, prover_timeout as int)
                            ==> self.jobs@[c as int].block_number <= self.jobs@[k].block_number
                },
            decreases self.jobs@.len() - i,
        {
            let ok = match &self.jobs[i].lease {
                LeaseState::Free => true,
                LeaseState::Held { last_heartbeat_at, .. } => now > *last_heartbeat_at && now - *last_heartbeat_at > prover_timeout,
                LeaseState::Done { .. } => false,
            };
            if ok {
                match best {
                    None => {
                        best = Some(i);
                    },
                    Some(c) => {
                        if self.jobs[i].block_number < self.jobs[c].block_number {
                            best = Some(i);
                        }
                    },
                }
            }
            i += 1;
        }
        match best {
            None => None,
            Some(c) => {
                let id = self.next_job_id;
                let block = self.jobs[c].block_number;
                let created = self.jobs[c].created_at;
                let ghost old_jobs = self.jobs@;
                proof {
                    assert(is_next_choice(self.jobs@, c as int, now as int, prover_timeout as int));
                }
                self.jobs.set(
                    c,
                    Job {
                        block_number: block,
                        job_id: id,
                        created_at: created,
                        lease: LeaseState::Held { worker_name: worker_name.to_owned(), last_heartbeat_at: now },
                    },
                );
                self.next_job_id = id + 1;
                proof {
                    assert(self.jobs@.len() == old_jobs.len());
                    assert(forall|k: int|
                        0 <= k < old_jobs.len() && k != c ==> self.jobs@[k] == old_jobs[k]);
                    assert(leased(self.job_seq()[c as int], old_jobs[c as int], id, worker_name@, now));
                    assert forall|i: int, k: int|
                        0 <= i < self.jobs@.len() && 0 <= k < self.jobs@.len() && i != k implies
                        #[trigger] self.jobs@[i].job_id != #[trigger] self.jobs@[k].job_id
                        && self.jobs@[i].block_number != self.jobs@[k].block_number by {
                        assert(old_jobs[i].job_id < id && old_jobs[k].job_id < id);
                    }
                    assert(jobs_wf(self.jobs@, self.next_job_id));
                }
                Some((block, id))
            },
        }
    }

    /// Refreshes the heartbeat of the held job whose lease id is `job_id`.
    /// Lease id 0, and an id whose lease was reclaimed or completed, change
    /// nothing.
    pub fn working_on(&mut self, job_id: u64, now: u64)
        requires
            old(self).wf(),
        ensures
            final(self).wf(),
            final(self).next_id() == old(self).next_id(),
            final(self).worker_seq() == old(self).worker_seq(),
            final(self).job_seq().len() == old(self).job_seq().len(),
            forall|i: int|
                0 <= i < old(self).job_seq().len() ==> {
                    let j = #[trigger] old(self).job_seq()[i];
                    if job_id != 0 && j.job_id == job_id && j.lease is Held {
                        final(self).job_seq()[i] == with_lease(
                            j,
                            LeaseState::Held { worker_name: j.lease->worker_name, last_heartbeat_at: now },
                        )
                    } else {
                        final(self).job_seq()[i] == j
                    }
                },
    {
        if job_id == 0 {
            return;
        }
        let mut i: usize = 0;
        while i < self.jobs.len()
            invariant
                i <= self.jobs@.len(),
                self.wf(),
                self.next_job_id == old(self).next_job_id,
                self.workers@ == old(self).workers@,
                self.jobs@ == old(self).jobs@,
                forall|k: int|
                    0 <= k < i ==> !(#[trigger] self.jobs@[k].job_id == job_id && self.jobs@[k].lease is Held),
            decreases self.jobs@.len() - i,
        {
            if self.jobs[i].job_id == job_id {
                let (held, name) = match &self.jobs[i].lease {
                    LeaseState::Held { worker_name, .. } => (true, worker_name.clone()),
                    _ => (false, String::new()),
                };
                if held {
                    let ghost old_jobs = self.jobs@;
                    let block = self.jobs[i].block_number;
                    let created = self.jobs[i].created_at;
                    self.jobs.set(
                        i,
                        Job {
                            block_number: block,
                            job_id,
                            created_at: created,
                            lease: LeaseState::Held { worker_name: name, last_heartbeat_at: now },
                        },
                    );
                    proof {
                        assert forall|a: int, b: int|
                            0 <= a < self.jobs@.len() && 0 <= b < self.jobs@.len() && a != b implies
                            #[trigger] self.jobs@[a].job_id != #[trigger] self.jobs@[b].job_id
                            && self.jobs@[a].block_number != self.jobs@[b].block_number by {
                            assert(old_jobs[a].job_id != old_jobs[b].job_id);
                        }
                        assert(jobs_wf(self.jobs@, self.next_job_id));
                    }
                }
                return;
            }
            i += 1;
        }
    }

    /// Accepts `proof` for `block`: the job becomes done and a `Verify`
    /// operation for the block is returned. A lapsed or foreign lease does not
    /// matter; a second proof for the same block is refused.
    pub fn publish_proof(&mut self, block: u64, proof: Vec<u8>) -> (r: Result<Operation, RegistryError>)
        requires
            old(self).wf(),
        ensures
            final(self).wf(),
            final(self).next_id() == old(self).next_id(),
            final(self).worker_seq() == old(self).worker_seq(),
            !has_block(old(self).job_seq(), block) ==> r == Err::<Operation, RegistryError>(
                RegistryError::NotFound,
            ),
            r is Err ==> final(self).job_seq() == old(self).job_seq(),
            forall|i: int|
                0 <= i < old(self).job_seq().len() && #[trigger] old(self).job_seq()[i].block_number
                    == block ==> if old(self).job_seq()[i].lease is Done {
                    r == Err::<Operation, RegistryError>(RegistryError::AlreadyPublished)
                } else {
                    &&& r == Ok::<Operation, RegistryError>(
                        Operation { block, action: ActionType::Verify },
                    )
                    &&& final(self).job_seq() == old(self).job_seq().update(
                        i,
                        with_lease(old(self).job_seq()[i], LeaseState::Done { proof }),
                    )
                },
    {
        match self.find_block(block) {
            None => Err(RegistryError::NotFound),
            Some(i) => {
                let done = match &self.jobs[i].lease {
                    LeaseState::Done { .. } => true,
                    _ => false,
                };
                if done {
                    return Err(RegistryError::AlreadyPublished);
                }
                let ghost old_jobs = self.jobs@;
                let job_id = self.jobs[i].job_id;
                let created = self.jobs[i].created_at;
                self.jobs.set(
                    i,
                    Job { block_number: block, job_id, created_at: created, lease: LeaseState::Done { proof } },
                );
                proof {
                    assert forall|a: int, b: int|
                        0 <= a < self.jobs@.len() && 0 <= b < self.jobs@.len() && a != b implies
                        #[trigger] self.jobs@[a].job_id != #[trigger] self.jobs@[b].job_id
                        && self.jobs@[a].block_number != self.jobs@[b].block_number by {
                        assert(old_jobs[a].job_id != old_jobs[b].job_id);
                    }
                    assert(jobs_wf(self.jobs@, self.next_job_id));
                    assert(self.jobs@ == old_jobs.update(i as int, with_lease(old_jobs[i as int], LeaseState::Done { proof })));
                }
                Ok(Operation { block, action: ActionType::Verify })
            },
        }
    }

    /// Registers a worker named `worker_name` started at `now`. An empty
    /// name is refused; otherwise the new worker's id is returned.
    pub fn register_prover(&mut self, worker_name: &str, now: u64) -> (r: Result<u64, RegistryError>)
        requires
            old(self).wf(),
            old(self).has_room(),
        ensures
            final(self).wf(),
            final(self).job_seq() == old(self).job_seq(),
            final(self).next_id() == old(self).next_id(),
            worker_name@.len() == 0 <==> r is Err,
            r is Err ==> r == Err::<u64, RegistryError>(RegistryError::InvalidArgument)
                && final(self).worker_seq() == old(self).worker_seq(),
            r matches Ok(id) ==> {
                let w = final(self).worker_seq().last();
                &&& id == old(self).worker_seq().len() + 1
                &&& final(self).worker_seq().len() == old(self).worker_seq().len() + 1
                &&& final(self).worker_seq().drop_last() == old(self).worker_seq()
                &&& w.worker_id == id
                &&& w.worker_name@ == worker_name@
                &&& w.started_at == now
                &&& w.stopped_at is None
            },
    {
        if worker_name.is_empty() {
            return Err(RegistryError::InvalidArgument);
        }
        let id = self.workers.len() as u64 + 1;
        let ghost old_workers = self.workers@;
        self.workers.push(
            WorkerRecord { worker_id: id, worker_name: worker_name.to_owned(), started_at: now, stopped_at: None },
        );
        proof {
            assert(self.workers@.drop_last() =~= old_workers);
        }
        Ok(id)
    }

    /// Marks the worker `worker_id` as stopped at `now`. A worker already
    /// stopped keeps its first stop time; an unknown id is refused.
    pub fn prover_stopped(&mut self, worker_id: u64, now: u64) -> (r: Result<(), RegistryError>)
        requires
            old(self).wf(),
        ensures
            final(self).wf(),
            final(self).job_seq() == old(self).job_seq(),
            final(self).next_id() == old(self).next_id(),
            (1 <= worker_id <= old(self).worker_seq().len()) <==> r is Ok,
            r is Err ==> r == Err::<(), RegistryError>(RegistryError::NotFound)
                && final(self).worker_seq() == old(self).worker_seq(),
            r is Ok ==> {
                let i = worker_id - 1;
                let w = old(self).worker_seq()[i];
                &&& final(self).worker_seq().len() == old(self).worker_seq().len()
                &&& forall|k: int|
                    0 <= k < old(self).worker_seq().len() && k != i ==> final(self).worker_seq()[k]
                        == old(self).worker_seq()[k]
                &&& final(self).worker_seq()[i].worker_id == w.worker_id
                &&& final(self).worker_seq()[i].worker_name == w.worker_name
                &&& final(self).worker_seq()[i].started_at == w.started_at
                &&& final(self).worker_seq()[i].stopped_at == if w.stopped_at is Some {
                    w.stopped_at
                } else {
                    Some(now)
                }
            },
    {
        if worker_id == 0 || worker_id > self.workers.len() as u64 {
            return Err(RegistryError::NotFound);
        }
        let i = (worker_id - 1) as usize;
        if self.workers[i].stopped_at.is_some() {
            return Ok(());
        }
        let name = self.workers[i].worker_name.clone();
        let started = self.workers[i].started_at;
        self.workers.set(i, WorkerRecord { worker_id, worker_name: name, started_at: started, stopped_at: Some(now) });
        Ok(())
    }

    /// The record of worker `worker_id`, if it is registered.
    pub fn prover_by_id(&self, worker_id: u64) -> (r: Option<&WorkerRecord>)
        requires
            self.wf(),
        ensures
            r is Some <==> 1 <= worker_id <= self.worker_seq().len(),
            r matches Some(w) ==> *w == self.worker_seq()[worker_id - 1],
    {
        if worker_id == 0 || worker_id > self.workers.len() as u64 {
            None
        } else {
            Some(&self.workers[(worker_id - 1) as usize])
        }
    }

    /// The job for `block`, if the block was committed.
    pub fn job_for_block(&self, block: u64) -> (r: Option<&Job>)
        requires
            self.wf(),
        ensures
            r is Some <==> has_block(self.job_seq(), block),
            r matches Some(j) ==> j.block_number == block && exists|i: int|
                0 <= i < self.job_seq().len() && *j == #[trigger] self.job_seq()[i],
    {
        match self.find_block(block) {
            None => None,
            Some(i) => {
                proof {
                    assert(self.job_seq()[i as int] == self.jobs@[i as int]);
                }
                Some(&self.jobs[i])
            },
        }
    }

    /// One poll for the witness data of `block`, `waited_ms` into a wait
    /// bounded by `timeout_ms`. `data` is what the witness source holds now.
    /// Returns the data when it is there, `Ok(None)` to keep waiting, and an
    /// error for an unknown block or an exhausted wait.
    pub fn poll_prover_data(&self, block: u64, data: Option<Vec<u8>>, waited_ms: u64, timeout_ms: u64) -> (r:
        Result<Option<Vec<u8>>, RegistryError>)
        requires
            self.wf(),
        ensures
            !has_block(self.job_seq(), block) ==> r == Err::<Option<Vec<u8>>, RegistryError>(
                RegistryError::NotFound,
            ),
            has_block(self.job_seq(), block) ==> match data {
                Some(d) => r == Ok::<Option<Vec<u8>>, RegistryError>(Some(d)),
                None => if waited_ms >= timeout_ms {
                    r == Err::<Option<Vec<u8>>, RegistryError>(RegistryError::Timeout)
                } else {
                    r == Ok::<Option<Vec<u8>>, RegistryError>(None)
                },
            },
    {
        match self.find_block(block) {
            None => Err(RegistryError::NotFound),
            Some(_) => match data {
                Some(d) => Ok(Some(d)),
                None => if waited_ms >= timeout_ms {
                    Err(RegistryError::Timeout)
                } else {
                    Ok(None)
                },
            },
        }
    }
}

/// At most one concurrent lease: in a well-formed registry, two jobs that hold
/// unexpired leases on the same block are one and the same job.
pub proof fn lemma_at_most_one_active_lease(reg: &JobRegistry, i: int, k: int, now: int, timeout: int)
    requires
        reg.wf(),
        0 <= i < reg.job_seq().len(),
        0 <= k < reg.job_seq().len(),
        reg.job_seq()[i].block_number == reg.job_seq()[k].block_number,
        lease_active(reg.job_seq()[i], now, timeout),
        lease_active(reg.job_seq()[k], now, timeout),
    ensures
        i == k,
{
}

/// A job whose lease is still active is never selectable, so a selection
/// never hands out a block that another worker actively holds.
pub proof fn lemma_active_lease_not_selectable(j: Job, now: int, timeout: int)
    requires
        lease_active(j, now, timeout),
    ensures
        !selectable(j, now, timeout),
{
}

/// Lease reclamation: a held job whose last heartbeat lies more than
/// `timeout` before `now` is selectable, so the next selection at `now`
/// returns a job, and one whose block is no higher than the lapsed one.
pub proof fn lemma_lapsed_lease_reclaimable(jobs: Seq<Job>, i: int, now: int, timeout: int)
    requires
        0 <= i < jobs.len(),
        jobs[i].lease is Held,
        jobs[i].lease->last_heartbeat_at < now - timeout,
    ensures
        selectable(jobs[i], now, timeout),
        any_selectable(jobs, now, timeout),
        forall|c: int| #[trigger]
            is_next_choice(jobs, c, now, timeout) ==> jobs[c].block_number <= jobs[i].block_number,
{
    assert(selectable(jobs[i], now, timeout));
}

/// Once a proof for a block is accepted, no later selection returns that
/// block, whatever the clock and the timeout.
pub proof fn lemma_published_block_never_selected(reg: &JobRegistry, i: int, now: int, timeout: int)
    requires
        reg.wf(),
        0 <= i < reg.job_seq().len(),
        reg.job_seq()[i].lease is Done,
    ensures
        forall|c: int| #[trigger]
            is_next_choice(reg.job_seq(), c, now, timeout) ==> reg.job_seq()[c].block_number
                != reg.job_seq()[i].block_number,
{
    assert forall|c: int| #[trigger] is_next_choice(reg.job_seq(), c, now, timeout) implies reg.job_seq()[c].block_number
        != reg.job_seq()[i].block_number by {
        if c != i {
            assert(reg.job_seq()[c].block_number != reg.job_seq()[i].block_number);
        }
    }
}

/// Progress toward a proof: when every lower block is proven and the lowest
/// unproven block is free or its lease has lapsed, that block is exactly what
/// the next selection hands out.
pub proof fn lemma_lowest_unproven_block_is_next(reg: &JobRegistry, i: int, now: int, timeout: int)
    requires
        reg.wf(),
        0 <= i < reg.job_seq().len(),
        selectable(reg.job_seq()[i], now, timeout),
        forall|k: int|
            0 <= k < reg.job_seq().len() && #[trigger] reg.job_seq()[k].block_number < reg.job_seq()[i].block_number
                ==> reg.job_seq()[k].lease is Done,
    ensures
        is_next_choice(reg.job_seq(), i, now, timeout),
        forall|c: int| #[trigger] is_next_choice(reg.job_seq(), c, now, timeout) ==> c == i,
{
    let jobs = reg.job_seq();
    assert forall|k: int| 0 <= k < jobs.len() && #[trigger] selectable(jobs[k], now, timeout) implies jobs[i].block_number
        <= jobs[k].block_number by {
        if jobs[k].block_number < jobs[i].block_number {
            assert(jobs[k].lease is Done);
        }
    }
    assert forall|c: int| #[trigger] is_next_choice(jobs, c, now, timeout) implies c == i by {
        if jobs[c].block_number < jobs[i].block_number {
            assert(jobs[c].lease is Done);
        }
        assert(jobs[c].block_number == jobs[i].block_number);
    }
}

} // verus!
