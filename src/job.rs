//! Jobs, their transaction records, and the withdrawal request handed to the
//! builder.

use vstd::prelude::*;
use crate::public_inputs::{public_inputs_bytes_to_object, BuildError, PUBLIC_INPUTS_LEN};

verus! {

/// One withdrawal request as the builder receives it.
#[derive(Debug)]
pub struct JobData {
    pub input: Vec<u8>,
    pub proof: Vec<u8>,
    pub action: String,
    pub ext_data: Vec<u8>,
    pub owner: String,
}

impl JobData {
    pub fn new(input: Vec<u8>, proof: Vec<u8>, action: String, ext_data: Vec<u8>, owner: String) -> (r: Self)
        ensures
            r.input@ == input@,
            r.proof@ == proof@,
            r.action@ == action@,
            r.ext_data@ == ext_data@,
            r.owner@ == owner@,
    {
        JobData { input, proof, action, ext_data, owner }
    }

    /// The request that a transaction record stands for.
    pub fn from_record(record: &TransactionRecord) -> (r: Self)
        ensures
            request_of(r, *record),
    {
        JobData {
            input: record.input_bytes.clone(),
            proof: record.proof_bytes.clone(),
            action: record.action.clone(),
            ext_data: record.ext_data_bytes.clone(),
            owner: record.owner.clone(),
        }
    }
}

/// One withdrawal of a job, immutable once read from the store.
#[derive(Debug)]
pub struct TransactionRecord {
    pub id: String,
    pub input_bytes: Vec<u8>,
    pub proof_bytes: Vec<u8>,
    pub ext_data_bytes: Vec<u8>,
    pub action: String,
    pub owner: String,
    pub token: String,
}

/// A job: an identifier and its records, in order.
#[derive(Debug)]
pub struct Job {
    pub id: String,
    pub transactions: Vec<TransactionRecord>,
}

/// The request built from `record` carries the record's fields.
pub open spec fn request_of(data: JobData, record: TransactionRecord) -> bool {
    &&& data.input@ == record.input_bytes@
    &&& data.proof@ == record.proof_bytes@
    &&& data.action@ == record.action@
    &&& data.ext_data@ == record.ext_data_bytes@
    &&& data.owner@ == record.owner@
}

/// The ordered store of pending jobs. The job taken out next is the one put
/// in last.
pub struct JobStore {
    jobs: Vec<Job>,
}

impl View for JobStore {
    type V = Seq<Job>;

    closed spec fn view(&self) -> Seq<Job> {
        self.jobs@
    }
}

impl JobStore {
    pub fn new() -> (r: Self)
        ensures
            r@ == Seq::<Job>::empty(),
    {
        JobStore { jobs: Vec::new() }
    }

    pub fn len(&self) -> (r: usize)
        ensures
            r == self@.len(),
    {
        self.jobs.len()
    }

    /// Puts `job` at the dequeue end.
    pub fn enqueue(&mut self, job: Job)
        ensures
            final(self)@ == old(self)@.push(job),
    {
        self.jobs.push(job);
    }

    /// Takes out the job put in last, if any.
    pub fn dequeue_next(&mut self) -> (r: Option<Job>)
        ensures
            old(self)@.len() == 0 ==> r is None && final(self)@ == old(self)@,
            old(self)@.len() > 0 ==> r == Some(old(self)@.last()) && final(self)@ == old(self)@.drop_last(),
    {
        self.jobs.pop()
    }
}

/// What the dispatcher asks for next.
#[derive(Debug)]
pub enum DispatchAction {
    /// Build and broadcast one record of a job, then report on it.
    ProcessRecord { job_id: String, record_id: String, job_data: JobData },
    /// Every record of the job has been handled.
    FinishJob { job_id: String },
    /// No job is pending: wait before asking again.
    Idle,
}

/// `a` asks to process record `idx` of `job`.
pub open spec fn processes(a: DispatchAction, job: Job, idx: int) -> bool {
    match a {
        DispatchAction::ProcessRecord { job_id, record_id, job_data } => {
            &&& job_id@ == job.id@
            &&& record_id@ == job.transactions@[idx].id@
            &&& request_of(job_data, job.transactions@[idx])
        },
        _ => false,
    }
}

/// `a` reports that `job` is finished.
pub open spec fn finishes(a: DispatchAction, job: Job) -> bool {
    match a {
        DispatchAction::FinishJob { job_id } => job_id@ == job.id@,
        _ => false,
    }
}

/// The dispatcher's state as a mathematical value.
pub struct UnshieldQueueView {
    pub store: Seq<Job>,
    /// The job being worked through, if any.
    pub current: Option<Job>,
    /// Index of its next record.
    pub next_record: nat,
}

impl UnshieldQueueView {
    pub open spec fn wf(self) -> bool {
        self.current is Some ==> self.next_record <= self.current->Some_0.transactions@.len()
    }

    /// The job that the next action is about.
    pub open spec fn next_job(self) -> Job {
        if self.current is Some { self.current->Some_0 } else { self.store.last() }
    }

    /// The index, in that job, of the record that the next action is about.
    pub open spec fn next_index(self) -> nat {
        if self.current is Some { self.next_record } else { 0 }
    }

    /// Whether anything is left to do.
    pub open spec fn has_work(self) -> bool {
        self.current is Some || self.store.len() > 0
    }
}

/// The dispatcher: takes one job at a time from the store and hands out its
/// records one by one, in order, before taking the next job.
pub struct UnshieldQueue {
    queue: JobStore,
    current: Option<Job>,
    next_record: usize,
}

impl View for UnshieldQueue {
    type V = UnshieldQueueView;

    closed spec fn view(&self) -> UnshieldQueueView {
        UnshieldQueueView {
            store: self.queue@,
            current: self.current,
            next_record: self.next_record as nat,
        }
    }
}

impl UnshieldQueue {
    pub fn new() -> (r: Self)
        ensures
            r@.wf(),
            r@.store == Seq::<Job>::empty(),
            r@.current is None,
    {
        UnshieldQueue { queue: JobStore::new(), current: None, next_record: 0 }
    }

    /// Adds a job to the store.
    pub fn enqueue(&mut self, job: Job)
        requires
            old(self)@.wf(),
        ensures
            final(self)@.wf(),
            final(self)@.store == old(self)@.store.push(job),
            final(self)@.current == old(self)@.current,
            final(self)@.next_record == old(self)@.next_record,
    {
        self.queue.enqueue(job);
    }

    /// Decides what to do next: the next record of the current job; else
    /// that job is finished; else the job put in last starts; else nothing.
    /// What became of earlier records does not matter: each is handled on
    /// its own.
    pub fn next_action(&mut self) -> (a: DispatchAction)
        requires
            old(self)@.wf(),
        ensures
            final(self)@.wf(),
            !old(self)@.has_work() ==> a is Idle && final(self)@ == old(self)@,
            old(self)@.has_work() ==> {
                let v = old(self)@;
                let w = final(self)@;
                let job = v.next_job();
                let idx = v.next_index();
                &&& w.store == if v.current is Some { v.store } else { v.store.drop_last() }
                &&& idx < job.transactions@.len() ==> {
                    &&& processes(a, job, idx as int)
                    &&& w.current == Some(job)
                    &&& w.next_record == idx + 1
                }
                &&& idx >= job.transactions@.len() ==> finishes(a, job) && w.current is None
            },
    {
        if self.current.is_none() {
            match self.queue.dequeue_next() {
                None => {
                    return DispatchAction::Idle;
                },
                Some(j) => {
                    self.current = Some(j);
                    self.next_record = 0;
                },
            }
        }
        let mut finished = false;
        let a = match &self.current {
            Some(j) => {
                if self.next_record < j.transactions.len() {
                    let rec = &j.transactions[self.next_record];
                    DispatchAction::ProcessRecord {
                        job_id: j.id.clone(),
                        record_id: rec.id.clone(),
                        job_data: JobData::from_record(rec),
                    }
                } else {
                    finished = true;
                    DispatchAction::FinishJob { job_id: j.id.clone() }
                }
            },
            None => DispatchAction::Idle,
        };
        if finished {
            self.current = None;
            self.next_record = 0;
        } else {
            self.next_record = self.next_record + 1;
        }
        a
    }
}

/// Queues a withdrawal request as a job of one record, the record taking the
/// job's identifier. A request whose `ext_data` cannot hold the fixed layout
/// is refused and nothing is queued.
pub fn add_unshield_job(queue: &mut UnshieldQueue, id: String, token: String, job_data: JobData) -> (r: Result<(), BuildError>)
    requires
        old(queue)@.wf(),
    ensures
        final(queue)@.wf(),
        job_data.ext_data@.len() < PUBLIC_INPUTS_LEN ==> {
            &&& r == Err::<(), BuildError>(BuildError::MalformedInput)
            &&& final(queue)@ == old(queue)@
        },
        job_data.ext_data@.len() >= PUBLIC_INPUTS_LEN ==> {
            let v = old(queue)@;
            let w = final(queue)@;
            let job = w.store.last();
            &&& r is Ok
            &&& w.current == v.current
            &&& w.next_record == v.next_record
            &&& w.store.len() == v.store.len() + 1
            &&& w.store.drop_last() == v.store
            &&& job.id@ == id@
            &&& job.transactions@.len() == 1
            &&& job.transactions@[0].id@ == id@
            &&& job.transactions@[0].token@ == token@
            &&& request_of(job_data, job.transactions@[0])
        },
{
    if public_inputs_bytes_to_object(job_data.ext_data.as_slice()).is_err() {
        return Err(BuildError::MalformedInput);
    }
    let record = TransactionRecord {
        id: id.clone(),
        input_bytes: job_data.input,
        proof_bytes: job_data.proof,
        ext_data_bytes: job_data.ext_data,
        action: job_data.action,
        owner: job_data.owner,
        token,
    };
    let mut transactions: Vec<TransactionRecord> = Vec::new();
    transactions.push(record);
    queue.enqueue(Job { id, transactions });
    proof {
        assert(queue@.store.drop_last() =~= old(queue)@.store);
    }
    Ok(())
}

} // verus!
