//! Background jobs for long-running operations.
//!
//! Carving a large drive can take an hour, which does not fit a single synchronous
//! call of a tool. A job runs on its own, exposes live progress, and can be
//! cancelled, so that a server stays responsive and an agent polls for completion.
//!
//! The registry holds the state of every job. The worker of a job reports the bytes
//! scanned and its result to the registry and asks it whether it shall stop.

use vstd::prelude::*;

use crate::json::{member, member_at, Fields, Json, Value};
use crate::mcp::outcome_of;

verus! {

/// The state of one job.
pub struct Progress {
    pub kind: &'static str,
    /// Bytes to scan.
    pub total: u64,
    /// Bytes scanned so far.
    pub scanned: u64,
    /// Whether the job has ended.
    pub done: bool,
    /// Whether the job has been asked to stop.
    pub cancel: bool,
    /// What came of the job, once it has ended.
    pub result: Option<Result<Json, String>>,
}

/// What the state of a job says.
pub struct Job {
    pub kind: Seq<char>,
    pub total: int,
    pub scanned: int,
    pub done: bool,
    pub cancel: bool,
    pub result: Option<Result<Value, Seq<char>>>,
}

impl View for Progress {
    type V = Job;

    open spec fn view(&self) -> Job {
        Job {
            kind: self.kind@,
            total: self.total as int,
            scanned: self.scanned as int,
            done: self.done,
            cancel: self.cancel,
            result: match self.result {
                Some(r) => Some(outcome_of(r)),
                None => None,
            },
        }
    }
}

/// A job that has just been started.
pub open spec fn fresh_job(kind: Seq<char>) -> Job {
    Job { kind, total: 0, scanned: 0, done: false, cancel: false, result: None }
}

impl Progress {
    /// The state of a job that has just been started.
    pub fn new(kind: &'static str) -> (r: Progress)
        ensures
            r@ == fresh_job(kind@),
    {
        Progress { kind, total: 0, scanned: 0, done: false, cancel: false, result: None }
    }

    /// Note how many bytes there are to scan.
    pub fn begin(&mut self, total: u64)
        ensures
            final(self)@ == (Job { total: total as int, ..old(self)@ }),
    {
        self.total = total;
    }

    /// Note how many bytes have been scanned.
    pub fn update(&mut self, scanned: u64)
        ensures
            final(self)@ == (Job { scanned: scanned as int, ..old(self)@ }),
    {
        self.scanned = scanned;
    }

    /// Note how many bytes have been scanned at the end.
    pub fn finish(&mut self, scanned: u64)
        ensures
            final(self)@ == (Job { scanned: scanned as int, ..old(self)@ }),
    {
        self.scanned = scanned;
    }

    /// Whether the job has been asked to stop.
    pub fn cancelled(&self) -> (r: bool)
        ensures
            r == self@.cancel,
    {
        self.cancel
    }

    /// Note that the job has ended, and what came of it.
    pub fn complete(&mut self, result: Result<Json, String>)
        ensures
            final(self)@ == ended(old(self)@, outcome_of(result)),
    {
        self.result = Some(result);
        self.done = true;
    }
}

/// All jobs that were started; their ids count from 1.
pub struct Registry {
    pub jobs: Vec<Progress>,
}

impl View for Registry {
    type V = Seq<Job>;

    open spec fn view(&self) -> Seq<Job> {
        self.jobs@.map_values(|p: Progress| p@)
    }
}

/// Whether there is a job with an id.
pub open spec fn has_job(jobs: Seq<Job>, id: int) -> bool {
    1 <= id <= jobs.len()
}

/// The jobs with that under an id replaced, if there is one.
pub open spec fn with_job(jobs: Seq<Job>, id: int, job: Job) -> Seq<Job> {
    if has_job(jobs, id) {
        jobs.update(id - 1, job)
    } else {
        jobs
    }
}

/// A job that has ended.
pub open spec fn ended(job: Job, outcome: Result<Value, Seq<char>>) -> Job {
    Job { done: true, result: Some(outcome), ..job }
}

impl Registry {
    /// No jobs.
    pub fn new() -> (r: Registry)
        ensures
            r@ == Seq::<Job>::empty(),
    {
        let r = Registry { jobs: Vec::new() };
        assert(r@ =~= Seq::empty());
        r
    }

    /// Index of the job with an id.
    fn index(&self, id: u64) -> (r: Option<usize>)
        ensures
            match r {
                Some(i) => has_job(self@, id as int) && i == id - 1,
                None => !has_job(self@, id as int),
            },
    {
        let n: usize = self.jobs.len();
        if id == 0 || id > n as u64 {
            None
        } else {
            Some((id - 1) as usize)
        }
    }

    /// The state of a job.
    pub fn job(&self, id: u64) -> (r: Option<&Progress>)
        ensures
            match r {
                Some(p) => has_job(self@, id as int) && p@ == self@[id - 1],
                None => !has_job(self@, id as int),
            },
    {
        match self.index(id) {
            Some(i) => Some(&self.jobs[i]),
            None => None,
        }
    }

    /// Note how many bytes a job has to scan.
    pub fn begin(&mut self, id: u64, total: u64)
        ensures
            final(self)@ == with_job(
                old(self)@,
                id as int,
                (Job { total: total as int, ..old(self)@[id - 1] }),
            ),
    {
        match self.index(id) {
            Some(i) => {
                self.jobs[i].begin(total);
            },
            None => {},
        }
        assert(self@ =~= with_job(
            old(self)@,
            id as int,
            (Job { total: total as int, ..old(self)@[id - 1] }),
        ));
    }

    /// Note how many bytes a job has scanned.
    pub fn update(&mut self, id: u64, scanned: u64)
        ensures
            final(self)@ == with_job(
                old(self)@,
                id as int,
                (Job { scanned: scanned as int, ..old(self)@[id - 1] }),
            ),
    {
        match self.index(id) {
            Some(i) => {
                self.jobs[i].update(scanned);
            },
            None => {},
        }
        assert(self@ =~= with_job(
            old(self)@,
            id as int,
            (Job { scanned: scanned as int, ..old(self)@[id - 1] }),
        ));
    }

    /// Note that a job has ended, and what came of it.
    pub fn complete(&mut self, id: u64, result: Result<Json, String>)
        ensures
            final(self)@ == with_job(old(self)@, id as int, ended(old(self)@[id - 1], outcome_of(result))),
    {
        let ghost o = outcome_of(result);
        match self.index(id) {
            Some(i) => {
                self.jobs[i].complete(result);
            },
            None => {},
        }
        assert(self@ =~= with_job(old(self)@, id as int, ended(old(self)@[id - 1], o)));
    }
}

/// Start a job: a new id, under which nothing has been done yet.
pub fn start(registry: &mut Registry, kind: &'static str) -> (r: u64)
    ensures
        final(registry)@ == old(registry)@.push(fresh_job(kind@)),
        r == final(registry)@.len(),
{
    registry.jobs.push(Progress::new(kind));
    assert(registry@ =~= old(registry)@.push(fresh_job(kind@)));
    registry.jobs.len() as u64
}

/// What is said of a job.
pub open spec fn status_members(id: int, job: Job) -> Seq<(Seq<char>, Value)> {
    seq![
        ("job_id"@, Value::Num(id)),
        ("kind"@, Value::Str(job.kind)),
        ("running"@, Value::Bool(!job.done)),
        ("cancel_requested"@, Value::Bool(job.cancel)),
        ("bytes_scanned"@, Value::Num(job.scanned)),
        ("bytes_total"@, Value::Num(job.total)),
    ]
}

/// What is said of a job, with what came of it once it has ended.
pub open spec fn status_value(id: int, job: Job) -> Value {
    let head = status_members(id, job);
    Value::Obj(
        if job.done {
            match job.result {
                Some(Ok(v)) => head.push(("result"@, v)),
                Some(Err(e)) => head.push(("error"@, Value::Str(e))),
                None => head,
            }
        } else {
            head
        },
    )
}

/// Snapshot a job's status, with its result once it has ended. `None` if there is
/// no job with that id.
pub fn status(registry: &Registry, id: u64) -> (r: Option<Json>)
    ensures
        match r {
            Some(j) => has_job(registry@, id as int) && j@ == status_value(
                id as int,
                registry@[id - 1],
            ),
            None => !has_job(registry@, id as int),
        },
{
    match registry.job(id) {
        Some(p) => {
            let mut f = Fields::new();
            f.num("job_id", id);
            f.text("kind", p.kind);
            f.flag("running", !p.done);
            f.flag("cancel_requested", p.cancel);
            f.num("bytes_scanned", p.scanned);
            f.num("bytes_total", p.total);
            assert(f@ =~= status_members(id as int, p@));
            if p.done {
                match &p.result {
                    Some(Ok(v)) => {
                        f.put("result", v.copied());
                    },
                    Some(Err(e)) => {
                        f.text("error", e.as_str());
                    },
                    None => {},
                }
            }
            Some(f.done())
        },
        None => None,
    }
}

/// Request cancellation of a job. Returns whether the job exists.
pub fn cancel(registry: &mut Registry, id: u64) -> (r: bool)
    ensures
        r == has_job(old(registry)@, id as int),
        final(registry)@ == with_job(
            old(registry)@,
            id as int,
            (Job { cancel: true, ..old(registry)@[id - 1] }),
        ),
{
    let found = match registry.index(id) {
        Some(i) => {
            registry.jobs[i].cancel = true;
            true
        },
        None => false,
    };
    assert(registry@ =~= with_job(
        old(registry)@,
        id as int,
        (Job { cancel: true, ..old(registry)@[id - 1] }),
    ));
    found
}

proof fn lemma_status_names()
    ensures
        "job_id"@.len() == 6,
        "kind"@.len() == 4,
        "running"@.len() == 7,
        "cancel_requested"@.len() == 16,
        "bytes_scanned"@.len() == 13,
        "bytes_total"@.len() == 11,
        "result"@.len() == 6,
        "error"@.len() == 5,
        "result"@ != "job_id"@,
{
    reveal_strlit("job_id");
    reveal_strlit("kind");
    reveal_strlit("running");
    reveal_strlit("cancel_requested");
    reveal_strlit("bytes_scanned");
    reveal_strlit("bytes_total");
    reveal_strlit("result");
    reveal_strlit("error");
    assert("result"@[0] != "job_id"@[0]);
}

/// The status of a job says under its names what the state of the job is; it has a
/// result or an error exactly when the job has ended with one.
pub proof fn lemma_status_members(id: int, job: Job)
    ensures
        ({
            let v = status_value(id, job);
            &&& member(v, "job_id"@) == Some(Value::Num(id))
            &&& member(v, "kind"@) == Some(Value::Str(job.kind))
            &&& member(v, "running"@) == Some(Value::Bool(!job.done))
            &&& member(v, "cancel_requested"@) == Some(Value::Bool(job.cancel))
            &&& member(v, "bytes_scanned"@) == Some(Value::Num(job.scanned))
            &&& member(v, "bytes_total"@) == Some(Value::Num(job.total))
            &&& member(v, "result"@) == match job.result {
                Some(Ok(r)) if job.done => Some(r),
                _ => None,
            }
            &&& member(v, "error"@) == match job.result {
                Some(Err(e)) if job.done => Some(Value::Str(e)),
                _ => None,
            }
        }),
{
    lemma_status_names();
    reveal_with_fuel(member_at, 8);
}

/// A job that is started gets an id that no job had; it runs, and the jobs before it
/// stay what they were.
pub proof fn lemma_start_is_fresh(jobs: Seq<Job>, kind: Seq<char>)
    ensures
        ({
            let after = jobs.push(fresh_job(kind));
            let id = after.len() as int;
            &&& !has_job(jobs, id)
            &&& has_job(after, id)
            &&& member(status_value(id, after[id - 1]), "running"@) == Some(Value::Bool(true))
            &&& forall|k: int| has_job(jobs, k) ==> has_job(after, k) && after[k - 1] == jobs[k - 1]
        }),
{
    lemma_status_members((jobs.len() + 1) as int, fresh_job(kind));
}

/// A job that is asked to stop is seen to be so by its worker and in its status; no
/// other job is.
pub proof fn lemma_cancel_is_seen(jobs: Seq<Job>, id: int)
    requires
        has_job(jobs, id),
    ensures
        ({
            let after = with_job(jobs, id, Job { cancel: true, ..jobs[id - 1] });
            &&& after[id - 1].cancel
            &&& member(status_value(id, after[id - 1]), "cancel_requested"@) == Some(
                Value::Bool(true),
            )
            &&& forall|k: int| has_job(jobs, k) && k != id ==> after[k - 1] == jobs[k - 1]
        }),
{
    lemma_status_members(id, Job { cancel: true, ..jobs[id - 1] });
}

/// Once a job has ended, its status gives what came of it and says that it no longer
/// runs.
pub proof fn lemma_end_is_reported(jobs: Seq<Job>, id: int, outcome: Result<Value, Seq<char>>)
    requires
        has_job(jobs, id),
    ensures
        ({
            let after = with_job(jobs, id, ended(jobs[id - 1], outcome));
            let v = status_value(id, after[id - 1]);
            &&& member(v, "running"@) == Some(Value::Bool(false))
            &&& match outcome {
                Ok(r) => member(v, "result"@) == Some(r) && member(v, "error"@) is None,
                Err(e) => member(v, "error"@) == Some(Value::Str(e)) && member(
                    v,
                    "result"@,
                ) is None,
            }
        }),
{
    lemma_status_members(id, ended(jobs[id - 1], outcome));
}

} // verus!
