//! Background jobs: each job gets a fresh number; jobs are listed in the
//! order they were started and can be looked up by number or removed by
//! position.
use vstd::prelude::*;
use crate::text::{nat_text, owned, parse_unsigned, parse_unsigned_str, u64_text, views};

verus! {

/// Job status.
#[derive(Debug, Clone, Copy, PartialEq, Eq)]
pub enum JobStatus {
    Running,
}

impl JobStatus {
    /// The status as the `jobs` builtin prints it.
    pub fn to_string(&self) -> (r: String)
        ensures
            r@ == "Running"@,
    {
        match self {
            JobStatus::Running => owned("Running"),
        }
    }
}

/// A background job.
#[derive(Debug)]
pub struct Job {
    pub id: u32,
    pub command: String,
    pub status: JobStatus,
    pub pid: u32,
}

/// A job as plain values: number, command text, process id.
pub open spec fn job_model(j: Job) -> (u32, Seq<char>, u32) {
    (j.id, j.command@, j.pid)
}

impl Job {
    /// A running job.
    pub fn new(id: u32, command: String, pid: u32) -> (r: Self)
        ensures
            r.id == id,
            r.command@ == command@,
            r.pid == pid,
            r.status == JobStatus::Running,
    {
        Job { id, command, status: JobStatus::Running, pid }
    }

    /// The job's status.
    pub fn status(&self) -> (r: JobStatus)
        ensures
            r == self.status,
    {
        self.status
    }
}

/// The table of background jobs.
#[derive(Debug)]
pub struct JobManager {
    jobs: Vec<Job>,
    next_job_id: u32,
}

impl JobManager {
    /// The jobs as plain values, in the order they were added.
    pub closed spec fn view(&self) -> Seq<(u32, Seq<char>, u32)> {
        self.jobs@.map_values(|j: Job| job_model(j))
    }

    /// The number the next job will get.
    pub closed spec fn next_id(&self) -> u32 {
        self.next_job_id
    }

    /// Job numbers are positive, strictly increasing in list order, and all
    /// below the number the next job gets.
    pub closed spec fn wf(&self) -> bool {
        &&& self.next_job_id >= 1
        &&& forall|i: int, j: int|
            0 <= i < j < self.jobs@.len() ==> #[trigger] self.jobs@[i].id < #[trigger] self.jobs@[j].id
        &&& forall|i: int| 0 <= i < self.jobs@.len() ==> 1 <= #[trigger] self.jobs@[i].id < self.next_job_id
    }

    /// An empty table; the first job gets number 1.
    pub fn new() -> (r: Self)
        ensures
            r.wf(),
            r.view().len() == 0,
            r.next_id() == 1,
    {
        JobManager { jobs: Vec::new(), next_job_id: 1 }
    }

    /// Adds a background job and returns its number.
    pub fn add_job(&mut self, command: String, pid: u32) -> (job_id: u32)
        requires
            old(self).wf(),
            old(self).next_id() < u32::MAX,
        ensures
            final(self).wf(),
            job_id == old(self).next_id(),
            job_id >= 1,
            final(self).next_id() == old(self).next_id() + 1,
            final(self).view() == old(self).view().push((job_id, command@, pid)),
    {
        let job_id = self.next_job_id;
        let job = Job::new(job_id, command, pid);
        let ghost before = self.jobs@;
        self.jobs.push(job);
        self.next_job_id = self.next_job_id + 1;
        assert(self.jobs@ == before.push(self.jobs@.last()));
        assert(self.view() =~= old(self).view().push((job_id, command@, pid))) by {
            assert forall|k: int| 0 <= k < self.jobs@.len() implies #[trigger] self.view()[k]
                == old(self).view().push((job_id, command@, pid))[k] by {
                if k < before.len() {
                    assert(self.jobs@[k] == before[k]);
                }
            }
        }
        job_id
    }

    /// Index of the job with number `job_id`.
    pub fn find_job_index(&self, job_id: u32) -> (r: Option<usize>)
        requires
            self.wf(),
        ensures
            match r {
                Some(i) => i < self.view().len() && self.view()[i as int].0 == job_id,
                None => forall|i: int| 0 <= i < self.view().len() ==> self.view()[i].0 != job_id,
            },
    {
        let mut i: usize = 0;
        while i < self.jobs.len()
            invariant
                i <= self.jobs@.len(),
                forall|k: int| 0 <= k < i ==> self.jobs@[k].id != job_id,
            decreases self.jobs.len() - i,
        {
            if self.jobs[i].id == job_id {
                return Some(i);
            }
            i = i + 1;
        }
        None
    }

    /// The job with number `job_id`.
    pub fn get_job(&self, job_id: u32) -> (r: Option<&Job>)
        requires
            self.wf(),
        ensures
            match r {
                Some(j) => exists|i: int|
                    0 <= i < self.view().len() && self.view()[i] == job_model(*j) && j.id == job_id,
                None => forall|i: int| 0 <= i < self.view().len() ==> self.view()[i].0 != job_id,
            },
    {
        match self.find_job_index(job_id) {
            Some(i) => {
                let j = &self.jobs[i];
                assert(self.view()[i as int] == job_model(*j));
                Some(j)
            },
            None => None,
        }
    }

    /// All jobs, in the order they were added.
    pub fn list_jobs(&self) -> (r: &[Job])
        ensures
            r@.map_values(|j: Job| job_model(j)) == self.view(),
    {
        self.jobs.as_slice()
    }

    /// Removes the job at position `index`.
    pub fn remove_job(&mut self, index: usize) -> (r: Result<Job, String>)
        requires
            old(self).wf(),
        ensures
            final(self).wf(),
            final(self).next_id() == old(self).next_id(),
            index < old(self).view().len() ==> r is Ok && job_model(r->Ok_0) == old(self).view()[index as int]
                && final(self).view() == old(self).view().remove(index as int),
            index >= old(self).view().len() ==> r is Err && final(self).view() == old(self).view()
                && r->Err_0@ == "Invalid job index: "@ + crate::text::nat_text(index as nat),
    {
        if index < self.jobs.len() {
            let ghost before = self.jobs@;
            let job = self.jobs.remove(index);
            assert(self.jobs@ == before.remove(index as int));
            assert(self.view() =~= old(self).view().remove(index as int)) by {
                assert forall|k: int| 0 <= k < self.jobs@.len() implies #[trigger] self.view()[k]
                    == old(self).view().remove(index as int)[k] by {
                    if k < index {
                        assert(self.jobs@[k] == before[k]);
                    } else {
                        assert(self.jobs@[k] == before[k + 1]);
                    }
                }
            }
            assert forall|i: int, j: int| 0 <= i < j < self.jobs@.len() implies #[trigger] self.jobs@[i].id
                < #[trigger] self.jobs@[j].id by {
                let i2 = if i < index { i } else { i + 1 };
                let j2 = if j < index { j } else { j + 1 };
                assert(self.jobs@[i] == before[i2]);
                assert(self.jobs@[j] == before[j2]);
                assert(before[i2].id < before[j2].id);
            }
            assert forall|i: int| 0 <= i < self.jobs@.len() implies 1 <= #[trigger] self.jobs@[i].id
                < self.next_job_id by {
                let i2 = if i < index { i } else { i + 1 };
                assert(self.jobs@[i] == before[i2]);
            }
            Ok(job)
        } else {
            let n = u64_text(index as u64);
            Err(owned("Invalid job index: ").concat(n.as_str()))
        }
    }

    /// Whether any job is recorded.
    pub fn has_jobs(&self) -> (r: bool)
        ensures
            r == (self.view().len() > 0),
    {
        self.jobs.len() > 0
    }

    /// The number of recorded jobs.
    pub fn job_count(&self) -> (r: usize)
        ensures
            r == self.view().len(),
    {
        self.jobs.len()
    }
}

impl Default for JobManager {
    fn default() -> (r: Self)
        ensures
            r.wf(),
            r.view().len() == 0,
            r.next_id() == 1,
    {
        JobManager::new()
    }
}

/// Law: a job number handed out by `add_job` belongs to no job that was
/// already recorded, so numbers are never reused.
pub proof fn law_added_job_number_is_fresh(m: JobManager, i: int)
    requires
        m.wf(),
        0 <= i < m.view().len(),
    ensures
        m.view()[i].0 != m.next_id(),
{
    reveal(JobManager::wf);
    reveal(JobManager::view);
    reveal(JobManager::next_id);
    assert(m.view()[i].0 == m.jobs@[i].id);
}

/// Law: in a well-formed table the number the next job gets is at least 1,
/// so `add_job` never hands out 0.
pub proof fn law_next_id_positive(m: JobManager)
    requires
        m.wf(),
    ensures
        m.next_id() >= 1,
{
}

/// Law: in a well-formed table every job number is at least 1 and below
/// the number the next job gets, and the numbers increase in list order.
pub proof fn law_job_numbers_positive(m: JobManager, i: int, j: int)
    requires
        m.wf(),
        0 <= i < m.view().len(),
        0 <= j < m.view().len(),
    ensures
        1 <= m.view()[i].0 < m.next_id(),
        i < j ==> m.view()[i].0 < m.view()[j].0,
{
    assert(m.view()[i].0 == m.jobs@[i].id);
    assert(m.view()[j].0 == m.jobs@[j].id);
    assert(1 <= m.jobs@[i].id < m.next_job_id);
    if i < j {
        assert(m.jobs@[i].id < m.jobs@[j].id);
    }
}

/// Law: job numbers in a well-formed table are distinct, so looking a job up
/// by its number finds that job and no other.
pub proof fn law_job_numbers_distinct(m: JobManager, i: int, j: int)
    requires
        m.wf(),
        0 <= i < m.view().len(),
        0 <= j < m.view().len(),
        i != j,
    ensures
        m.view()[i].0 != m.view()[j].0,
{
    assert(m.view()[i].0 == m.jobs@[i].id);
    assert(m.view()[j].0 == m.jobs@[j].id);
    if i < j {
        assert(m.jobs@[i].id < m.jobs@[j].id);
    } else {
        assert(m.jobs@[j].id < m.jobs@[i].id);
    }
}

/// The job number an `fg`/`bg` argument names: `%N` or `N`.
pub open spec fn job_number_of(arg: Seq<char>) -> Option<int> {
    if arg.len() > 0 && arg[0] == '%' {
        parse_unsigned(arg.drop_first(), u32::MAX as int)
    } else {
        parse_unsigned(arg, u32::MAX as int)
    }
}

/// Whether a job of number `n` is recorded.
pub open spec fn has_job(v: Seq<(u32, Seq<char>, u32)>, n: int) -> bool {
    exists|i: int| 0 <= i < v.len() && v[i].0 == n
}

/// What `fg` or `bg` (`name`) answers: on standard output `ok` followed by
/// the job's number in brackets when the job exists; on standard error why
/// not: no argument, a bad number, or no such job.
pub open spec fn job_reply(
    name: Seq<char>,
    ok: Seq<char>,
    args: Seq<Seq<char>>,
    v: Seq<(u32, Seq<char>, u32)>,
) -> Result<Seq<char>, Seq<char>> {
    if args.len() == 0 {
        Err(name + ": Job number required"@)
    } else {
        match job_number_of(args[0]) {
            None => Err(name + ": Invalid job number '"@ + args[0] + "'"@),
            Some(n) => if has_job(v, n) {
                Ok(ok + " ["@ + nat_text(n as nat) + "]"@)
            } else {
                Err(name + ": Job %"@ + nat_text(n as nat) + " not found"@)
            },
        }
    }
}

/// What the `jobs` builtin prints: a header and a row per job, or that there
/// is none.
pub open spec fn jobs_lines(v: Seq<(u32, Seq<char>, u32)>) -> Seq<Seq<char>> {
    if v.len() == 0 {
        seq!["No background jobs"@]
    } else {
        seq!["Background jobs:"@, "ID  PID  Command"@] + Seq::new(
            v.len(),
            |i: int|
                "["@ + nat_text(v[i].0 as nat) + "]  "@ + nat_text(v[i].2 as nat) + "  Running  "@
                    + v[i].1,
        )
    }
}

fn job_number(arg: &str) -> (r: Option<u32>)
    ensures
        job_number_of(arg@) matches Some(n) ==> 0 <= n <= u32::MAX,
        match job_number_of(arg@) {
            Some(n) => r == Some(n as u32),
            None => r is None,
        },
{
    let v = crate::text::chars_of(arg);
    if v.len() > 0 && v[0] == '%' {
        let rest = crate::text::string_of_range(&v, 1, v.len());
        assert(rest@ =~= arg@.drop_first());
        match parse_unsigned_str(rest.as_str(), u32::MAX as u64) {
            Some(n) => Some(n as u32),
            None => None,
        }
    } else {
        match parse_unsigned_str(arg, u32::MAX as u64) {
            Some(n) => Some(n as u32),
            None => None,
        }
    }
}

impl JobManager {
    /// The lines the `jobs` builtin prints.
    pub fn handle_jobs_command(&self) -> (r: Vec<String>)
        ensures
            views(r@) == jobs_lines(self.view()),
    {
        let mut out: Vec<String> = Vec::new();
        if self.jobs.len() == 0 {
            out.push(owned("No background jobs"));
            assert(views(out@) =~= jobs_lines(self.view()));
            return out;
        }
        out.push(owned("Background jobs:"));
        out.push(owned("ID  PID  Command"));
        let ghost want = jobs_lines(self.view());
        let mut i: usize = 0;
        while i < self.jobs.len()
            invariant
                i <= self.jobs@.len(),
                self.jobs@.len() > 0,
                want == jobs_lines(self.view()),
                views(out@) == want.subrange(0, i + 2),
            decreases self.jobs.len() - i,
        {
            let job = &self.jobs[i];
            assert(self.view()[i as int] == job_model(*job));
            let line = owned("[").concat(u64_text(job.id as u64).as_str()).concat("]  ").concat(
                u64_text(job.pid as u64).as_str(),
            ).concat("  Running  ").concat(job.command.as_str());
            let ghost before = views(out@);
            out.push(line);
            assert(views(out@) =~= before.push(line@));
            assert(want.subrange(0, i + 3) =~= want.subrange(0, i + 2).push(want[i + 2]));
            i += 1;
        }
        assert(want.subrange(0, i + 2) =~= want);
        out
    }

    /// What `name` (`fg` or `bg`) answers, and the position of the job it
    /// names when there is one.
    fn job_reply_for(&self, name: &str, ok: &str, args: &[String]) -> (r: (Result<String, String>, usize))
        requires
            self.wf(),
        ensures
            match (r.0, job_reply(name@, ok@, views(args@), self.view())) {
                (Ok(a), Ok(b)) => a@ == b,
                (Err(a), Err(b)) => a@ == b,
                _ => false,
            },
            r.0 is Ok ==> r.1 < self.view().len() && self.view()[r.1 as int].0 == job_number_of(
                args@[0]@,
            )->0,
    {
        if args.len() == 0 {
            return (Err(owned(name).concat(": Job number required")), 0);
        }
        let job_id = match job_number(args[0].as_str()) {
            Some(n) => n,
            None => {
                return (
                    Err(owned(name).concat(": Invalid job number '").concat(args[0].as_str()).concat("'")),
                    0,
                );
            },
        };
        let n = u64_text(job_id as u64);
        match self.find_job_index(job_id) {
            Some(index) => (Ok(owned(ok).concat(" [").concat(n.as_str()).concat("]")), index),
            None => (Err(owned(name).concat(": Job %").concat(n.as_str()).concat(" not found")), 0),
        }
    }

    /// `fg`: brings a job to the foreground, which takes it off the table.
    /// The answer is the line to print on standard output, or the error.
    pub fn handle_fg_command(&mut self, args: &[String]) -> (r: Result<String, String>)
        requires
            old(self).wf(),
        ensures
            final(self).wf(),
            final(self).next_id() == old(self).next_id(),
            match (r, job_reply("fg"@, "Continuing job:"@, views(args@), old(self).view())) {
                (Ok(a), Ok(b)) => a@ == b,
                (Err(a), Err(b)) => a@ == b,
                _ => false,
            },
            r is Ok ==> exists|i: int|
                0 <= i < old(self).view().len() && old(self).view()[i].0 == job_number_of(args@[0]@)->0
                    && final(self).view() == old(self).view().remove(i),
            r is Err ==> final(self).view() == old(self).view(),
    {
        let (reply, index) = self.job_reply_for("fg", "Continuing job:", args);
        if reply.is_ok() {
            let _ = self.remove_job(index);
        }
        reply
    }

    /// `bg`: reports the job that goes on in the background; the table is
    /// left as it is. The answer is the line to print on standard output,
    /// or the error.
    pub fn handle_bg_command(&self, args: &[String]) -> (r: Result<String, String>)
        requires
            self.wf(),
        ensures
            match (r, job_reply("bg"@, "Continue background job:"@, views(args@), self.view())) {
                (Ok(a), Ok(b)) => a@ == b,
                (Err(a), Err(b)) => a@ == b,
                _ => false,
            },
    {
        self.job_reply_for("bg", "Continue background job:", args).0
    }
}

/// Law: the number `add_job` hands out is at least 1 and brings that job
/// back. On the table `add_job` leaves, the added job is the only one with
/// that number, so looking the number up finds it; `fg` with that number in
/// decimal answers that it continues the job; and taking off the job of that
/// number gives back the table as it was before the job was added.
pub proof fn law_fg_takes_back_added_job(m: JobManager, command: Seq<char>, pid: u32)
    requires
        m.wf(),
    ensures
        m.next_id() >= 1,
        forall|i: int|
            0 <= i < m.view().len() + 1 && (#[trigger] m.view().push((m.next_id(), command, pid))[i]).0
                == m.next_id() ==> i == m.view().len() && m.view().push((m.next_id(), command, pid))[i]
                == (m.next_id(), command, pid),
        job_reply(
            "fg"@,
            "Continuing job:"@,
            seq![nat_text(m.next_id() as nat)],
            m.view().push((m.next_id(), command, pid)),
        ) == Ok::<Seq<char>, Seq<char>>("Continuing job:"@ + " ["@ + nat_text(m.next_id() as nat) + "]"@),
        forall|i: int|
            0 <= i < m.view().len() + 1 && (#[trigger] m.view().push((m.next_id(), command, pid))[i]).0
                == m.next_id() ==> m.view().push((m.next_id(), command, pid)).remove(i) == m.view(),
{
    let n = m.next_id();
    let v = m.view();
    let v2 = v.push((n, command, pid));
    assert(m.next_job_id >= 1);
    assert forall|i: int| 0 <= i < v.len() + 1 && (#[trigger] v2[i]).0 == n implies i == v.len()
        && v2[i] == (n, command, pid) by {
        if i < v.len() {
            law_added_job_number_is_fresh(m, i);
            assert(v2[i] == v[i]);
        }
    }
    crate::text::lemma_nat_text_value(n as nat);
    let t = nat_text(n as nat);
    assert(parse_unsigned(t, u32::MAX as int) == Some(n as int));
    assert(t[0] != '%') by {
        assert(crate::text::is_digit(t[0]));
    }
    assert(job_number_of(t) == Some(n as int));
    assert(v2[v.len() as int].0 == n);
    assert(has_job(v2, n as int));
    assert forall|i: int| 0 <= i < v.len() + 1 && (#[trigger] v2[i]).0 == n implies v2.remove(i) == v by {
        if i < v.len() {
            law_added_job_number_is_fresh(m, i);
            assert(v2[i] == v[i]);
        }
        assert(v2.remove(v.len() as int) =~= v);
    }
}

} // verus!
