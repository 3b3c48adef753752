//! Job records and the job store: the submission payload, verdict and
//! state enums, the monotonic id counter, admission control, and the
//! filtered queries over stored jobs.

use vstd::prelude::*;

use crate::config::Config;
use crate::config::has_language;
use crate::config::has_problem;
use crate::contests::Contest;
use crate::contests::has_contest;
use crate::errors::ApiError;
use crate::text::str_eq;
use crate::users::User;
use crate::users::has_user_id;

verus! {

/// Lifecycle of a job: strictly forward, finished exactly once.
#[derive(Debug, Clone, Copy, PartialEq, Eq, Structural)]
pub enum State {
    Queueing,
    Running,
    Finished,
}

/// Verdict of a case or of a whole job. The two compilation verdicts
/// appear only on a job's first case.
#[derive(Debug, Clone, Copy, PartialEq, Eq, Structural)]
pub enum JudgeResult {
    Waiting,
    Running,
    Accepted,
    CompilationError,
    CompilationSuccess,
    WrongAnswer,
    RuntimeError,
    TimeLimitExceeded,
}

/// A submission: the source text and its identifying ids.
#[derive(Debug)]
pub struct PostJob {
    pub source_code: String,
    pub language: String,
    pub user_id: u32,
    pub contest_id: u32,
    pub problem_id: u32,
}

impl Clone for PostJob {
    fn clone(&self) -> (r: PostJob)
        ensures
            r == *self,
    {
        PostJob {
            source_code: self.source_code.clone(),
            language: self.language.clone(),
            user_id: self.user_id,
            contest_id: self.contest_id,
            problem_id: self.problem_id,
        }
    }
}

/// One evaluation unit inside a job: id 0 is the compilation step, ids
/// 1 and up are the problem's test cases in catalog order.
#[derive(Debug)]
pub struct Case {
    pub id: i32,
    pub result: JudgeResult,
    pub time: u64,
    pub memory: u64,
    pub info: String,
}

impl Clone for Case {
    fn clone(&self) -> (r: Case)
        ensures
            r == *self,
    {
        Case {
            id: self.id,
            result: self.result,
            time: self.time,
            memory: self.memory,
            info: self.info.clone(),
        }
    }
}

/// Copies a case list.
pub fn clone_cases(v: &Vec<Case>) -> (r: Vec<Case>)
    ensures
        r@ == v@,
{
    let n = v.len();
    let mut r: Vec<Case> = Vec::new();
    let mut i: usize = 0;
    while i < n
        invariant
            i <= n,
            n == v@.len(),
            r@ == v@.take(i as int),
        decreases n - i,
    {
        r.push(v[i].clone());
        assert(r@ =~= v@.take(i + 1));
        i = i + 1;
    }
    proof {
        assert(v@.take(n as int) =~= v@);
    }
    r
}

/// The persisted record of one judged submission.
#[derive(Debug)]
pub struct JobResponse {
    pub id: i32,
    pub created_time: String,
    pub updated_time: String,
    pub submission: PostJob,
    pub state: State,
    pub result: JudgeResult,
    pub score: u64,
    pub cases: Vec<Case>,
}

impl JobResponse {
    /// Observational equality: every field agrees, the case list by
    /// contents.
    pub open spec fn like(self, other: JobResponse) -> bool {
        &&& self.id == other.id
        &&& self.created_time == other.created_time
        &&& self.updated_time == other.updated_time
        &&& self.submission == other.submission
        &&& self.state == other.state
        &&& self.result == other.result
        &&& self.score == other.score
        &&& self.cases@ == other.cases@
    }
}

impl Clone for JobResponse {
    fn clone(&self) -> (r: JobResponse)
        ensures
            r.like(*self),
    {
        JobResponse {
            id: self.id,
            created_time: self.created_time.clone(),
            updated_time: self.updated_time.clone(),
            submission: self.submission.clone(),
            state: self.state,
            result: self.result,
            score: self.score,
            cases: clone_cases(&self.cases),
        }
    }
}

/// The monotonic id generator: ids are handed out in increasing order,
/// starting at 0.
pub struct JobCounter {
    pub counter: i32,
}

impl JobCounter {
    /// A fresh counter; the first id it hands out is 0.
    pub fn new() -> (r: JobCounter)
        ensures
            r.counter == -1i32,
    {
        JobCounter { counter: -1 }
    }

    /// Hands out the next id, one above the last.
    pub fn next_id(&mut self) -> (id: i32)
        requires
            old(self).counter < i32::MAX,
        ensures
            final(self).counter == old(self).counter + 1,
            id == final(self).counter,
    {
        self.counter = self.counter + 1;
        self.counter
    }
}

/// Whether a stored job belongs to this (user, problem, contest) triple.
pub open spec fn quota_matches(j: JobResponse, user_id: u32, problem_id: u32, contest_id: u32) -> bool {
    &&& j.submission.user_id == user_id
    &&& j.submission.problem_id == problem_id
    &&& j.submission.contest_id == contest_id
}

/// How many stored jobs belong to this (user, problem, contest) triple.
pub open spec fn quota_count(jobs: Seq<JobResponse>, user_id: u32, problem_id: u32, contest_id: u32) -> int
    decreases jobs.len(),
{
    if jobs.len() == 0 {
        0
    } else {
        quota_count(jobs.drop_last(), user_id, problem_id, contest_id) + if quota_matches(
            jobs.last(),
            user_id,
            problem_id,
            contest_id,
        ) {
            1int
        } else {
            0int
        }
    }
}

proof fn lemma_quota_count_take_succ(jobs: Seq<JobResponse>, u: u32, p: u32, c: u32, i: int)
    requires
        0 <= i < jobs.len(),
    ensures
        quota_count(jobs.take(i + 1), u, p, c) == quota_count(jobs.take(i), u, p, c) + if quota_matches(jobs[i], u, p, c) {
            1int
        } else {
            0int
        },
{
    assert(jobs.take(i + 1).drop_last() =~= jobs.take(i));
    assert(jobs.take(i + 1).last() == jobs[i]);
}

proof fn lemma_quota_count_nonneg(jobs: Seq<JobResponse>, u: u32, p: u32, c: u32)
    ensures
        0 <= quota_count(jobs, u, p, c) <= jobs.len(),
    decreases jobs.len(),
{
    if jobs.len() > 0 {
        lemma_quota_count_nonneg(jobs.drop_last(), u, p, c);
    }
}

/// Counts the stored jobs of this (user, problem, contest) triple.
pub fn count_quota(jobs: &Vec<JobResponse>, user_id: u32, problem_id: u32, contest_id: u32) -> (r: usize)
    ensures
        r == quota_count(jobs@, user_id, problem_id, contest_id),
{
    let n = jobs.len();
    let mut cnt: usize = 0;
    let mut i: usize = 0;
    proof {
        lemma_quota_count_nonneg(jobs@, user_id, problem_id, contest_id);
    }
    while i < n
        invariant
            i <= n,
            n == jobs@.len(),
            cnt == quota_count(jobs@.take(i as int), user_id, problem_id, contest_id),
            cnt <= i,
        decreases n - i,
    {
        proof {
            lemma_quota_count_take_succ(jobs@, user_id, problem_id, contest_id, i as int);
        }
        let j = &jobs[i];
        if j.submission.user_id == user_id && j.submission.problem_id == problem_id
            && j.submission.contest_id == contest_id {
            cnt = cnt + 1;
        }
        i = i + 1;
    }
    proof {
        assert(jobs@.take(n as int) =~= jobs@);
    }
    cnt
}

/// First stored contest with the given id, as a mathematical index;
/// the sequence's length when there is none.
pub open spec fn contest_index_of(contests: Seq<Contest>, id: usize) -> int
    decreases contests.len(),
{
    if contests.len() == 0 {
        0
    } else if contests[0].id == Some(id) {
        0
    } else {
        1 + contest_index_of(contests.drop_first(), id)
    }
}

pub proof fn lemma_contest_index_of(contests: Seq<Contest>, id: usize, i: int)
    requires
        0 <= i <= contests.len(),
        forall|j: int| 0 <= j < i ==> contests[j].id != Some(id),
        i < contests.len() ==> contests[i].id == Some(id),
    ensures
        contest_index_of(contests, id) == i,
    decreases i,
{
    if i == 0 {
    } else {
        lemma_contest_index_of(contests.drop_first(), id, i - 1);
    }
}

/// Whether this sequence of indices holds the given value.
pub fn usize_vec_contains(v: &Vec<usize>, x: usize) -> (r: bool)
    ensures
        r == v@.contains(x),
{
    let n = v.len();
    let mut i: usize = 0;
    while i < n
        invariant
            i <= n,
            n == v@.len(),
            forall|j: int| 0 <= j < i ==> v@[j] != x,
        decreases n - i,
    {
        if v[i] == x {
            assert(v@.contains(x));
            return true;
        }
        i = i + 1;
    }
    assert(!v@.contains(x));
    false
}

/// What admission control answers for a submission: which check fails
/// first, in the fixed order — known language and problem, known user,
/// known contest, contest membership of the user and of the problem,
/// and finally the submission quota.
pub open spec fn spec_admission(
    body: PostJob,
    config: Config,
    users: Seq<User>,
    contests: Seq<Contest>,
    jobs: Seq<JobResponse>,
) -> Result<(), ApiError> {
    if !has_language(config.languages@, body.language@) || !has_problem(
        config.problems@,
        body.problem_id,
    ) {
        Err(ApiError::NotFound)
    } else if !has_user_id(users, body.user_id) {
        Err(ApiError::NotFound)
    } else if !has_contest(contests, body.contest_id as usize) {
        Err(ApiError::NotFound)
    } else {
        let contest = contests[contest_index_of(contests, body.contest_id as usize)];
        if !contest.user_ids@.contains(body.user_id as usize) {
            Err(ApiError::InvalidArgument)
        } else if !contest.problem_ids@.contains(body.problem_id as usize) {
            Err(ApiError::InvalidArgument)
        } else if quota_count(jobs, body.user_id, body.problem_id, body.contest_id)
            >= contest.submission_limit as int {
            Err(ApiError::RateLimit)
        } else {
            Ok(())
        }
    }
}

/// Admission control: read-only over all four collaborators, and
/// all-or-nothing — no job may be created unless every check passes.
pub fn check_submission(
    body: &PostJob,
    config: &Config,
    users: &Vec<User>,
    contests: &Vec<Contest>,
    jobs: &Vec<JobResponse>,
) -> (r: Result<(), ApiError>)
    ensures
        r == spec_admission(*body, *config, users@, contests@, jobs@),
{
    let lang_known = match crate::config::find_language(&config.languages, body.language.as_str()) {
        Some(_) => true,
        None => false,
    };
    let prob_known = match crate::config::find_problem(&config.problems, body.problem_id) {
        Some(_) => true,
        None => false,
    };
    if !lang_known || !prob_known {
        return Err(ApiError::NotFound);
    }
    let user_known = match crate::users::find_user_by_id(users, body.user_id) {
        Some(_) => true,
        None => false,
    };
    if !user_known {
        return Err(ApiError::NotFound);
    }
    let ci = match crate::contests::find_contest(contests, body.contest_id as usize) {
        Some(i) => i,
        None => {
            return Err(ApiError::NotFound);
        },
    };
    proof {
        lemma_contest_index_of(contests@, body.contest_id as usize, ci as int);
    }
    let contest = &contests[ci];
    if !usize_vec_contains(&contest.user_ids, body.user_id as usize) {
        return Err(ApiError::InvalidArgument);
    }
    if !usize_vec_contains(&contest.problem_ids, body.problem_id as usize) {
        return Err(ApiError::InvalidArgument);
    }
    let cnt = count_quota(jobs, body.user_id, body.problem_id, body.contest_id);
    proof {
        lemma_quota_count_nonneg(jobs@, body.user_id, body.problem_id, body.contest_id);
    }
    let over = if contest.submission_limit < 0 {
        true
    } else {
        cnt >= (contest.submission_limit as usize)
    };
    if over {
        return Err(ApiError::RateLimit);
    }
    Ok(())
}

/// A job-list query: absent fields do not constrain. Only the language,
/// result, problem, and state fields filter; the others are accepted
/// and ignored.
#[derive(Debug)]
pub struct GetJob {
    pub language: Option<String>,
    pub user_id: Option<u32>,
    pub user_name: Option<String>,
    pub contest_id: Option<u32>,
    pub problem_id: Option<u32>,
    pub from: Option<String>,
    pub to: Option<String>,
    pub state: Option<State>,
    pub result: Option<JudgeResult>,
}

/// Whether a stored job satisfies every constraining field of a query.
pub open spec fn job_matches_query(q: GetJob, j: JobResponse) -> bool {
    &&& (q.language matches Some(l) ==> j.submission.language@ == l@)
    &&& (q.result matches Some(r) ==> j.result == r)
    &&& (q.problem_id matches Some(p) ==> j.submission.problem_id == p)
    &&& (q.state matches Some(s) ==> j.state == s)
}

/// The stored jobs a query keeps, in store order.
pub open spec fn jobs_matching(jobs: Seq<JobResponse>, q: GetJob) -> Seq<JobResponse>
    decreases jobs.len(),
{
    if jobs.len() == 0 {
        Seq::empty()
    } else {
        jobs_matching(jobs.drop_last(), q) + if job_matches_query(q, jobs.last()) {
            seq![jobs.last()]
        } else {
            Seq::empty()
        }
    }
}

proof fn lemma_jobs_matching_take_succ(jobs: Seq<JobResponse>, q: GetJob, i: int)
    requires
        0 <= i < jobs.len(),
    ensures
        jobs_matching(jobs.take(i + 1), q) == jobs_matching(jobs.take(i), q) + if job_matches_query(
            q,
            jobs[i],
        ) {
            seq![jobs[i]]
        } else {
            Seq::empty()
        },
{
    assert(jobs.take(i + 1).drop_last() =~= jobs.take(i));
    assert(jobs.take(i + 1).last() == jobs[i]);
}

/// Decides [`job_matches_query`].
fn query_matches(q: &GetJob, j: &JobResponse) -> (r: bool)
    ensures
        r == job_matches_query(*q, *j),
{
    let lang_ok = match &q.language {
        Some(l) => str_eq(j.submission.language.as_str(), l.as_str()),
        None => true,
    };
    let result_ok = match &q.result {
        Some(res) => j.result == *res,
        None => true,
    };
    let problem_ok = match &q.problem_id {
        Some(p) => j.submission.problem_id == *p,
        None => true,
    };
    let state_ok = match &q.state {
        Some(s) => j.state == *s,
        None => true,
    };
    lang_ok && result_ok && problem_ok && state_ok
}

/// Lists the stored jobs a query keeps, in store order, as copies.
pub fn filter_jobs(jobs: &Vec<JobResponse>, q: &GetJob) -> (r: Vec<JobResponse>)
    ensures
        r@.len() == jobs_matching(jobs@, *q).len(),
        forall|i: int| 0 <= i < r@.len() ==> r@[i].like(jobs_matching(jobs@, *q)[i]),
{
    let n = jobs.len();
    let mut r: Vec<JobResponse> = Vec::new();
    let mut i: usize = 0;
    while i < n
        invariant
            i <= n,
            n == jobs@.len(),
            r@.len() == jobs_matching(jobs@.take(i as int), *q).len(),
            forall|k: int|
                0 <= k < r@.len() ==> r@[k].like(jobs_matching(jobs@.take(i as int), *q)[k]),
        decreases n - i,
    {
        proof {
            lemma_jobs_matching_take_succ(jobs@, *q, i as int);
        }
        if query_matches(q, &jobs[i]) {
            r.push(jobs[i].clone());
        }
        i = i + 1;
    }
    proof {
        assert(jobs@.take(n as int) =~= jobs@);
    }
    r
}

/// First stored job with the given id.
pub fn find_job(jobs: &Vec<JobResponse>, id: i32) -> (r: Option<usize>)
    ensures
        match r {
            Some(i) => i < jobs@.len() && jobs@[i as int].id == id && forall|j: int|
                0 <= j < i ==> jobs@[j].id != id,
            None => forall|j: int| 0 <= j < jobs@.len() ==> jobs@[j].id != id,
        },
{
    let n = jobs.len();
    let mut i: usize = 0;
    while i < n
        invariant
            i <= n,
            n == jobs@.len(),
            forall|j: int| 0 <= j < i ==> jobs@[j].id != id,
        decreases n - i,
    {
        if jobs[i].id == id {
            return Some(i);
        }
        i = i + 1;
    }
    None
}

} // verus!
