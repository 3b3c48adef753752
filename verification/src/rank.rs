//! The ranking engine: recomputes a whole leaderboard from the stored
//! jobs under a selectable scoring rule and tie-break policy.
//!
//! The model works over the essence of the stored records — the fields
//! ranking reads — so the executable engine may copy records freely.

use vstd::prelude::*;

use crate::config::Problem;
use crate::config::sum_of;
use crate::contests::Contest;
use crate::contests::has_contest;
use crate::errors::ApiError;
use crate::jobs::JobResponse;
use crate::jobs::contest_index_of;
use crate::sorting::insert_stable;
use crate::sorting::sort_stable;
use crate::text::lex_le;
use crate::users::User;
use crate::users::users_wf;

verus! {

/// How repeated submissions combine into one leaderboard cell: the
/// latest one counts, or the best one ever seen.
#[derive(Debug, Clone, Copy, PartialEq, Eq, Structural)]
pub enum ScoringRule {
    Latest,
    Highest,
}

/// How equal totals are told apart when ranks are assigned.
#[derive(Debug, Clone, Copy, PartialEq, Eq, Structural)]
pub enum TieBreaker {
    /// Standard competition ranking: equal totals share a rank.
    Default,
    /// Sequential ranks in the score-sorted order, no tie grouping.
    UserId,
    /// Re-sort by total submission count, ascending, with tie grouping.
    SubmissionCount,
    /// Re-sort by last scored-submission time, ascending, sequential.
    SubmissionTime,
}

/// What ranking reads of a user.
pub ghost struct UserE {
    pub id: Option<u32>,
    pub name: Seq<char>,
}

pub open spec fn user_e(u: User) -> UserE {
    UserE { id: u.id, name: u.name@ }
}

/// What ranking reads of a stored job.
pub ghost struct JobE {
    pub user_id: u32,
    pub problem_id: u32,
    pub contest_id: u32,
    pub score: u64,
    pub created: Seq<char>,
}

pub open spec fn job_e(j: JobResponse) -> JobE {
    JobE {
        user_id: j.submission.user_id,
        problem_id: j.submission.problem_id,
        contest_id: j.submission.contest_id,
        score: j.score,
        created: j.created_time@,
    }
}

pub open spec fn jobs_e(s: Seq<JobResponse>) -> Seq<JobE> {
    s.map_values(|j: JobResponse| job_e(j))
}

/// One leaderboard row while scores are being folded in.
pub ghost struct AccE {
    pub user: UserE,
    pub scores: Seq<u64>,
    pub count: int,
    pub time: Seq<char>,
}

/// One finished leaderboard row.
pub ghost struct RankE {
    pub user: UserE,
    pub rank: int,
    pub scores: Seq<u64>,
}

/// The ranked population: every registered user for the global
/// pseudo-contest, else the contest's members in membership order.
pub open spec fn population(contest_id: usize, contests: Seq<Contest>, users: Seq<User>) -> Seq<
    UserE,
> {
    if contest_id == 0 {
        users.map_values(|u: User| user_e(u))
    } else {
        let c = contests[contest_index_of(contests, contest_id)];
        c.user_ids@.map_values(|uid: usize| user_e(users[uid as int]))
    }
}

/// The order for sorting problem ids ascending.
pub open spec fn id_stays() -> spec_fn(usize, usize) -> bool {
    |a: usize, b: usize| a <= b
}

/// The score columns: the catalog's problem ids in ascending order for
/// the global pseudo-contest, else the contest's problem list in
/// membership order.
pub open spec fn columns(contest_id: usize, contests: Seq<Contest>, problems: Seq<Problem>) -> Seq<
    usize,
> {
    if contest_id == 0 {
        sort_stable(id_stays(), problems.map_values(|p: Problem| p.id as usize))
    } else {
        contests[contest_index_of(contests, contest_id)].problem_ids@
    }
}

/// The jobs a leaderboard folds: all of them for the global
/// pseudo-contest, else those submitted to the contest, in store order.
pub open spec fn contest_jobs(jobs: Seq<JobE>, contest_id: usize) -> Seq<JobE>
    decreases jobs.len(),
{
    if contest_id == 0 {
        jobs
    } else if jobs.len() == 0 {
        Seq::empty()
    } else {
        contest_jobs(jobs.drop_last(), contest_id) + if jobs.last().contest_id as usize
            == contest_id {
            seq![jobs.last()]
        } else {
            Seq::<JobE>::empty()
        }
    }
}

/// The order for folding jobs: ascending problem id, stable.
pub open spec fn job_stays() -> spec_fn(JobE, JobE) -> bool {
    |a: JobE, b: JobE| a.problem_id <= b.problem_id
}

/// The jobs a leaderboard folds, in ascending problem-id order.
pub open spec fn ordered_jobs(jobs: Seq<JobE>, contest_id: usize) -> Seq<JobE> {
    sort_stable(job_stays(), contest_jobs(jobs, contest_id))
}

/// First column holding the given problem id; the column count when
/// there is none.
pub open spec fn col_index_of(cols: Seq<usize>, pid: usize) -> int
    decreases cols.len(),
{
    if cols.len() == 0 {
        0
    } else if cols[0] == pid {
        0
    } else {
        1 + col_index_of(cols.drop_first(), pid)
    }
}

pub proof fn lemma_col_index_of(cols: Seq<usize>, pid: usize, i: int)
    requires
        0 <= i <= cols.len(),
        forall|j: int| 0 <= j < i ==> cols[j] != pid,
        i < cols.len() ==> cols[i] == pid,
    ensures
        col_index_of(cols, pid) == i,
    decreases i,
{
    if i > 0 {
        lemma_col_index_of(cols.drop_first(), pid, i - 1);
    }
}

/// How one folded job changes one row: only a row of the job's user
/// changes; its submission count grows by one; under the best-ever rule
/// the cell and its timestamp move only when the score improves, else
/// the cell always takes the folded job's score and time.
pub open spec fn acc_absorb(a: AccE, j: JobE, col: int, highest: bool) -> AccE {
    if a.user.id == Some(j.user_id) {
        if highest && !(j.score > a.scores[col]) {
            AccE { count: a.count + 1, ..a }
        } else {
            AccE { user: a.user, scores: a.scores.update(col, j.score), count: a.count + 1, time: j.created }
        }
    } else {
        a
    }
}

/// Folds jobs into the rows, in order.
pub open spec fn fold_jobs(accs: Seq<AccE>, jobs: Seq<JobE>, cols: Seq<usize>, highest: bool) -> Seq<
    AccE,
>
    decreases jobs.len(),
{
    if jobs.len() == 0 {
        accs
    } else {
        let prev = fold_jobs(accs, jobs.drop_last(), cols, highest);
        let j = jobs.last();
        prev.map_values(
            |a: AccE| acc_absorb(a, j, col_index_of(cols, j.problem_id as usize), highest),
        )
    }
}

/// One fresh row per population member: all cells zero, no submissions,
/// and a timestamp sentinel that orders after every real timestamp.
pub open spec fn init_accs(pop: Seq<UserE>, ncols: nat) -> Seq<AccE> {
    pop.map_values(
        |u: UserE| AccE { user: u, scores: Seq::new(ncols, |i: int| 0u64), count: 0, time: "zzz"@ },
    )
}

/// A row's total: the sum of its cells.
pub open spec fn total_of(a: AccE) -> int {
    sum_of(a.scores)
}

/// The three orders rows are sorted by: total descending, submission
/// count ascending, last scored-submission time ascending — each stable.
#[derive(Debug, Clone, Copy, PartialEq, Eq, Structural)]
pub enum AccOrder {
    TotalDesc,
    CountAsc,
    TimeAsc,
}

pub open spec fn acc_stays(ord: AccOrder, a: AccE, b: AccE) -> bool {
    match ord {
        AccOrder::TotalDesc => total_of(a) >= total_of(b),
        AccOrder::CountAsc => a.count <= b.count,
        AccOrder::TimeAsc => lex_le(a.time, b.time),
    }
}

pub open spec fn acc_stays_fn(ord: AccOrder) -> spec_fn(AccE, AccE) -> bool {
    |a: AccE, b: AccE| acc_stays(ord, a, b)
}

/// Standard competition rank of the row at `i`: shared with the
/// predecessor on an equal total, else one past the position.
pub open spec fn rank_at_default(s: Seq<AccE>, i: int) -> int
    decreases i,
{
    if i <= 0 {
        1
    } else if total_of(s[i]) == total_of(s[i - 1]) {
        rank_at_default(s, i - 1)
    } else {
        i + 1
    }
}

/// Grouped rank keyed on submission count, in count-sorted order.
pub open spec fn rank_at_count(s: Seq<AccE>, i: int) -> int
    decreases i,
{
    if i <= 0 {
        1
    } else if s[i].count == s[i - 1].count {
        rank_at_count(s, i - 1)
    } else {
        i + 1
    }
}

/// The finished rows for a tie-break policy, given the rows already in
/// descending-total order.
pub open spec fn final_ranks(s: Seq<AccE>, tie: TieBreaker) -> Seq<RankE> {
    match tie {
        TieBreaker::Default => Seq::new(
            s.len(),
            |i: int| RankE { user: s[i].user, rank: rank_at_default(s, i), scores: s[i].scores },
        ),
        TieBreaker::UserId => Seq::new(
            s.len(),
            |i: int| RankE { user: s[i].user, rank: i + 1, scores: s[i].scores },
        ),
        TieBreaker::SubmissionCount => {
            let t = sort_stable(acc_stays_fn(AccOrder::CountAsc), s);
            Seq::new(
                t.len(),
                |i: int| RankE { user: t[i].user, rank: rank_at_count(t, i), scores: t[i].scores },
            )
        },
        TieBreaker::SubmissionTime => {
            let t = sort_stable(acc_stays_fn(AccOrder::TimeAsc), s);
            Seq::new(t.len(), |i: int| RankE { user: t[i].user, rank: i + 1, scores: t[i].scores })
        },
    }
}

/// The whole leaderboard, stage by stage: resolve the population and
/// the columns, fold the relevant jobs in ascending problem-id order,
/// sort by total descending, and assign ranks by the tie-break policy.
pub open spec fn spec_ranklist(
    contest_id: usize,
    contests: Seq<Contest>,
    problems: Seq<Problem>,
    users: Seq<User>,
    jobs: Seq<JobResponse>,
    rule: ScoringRule,
    tie: TieBreaker,
) -> Seq<RankE> {
    let pop = population(contest_id, contests, users);
    let cols = columns(contest_id, contests, problems);
    let ordered = ordered_jobs(jobs_e(jobs), contest_id);
    let accs = fold_jobs(init_accs(pop, cols.len()), ordered, cols, rule == ScoringRule::Highest);
    final_ranks(sort_stable(acc_stays_fn(AccOrder::TotalDesc), accs), tie)
}

/// What a leaderboard request relies on: the registry invariant, the
/// contest's members registered, every relevant job's problem having a
/// column and its user registered, and population and store sizes that
/// fit the rank and count fields.
pub open spec fn ranklist_pre(
    contest_id: usize,
    contests: Seq<Contest>,
    problems: Seq<Problem>,
    users: Seq<User>,
    jobs: Seq<JobResponse>,
) -> bool {
    &&& users_wf(users)
    &&& users.len() < 0x7fff_ffff
    &&& jobs.len() < usize::MAX
    &&& (contest_id != 0 && has_contest(contests, contest_id)) ==> {
        let c = contests[contest_index_of(contests, contest_id)];
        &&& c.user_ids@.len() < 0x7fff_ffff
        &&& forall|k: int| 0 <= k < c.user_ids@.len() ==> #[trigger] c.user_ids@[k] < users.len()
    }
    &&& (contest_id == 0 || has_contest(contests, contest_id)) ==> {
        let cols = columns(contest_id, contests, problems);
        forall|k: int|
            0 <= k < jobs.len() && (contest_id == 0 || (#[trigger] jobs[k]).submission.contest_id
                as usize == contest_id) ==> cols.contains(jobs[k].submission.problem_id as usize)
    }
}

/// One leaderboard row as callers receive it.
#[derive(Debug)]
pub struct Rank {
    pub user: User,
    pub rank: i32,
    pub scores: Vec<u64>,
}

pub open spec fn rank_e(x: Rank) -> RankE {
    RankE { user: user_e(x.user), rank: x.rank as int, scores: x.scores@ }
}

pub open spec fn ranks_e(s: Seq<Rank>) -> Seq<RankE> {
    s.map_values(|x: Rank| rank_e(x))
}

/// A score row of zeroes.
fn zero_scores(ncols: usize) -> (r: Vec<u64>)
    ensures
        r@ == Seq::new(ncols as nat, |i: int| 0u64),
{
    let mut r: Vec<u64> = Vec::new();
    let mut i: usize = 0;
    while i < ncols
        invariant
            i <= ncols,
            r@ == Seq::new(i as nat, |k: int| 0u64),
        decreases ncols - i,
    {
        r.push(0);
        assert(r@ =~= Seq::new((i + 1) as nat, |k: int| 0u64));
        i = i + 1;
    }
    r
}

/// Copies a score row.
fn clone_u64_vec(v: &Vec<u64>) -> (r: Vec<u64>)
    ensures
        r@ == v@,
{
    let n = v.len();
    let mut r: Vec<u64> = Vec::new();
    let mut i: usize = 0;
    while i < n
        invariant
            i <= n,
            n == v@.len(),
            r@ == v@.take(i as int),
        decreases n - i,
    {
        r.push(v[i]);
        assert(r@ =~= v@.take(i + 1));
        i = i + 1;
    }
    proof {
        assert(v@.take(n as int) =~= v@);
    }
    r
}

impl Rank {
    /// A fresh row: rank 1 and all score columns zero.
    pub fn new(user: User, num: usize) -> (r: Rank)
        ensures
            r.user == user,
            r.rank == 1i32,
            r.scores@ == Seq::new(num as nat, |i: int| 0u64),
    {
        Rank { user, rank: 1, scores: zero_scores(num) }
    }
}

/// One leaderboard row being accumulated by the engine.
pub struct RankAcc {
    pub user: User,
    pub scores: Vec<u64>,
    pub count: usize,
    pub time: String,
}

pub open spec fn acc_e(a: RankAcc) -> AccE {
    AccE { user: user_e(a.user), scores: a.scores@, count: a.count as int, time: a.time@ }
}

pub open spec fn accs_e(s: Seq<RankAcc>) -> Seq<AccE> {
    s.map_values(|a: RankAcc| acc_e(a))
}

/// A row's total, exactly: the u128 cannot overflow on any row a `Vec`
/// can hold.
fn total_u128(scores: &Vec<u64>) -> (r: u128)
    ensures
        r as int == sum_of(scores@),
{
    let n = scores.len();
    let mut acc: u128 = 0;
    let mut i: usize = 0;
    while i < n
        invariant
            i <= n,
            n == scores@.len(),
            acc as int == sum_of(scores@.take(i as int)),
            acc as int <= (i as int) * 0x1_0000_0000_0000_0000,
        decreases n - i,
    {
        proof {
            crate::config::lemma_sum_of_take_succ(scores@, i as int);
        }
        acc = acc + (scores[i] as u128);
        i = i + 1;
    }
    proof {
        assert(scores@.take(n as int) =~= scores@);
    }
    acc
}

/// Sorts problem ids ascending, stably.
fn sort_ids(ids: Vec<usize>) -> (r: Vec<usize>)
    ensures
        r@ == sort_stable(id_stays(), ids@),
{
    let ghost stays = id_stays();
    let mut w = ids;
    let ghost orig = w@;
    let n = w.len();
    if n == 0 {
        return w;
    }
    proof {
        let s1 = orig.take(1);
        assert(s1.len() == 1);
        assert(s1.drop_last() =~= Seq::<usize>::empty());
        assert(sort_stable(stays, Seq::<usize>::empty()) == Seq::<usize>::empty());
        assert(sort_stable(stays, s1) == insert_stable(
            stays,
            s1.last(),
            sort_stable(stays, s1.drop_last()),
        ));
        assert(insert_stable(stays, s1.last(), Seq::<usize>::empty()) == seq![s1.last()]);
        assert(s1.last() == orig[0]);
        assert(w@.take(1) =~= seq![orig[0]]);
        assert(sort_stable(stays, s1) == seq![orig[0]]);
    }
    let mut i: usize = 1;
    while i < n
        invariant
            1 <= i <= n,
            w@.len() == n,
            orig.len() == n,
            stays == id_stays(),
            w@.skip(i as int) == orig.skip(i as int),
            w@.take(i as int) == sort_stable(stays, orig.take(i as int)),
        decreases n - i,
    {
        let ghost pre = w@;
        let x = w.remove(i);
        proof {
            assert(pre.skip(i as int)[0] == pre[i as int]);
            assert(orig.skip(i as int)[0] == orig[i as int]);
            assert(x == orig[i as int]);
            assert(w@.take(i as int) =~= pre.take(i as int));
        }
        let mut p: usize = 0;
        loop
            invariant
                p <= i,
                i < n,
                pre.len() == n,
                stays == id_stays(),
                w@ == pre.remove(i as int),
                w@.len() == n - 1,
                w@.take(i as int) == pre.take(i as int),
                forall|j: int| 0 <= j < p ==> stays(w@[j], x),
            ensures
                p <= i,
                w@ == pre.remove(i as int),
                forall|j: int| 0 <= j < p ==> stays(w@[j], x),
                p < i ==> !stays(w@[p as int], x),
            decreases i - p,
        {
            if p < i {
                if w[p] <= x {
                    proof {
                        assert(stays(w@[p as int], x));
                    }
                    p = p + 1;
                } else {
                    proof {
                        assert(!stays(w@[p as int], x));
                    }
                    break ;
                }
            } else {
                break ;
            }
        }
        let ghost sorted_pre = pre.take(i as int);
        w.insert(p, x);
        proof {
            crate::sorting::lemma_insert_stable_at(stays, x, sorted_pre, p as int);
            crate::sorting::lemma_sort_stable_take_succ(stays, orig, i as int);
            assert(w@.take(i + 1) =~= sorted_pre.take(p as int) + seq![x] + sorted_pre.skip(
                p as int,
            ));
            assert(w@.skip(i + 1) =~= pre.skip(i + 1));
            assert(pre.skip(i as int).drop_first() =~= pre.skip(i + 1));
            assert(orig.skip(i as int).drop_first() =~= orig.skip(i + 1));
        }
        i = i + 1;
    }
    proof {
        assert(orig.take(n as int) =~= orig);
        assert(w@.take(n as int) =~= w@);
    }
    w
}

/// Keeps the jobs a leaderboard folds: all of them for the global
/// pseudo-contest, else those submitted to the contest, as copies in
/// store order.
fn contest_jobs_exec(jobs: &Vec<JobResponse>, contest_id: usize) -> (r: Vec<JobResponse>)
    ensures
        jobs_e(r@) == contest_jobs(jobs_e(jobs@), contest_id),
{
    let n = jobs.len();
    let mut r: Vec<JobResponse> = Vec::new();
    let mut i: usize = 0;
    while i < n
        invariant
            i <= n,
            n == jobs@.len(),
            jobs_e(r@) == contest_jobs(jobs_e(jobs@.take(i as int)), contest_id),
        decreases n - i,
    {
        let ghost pre = jobs_e(r@);
        proof {
            let s = jobs_e(jobs@.take(i + 1));
            assert(s.drop_last() =~= jobs_e(jobs@.take(i as int)));
            assert(s.last() == job_e(jobs@[i as int]));
        }
        let keep = if contest_id == 0 {
            true
        } else {
            (jobs[i].submission.contest_id as usize) == contest_id
        };
        if keep {
            let c = jobs[i].clone();
            proof {
                assert(job_e(c) == job_e(jobs@[i as int]));
            }
            r.push(c);
            proof {
                assert(jobs_e(r@) =~= pre.push(job_e(jobs@[i as int])));
            }
        }
        proof {
            assert(jobs_e(r@) =~= contest_jobs(jobs_e(jobs@.take(i + 1)), contest_id));
        }
        i = i + 1;
    }
    proof {
        assert(jobs@.take(n as int) =~= jobs@);
    }
    r
}

/// Sorts jobs by problem id ascending, stably.
fn sort_jobs_by_problem(jobs: Vec<JobResponse>) -> (r: Vec<JobResponse>)
    ensures
        jobs_e(r@) == sort_stable(job_stays(), jobs_e(jobs@)),
{
    let ghost stays = job_stays();
    let mut w = jobs;
    let ghost orig = w@;
    let ghost orig_e = jobs_e(orig);
    let n = w.len();
    if n == 0 {
        proof {
            assert(jobs_e(w@) =~= Seq::<JobE>::empty());
        }
        return w;
    }
    proof {
        let s1 = orig_e.take(1);
        assert(s1.len() == 1);
        assert(s1.drop_last() =~= Seq::<JobE>::empty());
        assert(sort_stable(stays, Seq::<JobE>::empty()) == Seq::<JobE>::empty());
        assert(sort_stable(stays, s1) == insert_stable(
            stays,
            s1.last(),
            sort_stable(stays, s1.drop_last()),
        ));
        assert(insert_stable(stays, s1.last(), Seq::<JobE>::empty()) == seq![s1.last()]);
        assert(s1.last() == orig_e[0]);
        assert(jobs_e(w@.take(1)) =~= seq![orig_e[0]]);
        assert(jobs_e(w@.take(1)) == sort_stable(stays, s1));
    }
    let mut i: usize = 1;
    while i < n
        invariant
            1 <= i <= n,
            w@.len() == n,
            orig.len() == n,
            stays == job_stays(),
            orig_e == jobs_e(orig),
            w@.skip(i as int) == orig.skip(i as int),
            jobs_e(w@.take(i as int)) == sort_stable(stays, orig_e.take(i as int)),
        decreases n - i,
    {
        let ghost pre = w@;
        let x = w.remove(i);
        let ghost xe = job_e(x);
        proof {
            assert(pre.skip(i as int)[0] == pre[i as int]);
            assert(orig.skip(i as int)[0] == orig[i as int]);
            assert(x == orig[i as int]);
            assert(xe == orig_e[i as int]);
            assert(w@.take(i as int) =~= pre.take(i as int));
        }
        let mut p: usize = 0;
        loop
            invariant
                p <= i,
                i < n,
                pre.len() == n,
                stays == job_stays(),
                w@ == pre.remove(i as int),
                w@.len() == n - 1,
                w@.take(i as int) == pre.take(i as int),
                xe == job_e(x),
                forall|j: int| 0 <= j < p ==> stays(job_e(#[trigger] w@[j]), xe),
            ensures
                p <= i,
                w@ == pre.remove(i as int),
                forall|j: int| 0 <= j < p ==> stays(job_e(#[trigger] w@[j]), xe),
                p < i ==> !stays(job_e(w@[p as int]), xe),
            decreases i - p,
        {
            if p < i {
                if w[p].submission.problem_id <= x.submission.problem_id {
                    proof {
                        assert(stays(job_e(w@[p as int]), xe));
                    }
                    p = p + 1;
                } else {
                    proof {
                        assert(!stays(job_e(w@[p as int]), xe));
                    }
                    break ;
                }
            } else {
                break ;
            }
        }
        let ghost sorted_pre = pre.take(i as int);
        let ghost spre_e = jobs_e(sorted_pre);
        proof {
            assert(spre_e == sort_stable(stays, orig_e.take(i as int)));
            assert forall|j: int| 0 <= j < p implies stays(#[trigger] spre_e[j], xe) by {
                assert(spre_e[j] == job_e(sorted_pre[j]));
                assert(sorted_pre[j] == w@[j]);
            }
            if (p as int) < i {
                assert(spre_e[p as int] == job_e(w@[p as int]));
            }
        }
        w.insert(p, x);
        proof {
            crate::sorting::lemma_insert_stable_at(stays, xe, spre_e, p as int);
            crate::sorting::lemma_sort_stable_take_succ(stays, orig_e, i as int);
            assert(w@.take(i + 1) =~= sorted_pre.take(p as int) + seq![x] + sorted_pre.skip(
                p as int,
            ));
            assert(jobs_e(w@.take(i + 1)) =~= spre_e.take(p as int) + seq![xe] + spre_e.skip(
                p as int,
            ));
            assert(w@.skip(i + 1) =~= pre.skip(i + 1));
            assert(pre.skip(i as int).drop_first() =~= pre.skip(i + 1));
            assert(orig.skip(i as int).drop_first() =~= orig.skip(i + 1));
        }
        i = i + 1;
    }
    proof {
        assert(orig_e.take(n as int) =~= orig_e);
        assert(w@.take(n as int) =~= w@);
    }
    w
}

/// Decides [`acc_stays`] on two rows.
fn acc_stays_exec(ord: AccOrder, a: &RankAcc, b: &RankAcc) -> (r: bool)
    ensures
        r == acc_stays(ord, acc_e(*a), acc_e(*b)),
{
    match ord {
        AccOrder::TotalDesc => {
            let ta = total_u128(&a.scores);
            let tb = total_u128(&b.scores);
            ta >= tb
        },
        AccOrder::CountAsc => a.count <= b.count,
        AccOrder::TimeAsc => crate::text::str_lex_le(a.time.as_str(), b.time.as_str()),
    }
}

/// Sorts leaderboard rows by the given order, stably.
fn sort_accs(accs: Vec<RankAcc>, ord: AccOrder) -> (r: Vec<RankAcc>)
    ensures
        accs_e(r@) == sort_stable(acc_stays_fn(ord), accs_e(accs@)),
{
    let ghost stays = acc_stays_fn(ord);
    let mut w = accs;
    let ghost orig = w@;
    let ghost orig_e = accs_e(orig);
    let n = w.len();
    if n == 0 {
        proof {
            assert(accs_e(w@) =~= Seq::<AccE>::empty());
        }
        return w;
    }
    proof {
        let s1 = orig_e.take(1);
        assert(s1.len() == 1);
        assert(s1.drop_last() =~= Seq::<AccE>::empty());
        assert(sort_stable(stays, Seq::<AccE>::empty()) == Seq::<AccE>::empty());
        assert(sort_stable(stays, s1) == insert_stable(
            stays,
            s1.last(),
            sort_stable(stays, s1.drop_last()),
        ));
        assert(insert_stable(stays, s1.last(), Seq::<AccE>::empty()) == seq![s1.last()]);
        assert(s1.last() == orig_e[0]);
        assert(accs_e(w@.take(1)) =~= seq![orig_e[0]]);
        assert(accs_e(w@.take(1)) == sort_stable(stays, s1));
    }
    let mut i: usize = 1;
    while i < n
        invariant
            1 <= i <= n,
            w@.len() == n,
            orig.len() == n,
            stays == acc_stays_fn(ord),
            orig_e == accs_e(orig),
            w@.skip(i as int) == orig.skip(i as int),
            accs_e(w@.take(i as int)) == sort_stable(stays, orig_e.take(i as int)),
        decreases n - i,
    {
        let ghost pre = w@;
        let x = w.remove(i);
        let ghost xe = acc_e(x);
        proof {
            assert(pre.skip(i as int)[0] == pre[i as int]);
            assert(orig.skip(i as int)[0] == orig[i as int]);
            assert(x == orig[i as int]);
            assert(xe == orig_e[i as int]);
            assert(w@.take(i as int) =~= pre.take(i as int));
        }
        let mut p: usize = 0;
        loop
            invariant
                p <= i,
                i < n,
                pre.len() == n,
                stays == acc_stays_fn(ord),
                w@ == pre.remove(i as int),
                w@.len() == n - 1,
                w@.take(i as int) == pre.take(i as int),
                xe == acc_e(x),
                forall|j: int| 0 <= j < p ==> stays(acc_e(#[trigger] w@[j]), xe),
            ensures
                p <= i,
                w@ == pre.remove(i as int),
                forall|j: int| 0 <= j < p ==> stays(acc_e(#[trigger] w@[j]), xe),
                p < i ==> !stays(acc_e(w@[p as int]), xe),
            decreases i - p,
        {
            if p < i {
                if acc_stays_exec(ord, &w[p], &x) {
                    proof {
                        assert(stays(acc_e(w@[p as int]), xe));
                    }
                    p = p + 1;
                } else {
                    proof {
                        assert(!stays(acc_e(w@[p as int]), xe));
                    }
                    break ;
                }
            } else {
                break ;
            }
        }
        let ghost sorted_pre = pre.take(i as int);
        let ghost spre_e = accs_e(sorted_pre);
        proof {
            assert(spre_e == sort_stable(stays, orig_e.take(i as int)));
            assert forall|j: int| 0 <= j < p implies stays(#[trigger] spre_e[j], xe) by {
                assert(spre_e[j] == acc_e(sorted_pre[j]));
                assert(sorted_pre[j] == w@[j]);
            }
            if (p as int) < i {
                assert(spre_e[p as int] == acc_e(w@[p as int]));
            }
        }
        w.insert(p, x);
        proof {
            crate::sorting::lemma_insert_stable_at(stays, xe, spre_e, p as int);
            crate::sorting::lemma_sort_stable_take_succ(stays, orig_e, i as int);
            assert(w@.take(i + 1) =~= sorted_pre.take(p as int) + seq![x] + sorted_pre.skip(
                p as int,
            ));
            assert(accs_e(w@.take(i + 1)) =~= spre_e.take(p as int) + seq![xe] + spre_e.skip(
                p as int,
            ));
            assert(w@.skip(i + 1) =~= pre.skip(i + 1));
            assert(pre.skip(i as int).drop_first() =~= pre.skip(i + 1));
            assert(orig.skip(i as int).drop_first() =~= orig.skip(i + 1));
        }
        i = i + 1;
    }
    proof {
        assert(orig_e.take(n as int) =~= orig_e);
        assert(w@.take(n as int) =~= w@);
    }
    w
}

/// One fresh row per population member.
fn init_accs_exec(
    contest_id: usize,
    ci: usize,
    contests: &Vec<Contest>,
    users: &Vec<User>,
    ncols: usize,
) -> (r: Vec<RankAcc>)
    requires
        contest_id != 0 ==> {
            &&& ci < contests@.len()
            &&& contest_index_of(contests@, contest_id) == ci
            &&& forall|k: int|
                0 <= k < contests@[ci as int].user_ids@.len()
                    ==> #[trigger] contests@[ci as int].user_ids@[k] < users@.len()
        },
    ensures
        accs_e(r@) == init_accs(population(contest_id, contests@, users@), ncols as nat),
        r@.len() == population(contest_id, contests@, users@).len(),
{
    let ghost pop = population(contest_id, contests@, users@);
    let ghost target = init_accs(pop, ncols as nat);
    let mut r: Vec<RankAcc> = Vec::new();
    if contest_id == 0 {
        let n = users.len();
        let mut i: usize = 0;
        while i < n
            invariant
                i <= n,
                n == users@.len(),
                pop == population(0, contests@, users@),
                target == init_accs(pop, ncols as nat),
                r@.len() == i,
                accs_e(r@) == target.take(i as int),
            decreases n - i,
        {
            let a = RankAcc {
                user: users[i].clone(),
                scores: zero_scores(ncols),
                count: 0,
                time: "zzz".to_owned(),
            };
            proof {
                assert(acc_e(a) == target[i as int]);
            }
            r.push(a);
            proof {
                assert(accs_e(r@) =~= target.take(i + 1));
            }
            i = i + 1;
        }
        proof {
            assert(target.take(n as int) =~= target);
        }
    } else {
        let members = &contests[ci].user_ids;
        let n = members.len();
        let mut i: usize = 0;
        while i < n
            invariant
                i <= n,
                ci < contests@.len(),
                members@ == contests@[ci as int].user_ids@,
                n == members@.len(),
                forall|k: int| 0 <= k < n ==> #[trigger] members@[k] < users@.len(),
                contest_index_of(contests@, contest_id) == ci,
                contest_id != 0,
                pop == population(contest_id, contests@, users@),
                target == init_accs(pop, ncols as nat),
                r@.len() == i,
                accs_e(r@) == target.take(i as int),
            decreases n - i,
        {
            let uid = members[i];
            let a = RankAcc {
                user: users[uid].clone(),
                scores: zero_scores(ncols),
                count: 0,
                time: "zzz".to_owned(),
            };
            proof {
                assert(pop[i as int] == user_e(users@[uid as int]));
                assert(acc_e(a) == target[i as int]);
            }
            r.push(a);
            proof {
                assert(accs_e(r@) =~= target.take(i + 1));
            }
            i = i + 1;
        }
        proof {
            assert(target.take(n as int) =~= target);
        }
    }
    r
}

/// First column of the given problem id.
fn find_col(cols: &Vec<usize>, pid: usize) -> (r: usize)
    requires
        cols@.contains(pid),
    ensures
        r < cols@.len(),
        cols@[r as int] == pid,
        r as int == col_index_of(cols@, pid),
{
    let n = cols.len();
    let mut i: usize = 0;
    while i < n
        invariant
            i <= n,
            n == cols@.len(),
            cols@.contains(pid),
            forall|j: int| 0 <= j < i ==> cols@[j] != pid,
        decreases n - i,
    {
        if cols[i] == pid {
            proof {
                lemma_col_index_of(cols@, pid, i as int);
            }
            return i;
        }
        i = i + 1;
    }
    proof {
        assert(false);
    }
    0
}

/// Folds the ordered jobs into the rows.
fn fold_jobs_exec(
    accs: &mut Vec<RankAcc>,
    ordered: &Vec<JobResponse>,
    cols: &Vec<usize>,
    highest: bool,
)
    requires
        forall|k: int|
            0 <= k < ordered@.len() ==> cols@.contains(
                (#[trigger] ordered@[k]).submission.problem_id as usize,
            ),
        forall|k: int|
            0 <= k < old(accs)@.len() ==> (#[trigger] old(accs)@[k]).scores@.len() == cols@.len(),
        forall|k: int|
            0 <= k < old(accs)@.len() ==> (#[trigger] old(accs)@[k]).count + ordered@.len()
                <= usize::MAX,
    ensures
        final(accs)@.len() == old(accs)@.len(),
        accs_e(final(accs)@) == fold_jobs(accs_e(old(accs)@), jobs_e(ordered@), cols@, highest),
{
    let n = ordered.len();
    let ghost start = accs@;
    let ghost js = jobs_e(ordered@);
    let mut i: usize = 0;
    while i < n
        invariant
            i <= n,
            n == ordered@.len(),
            js == jobs_e(ordered@),
            accs@.len() == start.len(),
            accs_e(accs@) == fold_jobs(accs_e(start), js.take(i as int), cols@, highest),
            forall|k: int|
                0 <= k < ordered@.len() ==> cols@.contains(
                    (#[trigger] ordered@[k]).submission.problem_id as usize,
                ),
            forall|k: int|
                0 <= k < accs@.len() ==> (#[trigger] accs@[k]).scores@.len() == cols@.len(),
            forall|k: int|
                0 <= k < accs@.len() ==> (#[trigger] accs@[k]).count <= start[k].count + i,
            forall|k: int|
                0 <= k < start.len() ==> (#[trigger] start[k]).count + ordered@.len()
                    <= usize::MAX,
        decreases n - i,
    {
        proof {
            assert(js.take(i + 1).drop_last() =~= js.take(i as int));
            assert(js.take(i + 1).last() == js[i as int]);
        }
        let ghost je = js[i as int];
        let pid = ordered[i].submission.problem_id;
        let job_user = ordered[i].submission.user_id;
        let job_score = ordered[i].score;
        let col = find_col(cols, pid as usize);
        let m = accs.len();
        let ghost before = accs@;
        let mut k: usize = 0;
        while k < m
            invariant
                k <= m,
                m == accs@.len() == before.len(),
                i < n,
                n == ordered@.len(),
                je == job_e(ordered@[i as int]),
                pid == ordered@[i as int].submission.problem_id,
                job_user == je.user_id,
                job_score == je.score,
                col < cols@.len(),
                col as int == col_index_of(cols@, je.problem_id as usize),
                forall|t: int| k <= t < m ==> accs@[t] == before[t],
                forall|t: int|
                    0 <= t < k ==> acc_e(#[trigger] accs@[t]) == acc_absorb(
                        acc_e(before[t]),
                        je,
                        col as int,
                        highest,
                    ),
                forall|t: int|
                    0 <= t < m ==> (#[trigger] accs@[t]).count <= before[t].count + 1,
                forall|t: int|
                    0 <= t < m ==> (#[trigger] before[t]).count < usize::MAX,
                forall|t: int|
                    0 <= t < m ==> (#[trigger] accs@[t]).scores@.len() == cols@.len(),
                forall|t: int|
                    0 <= t < m ==> (#[trigger] before[t]).scores@.len() == cols@.len(),
            decreases m - k,
        {
            let user_match = match accs[k].user.id {
                Some(u) => u == job_user,
                None => false,
            };
            if user_match {
                let ghost at_k = accs@;
                let mut a = accs.remove(k);
                a.count = a.count + 1;
                let better = job_score > a.scores[col];
                if !highest || better {
                    a.scores[col] = job_score;
                    a.time = ordered[i].created_time.clone();
                }
                accs.insert(k, a);
                proof {
                    assert(accs@ =~= at_k.update(k as int, accs@[k as int]));
                    assert(acc_e(accs@[k as int]) == acc_absorb(
                        acc_e(before[k as int]),
                        je,
                        col as int,
                        highest,
                    ));
                }
            } else {
                proof {
                    assert(acc_e(accs@[k as int]) == acc_absorb(
                        acc_e(before[k as int]),
                        je,
                        col as int,
                        highest,
                    ));
                }
            }
            k = k + 1;
        }
        proof {
            assert(accs_e(accs@) =~= accs_e(before).map_values(
                |a: AccE| acc_absorb(a, je, col_index_of(cols@, je.problem_id as usize), highest),
            ));
        }
        i = i + 1;
    }
    proof {
        assert(js.take(n as int) =~= js);
    }
}

/// Rows sorted descending by total get sequential ranks, no grouping.
fn ranks_sequential(accs: &Vec<RankAcc>, Ghost(s): Ghost<Seq<AccE>>) -> (r: Vec<Rank>)
    requires
        accs@.len() < 0x7fff_ffff,
        s == accs_e(accs@),
    ensures
        ranks_e(r@) == Seq::new(s.len(), |i: int| RankE { user: s[i].user, rank: i + 1, scores: s[i].scores }),
{
    let ghost target = Seq::new(
        s.len(),
        |i: int| RankE { user: s[i].user, rank: i + 1, scores: s[i].scores },
    );
    let n = accs.len();
    let mut out: Vec<Rank> = Vec::new();
    let mut i: usize = 0;
    while i < n
        invariant
            i <= n,
            n == accs@.len() < 0x7fff_ffff,
            s == accs_e(accs@),
            target == Seq::new(
                s.len(),
                |k: int| RankE { user: s[k].user, rank: k + 1, scores: s[k].scores },
            ),
            ranks_e(out@) == target.take(i as int),
            out@.len() == i,
        decreases n - i,
    {
        let x = Rank {
            user: accs[i].user.clone(),
            rank: (i + 1) as i32,
            scores: clone_u64_vec(&accs[i].scores),
        };
        proof {
            assert(rank_e(x) == target[i as int]);
        }
        out.push(x);
        proof {
            assert(ranks_e(out@) =~= target.take(i + 1));
        }
        i = i + 1;
    }
    proof {
        assert(target.take(n as int) =~= target);
    }
    out
}

/// The finished rows for a tie-break policy, the input already in
/// descending-total order.
fn build_ranks(accs: Vec<RankAcc>, tie: TieBreaker) -> (r: Vec<Rank>)
    requires
        accs@.len() < 0x7fff_ffff,
    ensures
        ranks_e(r@) == final_ranks(accs_e(accs@), tie),
{
    match tie {
        TieBreaker::UserId => {
            let ghost s = accs_e(accs@);
            ranks_sequential(&accs, Ghost(s))
        },
        TieBreaker::SubmissionTime => {
            let ghost s0 = accs_e(accs@);
            let sorted = sort_accs(accs, AccOrder::TimeAsc);
            proof {
                crate::sorting::lemma_sort_stable_len(acc_stays_fn(AccOrder::TimeAsc), s0);
            }
            let ghost s = accs_e(sorted@);
            ranks_sequential(&sorted, Ghost(s))
        },
        TieBreaker::Default => {
            let ghost s = accs_e(accs@);
            let ghost target = final_ranks(s, TieBreaker::Default);
            let n = accs.len();
            let mut out: Vec<Rank> = Vec::new();
            let mut cur_rank: i32 = 1;
            let mut prev_total: u128 = 0;
            let mut i: usize = 0;
            while i < n
                invariant
                    i <= n,
                    n == accs@.len() < 0x7fff_ffff,
                    s == accs_e(accs@),
                    target == final_ranks(s, TieBreaker::Default),
                    out@.len() == i,
                    ranks_e(out@) == target.take(i as int),
                    i > 0 ==> cur_rank as int == rank_at_default(s, i - 1) && prev_total as int
                        == total_of(s[i - 1]),
                decreases n - i,
            {
                let t = total_u128(&accs[i].scores);
                proof {
                    assert(t as int == total_of(s[i as int]));
                }
                let rk: i32 = if i == 0 {
                    1
                } else if t == prev_total {
                    cur_rank
                } else {
                    (i + 1) as i32
                };
                proof {
                    assert(rk as int == rank_at_default(s, i as int));
                }
                let x = Rank {
                    user: accs[i].user.clone(),
                    rank: rk,
                    scores: clone_u64_vec(&accs[i].scores),
                };
                proof {
                    assert(rank_e(x) == target[i as int]);
                }
                out.push(x);
                proof {
                    assert(ranks_e(out@) =~= target.take(i + 1));
                }
                cur_rank = rk;
                prev_total = t;
                i = i + 1;
            }
            proof {
                assert(target.take(n as int) =~= target);
            }
            out
        },
        TieBreaker::SubmissionCount => {
            let ghost s0 = accs_e(accs@);
            let sorted = sort_accs(accs, AccOrder::CountAsc);
            proof {
                crate::sorting::lemma_sort_stable_len(acc_stays_fn(AccOrder::CountAsc), s0);
            }
            let ghost s = accs_e(sorted@);
            let ghost target = final_ranks(s0, TieBreaker::SubmissionCount);
            proof {
                assert(target == Seq::new(
                    s.len(),
                    |i: int| RankE { user: s[i].user, rank: rank_at_count(s, i), scores: s[i].scores },
                ));
            }
            let n = sorted.len();
            let mut out: Vec<Rank> = Vec::new();
            let mut cur_rank: i32 = 1;
            let mut prev_count: usize = 0;
            let mut i: usize = 0;
            while i < n
                invariant
                    i <= n,
                    n == sorted@.len() < 0x7fff_ffff,
                    s == accs_e(sorted@),
                    target == Seq::new(
                        s.len(),
                        |k: int| RankE {
                            user: s[k].user,
                            rank: rank_at_count(s, k),
                            scores: s[k].scores,
                        },
                    ),
                    out@.len() == i,
                    ranks_e(out@) == target.take(i as int),
                    i > 0 ==> cur_rank as int == rank_at_count(s, i - 1) && prev_count as int
                        == s[i - 1].count,
                decreases n - i,
            {
                let c = sorted[i].count;
                let rk: i32 = if i == 0 {
                    1
                } else if c == prev_count {
                    cur_rank
                } else {
                    (i + 1) as i32
                };
                proof {
                    assert(rk as int == rank_at_count(s, i as int));
                }
                let x = Rank {
                    user: sorted[i].user.clone(),
                    rank: rk,
                    scores: clone_u64_vec(&sorted[i].scores),
                };
                proof {
                    assert(rank_e(x) == target[i as int]);
                }
                out.push(x);
                proof {
                    assert(ranks_e(out@) =~= target.take(i + 1));
                }
                cur_rank = rk;
                prev_count = c;
                i = i + 1;
            }
            proof {
                assert(target.take(n as int) =~= target);
            }
            out
        },
    }
}

proof fn lemma_contest_jobs_elem(jobs: Seq<JobE>, contest_id: usize, k: int)
    requires
        contest_id != 0,
        0 <= k < contest_jobs(jobs, contest_id).len(),
    ensures
        jobs.contains(contest_jobs(jobs, contest_id)[k]),
        contest_jobs(jobs, contest_id)[k].contest_id as usize == contest_id,
    decreases jobs.len(),
{
    let r = contest_jobs(jobs, contest_id);
    let front = contest_jobs(jobs.drop_last(), contest_id);
    if k < front.len() {
        lemma_contest_jobs_elem(jobs.drop_last(), contest_id, k);
        let e = front[k];
        let m = choose|m: int| 0 <= m < jobs.drop_last().len() && jobs.drop_last()[m] == e;
        assert(jobs[m] == e);
        assert(jobs.contains(e));
        assert(r[k] == e);
    } else {
        assert(r[k] == jobs.last());
        assert(jobs[jobs.len() - 1] == jobs.last());
        assert(jobs.contains(jobs.last()));
    }
}

/// Computes the leaderboard for a contest: the population's rows with
/// scores folded from the relevant jobs under the scoring rule, ordered
/// by total descending, ranks assigned by the tie-break policy.
pub fn compute_ranklist(
    contest_id: usize,
    contests: &Vec<Contest>,
    problems: &Vec<Problem>,
    users: &Vec<User>,
    jobs: &Vec<JobResponse>,
    rule: ScoringRule,
    tie: TieBreaker,
) -> (r: Result<Vec<Rank>, ApiError>)
    requires
        ranklist_pre(contest_id, contests@, problems@, users@, jobs@),
    ensures
        (contest_id != 0 && !has_contest(contests@, contest_id)) ==> r == Err::<
            Vec<Rank>,
            ApiError,
        >(ApiError::NotFound),
        (contest_id == 0 || has_contest(contests@, contest_id)) ==> (r matches Ok(list)
            && ranks_e(list@) == spec_ranklist(
            contest_id,
            contests@,
            problems@,
            users@,
            jobs@,
            rule,
            tie,
        )),
{
    let ghost cols_spec = columns(contest_id, contests@, problems@);
    let mut ci: usize = 0;
    if contest_id != 0 {
        match crate::contests::find_contest(contests, contest_id) {
            None => {
                return Err(ApiError::NotFound);
            },
            Some(found) => {
                ci = found;
                proof {
                    crate::jobs::lemma_contest_index_of(contests@, contest_id, ci as int);
                }
            },
        }
    }
    // The score columns.
    let cols: Vec<usize> = if contest_id == 0 {
        let n = problems.len();
        let mut ids: Vec<usize> = Vec::new();
        let mut i: usize = 0;
        while i < n
            invariant
                i <= n,
                n == problems@.len(),
                ids@ == problems@.map_values(|p: Problem| p.id as usize).take(i as int),
            decreases n - i,
        {
            ids.push(problems[i].id as usize);
            assert(ids@ =~= problems@.map_values(|p: Problem| p.id as usize).take(i + 1));
            i = i + 1;
        }
        proof {
            let mapped = problems@.map_values(|p: Problem| p.id as usize);
            assert(mapped.take(n as int) =~= mapped);
        }
        sort_ids(ids)
    } else {
        let c = crate::contests::clone_usize_vec(&contests[ci].problem_ids);
        c
    };
    proof {
        assert(cols@ == cols_spec);
    }
    // One row per population member.
    let mut accs = init_accs_exec(contest_id, ci, contests, users, cols.len());
    // The relevant jobs, in ascending problem-id order.
    let relevant = contest_jobs_exec(jobs, contest_id);
    let ordered = sort_jobs_by_problem(relevant);
    proof {
        let store_e = jobs_e(jobs@);
        let rel_e = contest_jobs(store_e, contest_id);
        crate::sorting::lemma_sort_stable_len(job_stays(), rel_e);
        assert forall|k: int| 0 <= k < ordered@.len() implies cols@.contains(
            (#[trigger] ordered@[k]).submission.problem_id as usize,
        ) by {
            let e = jobs_e(ordered@)[k];
            assert(e == job_e(ordered@[k]));
            crate::sorting::lemma_sort_stable_contains(job_stays(), rel_e, k);
            let m = choose|m: int| 0 <= m < rel_e.len() && rel_e[m] == e;
            if contest_id != 0 {
                lemma_contest_jobs_elem(store_e, contest_id, m);
            }
            let t = choose|t: int| 0 <= t < store_e.len() && store_e[t] == e;
            assert(store_e[t] == job_e(jobs@[t]));
            assert(cols_spec.contains(jobs@[t].submission.problem_id as usize));
        }
    }
    let ordered_n = ordered.len();
    proof {
        assert(ordered@.len() == ordered_n);
        let pop = population(contest_id, contests@, users@);
        let ia = init_accs(pop, cols@.len() as nat);
        assert forall|k: int| 0 <= k < accs@.len() implies {
            &&& (#[trigger] accs@[k]).scores@.len() == cols@.len()
            &&& accs@[k].count + ordered@.len() <= usize::MAX
        } by {
            assert(accs_e(accs@)[k] == acc_e(accs@[k]));
            assert(ia[k] == acc_e(accs@[k]));
            assert(ia[k].scores.len() == cols@.len());
            assert(acc_e(accs@[k]).count == 0);
        }
    }
    fold_jobs_exec(&mut accs, &ordered, &cols, rule == ScoringRule::Highest);
    proof {
        let pop = population(contest_id, contests@, users@);
        assert(accs@.len() == pop.len());
        assert(pop.len() < 0x7fff_ffff);
        crate::sorting::lemma_sort_stable_len(acc_stays_fn(AccOrder::TotalDesc), accs_e(accs@));
    }
    let sorted = sort_accs(accs, AccOrder::TotalDesc);
    let out = build_ranks(sorted, tie);
    Ok(out)
}

} // verus!
