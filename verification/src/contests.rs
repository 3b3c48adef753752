//! The contest registry: membership data, the submission quota, and
//! contest creation and lookup.

use vstd::prelude::*;

verus! {

/// A contest: its time window, member problems and users, and the
/// per-(user, problem) submission quota. Id 0 names the implicit global
/// pseudo-contest spanning every user and every catalog problem.
#[derive(Debug)]
pub struct Contest {
    pub id: Option<usize>,
    pub name: String,
    pub from: String,
    pub to: String,
    pub problem_ids: Vec<usize>,
    pub user_ids: Vec<usize>,
    pub submission_limit: i32,
}

/// Copies a vector of indices.
pub(crate) fn clone_usize_vec(v: &Vec<usize>) -> (r: Vec<usize>)
    ensures
        r@ == v@,
{
    let n = v.len();
    let mut r: Vec<usize> = Vec::new();
    let mut i: usize = 0;
    while i < n
        invariant
            i <= n,
            n == v@.len(),
            r@ == v@.take(i as int),
        decreases n - i,
    {
        r.push(v[i]);
        assert(r@ =~= v@.take(i + 1));
        i = i + 1;
    }
    proof {
        assert(v@.take(n as int) =~= v@);
    }
    r
}

impl Contest {
    /// Observational equality: every field agrees, vectors by contents.
    pub open spec fn like(self, other: Contest) -> bool {
        &&& self.id == other.id
        &&& self.name == other.name
        &&& self.from == other.from
        &&& self.to == other.to
        &&& self.problem_ids@ == other.problem_ids@
        &&& self.user_ids@ == other.user_ids@
        &&& self.submission_limit == other.submission_limit
    }
}

impl Clone for Contest {
    fn clone(&self) -> (r: Contest)
        ensures
            r.like(*self),
    {
        Contest {
            id: self.id,
            name: self.name.clone(),
            from: self.from.clone(),
            to: self.to.clone(),
            problem_ids: clone_usize_vec(&self.problem_ids),
            user_ids: clone_usize_vec(&self.user_ids),
            submission_limit: self.submission_limit,
        }
    }
}

/// Whether some stored contest carries this id.
pub open spec fn has_contest(contests: Seq<Contest>, id: usize) -> bool {
    exists|i: int| 0 <= i < contests.len() && contests[i].id == Some(id)
}

/// First stored contest with the given id.
pub fn find_contest(contests: &Vec<Contest>, id: usize) -> (r: Option<usize>)
    ensures
        match r {
            Some(i) => i < contests@.len() && contests@[i as int].id == Some(id) && forall|j: int|
                0 <= j < i ==> contests@[j].id != Some(id),
            None => !has_contest(contests@, id),
        },
{
    let n = contests.len();
    let mut i: usize = 0;
    while i < n
        invariant
            i <= n,
            n == contests@.len(),
            forall|j: int| 0 <= j < i ==> contests@[j].id != Some(id),
        decreases n - i,
    {
        let matches = match contests[i].id {
            Some(cid) => cid == id,
            None => false,
        };
        if matches {
            return Some(i);
        }
        i = i + 1;
    }
    None
}

/// Stores a contest. A record without an id is assigned one past the
/// current count and appended; a record that names its own id is only
/// echoed back, never stored.
pub fn post_contest(contests: &mut Vec<Contest>, contest: Contest) -> (r: Contest)
    requires
        old(contests)@.len() < usize::MAX,
    ensures
        match contest.id {
            None => {
                &&& final(contests)@ == old(contests)@.push(
                    Contest { id: Some((old(contests)@.len() + 1) as usize), ..contest },
                )
                &&& r.like(Contest { id: Some((old(contests)@.len() + 1) as usize), ..contest })
            },
            Some(_) => r == contest && final(contests)@ == old(contests)@,
        },
{
    match contest.id {
        None => {
            let id: usize = contests.len() + 1;
            let stored = Contest { id: Some(id), ..contest };
            let echoed = stored.clone();
            contests.push(stored);
            echoed
        },
        Some(_) => contest,
    }
}

} // verus!
