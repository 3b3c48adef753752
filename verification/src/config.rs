//! Read-only judging configuration: the toolchain registry (languages),
//! the problem catalog, and the server binding, together with the
//! well-formedness conditions the judging pipeline relies on.

use vstd::prelude::*;

use crate::text::str_eq;

verus! {

/// Address and port the surrounding server binds to.
#[derive(Debug)]
pub struct Bind {
    pub bind_address: String,
    pub bind_port: u16,
}

/// Optional case-packing configuration; carried through, never read here.
#[derive(Debug)]
pub struct Misc {
    pub packing: Option<Vec<Vec<usize>>>,
}

/// One test case of a problem: its data files, limits, and score weight.
#[derive(Debug)]
pub struct Case {
    pub score: u64,
    pub input_file: String,
    pub answer_file: String,
    pub time_limit: u64,
    pub memory_limit: u64,
}

/// One catalog entry: a problem with its comparison mode and cases.
#[derive(Debug)]
pub struct Problem {
    pub id: u32,
    pub name: String,
    pub typ: String,
    pub misc: Misc,
    pub cases: Vec<Case>,
}

/// One toolchain registry entry: a language, its source file name, and
/// its compile command template.
#[derive(Debug)]
pub struct Language {
    pub name: String,
    pub file_name: String,
    pub command: Vec<String>,
}

/// The whole configuration handed to the judge.
#[derive(Debug)]
pub struct Config {
    pub server: Bind,
    pub problems: Vec<Problem>,
    pub languages: Vec<Language>,
}

/// Command-line options of the surrounding program.
#[derive(Debug)]
pub struct Args {
    pub config: String,
    pub flush_data: bool,
}

/// Sum of a sequence of score weights, as an unbounded integer.
pub open spec fn sum_of(s: Seq<u64>) -> int
    decreases s.len(),
{
    if s.len() == 0 {
        0
    } else {
        sum_of(s.drop_last()) + s.last()
    }
}

pub proof fn lemma_sum_of_nonneg(s: Seq<u64>)
    ensures
        sum_of(s) >= 0,
    decreases s.len(),
{
    if s.len() > 0 {
        lemma_sum_of_nonneg(s.drop_last());
    }
}

pub proof fn lemma_sum_of_take_succ(s: Seq<u64>, i: int)
    requires
        0 <= i < s.len(),
    ensures
        sum_of(s.take(i + 1)) == sum_of(s.take(i)) + s[i],
{
    assert(s.take(i + 1).drop_last() =~= s.take(i));
    assert(s.take(i + 1).last() == s[i]);
}

pub proof fn lemma_sum_of_cons(x: u64, t: Seq<u64>)
    ensures
        sum_of(seq![x] + t) == x + sum_of(t),
    decreases t.len(),
{
    let u = seq![x] + t;
    assert(u.len() == t.len() + 1);
    if t.len() == 0 {
        assert(u.drop_last() =~= Seq::<u64>::empty());
        assert(u.last() == x);
        assert(sum_of(u) == sum_of(u.drop_last()) + x);
        assert(sum_of(u.drop_last()) == 0);
    } else {
        assert(u.drop_last() =~= seq![x] + t.drop_last());
        assert(u.last() == t.last());
        lemma_sum_of_cons(x, t.drop_last());
        assert(sum_of(u) == sum_of(u.drop_last()) + t.last());
        assert(sum_of(u.drop_last()) == x + sum_of(t.drop_last()));
        assert(sum_of(t) == sum_of(t.drop_last()) + t.last());
    }
}

pub proof fn lemma_sum_of_skip_succ(s: Seq<u64>, k: int)
    requires
        0 <= k < s.len(),
    ensures
        sum_of(s.skip(k)) == s[k] + sum_of(s.skip(k + 1)),
{
    assert(s.skip(k) =~= seq![s[k]] + s.skip(k + 1));
    lemma_sum_of_cons(s[k], s.skip(k + 1));
}

pub proof fn lemma_sum_of_take_le(s: Seq<u64>, i: int)
    requires
        0 <= i <= s.len(),
    ensures
        sum_of(s.take(i)) <= sum_of(s),
    decreases s.len() - i,
{
    if i == s.len() {
        assert(s.take(i) =~= s);
    } else {
        lemma_sum_of_take_succ(s, i);
        lemma_sum_of_take_le(s, i + 1);
    }
}

impl Problem {
    /// The score weights of the problem's cases, in catalog order.
    pub open spec fn weights(self) -> Seq<u64> {
        self.cases@.map_values(|c: Case| c.score)
    }

    /// What the pipeline relies on: a known comparison mode, a total
    /// weight that fits the score field, and a case count whose indices
    /// fit the case-id field.
    pub open spec fn valid(self) -> bool {
        &&& self.typ@ == "standard"@ || self.typ@ == "strict"@
        &&& sum_of(self.weights()) <= u64::MAX
        &&& self.cases@.len() < 0x7fff_ffff
    }

    /// Decides [`Problem::valid`].
    pub fn is_valid(&self) -> (r: bool)
        ensures
            r == self.valid(),
    {
        if !(str_eq(self.typ.as_str(), "standard") || str_eq(self.typ.as_str(), "strict")) {
            return false;
        }
        if self.cases.len() >= 0x7fff_ffff {
            return false;
        }
        let n = self.cases.len();
        let mut acc: u64 = 0;
        let mut i: usize = 0;
        while i < n
            invariant
                i <= n,
                n == self.cases@.len(),
                acc == sum_of(self.weights().take(i as int)),
            decreases n - i,
        {
            let w = self.cases[i].score;
            proof {
                lemma_sum_of_take_succ(self.weights(), i as int);
            }
            if w > u64::MAX - acc {
                proof {
                    lemma_sum_of_take_le(self.weights(), i + 1);
                }
                return false;
            }
            acc = acc + w;
            i = i + 1;
        }
        proof {
            assert(self.weights().take(n as int) =~= self.weights());
        }
        true
    }
}

/// One argument of the compile command with its placeholder replaced:
/// `%OUTPUT%` by the artifact path, `%INPUT%` by the source path.
pub open spec fn subst_arg(arg: Seq<char>, input: Seq<char>, output: Seq<char>) -> Seq<char> {
    if arg == "%OUTPUT%"@ {
        output
    } else if arg == "%INPUT%"@ {
        input
    } else {
        arg
    }
}

/// The language's command template with both placeholders substituted.
pub fn build_command(language: &Language, input_path: &str, output_path: &str) -> (r: Vec<String>)
    ensures
        r@.len() == language.command@.len(),
        forall|i: int|
            0 <= i < r@.len() ==> (#[trigger] r@[i])@ == subst_arg(
                language.command@[i]@,
                input_path@,
                output_path@,
            ),
{
    let n = language.command.len();
    let mut r: Vec<String> = Vec::new();
    let mut i: usize = 0;
    while i < n
        invariant
            i <= n,
            n == language.command@.len(),
            r@.len() == i,
            forall|j: int|
                0 <= j < i ==> (#[trigger] r@[j])@ == subst_arg(
                    language.command@[j]@,
                    input_path@,
                    output_path@,
                ),
        decreases n - i,
    {
        let arg = &language.command[i];
        let substituted = if str_eq(arg.as_str(), "%OUTPUT%") {
            output_path.to_owned()
        } else if str_eq(arg.as_str(), "%INPUT%") {
            input_path.to_owned()
        } else {
            arg.clone()
        };
        r.push(substituted);
        i = i + 1;
    }
    r
}

/// Whether some language of the registry carries this name.
pub open spec fn has_language(langs: Seq<Language>, name: Seq<char>) -> bool {
    exists|i: int| 0 <= i < langs.len() && langs[i].name@ == name
}

/// First registry entry with the given name.
pub fn find_language(langs: &Vec<Language>, name: &str) -> (r: Option<usize>)
    ensures
        match r {
            Some(i) => i < langs@.len() && langs@[i as int].name@ == name@ && forall|j: int|
                0 <= j < i ==> langs@[j].name@ != name@,
            None => !has_language(langs@, name@),
        },
{
    let n = langs.len();
    let mut i: usize = 0;
    while i < n
        invariant
            i <= n,
            n == langs@.len(),
            forall|j: int| 0 <= j < i ==> langs@[j].name@ != name@,
        decreases n - i,
    {
        if str_eq(langs[i].name.as_str(), name) {
            return Some(i);
        }
        i = i + 1;
    }
    None
}

/// Whether some catalog entry carries this problem id.
pub open spec fn has_problem(problems: Seq<Problem>, id: u32) -> bool {
    exists|i: int| 0 <= i < problems.len() && problems[i].id == id
}

/// First catalog entry with the given id.
pub fn find_problem(problems: &Vec<Problem>, id: u32) -> (r: Option<usize>)
    ensures
        match r {
            Some(i) => i < problems@.len() && problems@[i as int].id == id && forall|j: int|
                0 <= j < i ==> problems@[j].id != id,
            None => !has_problem(problems@, id),
        },
{
    let n = problems.len();
    let mut i: usize = 0;
    while i < n
        invariant
            i <= n,
            n == problems@.len(),
            forall|j: int| 0 <= j < i ==> problems@[j].id != id,
        decreases n - i,
    {
        if problems[i].id == id {
            return Some(i);
        }
        i = i + 1;
    }
    None
}

} // verus!
