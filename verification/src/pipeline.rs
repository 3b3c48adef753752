//! The judging pipeline: a verified state machine that folds the
//! compile step and one outcome per test case into a case list, a
//! score, and an overall verdict, with the short-circuit policy.
//!
//! The surrounding program performs the compile and the per-case runs;
//! this module makes every decision: verdict classification, output
//! comparison, score accrual, skipping once a terminal verdict is set,
//! and the final accepted rule.

use vstd::prelude::*;

use crate::config::Problem;
use crate::config::sum_of;
use crate::jobs::Case;
use crate::jobs::JobResponse;
use crate::jobs::JudgeResult;
use crate::jobs::PostJob;
use crate::jobs::State;
use crate::text::standard_match;
use crate::text::strict_match;
use crate::text::outputs_match_standard;
use crate::text::outputs_match_strict;

verus! {

/// How one run of the compiled artifact on one test case ended.
#[derive(Debug)]
pub enum RunOutcome {
    /// The process exited; its standard output was captured (read back
    /// only for exit code 0).
    Exited { code: i32, output: String },
    /// The time limit elapsed and the process was killed.
    TimedOut,
}

/// One test-case execution as the surrounding program reports it.
#[derive(Debug)]
pub struct CaseEvent {
    /// Wall-clock time of the run, in microseconds.
    pub elapsed: u64,
    pub outcome: RunOutcome,
}

/// Model of one recorded test case: its verdict and elapsed time.
pub ghost struct CaseM {
    pub result: JudgeResult,
    pub time: u64,
}

/// Model of the pipeline state after the compile step and some number
/// of recorded test cases.
pub ghost struct RunM {
    /// The job's running overall verdict.
    pub job_result: JudgeResult,
    /// The verdict variable carried across cases; an unclassified exit
    /// code leaves it in place.
    pub last_case_result: JudgeResult,
    /// Elapsed time of the last executed case; skipped cases record it.
    pub last_elapsed: u64,
    /// Accrued score.
    pub score: int,
    /// The recorded test cases, in order.
    pub results: Seq<CaseM>,
}

/// Whether a case verdict terminates the job (short-circuit).
pub open spec fn is_case_terminal(v: JudgeResult) -> bool {
    v == JudgeResult::WrongAnswer || v == JudgeResult::RuntimeError || v
        == JudgeResult::TimeLimitExceeded
}

/// Verdict of the compile step: exit code 0 succeeds.
pub open spec fn compile_verdict(code: i32) -> JudgeResult {
    if code == 0 {
        JudgeResult::CompilationSuccess
    } else {
        JudgeResult::CompilationError
    }
}

/// Pipeline state right after the compile step.
pub open spec fn initial_run(code: i32) -> RunM {
    RunM {
        job_result: if code == 0 {
            JudgeResult::Running
        } else {
            JudgeResult::CompilationError
        },
        last_case_result: JudgeResult::Waiting,
        last_elapsed: 0,
        score: 0,
        results: Seq::empty(),
    }
}

/// The comparison the problem's mode applies.
pub open spec fn match_ok(standard: bool, output: Seq<char>, answer: Seq<char>) -> bool {
    if standard {
        standard_match(output, answer)
    } else {
        strict_match(output, answer)
    }
}

/// Verdict of one executed case: timeout, runtime error on exit code
/// 101, comparison on exit code 0; any other exit code leaves the
/// previous verdict variable in place.
pub open spec fn case_verdict(
    standard: bool,
    prev: JudgeResult,
    ev: CaseEvent,
    answer: Seq<char>,
) -> JudgeResult {
    match ev.outcome {
        RunOutcome::TimedOut => JudgeResult::TimeLimitExceeded,
        RunOutcome::Exited { code, output } => {
            if code == 101 {
                JudgeResult::RuntimeError
            } else if code == 0 {
                if match_ok(standard, output@, answer) {
                    JudgeResult::Accepted
                } else {
                    JudgeResult::WrongAnswer
                }
            } else {
                prev
            }
        },
    }
}

/// Whether an executed case accrues its weight: a clean exit whose
/// output the comparison accepts.
pub open spec fn case_scored(standard: bool, ev: CaseEvent, answer: Seq<char>) -> bool {
    match ev.outcome {
        RunOutcome::TimedOut => false,
        RunOutcome::Exited { code, output } => code == 0 && match_ok(standard, output@, answer),
    }
}

/// One pipeline step: while the job is running the case is executed and
/// classified; otherwise it is recorded as waiting, unexecuted.
pub open spec fn step(standard: bool, weight: u64, st: RunM, ev: CaseEvent, answer: Seq<char>) -> RunM {
    if st.job_result == JudgeResult::Running {
        let v = case_verdict(standard, st.last_case_result, ev, answer);
        RunM {
            job_result: if is_case_terminal(v) {
                v
            } else {
                st.job_result
            },
            last_case_result: v,
            last_elapsed: ev.elapsed,
            score: st.score + if case_scored(standard, ev, answer) {
                weight as int
            } else {
                0int
            },
            results: st.results.push(CaseM { result: v, time: ev.elapsed }),
        }
    } else {
        RunM {
            results: st.results.push(CaseM { result: JudgeResult::Waiting, time: st.last_elapsed }),
            ..st
        }
    }
}

/// The pipeline state after the compile step and the first `n` cases.
pub open spec fn run_upto(
    standard: bool,
    weights: Seq<u64>,
    code: i32,
    evs: Seq<CaseEvent>,
    answers: Seq<Seq<char>>,
    n: int,
) -> RunM
    decreases n,
{
    if n <= 0 {
        initial_run(code)
    } else {
        step(
            standard,
            weights[n - 1],
            run_upto(standard, weights, code, evs, answers, n - 1),
            evs[n - 1],
            answers[n - 1],
        )
    }
}

/// Whether every recorded test case was accepted.
pub open spec fn all_accepted(results: Seq<CaseM>) -> bool {
    forall|i: int| 0 <= i < results.len() ==> results[i].result == JudgeResult::Accepted
}

/// The overall verdict once the case loop is done: forced to accepted
/// when every test case was accepted, else whatever terminal value the
/// loop assigned.
pub open spec fn final_verdict(st: RunM) -> JudgeResult {
    if all_accepted(st.results) {
        JudgeResult::Accepted
    } else {
        st.job_result
    }
}

pub proof fn lemma_run_upto_len(
    standard: bool,
    weights: Seq<u64>,
    code: i32,
    evs: Seq<CaseEvent>,
    answers: Seq<Seq<char>>,
    n: int,
)
    requires
        n >= 0,
    ensures
        run_upto(standard, weights, code, evs, answers, n).results.len() == n,
    decreases n,
{
    if n > 0 {
        lemma_run_upto_len(standard, weights, code, evs, answers, n - 1);
    }
}

/// The working state of one job being judged. The surrounding program
/// compiles and runs processes; every classification, the score, the
/// case list, and the skip decision live here.
pub struct JobRun {
    /// Whether the problem compares leniently (`standard`) rather than
    /// byte for byte (`strict`).
    pub mode_standard: bool,
    /// Per-case score weights, in catalog order.
    pub weights: Vec<u64>,
    /// Whether the compile step was recorded.
    pub compiled: bool,
    /// Whether the final verdict was applied.
    pub finished: bool,
    /// Exit code of the compile step.
    pub compile_code: i32,
    pub state: State,
    pub job_result: JudgeResult,
    pub last_case_result: JudgeResult,
    pub last_elapsed: u64,
    pub score: u64,
    pub cases: Vec<Case>,
}

impl JobRun {
    /// How many test cases have been recorded.
    pub open spec fn tests_done(self) -> int {
        self.cases@.len() - 1
    }

    /// The abstract pipeline state this run is at.
    pub open spec fn model(self) -> RunM {
        RunM {
            job_result: self.job_result,
            last_case_result: self.last_case_result,
            last_elapsed: self.last_elapsed,
            score: self.score as int,
            results: self.cases@.skip(1).map_values(
                |c: Case| CaseM { result: c.result, time: c.time },
            ),
        }
    }

    /// Well-formedness: the case list's shape, the score's headroom
    /// against the remaining weights, and the state discipline.
    pub open spec fn wf(self) -> bool {
        &&& sum_of(self.weights@) <= u64::MAX
        &&& self.weights@.len() < 0x7fff_ffff
        &&& if self.compiled {
            &&& 1 <= self.cases@.len() <= self.weights@.len() + 1
            &&& self.cases@[0].id == 0
            &&& self.cases@[0].result == compile_verdict(self.compile_code)
            &&& self.cases@[0].time == 0
            &&& self.cases@[0].memory == 0
            &&& self.cases@[0].info@ == Seq::<char>::empty()
            &&& forall|i: int|
                1 <= i < self.cases@.len() ==> {
                    &&& (#[trigger] self.cases@[i]).id == i
                    &&& self.cases@[i].memory == 0
                    &&& self.cases@[i].info@ == Seq::<char>::empty()
                }
            &&& self.score as int + sum_of(self.weights@.skip(self.tests_done())) <= u64::MAX
            &&& if self.finished {
                self.state == State::Finished
            } else {
                self.state == (if self.compile_code == 0 {
                    State::Running
                } else {
                    State::Finished
                })
            }
        } else {
            &&& self.cases@.len() == 0
            &&& !self.finished
            &&& self.state == State::Queueing
            &&& self.job_result == JudgeResult::Waiting
            &&& self.last_case_result == JudgeResult::Waiting
            &&& self.last_elapsed == 0
            &&& self.score == 0
        }
    }

    /// Starts a run for a problem: queued, nothing recorded yet.
    pub fn new(problem: &Problem) -> (r: JobRun)
        requires
            problem.valid(),
        ensures
            r.wf(),
            !r.compiled,
            r.mode_standard == (problem.typ@ == "standard"@),
            r.weights@ == problem.weights(),
    {
        let standard = crate::text::str_eq(problem.typ.as_str(), "standard");
        let n = problem.cases.len();
        let mut weights: Vec<u64> = Vec::new();
        let mut i: usize = 0;
        while i < n
            invariant
                i <= n,
                n == problem.cases@.len(),
                weights@ == problem.weights().take(i as int),
            decreases n - i,
        {
            weights.push(problem.cases[i].score);
            assert(weights@ =~= problem.weights().take(i + 1));
            i = i + 1;
        }
        proof {
            assert(problem.weights().take(n as int) =~= problem.weights());
        }
        JobRun {
            mode_standard: standard,
            weights,
            compiled: false,
            finished: false,
            compile_code: 0,
            state: State::Queueing,
            job_result: JudgeResult::Waiting,
            last_case_result: JudgeResult::Waiting,
            last_elapsed: 0,
            score: 0,
            cases: Vec::new(),
        }
    }

    /// Whether the job is still running, so that the next case must be
    /// executed rather than skipped.
    pub fn executing(&self) -> (r: bool)
        ensures
            r == (self.job_result == JudgeResult::Running),
    {
        self.job_result == JudgeResult::Running
    }

    /// How many test cases have been recorded so far.
    pub fn tests_recorded(&self) -> (r: usize)
        requires
            self.wf(),
            self.compiled,
        ensures
            r == self.tests_done(),
    {
        self.cases.len() - 1
    }

    /// How many test cases the problem has.
    pub fn total_tests(&self) -> (r: usize)
        ensures
            r == self.weights@.len(),
    {
        self.weights.len()
    }

    /// Records the compile step: exit code 0 succeeds and the job runs
    /// on; any other code is terminal for the job's outcome, though the
    /// case loop still records every case.
    pub fn record_compile(&mut self, code: i32)
        requires
            old(self).wf(),
            !old(self).compiled,
        ensures
            final(self).wf(),
            final(self).compiled,
            !final(self).finished,
            final(self).mode_standard == old(self).mode_standard,
            final(self).weights@ == old(self).weights@,
            final(self).compile_code == code,
            final(self).tests_done() == 0,
            final(self).model() == initial_run(code),
    {
        self.compiled = true;
        self.compile_code = code;
        if code == 0 {
            self.state = State::Running;
            self.job_result = JudgeResult::Running;
        } else {
            self.state = State::Finished;
            self.job_result = JudgeResult::CompilationError;
        }
        self.last_case_result = JudgeResult::Waiting;
        self.cases.push(
            Case {
                id: 0,
                result: if code == 0 {
                    JudgeResult::CompilationSuccess
                } else {
                    JudgeResult::CompilationError
                },
                time: 0,
                memory: 0,
                info: String::new(),
            },
        );
        proof {
            assert(self.cases@.skip(1) =~= Seq::<Case>::empty());
            assert(self.model().results =~= initial_run(code).results);
            assert(self.weights@.skip(0) =~= self.weights@);
        }
    }

    /// Records one executed test case: classifies the outcome, accrues
    /// the weight on acceptance, and sets the job's terminal verdict on
    /// a failing classification.
    pub fn record_case(&mut self, ev: &CaseEvent, answer: &str)
        requires
            old(self).wf(),
            old(self).compiled,
            !old(self).finished,
            old(self).tests_done() < old(self).weights@.len(),
            old(self).job_result == JudgeResult::Running,
        ensures
            final(self).wf(),
            final(self).compiled,
            !final(self).finished,
            final(self).mode_standard == old(self).mode_standard,
            final(self).weights@ == old(self).weights@,
            final(self).compile_code == old(self).compile_code,
            final(self).tests_done() == old(self).tests_done() + 1,
            final(self).model() == step(
                old(self).mode_standard,
                old(self).weights@[old(self).tests_done()],
                old(self).model(),
                *ev,
                answer@,
            ),
    {
        let idx = self.cases.len();
        let w = self.weights[idx - 1];
        let verdict: JudgeResult;
        let scored: bool;
        match &ev.outcome {
            RunOutcome::TimedOut => {
                verdict = JudgeResult::TimeLimitExceeded;
                scored = false;
            },
            RunOutcome::Exited { code, output } => {
                if *code == 101 {
                    verdict = JudgeResult::RuntimeError;
                    scored = false;
                } else if *code == 0 {
                    let ok = if self.mode_standard {
                        outputs_match_standard(output.as_str(), answer)
                    } else {
                        outputs_match_strict(output.as_str(), answer)
                    };
                    if ok {
                        verdict = JudgeResult::Accepted;
                        scored = true;
                    } else {
                        verdict = JudgeResult::WrongAnswer;
                        scored = false;
                    }
                } else {
                    verdict = self.last_case_result;
                    scored = false;
                }
            },
        }
        proof {
            assert(verdict == case_verdict(
                old(self).mode_standard,
                old(self).last_case_result,
                *ev,
                answer@,
            ));
            assert(scored == case_scored(old(self).mode_standard, *ev, answer@));
            crate::config::lemma_sum_of_skip_succ(self.weights@, idx - 1);
            crate::config::lemma_sum_of_nonneg(self.weights@.skip(idx as int));
        }
        if scored {
            self.score = self.score + w;
        }
        if verdict == JudgeResult::WrongAnswer || verdict == JudgeResult::RuntimeError || verdict
            == JudgeResult::TimeLimitExceeded {
            self.job_result = verdict;
        }
        self.last_case_result = verdict;
        self.last_elapsed = ev.elapsed;
        self.cases.push(
            Case { id: idx as i32, result: verdict, time: ev.elapsed, memory: 0, info: String::new() },
        );
        proof {
            let pushed = CaseM { result: verdict, time: ev.elapsed };
            assert(self.cases@.skip(1) =~= old(self).cases@.skip(1).push(self.cases@.last()));
            assert(self.model().results =~= old(self).model().results.push(pushed));
            assert(self.model() == step(
                old(self).mode_standard,
                old(self).weights@[old(self).tests_done()],
                old(self).model(),
                *ev,
                answer@,
            ));
        }
    }

    /// Records one skipped test case: once the job's verdict has left
    /// `Running`, the case is written down as waiting, unexecuted, with
    /// the last executed case's elapsed time.
    pub fn record_skip(&mut self)
        requires
            old(self).wf(),
            old(self).compiled,
            !old(self).finished,
            old(self).tests_done() < old(self).weights@.len(),
            old(self).job_result != JudgeResult::Running,
        ensures
            final(self).wf(),
            final(self).compiled,
            !final(self).finished,
            final(self).mode_standard == old(self).mode_standard,
            final(self).weights@ == old(self).weights@,
            final(self).compile_code == old(self).compile_code,
            final(self).tests_done() == old(self).tests_done() + 1,
            final(self).model() == (RunM {
                results: old(self).model().results.push(
                    CaseM { result: JudgeResult::Waiting, time: old(self).last_elapsed },
                ),
                ..old(self).model()
            }),
    {
        let idx = self.cases.len();
        proof {
            crate::config::lemma_sum_of_skip_succ(self.weights@, idx - 1);
        }
        self.cases.push(
            Case {
                id: idx as i32,
                result: JudgeResult::Waiting,
                time: self.last_elapsed,
                memory: 0,
                info: String::new(),
            },
        );
        proof {
            let pushed = CaseM { result: JudgeResult::Waiting, time: old(self).last_elapsed };
            assert(self.cases@.skip(1) =~= old(self).cases@.skip(1).push(self.cases@.last()));
            assert(self.model().results =~= old(self).model().results.push(pushed));
        }
    }

    /// Applies the final rule once every case is recorded: if every test
    /// case was accepted the overall verdict is forced to accepted; the
    /// job is finished either way.
    pub fn finish(&mut self)
        requires
            old(self).wf(),
            old(self).compiled,
            !old(self).finished,
            old(self).tests_done() == old(self).weights@.len(),
        ensures
            final(self).wf(),
            final(self).compiled,
            final(self).finished,
            final(self).mode_standard == old(self).mode_standard,
            final(self).weights@ == old(self).weights@,
            final(self).compile_code == old(self).compile_code,
            final(self).cases@ == old(self).cases@,
            final(self).score == old(self).score,
            final(self).state == State::Finished,
            final(self).job_result == final_verdict(old(self).model()),
            final(self).model().results == old(self).model().results,
    {
        let n = self.cases.len();
        let mut all_acc = true;
        let mut i: usize = 1;
        while i < n
            invariant
                1 <= i <= n,
                n == self.cases@.len(),
                all_acc == (forall|j: int|
                    1 <= j < i ==> (#[trigger] self.cases@[j]).result == JudgeResult::Accepted),
            decreases n - i,
        {
            if !(self.cases[i].result == JudgeResult::Accepted) {
                all_acc = false;
            }
            i = i + 1;
        }
        proof {
            let results = old(self).model().results;
            assert(forall|j: int|
                1 <= j < self.cases@.len() ==> results[j - 1].result == (
                #[trigger] self.cases@[j]).result);
            assert(forall|k: int|
                0 <= k < results.len() ==> (#[trigger] results[k]).result == self.cases@[
                    k + 1
                ].result);
            assert(all_acc == all_accepted(results));
        }
        if all_acc {
            self.job_result = JudgeResult::Accepted;
        }
        self.state = State::Finished;
        self.finished = true;
    }
}

/// What the whole pipeline promises of a finished job's fields, given
/// the problem's mode and weights, the compile exit code, and the
/// per-case events and answer texts.
pub open spec fn pipeline_post(
    cases: Seq<Case>,
    score: u64,
    result: JudgeResult,
    state: State,
    standard: bool,
    weights: Seq<u64>,
    code: i32,
    evs: Seq<CaseEvent>,
    answers: Seq<Seq<char>>,
) -> bool {
    let m = run_upto(standard, weights, code, evs, answers, weights.len() as int);
    &&& cases.len() == 1 + weights.len()
    &&& cases[0].id == 0
    &&& cases[0].result == compile_verdict(code)
    &&& cases[0].time == 0
    &&& cases[0].memory == 0
    &&& cases[0].info@ == Seq::<char>::empty()
    &&& forall|i: int|
        1 <= i < cases.len() ==> {
            &&& (#[trigger] cases[i]).id == i
            &&& cases[i].result == m.results[i - 1].result
            &&& cases[i].time == m.results[i - 1].time
            &&& cases[i].memory == 0
            &&& cases[i].info@ == Seq::<char>::empty()
        }
    &&& score as int == m.score
    &&& result == final_verdict(m)
    &&& state == State::Finished
}

impl JobRun {
    /// Wraps a finished run into a fresh job record.
    pub fn into_job(self, id: i32, created_time: String, updated_time: String, submission: PostJob) -> (r: JobResponse)
        ensures
            r.id == id,
            r.created_time == created_time,
            r.updated_time == updated_time,
            r.submission == submission,
            r.state == self.state,
            r.result == self.job_result,
            r.score == self.score,
            r.cases@ == self.cases@,
    {
        JobResponse {
            id,
            created_time,
            updated_time,
            submission,
            state: self.state,
            result: self.job_result,
            score: self.score,
            cases: self.cases,
        }
    }

    /// Replaces a stored job's result fields in place (re-judge): the
    /// id, the submission, and the creation time stay untouched.
    pub fn apply_rejudge(self, job: &mut JobResponse, updated_time: String)
        ensures
            final(job).id == old(job).id,
            final(job).created_time == old(job).created_time,
            final(job).submission == old(job).submission,
            final(job).updated_time == updated_time,
            final(job).state == self.state,
            final(job).result == self.job_result,
            final(job).score == self.score,
            final(job).cases@ == self.cases@,
    {
        job.updated_time = updated_time;
        job.state = self.state;
        job.result = self.job_result;
        job.score = self.score;
        job.cases = self.cases;
    }
}

/// Judges a whole job from its compile exit code and one event per
/// catalog case, skipping every case after a terminal verdict exactly
/// as the interactive run does.
pub fn run_full(problem: &Problem, compile_code: i32, events: &Vec<CaseEvent>, answers: &Vec<String>) -> (r: JobRun)
    requires
        problem.valid(),
        events@.len() == problem.cases@.len(),
        answers@.len() == problem.cases@.len(),
    ensures
        r.wf(),
        r.compiled,
        r.finished,
        r.mode_standard == (problem.typ@ == "standard"@),
        r.weights@ == problem.weights(),
        pipeline_post(
            r.cases@,
            r.score,
            r.job_result,
            r.state,
            problem.typ@ == "standard"@,
            problem.weights(),
            compile_code,
            events@,
            answers.deep_view(),
        ),
{
    let ghost standard = problem.typ@ == "standard"@;
    let ghost weights = problem.weights();
    let ghost answer_texts = answers.deep_view();
    let mut jr = JobRun::new(problem);
    jr.record_compile(compile_code);
    let n = events.len();
    proof {
        assert(jr.model() == run_upto(standard, weights, compile_code, events@, answer_texts, 0));
    }
    let mut i: usize = 0;
    while i < n
        invariant
            jr.wf(),
            jr.compiled,
            !jr.finished,
            jr.mode_standard == standard,
            jr.weights@ == weights,
            jr.compile_code == compile_code,
            n == events@.len(),
            n == answers@.len(),
            n == weights.len(),
            answer_texts == answers.deep_view(),
            i <= n,
            jr.tests_done() == i,
            jr.model() == run_upto(standard, weights, compile_code, events@, answer_texts, i as int),
        decreases n - i,
    {
        proof {
            assert(answer_texts[i as int] == answers@[i as int]@);
        }
        if jr.executing() {
            jr.record_case(&events[i], answers[i].as_str());
        } else {
            jr.record_skip();
            proof {
                let st = run_upto(standard, weights, compile_code, events@, answer_texts, i as int);
                assert(step(standard, weights[i as int], st, events@[i as int], answer_texts[i as int])
                    == (RunM {
                    results: st.results.push(
                        CaseM { result: JudgeResult::Waiting, time: st.last_elapsed },
                    ),
                    ..st
                }));
            }
        }
        proof {
            assert(jr.model() == run_upto(
                standard,
                weights,
                compile_code,
                events@,
                answer_texts,
                i + 1,
            ));
        }
        i = i + 1;
    }
    let ghost m = run_upto(standard, weights, compile_code, events@, answer_texts, n as int);
    jr.finish();
    proof {
        lemma_run_upto_len(standard, weights, compile_code, events@, answer_texts, n as int);
        assert forall|k: int| 1 <= k < jr.cases@.len() implies {
            &&& (#[trigger] jr.cases@[k]).result == m.results[k - 1].result
            &&& jr.cases@[k].time == m.results[k - 1].time
        } by {
            assert(m.results[k - 1] == jr.cases@.skip(1).map_values(
                |c: Case| CaseM { result: c.result, time: c.time },
            )[k - 1]);
        }
    }
    jr
}

/// The weights, summed over the accepted cases only.
pub open spec fn accepted_weight_sum(results: Seq<CaseM>, weights: Seq<u64>) -> int
    decreases results.len(),
{
    if results.len() == 0 {
        0
    } else {
        accepted_weight_sum(results.drop_last(), weights) + if results.last().result
            == JudgeResult::Accepted {
            weights[results.len() - 1] as int
        } else {
            0int
        }
    }
}

/// Whether the pipeline classifies this outcome on its own: a timeout,
/// a clean exit, or the runtime-error exit code. Any other exit code
/// leaves the previous verdict variable in place.
pub open spec fn classifiable(ev: CaseEvent) -> bool {
    match ev.outcome {
        RunOutcome::TimedOut => true,
        RunOutcome::Exited { code, output } => code == 0 || code == 101,
    }
}

proof fn lemma_run_upto_prefix(
    standard: bool,
    weights: Seq<u64>,
    code: i32,
    evs: Seq<CaseEvent>,
    answers: Seq<Seq<char>>,
    m: int,
    n: int,
)
    requires
        0 <= m <= n,
    ensures
        forall|k: int|
            0 <= k < m ==> run_upto(standard, weights, code, evs, answers, n).results[k] == run_upto(
                standard,
                weights,
                code,
                evs,
                answers,
                m,
            ).results[k],
    decreases n - m,
{
    lemma_run_upto_len(standard, weights, code, evs, answers, m);
    if n > m {
        lemma_run_upto_prefix(standard, weights, code, evs, answers, m, n - 1);
        lemma_run_upto_len(standard, weights, code, evs, answers, n - 1);
    }
}

proof fn lemma_not_running_stays(
    standard: bool,
    weights: Seq<u64>,
    code: i32,
    evs: Seq<CaseEvent>,
    answers: Seq<Seq<char>>,
    m: int,
    n: int,
)
    requires
        0 <= m <= n,
        run_upto(standard, weights, code, evs, answers, m).job_result != JudgeResult::Running,
    ensures
        run_upto(standard, weights, code, evs, answers, n).job_result == run_upto(
            standard,
            weights,
            code,
            evs,
            answers,
            m,
        ).job_result,
        forall|k: int|
            m <= k < n ==> run_upto(standard, weights, code, evs, answers, n).results[k].result
                == JudgeResult::Waiting,
    decreases n - m,
{
    lemma_run_upto_len(standard, weights, code, evs, answers, n);
    if n > m {
        lemma_not_running_stays(standard, weights, code, evs, answers, m, n - 1);
        lemma_run_upto_len(standard, weights, code, evs, answers, n - 1);
        lemma_run_upto_prefix(standard, weights, code, evs, answers, n - 1, n);
    }
}

proof fn lemma_terminal_sets_job(
    standard: bool,
    weights: Seq<u64>,
    code: i32,
    evs: Seq<CaseEvent>,
    answers: Seq<Seq<char>>,
    k: int,
    n: int,
)
    requires
        0 <= k < n,
        is_case_terminal(run_upto(standard, weights, code, evs, answers, n).results[k].result),
    ensures
        run_upto(standard, weights, code, evs, answers, k + 1).job_result == run_upto(
            standard,
            weights,
            code,
            evs,
            answers,
            n,
        ).results[k].result,
{
    lemma_run_upto_len(standard, weights, code, evs, answers, k);
    lemma_run_upto_len(standard, weights, code, evs, answers, k + 1);
    lemma_run_upto_prefix(standard, weights, code, evs, answers, k + 1, n);
}

/// Every judged job records one case per catalog case plus the
/// compilation step at index 0, each case id equal to its position.
pub proof fn lemma_case_list_shape(
    cases: Seq<Case>,
    score: u64,
    result: JudgeResult,
    state: State,
    standard: bool,
    weights: Seq<u64>,
    code: i32,
    evs: Seq<CaseEvent>,
    answers: Seq<Seq<char>>,
)
    requires
        pipeline_post(cases, score, result, state, standard, weights, code, evs, answers),
    ensures
        cases.len() == 1 + weights.len(),
        cases[0].id == 0,
        forall|i: int| 1 <= i < cases.len() ==> (#[trigger] cases[i]).id == i,
{
}

/// Once a test case records a terminal failing verdict, every later
/// case of the job is recorded as waiting, unexecuted.
pub proof fn lemma_short_circuit(
    cases: Seq<Case>,
    score: u64,
    result: JudgeResult,
    state: State,
    standard: bool,
    weights: Seq<u64>,
    code: i32,
    evs: Seq<CaseEvent>,
    answers: Seq<Seq<char>>,
    i: int,
    j: int,
)
    requires
        pipeline_post(cases, score, result, state, standard, weights, code, evs, answers),
        1 <= i < j < cases.len(),
        is_case_terminal(cases[i].result),
    ensures
        cases[j].result == JudgeResult::Waiting,
{
    let n = weights.len() as int;
    lemma_run_upto_len(standard, weights, code, evs, answers, n);
    lemma_terminal_sets_job(standard, weights, code, evs, answers, i - 1, n);
    lemma_not_running_stays(standard, weights, code, evs, answers, i, n);
}

/// The accrued score never decreases as cases are recorded.
pub proof fn lemma_score_monotonic(
    standard: bool,
    weights: Seq<u64>,
    code: i32,
    evs: Seq<CaseEvent>,
    answers: Seq<Seq<char>>,
    m: int,
    n: int,
)
    requires
        0 <= m <= n,
    ensures
        run_upto(standard, weights, code, evs, answers, m).score <= run_upto(
            standard,
            weights,
            code,
            evs,
            answers,
            n,
        ).score,
    decreases n - m,
{
    if n > m {
        lemma_score_monotonic(standard, weights, code, evs, answers, m, n - 1);
    }
}

/// With every executed case classifiable, the score is exactly the sum
/// of the weights of the cases recorded as accepted.
pub proof fn lemma_score_is_accepted_sum(
    standard: bool,
    weights: Seq<u64>,
    code: i32,
    evs: Seq<CaseEvent>,
    answers: Seq<Seq<char>>,
    n: int,
)
    requires
        0 <= n <= weights.len(),
        n <= evs.len(),
        forall|k: int| 0 <= k < n ==> classifiable(#[trigger] evs[k]),
    ensures
        run_upto(standard, weights, code, evs, answers, n).score == accepted_weight_sum(
            run_upto(standard, weights, code, evs, answers, n).results,
            weights,
        ),
    decreases n,
{
    if n > 0 {
        lemma_score_is_accepted_sum(standard, weights, code, evs, answers, n - 1);
        lemma_run_upto_len(standard, weights, code, evs, answers, n - 1);
        lemma_run_upto_len(standard, weights, code, evs, answers, n);
        let st = run_upto(standard, weights, code, evs, answers, n - 1);
        let st2 = run_upto(standard, weights, code, evs, answers, n);
        assert(st2.results.drop_last() =~= st.results);
        if st.job_result == JudgeResult::Running {
            let v = case_verdict(standard, st.last_case_result, evs[n - 1], answers[n - 1]);
            assert((v == JudgeResult::Accepted) == case_scored(standard, evs[n - 1], answers[n - 1]));
        }
    }
}

/// The accrued score never leaves `[0, Σ weights]`, whatever the
/// events hold.
pub proof fn lemma_score_bounded(
    standard: bool,
    weights: Seq<u64>,
    code: i32,
    evs: Seq<CaseEvent>,
    answers: Seq<Seq<char>>,
    n: int,
)
    requires
        0 <= n <= weights.len(),
    ensures
        0 <= run_upto(standard, weights, code, evs, answers, n).score <= crate::config::sum_of(
            weights.take(n),
        ),
    decreases n,
{
    if n == 0 {
        assert(weights.take(0) =~= Seq::<u64>::empty());
    } else {
        lemma_score_bounded(standard, weights, code, evs, answers, n - 1);
        crate::config::lemma_sum_of_take_succ(weights, n - 1);
    }
}

proof fn lemma_job_result_not_accepted(
    standard: bool,
    weights: Seq<u64>,
    code: i32,
    evs: Seq<CaseEvent>,
    answers: Seq<Seq<char>>,
    n: int,
)
    requires
        n >= 0,
    ensures
        run_upto(standard, weights, code, evs, answers, n).job_result != JudgeResult::Accepted,
    decreases n,
{
    if n > 0 {
        lemma_job_result_not_accepted(standard, weights, code, evs, answers, n - 1);
    }
}

/// A job's overall verdict is accepted exactly when every case after
/// the compilation step is accepted.
pub proof fn lemma_accepted_iff_all_cases(
    cases: Seq<Case>,
    score: u64,
    result: JudgeResult,
    state: State,
    standard: bool,
    weights: Seq<u64>,
    code: i32,
    evs: Seq<CaseEvent>,
    answers: Seq<Seq<char>>,
)
    requires
        pipeline_post(cases, score, result, state, standard, weights, code, evs, answers),
    ensures
        (result == JudgeResult::Accepted) <==> (forall|i: int|
            1 <= i < cases.len() ==> (#[trigger] cases[i]).result == JudgeResult::Accepted),
{
    let n = weights.len() as int;
    let m = run_upto(standard, weights, code, evs, answers, n);
    lemma_run_upto_len(standard, weights, code, evs, answers, n);
    lemma_job_result_not_accepted(standard, weights, code, evs, answers, n);
    if all_accepted(m.results) {
        assert forall|i: int| 1 <= i < cases.len() implies (#[trigger] cases[i]).result
            == JudgeResult::Accepted by {
            assert(m.results[i - 1].result == JudgeResult::Accepted);
        }
    }
    if forall|i: int| 1 <= i < cases.len() ==> (#[trigger] cases[i]).result
        == JudgeResult::Accepted {
        assert forall|k: int| 0 <= k < m.results.len() implies (#[trigger] m.results[k]).result
            == JudgeResult::Accepted by {
            assert(cases[k + 1].result == m.results[k].result);
        }
    }
}

/// Re-running the pipeline on the same mode, weights, compile outcome,
/// events, and answer texts yields the identical verdict, score, state,
/// and case list.
pub proof fn lemma_pipeline_deterministic(
    c1: Seq<Case>,
    s1: u64,
    r1: JudgeResult,
    t1: State,
    c2: Seq<Case>,
    s2: u64,
    r2: JudgeResult,
    t2: State,
    standard: bool,
    weights: Seq<u64>,
    code: i32,
    evs: Seq<CaseEvent>,
    answers: Seq<Seq<char>>,
)
    requires
        pipeline_post(c1, s1, r1, t1, standard, weights, code, evs, answers),
        pipeline_post(c2, s2, r2, t2, standard, weights, code, evs, answers),
    ensures
        s1 == s2,
        r1 == r2,
        t1 == t2,
        c1.len() == c2.len(),
        forall|i: int|
            0 <= i < c1.len() ==> {
                &&& (#[trigger] c1[i]).id == c2[i].id
                &&& c1[i].result == c2[i].result
                &&& c1[i].time == c2[i].time
                &&& c1[i].memory == c2[i].memory
                &&& c1[i].info@ == c2[i].info@
            },
{
}

} // verus!
