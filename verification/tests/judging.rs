use judge_core::config::{Case as ConfigCase, Misc, Problem};
use judge_core::jobs::{JobResponse, JudgeResult, PostJob, State};
use judge_core::pipeline::{run_full, CaseEvent, JobRun, RunOutcome};

fn problem(typ: &str, weights: &[u64]) -> Problem {
    let cases = weights
        .iter()
        .enumerate()
        .map(|(i, w)| ConfigCase {
            score: *w,
            input_file: format!("in{}.txt", i),
            answer_file: format!("ans{}.txt", i),
            time_limit: 1_000_000,
            memory_limit: 0,
        })
        .collect();
    Problem {
        id: 0,
        name: "aplusb".to_string(),
        typ: typ.to_string(),
        misc: Misc { packing: None },
        cases,
    }
}

fn exited(code: i32, output: &str) -> CaseEvent {
    CaseEvent {
        elapsed: 500,
        outcome: RunOutcome::Exited {
            code,
            output: output.to_string(),
        },
    }
}

fn timed_out() -> CaseEvent {
    CaseEvent {
        elapsed: 1_000_123,
        outcome: RunOutcome::TimedOut,
    }
}

fn submission() -> PostJob {
    PostJob {
        source_code: "fn main() {}".to_string(),
        language: "Rust".to_string(),
        user_id: 0,
        contest_id: 0,
        problem_id: 0,
    }
}

#[test]
fn partial_credit_on_first_of_two_cases() {
    let p = problem("standard", &[40, 60]);
    let events = vec![exited(0, "3\n"), exited(0, "5\n")];
    let answers = vec!["3".to_string(), "4".to_string()];
    let run = run_full(&p, 0, &events, &answers);
    let job = run.into_job(0, "t0".to_string(), "t0".to_string(), submission());
    assert_eq!(job.score, 40);
    assert_eq!(job.result, JudgeResult::WrongAnswer);
    assert_eq!(job.state, State::Finished);
    assert_eq!(job.cases.len(), 3);
    assert_eq!(job.cases[0].id, 0);
    assert_eq!(job.cases[0].result, JudgeResult::CompilationSuccess);
    assert_eq!(job.cases[1].result, JudgeResult::Accepted);
    assert_eq!(job.cases[2].result, JudgeResult::WrongAnswer);
}

#[test]
fn full_credit_when_every_case_accepted() {
    let p = problem("standard", &[40, 60]);
    let events = vec![exited(0, " 3 \n"), exited(0, "4\n")];
    let answers = vec!["3".to_string(), "4".to_string()];
    let run = run_full(&p, 0, &events, &answers);
    assert_eq!(run.score, 100);
    assert_eq!(run.job_result, JudgeResult::Accepted);
}

#[test]
fn time_limit_exceeded_short_circuits() {
    let p = problem("standard", &[30, 30, 40]);
    let events = vec![exited(0, "1"), timed_out(), exited(0, "3")];
    let answers = vec!["1".to_string(), "2".to_string(), "3".to_string()];
    let run = run_full(&p, 0, &events, &answers);
    let job = run.into_job(1, "t0".to_string(), "t0".to_string(), submission());
    assert_eq!(job.cases[1].result, JudgeResult::Accepted);
    assert_eq!(job.cases[2].result, JudgeResult::TimeLimitExceeded);
    assert_eq!(job.cases[3].result, JudgeResult::Waiting);
    assert_eq!(job.result, JudgeResult::TimeLimitExceeded);
    assert_eq!(job.score, 30);
}

#[test]
fn runtime_error_on_exit_code_101() {
    let p = problem("standard", &[50, 50]);
    let events = vec![exited(101, ""), exited(0, "2")];
    let answers = vec!["1".to_string(), "2".to_string()];
    let run = run_full(&p, 0, &events, &answers);
    assert_eq!(run.cases[1].result, JudgeResult::RuntimeError);
    assert_eq!(run.cases[2].result, JudgeResult::Waiting);
    assert_eq!(run.job_result, JudgeResult::RuntimeError);
    assert_eq!(run.score, 0);
}

#[test]
fn compilation_error_leaves_cases_waiting() {
    let p = problem("strict", &[100]);
    let events = vec![exited(0, "whatever")];
    let answers = vec!["whatever".to_string()];
    let run = run_full(&p, 1, &events, &answers);
    assert_eq!(run.cases[0].result, JudgeResult::CompilationError);
    assert_eq!(run.cases[1].result, JudgeResult::Waiting);
    assert_eq!(run.cases[1].time, 0);
    assert_eq!(run.job_result, JudgeResult::CompilationError);
    assert_eq!(run.state, State::Finished);
    assert_eq!(run.score, 0);
}

#[test]
fn strict_mode_compares_byte_for_byte() {
    let p = problem("strict", &[100]);
    let events = vec![exited(0, "3 \n")];
    let answers = vec!["3".to_string()];
    let run = run_full(&p, 0, &events, &answers);
    assert_eq!(run.cases[1].result, JudgeResult::WrongAnswer);
    assert_eq!(run.score, 0);

    let events = vec![exited(0, "3")];
    let answers = vec!["3".to_string()];
    let run = run_full(&p, 0, &events, &answers);
    assert_eq!(run.cases[1].result, JudgeResult::Accepted);
    assert_eq!(run.score, 100);
}

#[test]
fn unclassified_exit_code_keeps_previous_verdict() {
    let p = problem("standard", &[30, 30, 40]);
    let events = vec![exited(0, "1"), exited(5, ""), exited(0, "3")];
    let answers = vec!["1".to_string(), "2".to_string(), "3".to_string()];
    let run = run_full(&p, 0, &events, &answers);
    // The second case inherits the verdict variable but accrues nothing,
    // and the job keeps running.
    assert_eq!(run.cases[2].result, JudgeResult::Accepted);
    assert_eq!(run.cases[3].result, JudgeResult::Accepted);
    assert_eq!(run.score, 70);
    assert_eq!(run.job_result, JudgeResult::Accepted);
}

#[test]
fn rejudge_replaces_results_and_keeps_identity() {
    let p = problem("standard", &[40, 60]);
    let events = vec![exited(0, "3"), exited(0, "9")];
    let answers = vec!["3".to_string(), "4".to_string()];
    let run1 = run_full(&p, 0, &events, &answers);
    let mut job = run1.into_job(7, "t0".to_string(), "t0".to_string(), submission());

    let run2 = run_full(&p, 0, &events, &answers);
    run2.apply_rejudge(&mut job, "t1".to_string());
    assert_eq!(job.id, 7);
    assert_eq!(job.created_time, "t0");
    assert_eq!(job.updated_time, "t1");
    assert_eq!(job.score, 40);
    assert_eq!(job.result, JudgeResult::WrongAnswer);
}

#[test]
fn rerun_on_unchanged_inputs_is_identical() {
    let p = problem("standard", &[40, 60]);
    let events = vec![exited(0, "3"), timed_out()];
    let answers = vec!["3".to_string(), "4".to_string()];
    let a = run_full(&p, 0, &events, &answers);
    let b = run_full(&p, 0, &events, &answers);
    assert_eq!(a.score, b.score);
    assert_eq!(a.job_result, b.job_result);
    assert_eq!(a.cases.len(), b.cases.len());
    for (x, y) in a.cases.iter().zip(b.cases.iter()) {
        assert_eq!(x.id, y.id);
        assert_eq!(x.result, y.result);
        assert_eq!(x.time, y.time);
    }
}

#[test]
fn interactive_run_matches_batch_run() {
    let p = problem("standard", &[40, 60]);
    let answers = ["3".to_string(), "4".to_string()];
    let mut jr = JobRun::new(&p);
    jr.record_compile(0);
    assert!(jr.executing());
    jr.record_case(&exited(0, "9"), answers[0].as_str());
    // Wrong answer: the driver must now skip instead of executing.
    assert!(!jr.executing());
    jr.record_skip();
    jr.finish();
    assert_eq!(jr.score, 0);
    assert_eq!(jr.job_result, JudgeResult::WrongAnswer);
    assert_eq!(jr.cases.len(), 3);
    assert_eq!(jr.cases[2].result, JudgeResult::Waiting);

    let events = vec![exited(0, "9"), exited(0, "4")];
    let batch = run_full(&p, 0, &events, &answers.to_vec());
    assert_eq!(batch.score, jr.score);
    assert_eq!(batch.job_result, jr.job_result);
    assert_eq!(batch.cases[2].result, jr.cases[2].result);
}

#[test]
fn waiting_cases_record_last_elapsed_time() {
    let p = problem("standard", &[50, 50]);
    let events = vec![
        CaseEvent {
            elapsed: 777,
            outcome: RunOutcome::Exited {
                code: 0,
                output: "x".to_string(),
            },
        },
        exited(0, "2"),
    ];
    let answers = vec!["1".to_string(), "2".to_string()];
    let run = run_full(&p, 0, &events, &answers);
    assert_eq!(run.cases[1].result, JudgeResult::WrongAnswer);
    assert_eq!(run.cases[1].time, 777);
    assert_eq!(run.cases[2].result, JudgeResult::Waiting);
    assert_eq!(run.cases[2].time, 777);
}

#[test]
fn zero_case_problem_with_successful_compile_is_accepted() {
    let p = problem("standard", &[]);
    let run = run_full(&p, 0, &Vec::new(), &Vec::new());
    assert_eq!(run.cases.len(), 1);
    assert_eq!(run.job_result, JudgeResult::Accepted);
    assert_eq!(run.score, 0);
}

#[test]
fn zero_case_problem_is_accepted_even_on_compile_error() {
    // The accepted rule looks only at the cases after index 0; with no
    // test cases it holds vacuously, whatever the compile step did.
    let p = problem("standard", &[]);
    let run = run_full(&p, 1, &Vec::new(), &Vec::new());
    assert_eq!(run.cases[0].result, JudgeResult::CompilationError);
    assert_eq!(run.job_result, JudgeResult::Accepted);
}

#[test]
fn problem_validity_requires_known_mode() {
    let good = problem("standard", &[100]);
    assert!(good.is_valid());
    let strict = problem("strict", &[100]);
    assert!(strict.is_valid());
    let bad = problem("spj", &[100]);
    assert!(!bad.is_valid());
}

#[test]
fn job_fields_carry_into_response() {
    let p = problem("standard", &[100]);
    let events = vec![exited(0, "1")];
    let answers = vec!["1".to_string()];
    let run = run_full(&p, 0, &events, &answers);
    let job: JobResponse = run.into_job(3, "c".to_string(), "u".to_string(), submission());
    assert_eq!(job.id, 3);
    assert_eq!(job.created_time, "c");
    assert_eq!(job.updated_time, "u");
    assert_eq!(job.submission.language, "Rust");
    assert_eq!(job.score, 100);
    assert_eq!(job.result, JudgeResult::Accepted);
}
