use judge_core::config::{build_command, Bind, Case as ConfigCase, Config, Language, Misc, Problem};
use judge_core::contests::post_contest;
use judge_core::jobs::{check_submission, JobCounter};
use judge_core::pipeline::{run_full, CaseEvent, RunOutcome};
use judge_core::users::post_user;
use judge_core::contests::Contest;
use judge_core::jobs::{Case, JobResponse, JudgeResult, PostJob, State};
use judge_core::rank::{compute_ranklist, Rank, ScoringRule, TieBreaker};
use judge_core::users::User;
use judge_core::ApiError;

fn problem(id: u32) -> Problem {
    Problem {
        id,
        name: format!("p{}", id),
        typ: "standard".to_string(),
        misc: Misc { packing: None },
        cases: vec![ConfigCase {
            score: 100,
            input_file: "in".to_string(),
            answer_file: "ans".to_string(),
            time_limit: 1_000_000,
            memory_limit: 0,
        }],
    }
}

fn user(id: u32, name: &str) -> User {
    User {
        id: Some(id),
        name: name.to_string(),
    }
}

fn job(id: i32, user_id: u32, problem_id: u32, contest_id: u32, score: u64, created: &str) -> JobResponse {
    JobResponse {
        id,
        created_time: created.to_string(),
        updated_time: created.to_string(),
        submission: PostJob {
            source_code: String::new(),
            language: "Rust".to_string(),
            user_id,
            contest_id,
            problem_id,
        },
        state: State::Finished,
        result: JudgeResult::Accepted,
        score,
        cases: vec![Case {
            id: 0,
            result: JudgeResult::CompilationSuccess,
            time: 0,
            memory: 0,
            info: String::new(),
        }],
    }
}

fn ranklist(
    contest_id: usize,
    contests: &Vec<Contest>,
    problems: &Vec<Problem>,
    users: &Vec<User>,
    jobs: &Vec<JobResponse>,
    rule: ScoringRule,
    tie: TieBreaker,
) -> Vec<Rank> {
    compute_ranklist(contest_id, contests, problems, users, jobs, rule, tie).unwrap()
}

#[test]
fn highest_rule_keeps_the_best_score_latest_takes_the_last() {
    let problems = vec![problem(0)];
    let users = vec![user(0, "alice")];
    let contests: Vec<Contest> = Vec::new();
    let jobs = vec![
        job(0, 0, 0, 0, 100, "2022-08-27T02:05:29.000Z"),
        job(1, 0, 0, 0, 50, "2022-08-27T02:06:30.000Z"),
    ];
    let best = ranklist(
        0,
        &contests,
        &problems,
        &users,
        &jobs,
        ScoringRule::Highest,
        TieBreaker::Default,
    );
    assert_eq!(best[0].scores, vec![100]);

    let latest = ranklist(
        0,
        &contests,
        &problems,
        &users,
        &jobs,
        ScoringRule::Latest,
        TieBreaker::Default,
    );
    assert_eq!(latest[0].scores, vec![50]);
}

#[test]
fn default_tie_break_shares_ranks_user_id_flattens_them() {
    let problems = vec![problem(0)];
    let users = vec![user(0, "alice"), user(1, "bob"), user(2, "carol")];
    let contests: Vec<Contest> = Vec::new();
    let jobs = vec![
        job(0, 0, 0, 0, 90, "t0"),
        job(1, 1, 0, 0, 90, "t1"),
        job(2, 2, 0, 0, 80, "t2"),
    ];
    let got = ranklist(
        0,
        &contests,
        &problems,
        &users,
        &jobs,
        ScoringRule::Latest,
        TieBreaker::Default,
    );
    let ranks: Vec<i32> = got.iter().map(|r| r.rank).collect();
    assert_eq!(ranks, vec![1, 1, 3]);
    // The stable sort keeps the equal 90s in population order.
    assert_eq!(got[0].user.name, "alice");
    assert_eq!(got[1].user.name, "bob");
    assert_eq!(got[2].user.name, "carol");

    let got = ranklist(
        0,
        &contests,
        &problems,
        &users,
        &jobs,
        ScoringRule::Latest,
        TieBreaker::UserId,
    );
    let ranks: Vec<i32> = got.iter().map(|r| r.rank).collect();
    assert_eq!(ranks, vec![1, 2, 3]);
    assert_eq!(got[0].user.name, "alice");
    assert_eq!(got[1].user.name, "bob");
}

#[test]
fn submission_count_tie_break_prefers_fewer_submissions() {
    let problems = vec![problem(0)];
    let users = vec![user(0, "alice"), user(1, "bob")];
    let contests: Vec<Contest> = Vec::new();
    // Both end at 100, but bob needed two submissions.
    let jobs = vec![
        job(0, 1, 0, 0, 40, "t0"),
        job(1, 1, 0, 0, 100, "t1"),
        job(2, 0, 0, 0, 100, "t2"),
    ];
    let got = ranklist(
        0,
        &contests,
        &problems,
        &users,
        &jobs,
        ScoringRule::Latest,
        TieBreaker::SubmissionCount,
    );
    assert_eq!(got[0].user.name, "alice");
    assert_eq!(got[0].rank, 1);
    assert_eq!(got[1].user.name, "bob");
    assert_eq!(got[1].rank, 2);
}

#[test]
fn submission_time_tie_break_prefers_the_earlier_scorer() {
    let problems = vec![problem(0)];
    let users = vec![user(0, "alice"), user(1, "bob")];
    let contests: Vec<Contest> = Vec::new();
    let jobs = vec![
        job(0, 1, 0, 0, 100, "2022-08-27T02:05:29.000Z"),
        job(1, 0, 0, 0, 100, "2022-08-27T02:07:00.000Z"),
    ];
    let got = ranklist(
        0,
        &contests,
        &problems,
        &users,
        &jobs,
        ScoringRule::Latest,
        TieBreaker::SubmissionTime,
    );
    assert_eq!(got[0].user.name, "bob");
    assert_eq!(got[0].rank, 1);
    assert_eq!(got[1].user.name, "alice");
    assert_eq!(got[1].rank, 2);
}

#[test]
fn never_scored_users_sort_after_every_real_timestamp() {
    let problems = vec![problem(0)];
    let users = vec![user(0, "alice"), user(1, "bob")];
    let contests: Vec<Contest> = Vec::new();
    // Only bob ever scored; alice keeps the timestamp sentinel.
    let jobs = vec![job(0, 1, 0, 0, 100, "2022-08-27T02:05:29.000Z")];
    let got = ranklist(
        0,
        &contests,
        &problems,
        &users,
        &jobs,
        ScoringRule::Latest,
        TieBreaker::SubmissionTime,
    );
    assert_eq!(got[0].user.name, "bob");
    assert_eq!(got[1].user.name, "alice");
}

#[test]
fn users_without_submissions_keep_zero_rows() {
    let problems = vec![problem(0), problem(1)];
    let users = vec![user(0, "alice"), user(1, "bob")];
    let contests: Vec<Contest> = Vec::new();
    let jobs = vec![job(0, 0, 1, 0, 70, "t0")];
    let got = ranklist(
        0,
        &contests,
        &problems,
        &users,
        &jobs,
        ScoringRule::Latest,
        TieBreaker::Default,
    );
    // Columns follow ascending problem id; alice scored in column 1.
    assert_eq!(got[0].user.name, "alice");
    assert_eq!(got[0].scores, vec![0, 70]);
    assert_eq!(got[0].rank, 1);
    assert_eq!(got[1].user.name, "bob");
    assert_eq!(got[1].scores, vec![0, 0]);
    assert_eq!(got[1].rank, 2);
}

#[test]
fn contest_ranklists_use_membership_order_and_filter_jobs() {
    let problems = vec![problem(0), problem(1)];
    let users = vec![user(0, "alice"), user(1, "bob")];
    // Columns in membership order: problem 1 first.
    let contests = vec![Contest {
        id: Some(2),
        name: "c2".to_string(),
        from: "t".to_string(),
        to: "t".to_string(),
        problem_ids: vec![1, 0],
        user_ids: vec![1, 0],
        submission_limit: 10,
    }];
    let jobs = vec![
        job(0, 0, 1, 2, 60, "t0"),
        // A job of another contest must not count here.
        job(1, 1, 1, 9, 100, "t1"),
    ];
    let got = ranklist(
        2,
        &contests,
        &problems,
        &users,
        &jobs,
        ScoringRule::Latest,
        TieBreaker::Default,
    );
    assert_eq!(got.len(), 2);
    assert_eq!(got[0].user.name, "alice");
    assert_eq!(got[0].scores, vec![60, 0]);
    assert_eq!(got[1].user.name, "bob");
    assert_eq!(got[1].scores, vec![0, 0]);
}

#[test]
fn a_whole_contest_round_trip() {
    let cfg = Config {
        server: Bind {
            bind_address: "127.0.0.1".to_string(),
            bind_port: 12345,
        },
        problems: vec![problem(0)],
        languages: vec![Language {
            name: "Rust".to_string(),
            file_name: "main.rs".to_string(),
            command: vec!["rustc".to_string()],
        }],
    };

    let mut users: Vec<User> = Vec::new();
    let alice = post_user(&mut users, User { id: None, name: "alice".to_string() }).unwrap();
    assert_eq!(alice.id, Some(0));

    let mut contests: Vec<Contest> = Vec::new();
    let stored = post_contest(
        &mut contests,
        Contest {
            id: None,
            name: "warmup".to_string(),
            from: "2022-01-01T00:00:00.000Z".to_string(),
            to: "2023-01-01T00:00:00.000Z".to_string(),
            problem_ids: vec![0],
            user_ids: vec![0],
            submission_limit: 2,
        },
    );
    assert_eq!(stored.id, Some(1));

    let mut counter = JobCounter::new();
    let mut jobs: Vec<JobResponse> = Vec::new();
    let submission = judge_core::jobs::PostJob {
        source_code: "fn main() { println!(\"1\"); }".to_string(),
        language: "Rust".to_string(),
        user_id: 0,
        contest_id: 1,
        problem_id: 0,
    };
    assert_eq!(
        check_submission(&submission, &cfg, &users, &contests, &jobs),
        Ok(())
    );

    let events = vec![CaseEvent {
        elapsed: 10,
        outcome: RunOutcome::Exited {
            code: 0,
            output: "1\n".to_string(),
        },
    }];
    let answers = vec!["1".to_string()];
    let run = run_full(&cfg.problems[0], 0, &events, &answers);
    let id = counter.next_id();
    let job = run.into_job(
        id,
        "2022-08-27T02:05:29.000Z".to_string(),
        "2022-08-27T02:05:29.000Z".to_string(),
        submission,
    );
    assert_eq!(job.result, JudgeResult::Accepted);
    jobs.push(job);

    let got = ranklist(
        1,
        &contests,
        &cfg.problems,
        &users,
        &jobs,
        ScoringRule::Latest,
        TieBreaker::Default,
    );
    assert_eq!(got.len(), 1);
    assert_eq!(got[0].user.name, "alice");
    assert_eq!(got[0].rank, 1);
    assert_eq!(got[0].scores, vec![100]);
}

#[test]
fn command_templates_substitute_both_placeholders() {
    let lang = Language {
        name: "Rust".to_string(),
        file_name: "main.rs".to_string(),
        command: vec![
            "rustc".to_string(),
            "%INPUT%".to_string(),
            "-o".to_string(),
            "%OUTPUT%".to_string(),
        ],
    };
    let got = build_command(&lang, "TMPDIR/0/main.rs", "TMPDIR/0/main");
    assert_eq!(
        got,
        vec!["rustc", "TMPDIR/0/main.rs", "-o", "TMPDIR/0/main"]
    );
}

#[test]
fn unknown_contest_is_not_found() {
    let problems = vec![problem(0)];
    let users = vec![user(0, "alice")];
    let contests: Vec<Contest> = Vec::new();
    let jobs: Vec<JobResponse> = Vec::new();
    let r = compute_ranklist(
        5,
        &contests,
        &problems,
        &users,
        &jobs,
        ScoringRule::Latest,
        TieBreaker::Default,
    );
    assert!(matches!(r, Err(ApiError::NotFound)));
}
