use judge_core::config::{Bind, Case as ConfigCase, Config, Language, Misc, Problem};
use judge_core::contests::{find_contest, post_contest, Contest};
use judge_core::errors::ApiError;
use judge_core::jobs::{
    check_submission, count_quota, filter_jobs, find_job, Case, GetJob, JobCounter, JobResponse,
    JudgeResult, PostJob, State,
};
use judge_core::text::{outputs_match_standard, outputs_match_strict, str_lex_le, trim_chars};
use judge_core::users::{post_user, User};

fn language(name: &str) -> Language {
    Language {
        name: name.to_string(),
        file_name: "main.rs".to_string(),
        command: vec![
            "rustc".to_string(),
            "%INPUT%".to_string(),
            "-o".to_string(),
            "%OUTPUT%".to_string(),
        ],
    }
}

fn problem(id: u32) -> Problem {
    Problem {
        id,
        name: format!("p{}", id),
        typ: "standard".to_string(),
        misc: Misc { packing: None },
        cases: vec![ConfigCase {
            score: 100,
            input_file: "in".to_string(),
            answer_file: "ans".to_string(),
            time_limit: 1_000_000,
            memory_limit: 0,
        }],
    }
}

fn config() -> Config {
    Config {
        server: Bind {
            bind_address: "127.0.0.1".to_string(),
            bind_port: 12345,
        },
        problems: vec![problem(0)],
        languages: vec![language("Rust")],
    }
}

fn contest(id: usize, users: Vec<usize>, problems: Vec<usize>, limit: i32) -> Contest {
    Contest {
        id: Some(id),
        name: format!("c{}", id),
        from: "2022-01-01T00:00:00.000Z".to_string(),
        to: "2023-01-01T00:00:00.000Z".to_string(),
        problem_ids: problems,
        user_ids: users,
        submission_limit: limit,
    }
}

fn body() -> PostJob {
    PostJob {
        source_code: "fn main() {}".to_string(),
        language: "Rust".to_string(),
        user_id: 0,
        contest_id: 1,
        problem_id: 0,
    }
}

fn stored_job(id: i32, sub: PostJob, score: u64, created: &str) -> JobResponse {
    JobResponse {
        id,
        created_time: created.to_string(),
        updated_time: created.to_string(),
        submission: sub,
        state: State::Finished,
        result: JudgeResult::Accepted,
        score,
        cases: vec![Case {
            id: 0,
            result: JudgeResult::CompilationSuccess,
            time: 0,
            memory: 0,
            info: String::new(),
        }],
    }
}

#[test]
fn standard_comparison_trims_lines_and_ends() {
    assert!(outputs_match_standard("  1 \n 2  ", "1\n2"));
    assert!(outputs_match_standard("1\r\n2\r", "1\n2"));
    assert!(outputs_match_standard("", "   "));
    assert!(!outputs_match_standard("1\n2", "1\n3"));
    assert!(!outputs_match_standard("1\n2", "1\n2\n3"));
    // An interior blank line is a line of its own.
    assert!(!outputs_match_standard("1\n\n2", "1\n2"));
}

#[test]
fn strict_comparison_is_exact() {
    assert!(outputs_match_strict("1\n2", "1\n2"));
    assert!(!outputs_match_strict("1\n2", "1\n2 "));
    assert!(!outputs_match_strict(" 1", "1"));
    assert!(outputs_match_strict("", ""));
}

#[test]
fn trimming_strips_unicode_whitespace() {
    let v: Vec<char> = "\u{a0} ab c\u{3000}".chars().collect();
    let t = trim_chars(&v);
    let s: String = t.into_iter().collect();
    assert_eq!(s, "ab c");
}

#[test]
fn timestamp_order_is_lexicographic() {
    assert!(str_lex_le(
        "2022-08-27T02:05:29.000Z",
        "2022-08-27T02:05:30.000Z"
    ));
    assert!(!str_lex_le("zzz", "2022-08-27T02:05:30.000Z"));
    assert!(str_lex_le("abc", "abc"));
    assert!(str_lex_le("ab", "abc"));
}

#[test]
fn counter_hands_out_sequential_ids_from_zero() {
    let mut c = JobCounter::new();
    assert_eq!(c.next_id(), 0);
    assert_eq!(c.next_id(), 1);
    assert_eq!(c.next_id(), 2);
}

#[test]
fn admission_rejects_unknown_references_first() {
    let cfg = config();
    let users = vec![User {
        id: Some(0),
        name: "alice".to_string(),
    }];
    let contests = vec![contest(1, vec![0], vec![0], 10)];
    let jobs: Vec<JobResponse> = Vec::new();

    let mut b = body();
    b.language = "Prolog".to_string();
    assert_eq!(
        check_submission(&b, &cfg, &users, &contests, &jobs),
        Err(ApiError::NotFound)
    );

    let mut b = body();
    b.problem_id = 9;
    assert_eq!(
        check_submission(&b, &cfg, &users, &contests, &jobs),
        Err(ApiError::NotFound)
    );

    let mut b = body();
    b.user_id = 5;
    assert_eq!(
        check_submission(&b, &cfg, &users, &contests, &jobs),
        Err(ApiError::NotFound)
    );

    let mut b = body();
    b.contest_id = 9;
    assert_eq!(
        check_submission(&b, &cfg, &users, &contests, &jobs),
        Err(ApiError::NotFound)
    );

    assert_eq!(
        check_submission(&body(), &cfg, &users, &contests, &jobs),
        Ok(())
    );
}

#[test]
fn admission_rejects_non_members() {
    let cfg = config();
    let users = vec![
        User {
            id: Some(0),
            name: "alice".to_string(),
        },
        User {
            id: Some(1),
            name: "bob".to_string(),
        },
    ];
    // Bob is not a member; the problem list misses problem 0.
    let contests = vec![contest(1, vec![0], vec![0], 10), contest(2, vec![0, 1], vec![7], 10)];
    let jobs: Vec<JobResponse> = Vec::new();

    let mut b = body();
    b.user_id = 1;
    assert_eq!(
        check_submission(&b, &cfg, &users, &contests, &jobs),
        Err(ApiError::InvalidArgument)
    );

    let mut b = body();
    b.contest_id = 2;
    assert_eq!(
        check_submission(&b, &cfg, &users, &contests, &jobs),
        Err(ApiError::InvalidArgument)
    );
}

#[test]
fn admission_enforces_submission_quota() {
    let cfg = config();
    let users = vec![User {
        id: Some(0),
        name: "alice".to_string(),
    }];
    let contests = vec![contest(1, vec![0], vec![0], 3)];
    let mut jobs: Vec<JobResponse> = Vec::new();
    for i in 0..3 {
        jobs.push(stored_job(i, body(), 0, "2022-08-27T02:05:29.000Z"));
    }
    assert_eq!(count_quota(&jobs, 0, 0, 1), 3);
    // The fourth submission of the same (user, problem, contest) triple.
    let r = check_submission(&body(), &cfg, &users, &contests, &jobs);
    assert_eq!(r, Err(ApiError::RateLimit));
    assert_eq!(ApiError::RateLimit.code(), 4);
    assert_eq!(ApiError::RateLimit.reason(), "ERR_RATE_LIMIT");

    // A different problem id is not counted against the quota.
    assert_eq!(count_quota(&jobs, 0, 1, 1), 0);
}

#[test]
fn error_codes_match_their_reasons() {
    assert_eq!(ApiError::InvalidArgument.code(), 1);
    assert_eq!(ApiError::NotFound.code(), 3);
    assert_eq!(ApiError::RateLimit.code(), 4);
    assert_eq!(ApiError::InvalidArgument.reason(), "ERR_INVALID_ARGUMENT");
    assert_eq!(ApiError::NotFound.reason(), "ERR_NOT_FOUND");
}

#[test]
fn users_create_rename_and_reject_duplicates() {
    let mut users: Vec<User> = Vec::new();
    let r = post_user(
        &mut users,
        User {
            id: None,
            name: "alice".to_string(),
        },
    );
    let created = r.unwrap();
    assert_eq!(created.id, Some(0));
    assert_eq!(created.name, "alice");

    // A duplicate name is rejected.
    let r = post_user(
        &mut users,
        User {
            id: None,
            name: "alice".to_string(),
        },
    );
    assert!(matches!(r, Err(ApiError::InvalidArgument)));

    // Renaming an unknown id is rejected.
    let r = post_user(
        &mut users,
        User {
            id: Some(9),
            name: "bob".to_string(),
        },
    );
    assert!(matches!(r, Err(ApiError::NotFound)));

    // A rename to a fresh name succeeds in place.
    let r = post_user(
        &mut users,
        User {
            id: Some(0),
            name: "bob".to_string(),
        },
    );
    assert_eq!(r.unwrap().name, "bob");
    assert_eq!(users.len(), 1);
    assert_eq!(users[0].name, "bob");

    // Renaming to a name already taken — the user's own included — fails.
    let r = post_user(
        &mut users,
        User {
            id: Some(0),
            name: "bob".to_string(),
        },
    );
    assert!(matches!(r, Err(ApiError::InvalidArgument)));
}

#[test]
fn contests_assign_ids_one_past_the_count() {
    let mut contests: Vec<Contest> = Vec::new();
    let mut c = contest(0, vec![0], vec![0], 3);
    c.id = None;
    let echoed = post_contest(&mut contests, c);
    assert_eq!(echoed.id, Some(1));
    assert_eq!(contests.len(), 1);

    // A contest that names its own id is echoed, never stored.
    let given = contest(9, vec![0], vec![0], 3);
    let echoed = post_contest(&mut contests, given);
    assert_eq!(echoed.id, Some(9));
    assert_eq!(contests.len(), 1);

    assert_eq!(find_contest(&contests, 1), Some(0));
    assert_eq!(find_contest(&contests, 9), None);
}

#[test]
fn job_queries_filter_on_four_fields() {
    let mut jobs: Vec<JobResponse> = Vec::new();
    jobs.push(stored_job(0, body(), 100, "t0"));
    let mut j1 = stored_job(1, body(), 0, "t1");
    j1.result = JudgeResult::WrongAnswer;
    j1.submission.language = "Python".to_string();
    jobs.push(j1);

    let all = GetJob {
        language: None,
        user_id: None,
        user_name: None,
        contest_id: None,
        problem_id: None,
        from: None,
        to: None,
        state: None,
        result: None,
    };
    assert_eq!(filter_jobs(&jobs, &all).len(), 2);

    let mut by_lang = all;
    by_lang.language = Some("Rust".to_string());
    let got = filter_jobs(&jobs, &by_lang);
    assert_eq!(got.len(), 1);
    assert_eq!(got[0].id, 0);

    let by_result = GetJob {
        language: None,
        user_id: None,
        user_name: None,
        contest_id: None,
        problem_id: None,
        from: None,
        to: None,
        state: None,
        result: Some(JudgeResult::WrongAnswer),
    };
    let got = filter_jobs(&jobs, &by_result);
    assert_eq!(got.len(), 1);
    assert_eq!(got[0].id, 1);

    assert_eq!(find_job(&jobs, 1), Some(1));
    assert_eq!(find_job(&jobs, 7), None);
}

#[test]
fn job_queries_can_filter_on_state() {
    let mut jobs: Vec<JobResponse> = Vec::new();
    jobs.push(stored_job(0, body(), 100, "t0"));
    let mut j1 = stored_job(1, body(), 0, "t1");
    j1.state = State::Running;
    jobs.push(j1);
    let q = GetJob {
        language: None,
        user_id: None,
        user_name: None,
        contest_id: None,
        problem_id: None,
        from: None,
        to: None,
        state: Some(State::Running),
        result: None,
    };
    let got = filter_jobs(&jobs, &q);
    assert_eq!(got.len(), 1);
    assert_eq!(got[0].id, 1);
}

#[test]
fn job_queries_ignore_the_unused_fields() {
    let mut jobs: Vec<JobResponse> = Vec::new();
    jobs.push(stored_job(0, body(), 100, "t0"));
    let q = GetJob {
        language: None,
        user_id: Some(9),
        user_name: Some("nobody".to_string()),
        contest_id: Some(9),
        problem_id: None,
        from: Some("t9".to_string()),
        to: Some("t9".to_string()),
        state: None,
        result: None,
    };
    // Only language, result, problem, and state constrain.
    assert_eq!(filter_jobs(&jobs, &q).len(), 1);
}

#[test]
fn timestamps_have_the_fixed_shape() {
    let t = judge_core::clock::now_timestamp();
    assert_eq!(t.len(), 24);
    assert!(t.ends_with('Z'));
    assert_eq!(&t[4..5], "-");
    assert_eq!(&t[10..11], "T");
}
