use zombie_jobs::cause::{Cause, Fixes};
use zombie_jobs::config::{Config, Variables};
use zombie_jobs::job::{Job, Seconds};
use zombie_jobs::request::{next_page, page_request, InvalidNextPage};
use zombie_jobs::select::{Limit, Window};
use zombie_jobs::text::{chars_of, decimal_text, parse_u32, same_text, text_has, text_precedes};

fn job(id: u32, stage: &str, created_at: &str) -> Job {
    Job {
        id,
        status: "success".to_string(),
        stage: stage.to_string(),
        name: "n".to_string(),
        ref_str: "r".to_string(),
        duration: None,
        queued_duration: Some(Seconds { bits: 0.25f32.to_bits() }),
        created_at: created_at.to_string(),
        finished_at: None,
        failure_reason: None,
        web_url: "https://example.org/jobs/1".to_string(),
        checked_cause: Cause::Unchecked,
        zombie_version: None,
    }
}

fn ids(jobs: &[Job]) -> Vec<u32> {
    jobs.iter().map(|job| job.id).collect()
}

#[test]
fn causes_are_printed_between_quotes() {
    assert_eq!(Cause::Unchecked.to_string(), "\"Unchecked\"");
    assert_eq!(Cause::ZombienetDeployment.to_string(), "\"ZombienetDeployment\"");
    assert_eq!(Cause::FileServerDNSIssue.to_string(), "\"FileServerDNSIssue\"");
    assert_eq!(Cause::Infra.to_string(), "\"Infra\"");
    assert_eq!(Cause::InfraKilled.to_string(), "\"InfraKilled\"");
    assert_eq!(Cause::Assertion.to_string(), "\"Assertion\"");
    assert_eq!(Cause::AlreadyMerged.to_string(), "\"AlreadyMerged\"");
    assert_eq!(
        Cause::AlreadyFixedNeedsRebase(Fixes::PJS).to_string(),
        "\"AlreadyFixedNeedsRebase_PJS\""
    );
    assert_eq!(
        Cause::AlreadyFixedNeedsRebase(Fixes::Deleting).to_string(),
        format!("{:?}", "AlreadyFixedNeedsRebase_Deleting")
    );
}

#[test]
fn a_new_job_is_unchecked() {
    assert_eq!(Cause::default(), Cause::Unchecked);
}

#[test]
fn text_order_agrees_with_strings() {
    let texts = ["", "a", "ab", "b", "2024-10-04T07:17:37Z", "2024-10-04", "\u{e9}", "\u{1f9df}", "\u{ffff}"];
    for a in texts {
        for b in texts {
            assert_eq!(text_precedes(a, b), a < b);
            assert_eq!(same_text(a, b), a == b);
        }
    }
}

#[test]
fn text_search_agrees_with_strings() {
    let texts = ["", "a", "aab", "ab", "aaab", "\u{e9}a", "xaaby", "b\u{e9}"];
    for hay in texts {
        for needle in texts {
            assert_eq!(text_has(&chars_of(hay), needle), hay.contains(needle));
        }
    }
}

#[test]
fn numbers_are_read_as_strings_are_parsed() {
    for text in [
        "", "0", "+0", "7", "007", "+", "-", "-1", "-0", "++1", "1 ", " 1", "1_0", "12a", "4294967295",
        "4294967296", "+4294967295", "99999999999999999999999999", "\u{663}",
    ] {
        assert_eq!(parse_u32(text), text.parse::<u32>().ok());
    }
}

#[test]
fn numbers_are_written_in_decimal() {
    for n in [0u32, 1, 9, 10, 42, 100, 1000, 4294967295] {
        assert_eq!(decimal_text(n), n.to_string());
        assert_eq!(parse_u32(&decimal_text(n)), Some(n));
    }
}

#[test]
fn only_failed_jobs_are_failed() {
    let mut seen = job(1, "zombienet", "2024");
    assert!(!seen.failed());
    seen.status = "failed".to_string();
    assert!(seen.failed());
    seen.status = "Failed".to_string();
    assert!(!seen.failed());
}

#[test]
fn logs_are_found_beside_their_jobs() {
    assert_eq!(job(1, "zombienet", "2024").log_url(), "https://example.org/jobs/1/raw");
}

#[test]
fn pages_are_requested_with_scopes() {
    let request = page_request("https://example.org/jobs", None, &["failed", "success"], 12);
    assert_eq!(
        request.url,
        "https://example.org/jobs?scope[]=failed&scope[]=success&page=12&per_page=100"
    );
    assert_eq!(request.headers, vec![("Accept".to_string(), "application/json".to_string())]);
}

#[test]
fn pages_are_requested_without_scopes() {
    assert_eq!(page_request("b", None, &[], 1).url, "b?page=1&per_page=100");
    assert_ne!(page_request("b", None, &[], 2).url, page_request("b", None, &[], 1).url);
}

#[test]
fn a_token_is_sent_along() {
    let request = page_request("b", Some("secret".to_string()), &["failed"], 1);
    assert_eq!(request.url, "b?scope[]=failed&page=1&per_page=100");
    assert_eq!(
        request.headers,
        vec![
            ("Accept".to_string(), "application/json".to_string()),
            ("PRIVATE-TOKEN".to_string(), "secret".to_string()),
        ]
    );
}

#[test]
fn next_page_of_an_answer() {
    assert_eq!(next_page(None), Ok(None));
    assert_eq!(next_page(Some("3")), Ok(Some(3)));
    assert_eq!(next_page(Some("")), Err(InvalidNextPage));
    assert_eq!(next_page(Some("x")), Err(InvalidNextPage));
}

#[test]
fn defaults_of_the_settings() {
    let nothing = Variables {
        jobs_file: None,
        base_url: None,
        max_pages: None,
        token: None,
        base_date: None,
        end_date: None,
    };
    let config = Config::from_variables(nothing);
    assert_eq!(
        config,
        Config {
            jobs_file: "zombie_jobs.csv".to_string(),
            base_url: "https://gitlab.parity.io/api/v4/projects/674/jobs".to_string(),
            max_pages: 1000,
            token: None,
            base_date: None,
            end_date: None,
        }
    );
}

fn pages(text: &str) -> u32 {
    Config::from_variables(Variables {
        jobs_file: None,
        base_url: None,
        max_pages: Some(text.to_string()),
        token: None,
        base_date: None,
        end_date: None,
    })
    .max_pages
}

#[test]
fn settings_of_the_environment() {
    let config = Config::from_variables(Variables {
        jobs_file: Some("f".to_string()),
        base_url: Some("u".to_string()),
        max_pages: Some("5".to_string()),
        token: Some("t".to_string()),
        base_date: Some("2024-01-01".to_string()),
        end_date: Some("2025-01-01".to_string()),
    });
    assert_eq!(
        config,
        Config {
            jobs_file: "f".to_string(),
            base_url: "u".to_string(),
            max_pages: 5,
            token: Some("t".to_string()),
            base_date: Some("2024-01-01".to_string()),
            end_date: Some("2025-01-01".to_string()),
        }
    );
    assert_eq!(pages("0"), 0);
    assert_eq!(pages("many"), 1000);
    assert_eq!(pages("-1"), 1000);
    assert_eq!(pages("4294967296"), 1000);
}

#[test]
fn selection_keeps_new_zombienet_jobs() {
    let window = Window { last_id: 5, base_date: None, end_date: None };
    let selection = window.select(vec![
        job(9, "zombienet", "2024-03"),
        job(8, "build", "2024-02"),
        job(7, "zombienet", "2024-01"),
    ]);
    assert_eq!(ids(&selection.jobs), vec![9, 7]);
    assert_eq!(selection.limit, None);
}

#[test]
fn selection_stops_at_the_last_stored_id() {
    let window = Window { last_id: 5, base_date: None, end_date: None };
    let selection = window.select(vec![
        job(6, "zombienet", "a"),
        job(4, "build", "a"),
        job(5, "zombienet", "a"),
        job(3, "zombienet", "a"),
        job(8, "zombienet", "a"),
    ]);
    assert_eq!(ids(&selection.jobs), vec![6, 8]);
    assert_eq!(selection.limit, Some(Limit::StoredId { id: 5 }));
}

#[test]
fn jobs_of_other_stages_show_no_limit() {
    let window = Window { last_id: 5, base_date: Some("2024".to_string()), end_date: None };
    let selection = window.select(vec![job(1, "build", "2020")]);
    assert_eq!(ids(&selection.jobs), Vec::<u32>::new());
    assert_eq!(selection.limit, None);
}

#[test]
fn selection_lies_strictly_between_the_dates() {
    let window = Window {
        last_id: 0,
        base_date: Some("2024-01-01".to_string()),
        end_date: Some("2024-02-01".to_string()),
    };
    let selection = window.select(vec![
        job(4, "zombienet", "2024-02-01"),
        job(3, "zombienet", "2024-01-31T23:59:59Z"),
        job(2, "zombienet", "2024-01-01T00:00:00Z"),
        job(1, "zombienet", "2024-01-01"),
    ]);
    assert_eq!(ids(&selection.jobs), vec![3, 2]);
    assert_eq!(selection.limit, Some(Limit::Date { created_at: "2024-02-01".to_string() }));
}

#[test]
fn reversed_dates_select_nothing() {
    let window = Window {
        last_id: 0,
        base_date: Some("2024-02-01".to_string()),
        end_date: Some("2024-01-01".to_string()),
    };
    let selection = window.select(vec![job(2, "zombienet", "2024-01-15")]);
    assert_eq!(ids(&selection.jobs), Vec::<u32>::new());
}

#[test]
fn selection_is_stable() {
    let window = Window { last_id: 5, base_date: None, end_date: None };
    let first = window.select(vec![job(6, "zombienet", "a"), job(5, "zombienet", "a")]);
    let again = window.select(first.jobs.clone());
    assert_eq!(again.jobs, first.jobs);
    assert_eq!(again.limit, None);
}
