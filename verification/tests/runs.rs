use zombie_jobs::cause::Cause;
use zombie_jobs::config::Config;
use zombie_jobs::job::Job;
use zombie_jobs::run::{Action, Event, Page, Run};
use zombie_jobs::select::Limit;
use zombie_jobs::store::{Store, CSV};

fn config(max_pages: u32) -> Config {
    Config {
        jobs_file: "f".to_string(),
        base_url: "https://example.org/jobs".to_string(),
        max_pages,
        token: Some("secret".to_string()),
        base_date: None,
        end_date: None,
    }
}

fn job(id: u32, status: &str, stage: &str) -> Job {
    Job {
        id,
        status: status.to_string(),
        stage: stage.to_string(),
        name: "n".to_string(),
        ref_str: "r".to_string(),
        duration: None,
        queued_duration: None,
        created_at: "2024-10-04T07:17:37Z".to_string(),
        finished_at: None,
        failure_reason: None,
        web_url: format!("https://example.org/{}", id),
        checked_cause: Cause::Unchecked,
        zombie_version: None,
    }
}

fn page(jobs: Vec<Job>, next_page: Option<u32>) -> Event {
    Event::Page(Page { jobs, next_page })
}

fn fetched_page(action: &Action) -> u32 {
    match action {
        Action::Fetch { page, .. } => *page,
        other => panic!("not a fetch: {:?}", other),
    }
}

fn appended(action: Action) -> Vec<Job> {
    match action {
        Action::Append(jobs) => jobs,
        other => panic!("not an append: {:?}", other),
    }
}

#[test]
fn a_run_starts_at_the_first_page() {
    let (_, action) = Run::start(config(10), 0);
    match action {
        Action::Fetch { page, request } => {
            assert_eq!(page, 1);
            assert_eq!(
                request.url,
                "https://example.org/jobs?scope[]=failed&scope[]=success&page=1&per_page=100"
            );
            assert_eq!(request.headers.len(), 2);
        }
        other => panic!("not a fetch: {:?}", other),
    }
}

#[test]
fn a_page_without_jobs_is_appended_as_it_is() {
    let (run, _) = Run::start(config(10), 0);
    let (run, action) = run.step(page(vec![job(1, "failed", "build")], None));
    assert_eq!(appended(action), vec![]);
    let (run, action) = run.step(Event::Appended);
    assert_eq!(action, Action::Save);
    let (_, action) = run.step(Event::Saved);
    assert_eq!(action, Action::Finish);
}

#[test]
fn failed_jobs_are_analyzed_in_batches() {
    let jobs: Vec<Job> = (1..=12)
        .rev()
        .map(|id| job(id, if id % 2 == 0 { "failed" } else { "success" }, "zombienet"))
        .collect();
    let (run, _) = Run::start(config(10), 0);
    let (run, action) = run.step(page(jobs, Some(2)));
    assert_eq!(
        action,
        Action::Read(vec![
            "https://example.org/12/raw".to_string(),
            "https://example.org/10/raw".to_string(),
            "https://example.org/8/raw".to_string(),
            "https://example.org/6/raw".to_string(),
            "https://example.org/4/raw".to_string(),
        ])
    );
    let started = "Tests are currently running. Results will appear at the end".to_string();
    let logs = vec![Some(String::new()), None, Some(started), None, None];
    let (run, action) = run.step(Event::Logs(logs));
    assert_eq!(action, Action::Read(vec!["https://example.org/2/raw".to_string()]));
    let (run, action) = run.step(Event::Logs(vec![Some("fatal: couldn't find remote ref".to_string())]));
    let stored = appended(action);
    let causes: Vec<(u32, Cause)> = stored.iter().map(|job| (job.id, job.checked_cause)).collect();
    assert_eq!(causes.len(), 12);
    assert_eq!(causes[0], (12, Cause::Infra));
    assert_eq!(causes[1], (11, Cause::Unchecked));
    assert_eq!(causes[2], (10, Cause::Unchecked));
    assert_eq!(causes[4], (8, Cause::ZombienetDeployment));
    assert_eq!(causes[10], (2, Cause::AlreadyMerged));
    assert_eq!(causes[11], (1, Cause::Unchecked));
    let (_, action) = run.step(Event::Appended);
    assert_eq!(fetched_page(&action), 2);
}

#[test]
fn a_batch_of_successful_jobs_reads_no_logs() {
    let (run, _) = Run::start(config(10), 0);
    let (run, action) = run.step(page(vec![job(1, "success", "zombienet")], None));
    assert_eq!(action, Action::Read(vec![]));
    assert!(run.accepts(&Event::Logs(vec![])));
    assert!(!run.accepts(&Event::Logs(vec![None])));
    let (_, action) = run.step(Event::Logs(vec![]));
    assert_eq!(appended(action), vec![job(1, "success", "zombienet")]);
}

#[test]
fn no_page_is_fetched_after_the_limit() {
    let (run, _) = Run::start(config(10), 5);
    let jobs = vec![job(6, "success", "zombienet"), job(5, "success", "zombienet")];
    let (run, _) = run.step(page(jobs, Some(2)));
    assert_eq!(run.limit(), &Some(Limit::StoredId { id: 5 }));
    let (run, action) = run.step(Event::Logs(vec![]));
    assert_eq!(appended(action), vec![job(6, "success", "zombienet")]);
    let (_, action) = run.step(Event::Appended);
    assert_eq!(action, Action::Save);
}

fn pages_fetched(max_pages: u32) -> Vec<u32> {
    let (mut run, mut action) = Run::start(config(max_pages), 0);
    let mut pages = vec![];
    while action != Action::Save {
        let number = fetched_page(&action);
        pages.push(number);
        assert_eq!(run.limit(), &None);
        let (next, _) = run.step(page(vec![], Some(number + 1)));
        (run, action) = next.step(Event::Appended);
    }
    pages
}

#[test]
fn pages_beyond_the_number_of_pages_are_not_fetched() {
    assert_eq!(pages_fetched(2), vec![1, 2]);
    assert_eq!(pages_fetched(1), vec![1]);
    assert_eq!(pages_fetched(1000).len(), 1000);
}

#[test]
fn the_first_page_is_fetched_in_any_case() {
    assert_eq!(pages_fetched(0), vec![1]);
}

#[test]
fn the_server_names_the_next_page() {
    let (run, _) = Run::start(config(1000), 0);
    let (run, _) = run.step(page(vec![], Some(7)));
    let (run, action) = run.step(Event::Appended);
    assert_eq!(fetched_page(&action), 7);
    let (run, _) = run.step(page(vec![], None));
    let (_, action) = run.step(Event::Appended);
    assert_eq!(action, Action::Save);
}

#[test]
fn failures_end_the_run() {
    let (run, _) = Run::start(config(10), 0);
    let (run, action) = run.step(Event::Failed);
    assert_eq!(action, Action::Abort);
    for event in [Event::Failed, Event::Appended, Event::Saved, Event::Logs(vec![]), page(vec![], None)] {
        assert!(!run.accepts(&event));
    }
    let (run, _) = Run::start(config(10), 0);
    let (run, _) = run.step(page(vec![], None));
    let (_, action) = run.step(Event::Failed);
    assert_eq!(action, Action::Abort);
    let (run, _) = Run::start(config(10), 0);
    let (run, _) = run.step(page(vec![], None));
    let (run, _) = run.step(Event::Appended);
    let (_, action) = run.step(Event::Failed);
    assert_eq!(action, Action::Abort);
}

#[test]
fn only_what_was_asked_for_is_accepted() {
    let (run, _) = Run::start(config(10), 0);
    assert!(run.accepts(&page(vec![], None)));
    assert!(run.accepts(&Event::Failed));
    assert!(!run.accepts(&Event::Appended));
    assert!(!run.accepts(&Event::Logs(vec![])));
    assert!(!run.accepts(&Event::Saved));
}

#[test]
fn the_file_stays_newest_first_over_two_runs() {
    let mut stored: Vec<Job> = vec![];
    for newest in [3u32, 6] {
        let mut store = CSV::new("f", stored);
        let (run, _) = Run::start(config(10), store.last_id());
        let jobs = (1..=newest).rev().map(|id| job(id, "success", "zombienet")).collect();
        let (run, _) = run.step(page(jobs, None));
        let (run, action) = run.step(Event::Logs(vec![]));
        store.append(appended(action));
        let (_, action) = run.step(Event::Appended);
        assert_eq!(action, Action::Save);
        stored = store.save().unwrap().into_iter().cloned().collect();
    }
    let ids: Vec<u32> = stored.iter().map(|job| job.id).collect();
    assert_eq!(ids, vec![6, 5, 4, 3, 2, 1]);
}
