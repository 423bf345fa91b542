use zombie_jobs::analysis::{analyze_job, classify, detect_version};
use zombie_jobs::cause::{Cause, Fixes};
use zombie_jobs::job::{Job, Seconds};

const START: &str = "Tests are currently running. Results will appear at the end\n";

fn job() -> Job {
    Job {
        id: 7,
        status: "failed".to_string(),
        stage: "zombienet".to_string(),
        name: "zombienet-0001".to_string(),
        ref_str: "master".to_string(),
        duration: Some(Seconds { bits: 1.5f32.to_bits() }),
        queued_duration: None,
        created_at: "2024-10-04T07:17:37Z".to_string(),
        finished_at: None,
        failure_reason: Some("script_failure".to_string()),
        web_url: "https://example.org/jobs/7".to_string(),
        checked_cause: Cause::Unchecked,
        zombie_version: None,
    }
}

fn started(rest: &str) -> String {
    format!("{}{}", START, rest)
}

#[test]
fn killed_runner() {
    let log = "line 164:    96 Killed       zombie\n+ EXIT_STATUS=137\nExit status is 137\n";
    assert_eq!(classify(log), Some(Cause::InfraKilled));
}

#[test]
fn killed_comes_before_everything_else() {
    let log = started("Network launched\nOne or more of your test failed\nKilled\nExit status is 137");
    assert_eq!(classify(&log), Some(Cause::InfraKilled));
}

#[test]
fn killed_needs_both_signs() {
    assert_eq!(classify("Killed"), Some(Cause::Infra));
    assert_eq!(classify("Exit status is 137"), Some(Cause::Infra));
}

#[test]
fn deployed_with_old_polkadot_js() {
    let log = started("Network launched\nError: createType(ExtrinsicUnknown):: x\nDeleting network");
    assert_eq!(classify(&log), Some(Cause::AlreadyFixedNeedsRebase(Fixes::PJS)));
}

#[test]
fn deployed_with_failed_test() {
    let log = started("Network launched\nDeleting network\nOne or more of your test failed");
    assert_eq!(classify(&log), Some(Cause::Assertion));
}

#[test]
fn deployed_with_failed_removal() {
    let log = started("Network launched\nDeleting network");
    assert_eq!(classify(&log), Some(Cause::AlreadyFixedNeedsRebase(Fixes::Deleting)));
}

#[test]
fn deployed_without_complaint_is_left_open() {
    assert_eq!(classify(&started("Network launched")), None);
}

#[test]
fn not_deployed_without_file_server() {
    let log = started("wget: unable to resolve host address 'fileserver'");
    assert_eq!(classify(&log), Some(Cause::FileServerDNSIssue));
}

#[test]
fn not_deployed() {
    assert_eq!(classify(START), Some(Cause::ZombienetDeployment));
}

#[test]
fn not_started_on_a_merged_branch() {
    assert_eq!(classify("fatal: couldn't find remote ref x"), Some(Cause::AlreadyMerged));
    // Only a run that did not start can be too late.
    let log = started("fatal: couldn't find remote ref x");
    assert_eq!(classify(&log), Some(Cause::ZombienetDeployment));
}

#[test]
fn not_started() {
    assert_eq!(classify(""), Some(Cause::Infra));
    assert_eq!(classify("Network launched"), Some(Cause::Infra));
}

#[test]
fn version_of_the_image() {
    let log = "Using docker image docker.io/paritytech/zombienet:v1.3.105 for";
    assert_eq!(detect_version(log), Some("v1.3.105".to_string()));
}

#[test]
fn version_is_the_leftmost() {
    let log = "docker.io/paritytech/zombienet:latest docker.io/paritytech/zombienet:v1.3.9\n\
        docker.io/paritytech/zombienet:v1.4.0";
    assert_eq!(detect_version(log), Some("v1.3.9".to_string()));
}

#[test]
fn version_separators_are_any_characters_but_line_feeds() {
    let image = "docker.io/paritytech/zombienet:";
    assert_eq!(detect_version(&format!("{}v1-2\u{e9}30x", image)), Some("v1-2\u{e9}30".to_string()));
    assert_eq!(detect_version(&format!("{}v1\r2.3", image)), Some("v1\r2.3".to_string()));
    assert_eq!(detect_version(&format!("{}v1\n2.3", image)), None);
    assert_eq!(detect_version(&format!("{}v1.2\n3", image)), None);
}

#[test]
fn no_version() {
    assert_eq!(detect_version(""), None);
    assert_eq!(detect_version("dockerXio/paritytech/zombienet:v1.3.105"), None);
    assert_eq!(detect_version("docker.io/paritytech/zombienet:v1.3."), None);
    assert_eq!(detect_version("docker.io/paritytech/zombienet:v12.3.1"), None);
    assert_eq!(detect_version("docker.io/paritytech/zombienet:1.3.105"), None);
    // Digits of other scripts do not count.
    assert_eq!(detect_version("docker.io/paritytech/zombienet:v1.3.\u{663}"), None);
}

#[test]
fn version_ends_with_the_text() {
    assert_eq!(
        detect_version("\u{1f9df} docker.io/paritytech/zombienet:v1.3.1"),
        Some("v1.3.1".to_string())
    );
}

#[test]
fn analysis_sets_version_and_cause_and_nothing_else() {
    let mut seen = job();
    let log = started("docker.io/paritytech/zombienet:v1.3.68");
    analyze_job(&mut seen, &log);
    let expected = Job {
        checked_cause: Cause::ZombienetDeployment,
        zombie_version: Some("v1.3.68".to_string()),
        ..job()
    };
    assert_eq!(seen, expected);
    analyze_job(&mut seen, &log);
    assert_eq!(seen, expected);
}

#[test]
fn analysis_sets_the_version_of_a_killed_job() {
    let mut seen = job();
    analyze_job(&mut seen, "docker.io/paritytech/zombienet:v1.3.68 Killed Exit status is 137");
    assert_eq!(seen.checked_cause, Cause::InfraKilled);
    assert_eq!(seen.zombie_version, Some("v1.3.68".to_string()));
}

#[test]
fn analysis_keeps_what_the_log_does_not_tell() {
    let mut seen = Job {
        checked_cause: Cause::Assertion,
        zombie_version: Some("v1.2.3".to_string()),
        ..job()
    };
    analyze_job(&mut seen, &started("Network launched"));
    assert_eq!(seen.checked_cause, Cause::Assertion);
    assert_eq!(seen.zombie_version, Some("v1.2.3".to_string()));
}
