//! Finds out from the log of a failed job why it failed and which zombienet it ran.

use crate::cause::{Cause, Fixes};
use crate::job::{Job, JobView};
use crate::text::{chars_of, has_text, is_digit, stands_at, text_has};
use vstd::prelude::*;

verus! {

/// Zombienet has started.
pub const ZOMBIE_START: &'static str =
    "Tests are currently running. Results will appear at the end";

/// The file server has no address.
pub const ZOMBIE_FILESERVER_ISSUE: &'static str = "unable to resolve host address 'fileserver'";

/// The network was deployed.
pub const ZOMBIE_DEPLOYED: &'static str = "Network launched";

/// A test has failed.
pub const ZOMBIE_TEST_FAIL: &'static str = "One or more of your test failed";

/// The network is being removed.
pub const ZOMBIE_DELETING: &'static str = "Deleting network";

/// A process was killed.
pub const ZOMBIE_KILLED_1: &'static str = "Killed";

/// A script ended because it was killed.
pub const ZOMBIE_KILLED_2: &'static str = "Exit status is 137";

/// Polkadot JS is too old.
pub const ZOMBIE_PJS_UPGRADE: &'static str = "Error: createType(ExtrinsicUnknown)";

/// The branch is gone.
pub const ZOMBIE_ALREADY_MERGED: &'static str = "fatal: couldn't find remote ref";

/// What the log says about the cause: `None` where it leaves the question open.
pub open spec fn verdict(log: Seq<char>) -> Option<Cause> {
    if has_text(log, ZOMBIE_KILLED_1@) && has_text(log, ZOMBIE_KILLED_2@) {
        Some(Cause::InfraKilled)
    } else if has_text(log, ZOMBIE_START@) {
        if has_text(log, ZOMBIE_DEPLOYED@) {
            if has_text(log, ZOMBIE_PJS_UPGRADE@) {
                Some(Cause::AlreadyFixedNeedsRebase(Fixes::PJS))
            } else if has_text(log, ZOMBIE_TEST_FAIL@) {
                Some(Cause::Assertion)
            } else if has_text(log, ZOMBIE_DELETING@) {
                Some(Cause::AlreadyFixedNeedsRebase(Fixes::Deleting))
            } else {
                None
            }
        } else if has_text(log, ZOMBIE_FILESERVER_ISSUE@) {
            Some(Cause::FileServerDNSIssue)
        } else {
            Some(Cause::ZombienetDeployment)
        }
    } else if has_text(log, ZOMBIE_ALREADY_MERGED@) {
        Some(Cause::AlreadyMerged)
    } else {
        Some(Cause::Infra)
    }
}

/// What the log says about the cause of the failure, if anything.
pub fn classify(log: &str) -> (cause: Option<Cause>)
    ensures
        cause == verdict(log@),
{
    let log = chars_of(log);
    // A killed runner leaves something like this behind, wherever the tests were:
    //   run-test-local-env-manager.sh: line 164:    96 Killed      zombie test $i
    //   + EXIT_STATUS=137
    //   2024-10-04 07:17:37 - INFO - Exit status is 137
    if text_has(&log, ZOMBIE_KILLED_1) && text_has(&log, ZOMBIE_KILLED_2) {
        return Some(Cause::InfraKilled);
    }
    if text_has(&log, ZOMBIE_START) {
        if text_has(&log, ZOMBIE_DEPLOYED) {
            if text_has(&log, ZOMBIE_PJS_UPGRADE) {
                Some(Cause::AlreadyFixedNeedsRebase(Fixes::PJS))
            } else if text_has(&log, ZOMBIE_TEST_FAIL) {
                Some(Cause::Assertion)
            } else if text_has(&log, ZOMBIE_DELETING) {
                Some(Cause::AlreadyFixedNeedsRebase(Fixes::Deleting))
            } else {
                None
            }
        } else if text_has(&log, ZOMBIE_FILESERVER_ISSUE) {
            Some(Cause::FileServerDNSIssue)
        } else {
            Some(Cause::ZombienetDeployment)
        }
    } else if text_has(&log, ZOMBIE_ALREADY_MERGED) {
        Some(Cause::AlreadyMerged)
    } else {
        Some(Cause::Infra)
    }
}

/// The image that a version is read from.
pub const VERSION_IMAGE: &'static str = "docker.io/paritytech/zombienet:";

/// The image followed by its version, which is the first group.
pub const VERSION_PATTERN: &'static str =
    r"docker\.io\/paritytech\/zombienet:(v[0-9].[0-9].[0-9]+)";

/// Whether the image stands in the log at `at`, followed by a version: `v` and three numbers, the
/// first two of one digit, with any two characters between them that are no line breaks.
pub open spec fn names_version(log: Seq<char>, at: int) -> bool {
    let v = at + VERSION_IMAGE@.len();
    &&& stands_at(log, VERSION_IMAGE@, at)
    &&& v + 6 <= log.len()
    &&& log[v] == 'v'
    &&& is_digit(log[v + 1])
    &&& log[v + 2] != '\n'
    &&& is_digit(log[v + 3])
    &&& log[v + 4] != '\n'
    &&& is_digit(log[v + 5])
}

/// Where the digits that start at `from` end.
pub open spec fn digits_end(log: Seq<char>, from: int) -> int
    decreases log.len() - from,
{
    if 0 <= from < log.len() && is_digit(log[from]) {
        digits_end(log, from + 1)
    } else {
        from
    }
}

/// The version named at `at` or at the first place after it that names one.
pub open spec fn version_from(log: Seq<char>, at: int) -> Option<Seq<char>>
    decreases log.len() - at,
{
    if at >= log.len() {
        None
    } else if names_version(log, at) {
        let v = at + VERSION_IMAGE@.len();
        Some(log.subrange(v, digits_end(log, v + 5)))
    } else {
        version_from(log, at + 1)
    }
}

/// The version that the log names first.
pub open spec fn version_in(log: Seq<char>) -> Option<Seq<char>> {
    version_from(log, 0)
}

/// Calls `regex::Regex::new` on the pattern, `Regex::captures` on the text, and `Captures::get`
/// for the first group. Of the one pattern that it is called with, the claim is that it compiles,
/// and that the group holds what follows the image at the leftmost place where the image and a
/// version stand, with as many digits at its end as there are; and nothing if there is no such
/// place. In the pattern a class of digits holds the ten ASCII digits, and a dot any character
/// but a line feed.
#[verifier::external_body]
fn first_group(pattern: &str, text: &str) -> (group: Option<String>)
    requires
        pattern@ == VERSION_PATTERN@,
    ensures
        group.deep_view() == version_in(text@),
{
    let compiled = regex::Regex::new(pattern).unwrap();
    let captures = compiled.captures(text)?;
    captures.get(1).map(|group| group.as_str().to_string())
}

/// The version of zombienet that the log names first.
pub fn detect_version(log: &str) -> (version: Option<String>)
    ensures
        version.deep_view() == version_in(log@),
{
    first_group(VERSION_PATTERN, log)
}

/// The job after its log was read: the version and the cause are those that the log tells, and
/// stay where it tells none; nothing else changes.
pub open spec fn analyzed(job: JobView, log: Seq<char>) -> JobView {
    JobView {
        zombie_version: if version_in(log) is Some {
            version_in(log)
        } else {
            job.zombie_version
        },
        checked_cause: match verdict(log) {
            Some(cause) => cause,
            None => job.checked_cause,
        },
        ..job
    }
}

/// Reads the log of a job and notes the version and the cause.
pub fn analyze_job(job: &mut Job, log: &str)
    ensures
        final(job)@ == analyzed(old(job)@, log@),
{
    if let Some(version) = detect_version(log) {
        job.zombie_version = Some(version);
    }
    if let Some(cause) = classify(log) {
        job.checked_cause = cause;
    }
}

/// A log leaves the cause open exactly if the tests started on a deployed network, nobody
/// killed the runner, and the log holds none of the three complaints.
pub proof fn lemma_verdict_open_exactly(log: Seq<char>)
    ensures
        verdict(log) is None <==> {
            &&& !(has_text(log, ZOMBIE_KILLED_1@) && has_text(log, ZOMBIE_KILLED_2@))
            &&& has_text(log, ZOMBIE_START@)
            &&& has_text(log, ZOMBIE_DEPLOYED@)
            &&& !has_text(log, ZOMBIE_PJS_UPGRADE@)
            &&& !has_text(log, ZOMBIE_TEST_FAIL@)
            &&& !has_text(log, ZOMBIE_DELETING@)
        },
{
}

/// No log makes a job unchecked again.
pub proof fn lemma_verdict_is_a_check(log: Seq<char>)
    ensures
        verdict(log) != Some(Cause::Unchecked),
{
}

/// Whether the version that was found is what stands behind the image at `at`: it starts with
/// `v`, ends with a digit, and no digit follows it.
pub open spec fn version_stands_at(log: Seq<char>, at: int) -> bool {
    let v = at + VERSION_IMAGE@.len();
    let end = v + version_in(log)->0.len();
    &&& version_in(log) is Some
    &&& v + 6 <= end <= log.len()
    &&& version_in(log)->0 == log.subrange(v, end)
    &&& version_in(log)->0[0] == 'v'
    &&& is_digit(log[end - 1])
    &&& end < log.len() ==> !is_digit(log[end])
}

/// A version is found exactly if some place of the log names one. It is then the one at the
/// leftmost such place.
pub proof fn lemma_version_is_leftmost(log: Seq<char>)
    ensures
        version_in(log) is None <==> forall|at: int| !names_version(log, at),
        forall|at: int|
            #![trigger names_version(log, at)]
            names_version(log, at) && (forall|k: int| k < at ==> !names_version(log, k))
                ==> version_stands_at(log, at),
{
    lemma_version_from(log, 0);
    assert forall|at: int| #[trigger]
        names_version(log, at) && (forall|k: int| k < at ==> !names_version(log, k)) implies
        version_stands_at(log, at) by {
        let v = at + VERSION_IMAGE@.len();
        lemma_digits_end(log, v + 5);
        assert(version_in(log) == Some(log.subrange(v, digits_end(log, v + 5))));
    }
}

/// The search from `from` on finds the first place that names a version.
proof fn lemma_version_from(log: Seq<char>, from: int)
    requires
        0 <= from,
    ensures
        version_from(log, from) is None <==> forall|at: int|
            from <= at ==> !names_version(log, at),
        forall|at: int|
            #![trigger names_version(log, at)]
            from <= at && names_version(log, at) && (forall|k: int|
                from <= k < at ==> !names_version(log, k)) ==> version_from(log, from) == Some(
                log.subrange(
                    at + VERSION_IMAGE@.len(),
                    digits_end(log, at + VERSION_IMAGE@.len() + 5),
                ),
            ),
    decreases log.len() - from,
{
    if from < log.len() {
        lemma_version_from(log, from + 1);
        if names_version(log, from) {
        } else {
            assert forall|at: int|
                #![trigger names_version(log, at)]
                from <= at && names_version(log, at) && (forall|k: int|
                    from <= k < at ==> !names_version(log, k)) implies version_from(log, from)
                == Some(
                log.subrange(
                    at + VERSION_IMAGE@.len(),
                    digits_end(log, at + VERSION_IMAGE@.len() + 5),
                ),
            ) by {
                assert(from + 1 <= at);
            }
            if version_from(log, from) is None {
                assert forall|at: int| from <= at implies !names_version(log, at) by {
                    if at > from {
                        assert(from + 1 <= at);
                    }
                }
            }
        }
    }
}

/// Digits stand up to their end, and none at it.
proof fn lemma_digits_end(log: Seq<char>, from: int)
    requires
        0 <= from <= log.len(),
    ensures
        from <= digits_end(log, from) <= log.len(),
        digits_end(log, from) < log.len() ==> !is_digit(log[digits_end(log, from)]),
        forall|i: int| from <= i < digits_end(log, from) ==> is_digit(#[trigger] log[i]),
    decreases log.len() - from,
{
    if from < log.len() && is_digit(log[from]) {
        lemma_digits_end(log, from + 1);
    }
}

/// Reading the same log again changes nothing.
pub proof fn lemma_analysis_is_idempotent(job: JobView, log: Seq<char>)
    ensures
        analyzed(analyzed(job, log), log) == analyzed(job, log),
{
}

} // verus!
