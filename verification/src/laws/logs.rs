//! What a log tells about a failed job.

use crate::analysis::{
    analyze_job, classify, detect_version, digits_end, names_version, version_from, version_in,
};
use crate::cause::{Cause, Fixes};
use crate::job::Job;
use crate::laws::reading::{
    lemma_occurs_in_what_is_around, lemma_search_finds_what_occurs, lemma_the_ten_digits, occurs,
};
use crate::text::{is_digit, stands_at};
use vstd::prelude::*;

verus! {

/// Which messages, present and absent, lead to which cause. A killed runner comes before all
/// else; then it matters whether the tests started and whether the network was deployed; and on a
/// deployed network an old Polkadot JS comes before a failed test, and that before the removal.
pub proof fn lemma_causes_by_messages(log: &str, cause: Option<Cause>)
    requires
        call_ensures(classify, (log,), cause),
    ensures
        ({
            let killed = occurs(log@, "Killed"@) && occurs(log@, "Exit status is 137"@);
            let started = occurs(
                log@,
                "Tests are currently running. Results will appear at the end"@,
            );
            let deployed = occurs(log@, "Network launched"@);
            let old_pjs = occurs(log@, "Error: createType(ExtrinsicUnknown)"@);
            let test_failed = occurs(log@, "One or more of your test failed"@);
            let deleting = occurs(log@, "Deleting network"@);
            let no_file_server = occurs(log@, "unable to resolve host address 'fileserver'"@);
            let merged = occurs(log@, "fatal: couldn't find remote ref"@);
            &&& cause == Some(Cause::InfraKilled) <==> killed
            &&& cause == Some(Cause::AlreadyFixedNeedsRebase(Fixes::PJS)) <==> !killed && started
                && deployed && old_pjs
            &&& cause == Some(Cause::Assertion) <==> !killed && started && deployed && !old_pjs
                && test_failed
            &&& cause == Some(Cause::AlreadyFixedNeedsRebase(Fixes::Deleting)) <==> !killed
                && started && deployed && !old_pjs && !test_failed && deleting
            &&& cause is None <==> !killed && started && deployed && !old_pjs && !test_failed
                && !deleting
            &&& cause == Some(Cause::FileServerDNSIssue) <==> !killed && started && !deployed
                && no_file_server
            &&& cause == Some(Cause::ZombienetDeployment) <==> !killed && started && !deployed
                && !no_file_server
            &&& cause == Some(Cause::AlreadyMerged) <==> !killed && !started && merged
            &&& cause == Some(Cause::Infra) <==> !killed && !started && !merged
            &&& cause != Some(Cause::Unchecked)
        }),
{
    lemma_search_finds_what_occurs(log@, "Killed"@);
    lemma_search_finds_what_occurs(log@, "Exit status is 137"@);
    lemma_search_finds_what_occurs(
        log@,
        "Tests are currently running. Results will appear at the end"@,
    );
    lemma_search_finds_what_occurs(log@, "Network launched"@);
    lemma_search_finds_what_occurs(log@, "Error: createType(ExtrinsicUnknown)"@);
    lemma_search_finds_what_occurs(log@, "One or more of your test failed"@);
    lemma_search_finds_what_occurs(log@, "Deleting network"@);
    lemma_search_finds_what_occurs(log@, "unable to resolve host address 'fileserver'"@);
    lemma_search_finds_what_occurs(log@, "fatal: couldn't find remote ref"@);
}

/// Whatever stands around the log of a killed runner, it stays one.
pub proof fn lemma_killed_stays_killed(
    part: &str,
    cause: Option<Cause>,
    log: &str,
    whole: Option<Cause>,
    before: Seq<char>,
    after: Seq<char>,
)
    requires
        call_ensures(classify, (part,), cause),
        cause == Some(Cause::InfraKilled),
        call_ensures(classify, (log,), whole),
        log@ == before + part@ + after,
    ensures
        whole == Some(Cause::InfraKilled),
{
    lemma_causes_by_messages(part, cause);
    lemma_causes_by_messages(log, whole);
    lemma_occurs_in_what_is_around(before, part@, after, "Killed"@);
    lemma_occurs_in_what_is_around(before, part@, after, "Exit status is 137"@);
}

/// Whether a text is a version: `v`, a digit, any character, a digit, any character, and digits to
/// its end, at least one; neither of the two characters is a line feed.
pub open spec fn is_version(text: Seq<char>) -> bool {
    &&& text.len() >= 6
    &&& text[0] == 'v'
    &&& "0123456789"@.contains(text[1])
    &&& text[2] != '\n'
    &&& "0123456789"@.contains(text[3])
    &&& text[4] != '\n'
    &&& forall|i: int| 5 <= i < text.len() ==> "0123456789"@.contains(#[trigger] text[i])
}

/// Whether a log is made of something, the image, a version, and something that does not go on
/// with a digit.
pub open spec fn splits_at_version(
    log: Seq<char>,
    head: Seq<char>,
    version: Seq<char>,
    tail: Seq<char>,
) -> bool {
    &&& log == head + "docker.io/paritytech/zombienet:"@ + version + tail
    &&& is_version(version)
    &&& tail.len() > 0 ==> !"0123456789"@.contains(tail[0])
}

/// Where the log splits at a version, a version is named there and ends where the rest begins.
proof fn lemma_split_names_version(
    log: Seq<char>,
    head: Seq<char>,
    version: Seq<char>,
    tail: Seq<char>,
)
    requires
        splits_at_version(log, head, version, tail),
    ensures
        names_version(log, head.len() as int),
        digits_end(log, (head.len() + "docker.io/paritytech/zombienet:"@.len() + 5) as int)
            == log.len() - tail.len(),
        log.subrange(
            (head.len() + "docker.io/paritytech/zombienet:"@.len()) as int,
            log.len() - tail.len(),
        ) == version,
{
    let image = "docker.io/paritytech/zombienet:"@;
    let at = head.len() as int;
    let v = at + image.len();
    assert(log.subrange(at, v) =~= image);
    assert(log.subrange(v, log.len() - tail.len()) =~= version);
    assert(forall|i: int| 0 <= i < version.len() ==> log[v + i] == #[trigger] version[i]);
    lemma_the_ten_digits(version[1]);
    lemma_the_ten_digits(version[3]);
    lemma_the_ten_digits(version[5]);
    assert(log[v] == version[0] && log[v + 1] == version[1] && log[v + 2] == version[2] && log[v
        + 3] == version[3] && log[v + 4] == version[4] && log[v + 5] == version[5]);
    assert(stands_at(log, image, at));
    let end = log.len() - tail.len();
    assert forall|i: int| v + 5 <= i < end implies is_digit(#[trigger] log[i]) by {
        assert(log[i] == version[i - v]);
        lemma_the_ten_digits(version[i - v]);
    }
    if end < log.len() {
        assert(log[end] == tail[0]);
        lemma_the_ten_digits(tail[0]);
    }
    lemma_digits_end_at(log, v + 5, end);
}

/// Digits end where no digit stands any more.
proof fn lemma_digits_end_at(log: Seq<char>, from: int, end: int)
    requires
        0 <= from <= end <= log.len(),
        forall|i: int| from <= i < end ==> is_digit(#[trigger] log[i]),
        end < log.len() ==> !is_digit(log[end]),
    ensures
        digits_end(log, from) == end,
    decreases end - from,
{
    if from < end {
        assert(is_digit(log[from]));
        lemma_digits_end_at(log, from + 1, end);
    }
}

/// Where digits end, none stands, and up to there all are digits.
proof fn lemma_end_of_digits(log: Seq<char>, from: int)
    requires
        0 <= from <= log.len(),
    ensures
        from <= digits_end(log, from) <= log.len(),
        digits_end(log, from) < log.len() ==> !is_digit(log[digits_end(log, from)]),
        forall|i: int| from <= i < digits_end(log, from) ==> is_digit(#[trigger] log[i]),
    decreases log.len() - from,
{
    if from < log.len() && is_digit(log[from]) {
        lemma_end_of_digits(log, from + 1);
    }
}

/// Where a version is named, the log splits at it.
proof fn lemma_named_version_splits(log: Seq<char>, at: int)
    requires
        names_version(log, at),
    ensures
        ({
            let v = at + "docker.io/paritytech/zombienet:"@.len();
            let end = digits_end(log, v + 5);
            splits_at_version(log, log.take(at), log.subrange(v, end), log.skip(end))
        }),
{
    let image = "docker.io/paritytech/zombienet:"@;
    let v = at + image.len();
    let end = digits_end(log, v + 5);
    lemma_end_of_digits(log, v + 5);
    assert(end > v + 5);
    let version = log.subrange(v, end);
    assert(log =~= log.take(at) + image + version + log.skip(end)) by {
        assert(log.subrange(at, v) == image);
        assert(forall|i: int| at <= i < v ==> log[i] == #[trigger] log.subrange(at, v)[i - at]);
    }
    lemma_the_ten_digits(log[v + 1]);
    lemma_the_ten_digits(log[v + 3]);
    assert forall|i: int| 5 <= i < version.len() implies "0123456789"@.contains(
        #[trigger] version[i],
    ) by {
        assert(is_digit(log[v + i]));
        lemma_the_ten_digits(log[v + i]);
    }
    if end < log.len() {
        lemma_the_ten_digits(log[end]);
    }
}

/// The search from `from` on finds nothing, or stops at the first place that names a version.
proof fn lemma_search_for_version(log: Seq<char>, from: int)
    requires
        0 <= from,
    ensures
        version_from(log, from) is None ==> forall|at: int|
            from <= at ==> !names_version(log, at),
        version_from(log, from) matches Some(version) ==> exists|at: int|
            {
                let v = at + "docker.io/paritytech/zombienet:"@.len();
                &&& from <= at
                &&& #[trigger] names_version(log, at)
                &&& forall|k: int| from <= k < at ==> !names_version(log, k)
                &&& version == log.subrange(v, digits_end(log, v + 5))
            },
    decreases log.len() - from,
{
    if from < log.len() && !names_version(log, from) {
        lemma_search_for_version(log, from + 1);
        if version_from(log, from) is Some {
            let version = version_from(log, from)->0;
            let at = choose|at: int|
                {
                    let v = at + "docker.io/paritytech/zombienet:"@.len();
                    &&& from + 1 <= at
                    &&& #[trigger] names_version(log, at)
                    &&& forall|k: int| from + 1 <= k < at ==> !names_version(log, k)
                    &&& version == log.subrange(v, digits_end(log, v + 5))
                };
            assert(names_version(log, at));
        } else {
            assert forall|at: int| from <= at implies !names_version(log, at) by {
                if at > from {
                    assert(from + 1 <= at);
                }
            }
        }
    }
}

/// The version that is found stands behind the image, with all of its digits, at the leftmost place
/// where a version stands behind it; none is found exactly if there is no such place.
pub proof fn lemma_version_found(log: &str, version: Option<String>)
    requires
        call_ensures(detect_version, (log,), version),
    ensures
        version is None ==> forall|head: Seq<char>, other: Seq<char>, tail: Seq<char>|
            !splits_at_version(log@, head, other, tail),
        version matches Some(found) ==> {
            &&& exists|head: Seq<char>, tail: Seq<char>|
                #[trigger] splits_at_version(log@, head, found@, tail)
            &&& forall|head: Seq<char>, other: Seq<char>, tail: Seq<char>|
                #[trigger] splits_at_version(log@, head, other, tail) ==> exists|
                    first: Seq<char>,
                    rest: Seq<char>,
                |
                    #[trigger] splits_at_version(log@, first, found@, rest) && first.len()
                        <= head.len()
        },
{
    let text = log@;
    lemma_search_for_version(text, 0);
    match version {
        None => {
            assert forall|head: Seq<char>, other: Seq<char>, tail: Seq<char>|
                !splits_at_version(text, head, other, tail) by {
                if splits_at_version(text, head, other, tail) {
                    lemma_split_names_version(text, head, other, tail);
                }
            }
        },
        Some(found) => {
            assert(version_in(text) == Some(found@));
            let at = choose|at: int|
                {
                    let v = at + "docker.io/paritytech/zombienet:"@.len();
                    &&& 0 <= at
                    &&& #[trigger] names_version(text, at)
                    &&& forall|k: int| 0 <= k < at ==> !names_version(text, k)
                    &&& found@ == text.subrange(v, digits_end(text, v + 5))
                };
            let v = at + "docker.io/paritytech/zombienet:"@.len();
            let end = digits_end(text, v + 5);
            lemma_named_version_splits(text, at);
            assert(splits_at_version(text, text.take(at), found@, text.skip(end)));
            assert forall|head: Seq<char>, other: Seq<char>, tail: Seq<char>|
                #[trigger] splits_at_version(text, head, other, tail) implies exists|
                first: Seq<char>,
                rest: Seq<char>,
            |
                #[trigger] splits_at_version(text, first, found@, rest) && first.len()
                    <= head.len() by {
                lemma_split_names_version(text, head, other, tail);
                assert(at <= head.len());
                assert(text.take(at).len() == at);
            }
        },
    }
}

/// Reading a log notes the cause and the version that it tells, keeps what it does not tell, and
/// leaves everything else of the job alone.
pub proof fn lemma_reading_a_log(log: &str, cause: Option<Cause>, version: Option<String>)
    requires
        call_ensures(classify, (log,), cause),
        call_ensures(detect_version, (log,), version),
    ensures
        forall|job: &mut Job| #[trigger]
            call_ensures(analyze_job, (job, log), ()) ==> {
                &&& final(job).id == (*job).id
                &&& final(job).status@ == (*job).status@
                &&& final(job).stage@ == (*job).stage@
                &&& final(job).name@ == (*job).name@
                &&& final(job).ref_str@ == (*job).ref_str@
                &&& final(job).duration == (*job).duration
                &&& final(job).queued_duration == (*job).queued_duration
                &&& final(job).created_at@ == (*job).created_at@
                &&& final(job).finished_at.deep_view() == (*job).finished_at.deep_view()
                &&& final(job).failure_reason.deep_view() == (*job).failure_reason.deep_view()
                &&& final(job).web_url@ == (*job).web_url@
                &&& cause matches Some(told) ==> final(job).checked_cause == told
                &&& cause is None ==> final(job).checked_cause == (*job).checked_cause
                &&& version is Some ==> final(job).zombie_version.deep_view()
                    == version.deep_view()
                &&& version is None ==> final(job).zombie_version.deep_view()
                    == (*job).zombie_version.deep_view()
            },
{
    assert forall|job: &mut Job| #[trigger] call_ensures(analyze_job, (job, log), ()) implies {
        &&& final(job)@.status == (*job)@.status
        &&& final(job)@.id == (*job)@.id
    } by {}
}

} // verus!
