//! A job of the pipeline.

use crate::cause::Cause;
use crate::text::same_text;
use vstd::prelude::*;

verus! {

/// The status of a job that failed.
pub const STATUS_FAILED: &'static str = "failed";

/// A number of seconds, held as the bits of an IEEE 754 number of single precision.
#[derive(Debug, Clone, Copy, PartialEq, Eq, Structural)]
pub struct Seconds {
    pub bits: u32,
}

/// A job, as the server describes it and as the analysis completes it.
#[derive(Debug, Clone, PartialEq, Eq)]
pub struct Job {
    pub id: u32,
    pub status: String,
    pub stage: String,
    pub name: String,
    pub ref_str: String,
    pub duration: Option<Seconds>,
    pub queued_duration: Option<Seconds>,
    pub created_at: String,
    pub finished_at: Option<String>,
    pub failure_reason: Option<String>,
    pub web_url: String,
    pub checked_cause: Cause,
    /// Only set on failed jobs.
    pub zombie_version: Option<String>,
}

/// What a job says, with its strings as sequences of characters.
pub struct JobView {
    pub id: u32,
    pub status: Seq<char>,
    pub stage: Seq<char>,
    pub name: Seq<char>,
    pub ref_str: Seq<char>,
    pub duration: Option<Seconds>,
    pub queued_duration: Option<Seconds>,
    pub created_at: Seq<char>,
    pub finished_at: Option<Seq<char>>,
    pub failure_reason: Option<Seq<char>>,
    pub web_url: Seq<char>,
    pub checked_cause: Cause,
    pub zombie_version: Option<Seq<char>>,
}

impl View for Job {
    type V = JobView;

    open spec fn view(&self) -> JobView {
        JobView {
            id: self.id,
            status: self.status@,
            stage: self.stage@,
            name: self.name@,
            ref_str: self.ref_str@,
            duration: self.duration,
            queued_duration: self.queued_duration,
            created_at: self.created_at@,
            finished_at: self.finished_at.deep_view(),
            failure_reason: self.failure_reason.deep_view(),
            web_url: self.web_url@,
            checked_cause: self.checked_cause,
            zombie_version: self.zombie_version.deep_view(),
        }
    }
}

impl JobView {
    /// Whether the job failed.
    pub open spec fn failed(self) -> bool {
        self.status == STATUS_FAILED@
    }
}

/// What a list of jobs says, job by job.
pub open spec fn views(jobs: Seq<Job>) -> Seq<JobView> {
    jobs.map_values(|job: Job| job@)
}

impl Job {
    /// Whether the job failed, so that its log is worth reading.
    pub fn failed(&self) -> (failed: bool)
        ensures
            failed == self@.failed(),
    {
        same_text(self.status.as_str(), STATUS_FAILED)
    }
}

} // verus!
