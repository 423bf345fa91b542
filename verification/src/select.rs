//! Which jobs of a page are new and worth keeping.

use crate::job::{views, Job, JobView};
use crate::text::{lemma_precedes_transitive, precedes, same_text, text_precedes};
use vstd::prelude::*;

verus! {

/// The stage whose jobs are collected.
pub const ZOMBIENET_STAGE: &'static str = "zombienet";

/// The jobs that are asked for: those with an id above the last stored one, created after the
/// base date and before the end date, as far as these are given.
#[derive(Debug, PartialEq, Eq)]
pub struct Window {
    pub last_id: u32,
    pub base_date: Option<String>,
    pub end_date: Option<String>,
}

/// What a window says.
pub struct WindowView {
    pub last_id: u32,
    pub base_date: Option<Seq<char>>,
    pub end_date: Option<Seq<char>>,
}

impl View for Window {
    type V = WindowView;

    open spec fn view(&self) -> WindowView {
        WindowView {
            last_id: self.last_id,
            base_date: self.base_date.deep_view(),
            end_date: self.end_date.deep_view(),
        }
    }
}

/// The bound of the window that a job violates.
#[derive(Debug, PartialEq, Eq)]
pub enum Limit {
    /// The job is not above the last stored id.
    StoredId { id: u32 },
    /// The job was not created between the two dates.
    Date { created_at: String },
}

/// What a limit says.
pub enum LimitView {
    StoredId { id: u32 },
    Date { created_at: Seq<char> },
}

impl View for Limit {
    type V = LimitView;

    open spec fn view(&self) -> LimitView {
        match self {
            Limit::StoredId { id } => LimitView::StoredId { id: *id },
            Limit::Date { created_at } => LimitView::Date { created_at: created_at@ },
        }
    }
}

impl DeepView for Limit {
    type V = LimitView;

    open spec fn deep_view(&self) -> LimitView {
        self@
    }
}

impl WindowView {
    /// Whether a job lies in the window.
    pub open spec fn holds(self, job: JobView) -> bool {
        &&& job.id > self.last_id
        &&& self.base_date matches Some(base) ==> precedes(base, job.created_at)
        &&& self.end_date matches Some(end) ==> precedes(job.created_at, end)
    }

    /// Whether a job is kept: it belongs to the zombienet stage and lies in the window.
    pub open spec fn wants(self, job: JobView) -> bool {
        job.stage == ZOMBIENET_STAGE@ && self.holds(job)
    }

    /// Whether a job shows that the window has been left: it belongs to the zombienet stage
    /// and does not lie in the window. Jobs of other stages show nothing.
    pub open spec fn ends_at(self, job: JobView) -> bool {
        job.stage == ZOMBIENET_STAGE@ && !self.holds(job)
    }

    /// The bound that a job outside the window violates. The id is looked at first.
    pub open spec fn limit_of(self, job: JobView) -> LimitView {
        if job.id <= self.last_id {
            LimitView::StoredId { id: job.id }
        } else {
            LimitView::Date { created_at: job.created_at }
        }
    }

    /// The jobs that are kept, in the order in which they came.
    pub open spec fn selected(self, jobs: Seq<JobView>) -> Seq<JobView> {
        jobs.filter(|job: JobView| self.wants(job))
    }

    /// The bound violated by the first job that shows the window has been left.
    pub open spec fn limit_in(self, jobs: Seq<JobView>) -> Option<LimitView>
        decreases jobs.len(),
    {
        if jobs.len() == 0 {
            None
        } else if self.limit_in(jobs.drop_last()) is Some {
            self.limit_in(jobs.drop_last())
        } else if self.ends_at(jobs.last()) {
            Some(self.limit_of(jobs.last()))
        } else {
            None
        }
    }
}

/// What becomes of the jobs of a page.
#[derive(Debug, PartialEq, Eq)]
pub struct Selection {
    /// The jobs that are kept.
    pub jobs: Vec<Job>,
    /// The bound at which the window was left, if it was.
    pub limit: Option<Limit>,
}

impl Window {
    /// Whether a job lies in the window.
    pub fn holds(&self, job: &Job) -> (held: bool)
        ensures
            held == self@.holds(job@),
    {
        let base_date_ok = match &self.base_date {
            Some(base_date) => text_precedes(base_date.as_str(), job.created_at.as_str()),
            None => true,
        };
        let end_date_ok = match &self.end_date {
            Some(end_date) => text_precedes(job.created_at.as_str(), end_date.as_str()),
            None => true,
        };
        job.id > self.last_id && base_date_ok && end_date_ok
    }

    /// Keeps the zombienet jobs that lie in the window, and notes where it was left.
    pub fn select(&self, jobs: Vec<Job>) -> (selection: Selection)
        ensures
            views(selection.jobs@) == self@.selected(views(jobs@)),
            selection.limit.deep_view() == self@.limit_in(views(jobs@)),
    {
        let ghost all = views(jobs@);
        let mut kept: Vec<Job> = Vec::new();
        let mut limit: Option<Limit> = None;
        for job in it: jobs.into_iter()
            invariant
                views(it.seq()) == all,
                views(kept@) == self@.selected(all.take(it.index() as int)),
                limit.deep_view() == self@.limit_in(all.take(it.index() as int)),
        {
            let ghost i = it.index() as int;
            proof {
                reveal(Seq::filter);
                assert(all.take(i + 1).drop_last() =~= all.take(i));
                assert(all.take(i + 1).last() == job@);
            }
            if same_text(job.stage.as_str(), ZOMBIENET_STAGE) {
                if self.holds(&job) {
                    let ghost before = views(kept@);
                    let ghost added = job@;
                    kept.push(job);
                    assert(views(kept@) =~= before.push(added));
                } else if limit.is_none() {
                    limit = Some(
                        if job.id <= self.last_id {
                            Limit::StoredId { id: job.id }
                        } else {
                            Limit::Date { created_at: job.created_at }
                        },
                    );
                }
            }
        }
        assert(all.take(all.len() as int) =~= all);
        Selection { jobs: kept, limit }
    }
}

/// A job is kept exactly if it is on the page and the window wants it.
pub proof fn lemma_selected_exactly(window: WindowView, jobs: Seq<JobView>, job: JobView)
    ensures
        window.selected(jobs).contains(job) <==> jobs.contains(job) && window.wants(job),
{
    let wants = |j: JobView| window.wants(j);
    if window.selected(jobs).contains(job) {
        jobs.lemma_filter_contains_rev(wants, job);
        let k = choose|k: int| 0 <= k < window.selected(jobs).len() && window.selected(jobs)[k] == job;
        jobs.lemma_filter_pred(wants, k);
    }
    if jobs.contains(job) && window.wants(job) {
        let i = choose|i: int| 0 <= i < jobs.len() && jobs[i] == job;
        jobs.lemma_filter_contains(wants, i);
    }
}

/// A limit is noted exactly if some zombienet job of the page lies outside the window, and it is
/// that of the first such job.
pub proof fn lemma_limit_of_first_outside(window: WindowView, jobs: Seq<JobView>)
    ensures
        window.limit_in(jobs) is None <==> forall|i: int|
            0 <= i < jobs.len() ==> !window.ends_at(#[trigger] jobs[i]),
        forall|i: int|
            0 <= i < jobs.len() && window.ends_at(#[trigger] jobs[i]) && (forall|k: int|
                0 <= k < i ==> !window.ends_at(#[trigger] jobs[k])) ==> window.limit_in(jobs)
                == Some(window.limit_of(jobs[i])),
    decreases jobs.len(),
{
    if jobs.len() > 0 {
        let rest = jobs.drop_last();
        lemma_limit_of_first_outside(window, rest);
        assert(forall|i: int| 0 <= i < rest.len() ==> rest[i] == jobs[i]);
        assert forall|i: int|
            0 <= i < jobs.len() && window.ends_at(#[trigger] jobs[i]) && (forall|k: int|
                0 <= k < i ==> !window.ends_at(#[trigger] jobs[k])) implies window.limit_in(jobs)
            == Some(window.limit_of(jobs[i])) by {
            if i < rest.len() {
                assert(window.ends_at(rest[i]));
                assert forall|k: int| 0 <= k < i implies !window.ends_at(#[trigger] rest[k]) by {
                    assert(!window.ends_at(jobs[k]));
                }
            } else {
                assert forall|k: int| 0 <= k < rest.len() implies !window.ends_at(
                    #[trigger] rest[k],
                ) by {
                    assert(!window.ends_at(jobs[k]));
                }
            }
        }
        if window.limit_in(jobs) is None {
            assert forall|i: int| 0 <= i < jobs.len() implies !window.ends_at(
                #[trigger] jobs[i],
            ) by {
                if i < rest.len() {
                    assert(!window.ends_at(rest[i]));
                }
            }
        }
        if forall|i: int| 0 <= i < jobs.len() ==> !window.ends_at(#[trigger] jobs[i]) {
            assert(!window.ends_at(jobs[jobs.len() - 1]));
            assert forall|k: int| 0 <= k < rest.len() implies !window.ends_at(
                #[trigger] rest[k],
            ) by {
                assert(!window.ends_at(jobs[k]));
            }
        }
    }
}

/// Selecting from what was selected changes nothing and meets no limit.
pub proof fn lemma_selection_is_stable(window: WindowView, jobs: Seq<JobView>)
    ensures
        window.selected(window.selected(jobs)) == window.selected(jobs),
        window.limit_in(window.selected(jobs)) is None,
{
    let wants = |j: JobView| window.wants(j);
    let kept = window.selected(jobs);
    assert forall|i: int| 0 <= i < kept.len() implies window.wants(#[trigger] kept[i]) by {
        jobs.lemma_filter_pred(wants, i);
    }
    lemma_filter_of_all(kept, wants);
    lemma_limit_of_first_outside(window, kept);
}

/// A filter that every element passes keeps the whole sequence.
proof fn lemma_filter_of_all<A>(s: Seq<A>, pred: spec_fn(A) -> bool)
    requires
        forall|i: int| 0 <= i < s.len() ==> pred(#[trigger] s[i]),
    ensures
        s.filter(pred) == s,
    decreases s.len(),
{
    reveal(Seq::filter);
    if s.len() > 0 {
        assert(forall|i: int| 0 <= i < s.len() - 1 ==> s.drop_last()[i] == s[i]);
        lemma_filter_of_all(s.drop_last(), pred);
        assert(s.drop_last().push(s.last()) =~= s);
    }
}

/// A base date that does not come before the end date leaves no job to keep.
pub proof fn lemma_reversed_dates_select_nothing(window: WindowView, jobs: Seq<JobView>)
    requires
        window.base_date is Some,
        window.end_date is Some,
        !precedes(window.base_date->0, window.end_date->0),
    ensures
        window.selected(jobs) == Seq::<JobView>::empty(),
{
    let wants = |j: JobView| window.wants(j);
    assert forall|i: int| 0 <= i < jobs.len() implies !wants(#[trigger] jobs[i]) by {
        if window.holds(jobs[i]) {
            lemma_precedes_transitive(
                window.base_date->0,
                jobs[i].created_at,
                window.end_date->0,
            );
        }
    }
    jobs.lemma_all_neg_filter_empty(wants);
    assert(window.selected(jobs) =~= Seq::<JobView>::empty());
}

} // verus!
