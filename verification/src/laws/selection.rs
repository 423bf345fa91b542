//! Which jobs of a page are kept.

use crate::job::{views, Job, JobView};
use crate::laws::reading::{comes_before, lemma_order_is_decided_at_the_first_difference};
use crate::select::{lemma_selected_exactly, Limit, Selection, Window, WindowView};
use vstd::prelude::*;

verus! {

/// A view of a job says what the job says, field by field.
pub proof fn lemma_what_a_job_says(job: Job)
    ensures
        job@.id == job.id,
        job@.status == job.status@,
        job@.stage == job.stage@,
        job@.name == job.name@,
        job@.ref_str == job.ref_str@,
        job@.duration == job.duration,
        job@.queued_duration == job.queued_duration,
        job@.created_at == job.created_at@,
        job@.finished_at == job.finished_at.deep_view(),
        job@.failure_reason == job.failure_reason.deep_view(),
        job@.web_url == job.web_url@,
        job@.checked_cause == job.checked_cause,
        job@.zombie_version == job.zombie_version.deep_view(),
{
}

/// The views of some jobs are the views of each, in their order.
pub proof fn lemma_what_jobs_say(jobs: Seq<Job>)
    ensures
        views(jobs).len() == jobs.len(),
        forall|i: int| 0 <= i < jobs.len() ==> #[trigger] views(jobs)[i] == jobs[i]@,
{
}

/// Whether a job was created after the base date.
pub open spec fn after_base(window: Window, job: Job) -> bool {
    window.base_date matches Some(base) ==> comes_before(base@, job.created_at@)
}

/// Whether a job was created before the end date.
pub open spec fn before_end(window: Window, job: Job) -> bool {
    window.end_date matches Some(end) ==> comes_before(job.created_at@, end@)
}

/// Whether a job is asked for: it is of the stage, above the last stored id, and between the
/// dates, as far as they are given.
pub open spec fn asked_for(window: Window, job: Job) -> bool {
    &&& job.stage@ == "zombienet"@
    &&& job.id > window.last_id
    &&& after_base(window, job)
    &&& before_end(window, job)
}

/// A window holds exactly the jobs above its id and between its dates.
pub proof fn lemma_window_holds(window: Window, job: Job, held: bool)
    requires
        call_ensures(Window::holds, (&window, &job), held),
    ensures
        held <==> job.id > window.last_id && after_base(window, job) && before_end(window, job),
{
    lemma_wants_what_is_asked_for(window, job);
}

/// The window wants the jobs that are asked for, and is left at the others of the stage.
proof fn lemma_wants_what_is_asked_for(window: Window, job: Job)
    ensures
        window@.holds(job@) <==> job.id > window.last_id && after_base(window, job) && before_end(
            window,
            job,
        ),
        window@.wants(job@) <==> asked_for(window, job),
        window@.ends_at(job@) <==> job.stage@ == "zombienet"@ && !asked_for(window, job),
{
    if window.base_date is Some {
        lemma_order_is_decided_at_the_first_difference(window.base_date->0@, job.created_at@);
    }
    if window.end_date is Some {
        lemma_order_is_decided_at_the_first_difference(job.created_at@, window.end_date->0@);
    }
}

/// Every job that is kept is on the page, of the stage, above the last stored id, created after
/// the base date if there is one, and before the end date if there is one.
pub proof fn lemma_kept_jobs_are_asked_for(
    window: Window,
    jobs: Vec<Job>,
    selection: Selection,
    i: int,
)
    requires
        call_ensures(Window::select, (&window, jobs), selection),
        0 <= i < selection.jobs@.len(),
    ensures
        exists|k: int| 0 <= k < jobs@.len() && (#[trigger] jobs@[k])@ == selection.jobs@[i]@,
        selection.jobs@[i].stage@ == "zombienet"@,
        selection.jobs@[i].id > window.last_id,
        window.base_date matches Some(base) ==> comes_before(
            base@,
            selection.jobs@[i].created_at@,
        ),
        window.end_date matches Some(end) ==> comes_before(selection.jobs@[i].created_at@, end@),
{
    let job = selection.jobs@[i];
    let all = views(jobs@);
    assert(views(selection.jobs@)[i] == job@);
    lemma_selected_exactly(window@, all, job@);
    let k = choose|k: int| 0 <= k < all.len() && all[k] == job@;
    assert(jobs@[k]@ == job@);
    lemma_wants_what_is_asked_for(window, job);
}

/// Every job of the page that is asked for is kept: a job of the stage above the last stored id is
/// left out only if one of the given dates excludes it.
pub proof fn lemma_jobs_asked_for_are_kept(
    window: Window,
    jobs: Vec<Job>,
    selection: Selection,
    k: int,
)
    requires
        call_ensures(Window::select, (&window, jobs), selection),
        0 <= k < jobs@.len(),
        jobs@[k].stage@ == "zombienet"@,
        jobs@[k].id > window.last_id,
    ensures
        (exists|i: int|
            0 <= i < selection.jobs@.len() && (#[trigger] selection.jobs@[i])@ == jobs@[k]@) || (
        window.base_date is Some && !comes_before(window.base_date->0@, jobs@[k].created_at@)) || (
        window.end_date is Some && !comes_before(jobs@[k].created_at@, window.end_date->0@)),
{
    let job = jobs@[k];
    lemma_wants_what_is_asked_for(window, job);
    lemma_selected_exactly(window@, views(jobs@), job@);
    assert(views(jobs@)[k] == job@);
    if asked_for(window, job) {
        let kept = views(selection.jobs@);
        let i = choose|i: int| 0 <= i < kept.len() && kept[i] == job@;
        assert(selection.jobs@[i]@ == job@);
    }
}

/// A page of one job: the job is kept if it is asked for. Otherwise, if it is of the stage, the
/// window is left at it, by its id if that is not above the last stored one, else by its date.
pub proof fn lemma_page_of_one_job(window: Window, jobs: Vec<Job>, selection: Selection)
    requires
        call_ensures(Window::select, (&window, jobs), selection),
        jobs@.len() == 1,
    ensures
        ({
            let job = jobs@[0];
            &&& asked_for(window, job) ==> {
                &&& selection.jobs@.len() == 1
                &&& selection.jobs@[0]@ == job@
                &&& selection.limit is None
            }
            &&& !asked_for(window, job) ==> selection.jobs@.len() == 0
            &&& job.stage@ != "zombienet"@ ==> selection.limit is None
            &&& !asked_for(window, job) && job.stage@ == "zombienet"@ && job.id <= window.last_id
                ==> selection.limit == Some(Limit::StoredId { id: job.id })
            &&& !asked_for(window, job) && job.stage@ == "zombienet"@ && job.id > window.last_id
                ==> (selection.limit matches Some(Limit::Date { created_at }) && created_at@
                == job.created_at@)
        }),
{
    reveal(Seq::filter);
    let job = jobs@[0];
    let all = views(jobs@);
    lemma_wants_what_is_asked_for(window, job);
    assert(all.last() == job@);
    assert(all.drop_last() =~= Seq::<JobView>::empty());
    let wants = |j: JobView| window@.wants(j);
    assert(all.drop_last().filter(wants) =~= Seq::<JobView>::empty());
    assert(window@.limit_in(all.drop_last()) is None);
    assert(window@.selected(all) =~= (if asked_for(window, job) {
        seq![job@]
    } else {
        Seq::empty()
    }));
    assert(views(selection.jobs@).len() == selection.jobs@.len());
    if asked_for(window, job) {
        assert(views(selection.jobs@)[0] == selection.jobs@[0]@);
    }
    match selection.limit {
        Some(Limit::StoredId { id }) => {},
        Some(Limit::Date { created_at }) => {},
        None => {},
    }
}

/// An empty page gives nothing.
pub proof fn lemma_empty_page(window: Window, jobs: Vec<Job>, selection: Selection)
    requires
        call_ensures(Window::select, (&window, jobs), selection),
        jobs@.len() == 0,
    ensures
        selection.jobs@.len() == 0,
        selection.limit is None,
{
    reveal(Seq::filter);
    assert(views(jobs@).len() == 0);
    assert(views(selection.jobs@).len() == selection.jobs@.len());
}

/// The first bound violated on a page and what follows it.
proof fn lemma_limit_of_two_parts(window: WindowView, first: Seq<JobView>, second: Seq<JobView>)
    ensures
        window.limit_in(first + second) == (if window.limit_in(first) is Some {
            window.limit_in(first)
        } else {
            window.limit_in(second)
        }),
    decreases second.len(),
{
    if second.len() == 0 {
        assert(first + second =~= first);
    } else {
        lemma_limit_of_two_parts(window, first, second.drop_last());
        assert((first + second).drop_last() =~= first + second.drop_last());
        assert((first + second).last() == second.last());
    }
}

/// A page in two parts: what is kept of it is what is kept of the first part, followed by what is
/// kept of the second; and the window is left where it is left first.
pub proof fn lemma_page_in_two_parts(
    window: Window,
    first: Vec<Job>,
    of_first: Selection,
    second: Vec<Job>,
    of_second: Selection,
    whole: Vec<Job>,
    of_whole: Selection,
)
    requires
        whole@ == first@ + second@,
        call_ensures(Window::select, (&window, first), of_first),
        call_ensures(Window::select, (&window, second), of_second),
        call_ensures(Window::select, (&window, whole), of_whole),
    ensures
        views(of_whole.jobs@) == views(of_first.jobs@) + views(of_second.jobs@),
        of_first.limit is Some ==> of_whole.limit.deep_view() == of_first.limit.deep_view(),
        of_first.limit is None ==> of_whole.limit.deep_view() == of_second.limit.deep_view(),
{
    assert(views(whole@) =~= views(first@) + views(second@));
    Seq::filter_distributes_over_add(
        views(first@),
        views(second@),
        |job: JobView| window@.wants(job),
    );
    lemma_limit_of_two_parts(window@, views(first@), views(second@));
}

} // verus!
