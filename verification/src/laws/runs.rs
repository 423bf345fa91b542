//! What a run asks for, reads, stores, and when it stops.

use crate::analysis::analyzed;
use crate::config::Config;
use crate::history::{
    after, analyzed_or_same, appended, as_its_log_tells, last_action, legal,
    lemma_only_wanted_jobs_are_appended, lemma_settings_stay, lemma_store_gets_what_was_selected,
    offered, own_log,
};
use crate::job::{views, JobView};
use crate::laws::reading::{comes_before, lemma_order_is_decided_at_the_first_difference};
use crate::request::{Request, RequestView};
use crate::run::{
    batch_end, batch_urls, failed_between, with_logs, Action, ActionView, Event, EventView, Page,
    PhaseView, Run, RunView,
};
use crate::select::{
    lemma_limit_of_first_outside, lemma_selected_exactly, Limit, LimitView, Selection, Window,
    WindowView,
};
use crate::text::decimal;
use vstd::prelude::*;

verus! {

/// Whether a job lies above the last stored id and between the dates, as far as they are given.
pub open spec fn lies_in(window: WindowView, job: JobView) -> bool {
    &&& job.id > window.last_id
    &&& window.base_date matches Some(base) ==> comes_before(base, job.created_at)
    &&& window.end_date matches Some(end) ==> comes_before(job.created_at, end)
}

/// What a window wants, and where it is left.
proof fn lemma_lies_in(window: WindowView, job: JobView)
    ensures
        window.holds(job) <==> lies_in(window, job),
        window.wants(job) <==> job.stage == "zombienet"@ && lies_in(window, job),
        window.ends_at(job) <==> job.stage == "zombienet"@ && !lies_in(window, job),
{
    if window.base_date is Some {
        lemma_order_is_decided_at_the_first_difference(window.base_date->0, job.created_at);
    }
    if window.end_date is Some {
        lemma_order_is_decided_at_the_first_difference(job.created_at, window.end_date->0);
    }
}

/// Whether a page leaves the window: some job of the stage does not lie in it.
pub open spec fn leaves(window: WindowView, jobs: Seq<JobView>) -> bool {
    exists|i: int|
        0 <= i < jobs.len() && (#[trigger] jobs[i]).stage == "zombienet"@ && !lies_in(
            window,
            jobs[i],
        )
}

/// A limit is noted exactly if the page leaves the window.
proof fn lemma_limit_where_the_window_is_left(window: WindowView, jobs: Seq<JobView>)
    ensures
        window.limit_in(jobs) is Some <==> leaves(window, jobs),
{
    lemma_limit_of_first_outside(window, jobs);
    assert forall|i: int| 0 <= i < jobs.len() implies (window.ends_at(#[trigger] jobs[i])
        <==> jobs[i].stage == "zombienet"@ && !lies_in(window, jobs[i])) by {
        lemma_lies_in(window, jobs[i]);
    }
}

/// Whether a request asks for a page of the failed and the successful jobs, a hundred of them, in
/// the name of the token if there is one.
pub open spec fn asks_for(
    request: RequestView,
    base_url: Seq<char>,
    token: Option<Seq<char>>,
    page: u32,
) -> bool {
    &&& request.url == base_url + "?"@ + "scope[]="@ + "failed"@ + "&"@ + "scope[]="@ + "success"@
        + "&"@ + "page="@ + decimal(page as nat) + "&per_page=100"@
    &&& request.headers.len() == (if token is Some {
        2int
    } else {
        1
    })
    &&& request.headers[0] == ("Accept"@, "application/json"@)
    &&& token matches Some(token) ==> request.headers[1] == ("PRIVATE-TOKEN"@, token)
}

/// A request says its place and its headers, in their order.
pub proof fn lemma_what_a_request_says(request: Request)
    ensures
        request@.url == request.url@,
        request@.headers.len() == request.headers@.len(),
        forall|i: int|
            0 <= i < request.headers@.len() ==> (#[trigger] request@.headers[i]).0
                == request.headers@[i].0@ && request@.headers[i].1 == request.headers@[i].1@,
{
}

/// An event says what came.
pub proof fn lemma_what_events_say(event: Event)
    ensures
        event matches Event::Page(page) ==> (event@ matches EventView::Page { jobs, next_page } && {
            &&& jobs == views(page.jobs@)
            &&& next_page == page.next_page
        }),
        event matches Event::Logs(logs) ==> (event@ matches EventView::Logs(seen) && {
            &&& seen.len() == logs@.len()
            &&& forall|i: int| 0 <= i < logs@.len() ==> #[trigger] seen[i] == logs@[i].deep_view()
        }),
        event is Appended <==> event@ is Appended,
        event is Saved <==> event@ is Saved,
        event is Failed <==> event@ is Failed,
{
}

/// An action says what is to be done.
pub proof fn lemma_what_actions_say(action: Action)
    ensures
        action matches Action::Fetch { page, request } ==> action@ == (ActionView::Fetch {
            page,
            request: request@,
        }),
        action matches Action::Read(urls) ==> (action@ matches ActionView::Read(seen) && {
            &&& seen.len() == urls@.len()
            &&& forall|i: int| 0 <= i < urls@.len() ==> #[trigger] seen[i] == urls@[i]@
        }),
        action matches Action::Append(jobs) ==> action@ == ActionView::Append(views(jobs@)),
        action is Save <==> action@ is Save,
        action is Finish <==> action@ is Finish,
        action is Abort <==> action@ is Abort,
{
}

/// Each fetch asks for the page that it is labelled with.
proof fn lemma_fetch_asks_for_its_page(run: RunView, page: u32)
    ensures
        run.fetch(page) matches ActionView::Fetch { page: labelled, request } && {
            &&& labelled == page
            &&& asks_for(request, run.base_url, run.token, page)
        },
{
    let scopes = crate::run::scopes();
    reveal_with_fuel(crate::request::scope_query, 3);
    assert(scopes.drop_last() =~= seq!["failed"@]);
    assert(scopes.drop_last().drop_last() =~= Seq::<Seq<char>>::empty());
    match run.fetch(page) {
        ActionView::Fetch { page: labelled, request } => {
            assert(request.url =~= run.base_url + "?"@ + "scope[]="@ + "failed"@ + "&"@
                + "scope[]="@ + "success"@ + "&"@ + "page="@ + decimal(page as nat)
                + "&per_page=100"@);
        },
        _ => {},
    }
}

/// A run starts with the settings that it is given, looks above the id that it is given, and asks
/// for the first page.
pub proof fn lemma_start_of_a_run(config: Config, last_id: u32, started: (Run, Action))
    requires
        call_ensures(Run::start, (config, last_id), started),
    ensures
        started.0@.base_url == config.base_url@,
        started.0@.token == config.token.deep_view(),
        started.0@.max_pages == config.max_pages,
        started.0@.window.last_id == last_id,
        started.0@.window.base_date == config.base_date.deep_view(),
        started.0@.window.end_date == config.end_date.deep_view(),
        started.0@.phase == (PhaseView::Fetching { page: 1 }),
        started.1 matches Action::Fetch { page, request } && {
            &&& page == 1
            &&& asks_for(request@, config.base_url@, config.token.deep_view(), 1)
        },
{
    lemma_fetch_asks_for_its_page(started.0@, 1);
}

/// Whatever came, a fetch that follows asks for the page that it is labelled with, and the run then
/// waits for that page.
pub proof fn lemma_every_fetch_asks_for_its_page(run: Run, event: Event, next: (Run, Action))
    requires
        run@.accepts(event@),
        call_ensures(Run::step, (run, event), next),
    ensures
        next.1 matches Action::Fetch { page, request } ==> {
            &&& asks_for(request@, run@.base_url, run@.token, page)
            &&& next.0@.phase == (PhaseView::Fetching { page })
        },
{
    if let Action::Fetch { page, request } = next.1 {
        assert(next.1@ == ActionView::Fetch { page, request: request@ });
        lemma_fetch_asks_for_its_page(run@, page);
    }
}

/// The same over a whole run: every page that is fetched is asked for at the place and in the name
/// that the settings say.
pub proof fn lemma_every_fetch_of_a_run(
    config: Config,
    last_id: u32,
    started: (Run, Action),
    events: Seq<EventView>,
    page: u32,
    request: RequestView,
)
    requires
        call_ensures(Run::start, (config, last_id), started),
        legal(started.0@, events),
        events.len() > 0,
        last_action(started.0@, events) == (ActionView::Fetch { page, request }),
    ensures
        asks_for(request, config.base_url@, config.token.deep_view(), page),
        after(started.0@, events).phase == (PhaseView::Fetching { page }),
{
    let before = after(started.0@, events.drop_last());
    lemma_settings_stay(started.0@, events.drop_last());
    lemma_fetch_asks_for_its_page(before, page);
}

/// A step does to a run what its history says.
pub proof fn lemma_steps_make_history(run: Run, event: Event, next: (Run, Action))
    requires
        run@.accepts(event@),
        call_ensures(Run::step, (run, event), next),
    ensures
        legal(run@, seq![event@]),
        next.0@ == after(run@, seq![event@]),
        next.1@ == last_action(run@, seq![event@]),
{
    reveal_with_fuel(after, 2);
    reveal_with_fuel(legal, 2);
    assert(seq![event@].drop_last() =~= Seq::<EventView>::empty());
    assert(seq![event@].last() == event@);
}

/// While the logs of a page come in, the run remembers the page, the one that the server named,
/// and where the window was left.
proof fn lemma_page_is_remembered(
    run: RunView,
    page: u32,
    jobs: Seq<JobView>,
    next_page: Option<u32>,
    logs: Seq<EventView>,
)
    requires
        run.phase == (PhaseView::Fetching { page }),
        legal(run.stepped(EventView::Page { jobs, next_page }).0, logs),
        forall|k: int| 0 <= k < logs.len() ==> #[trigger] logs[k] is Logs,
    ensures
        ({
            let now = after(run.stepped(EventView::Page { jobs, next_page }).0, logs);
            &&& now == run.to(now.phase)
            &&& match now.phase {
                PhaseView::Analyzing { page: p, next_page: n, limit, .. } => p == page && n
                    == next_page && limit == run.window.limit_in(jobs),
                PhaseView::Appending { page: p, next_page: n, limit } => p == page && n == next_page
                    && limit == run.window.limit_in(jobs),
                _ => false,
            }
        }),
    decreases logs.len(),
{
    if logs.len() > 0 {
        let rest = logs.drop_last();
        assert forall|k: int| 0 <= k < rest.len() implies #[trigger] rest[k] is Logs by {
            assert(logs[k] is Logs);
        }
        lemma_page_is_remembered(run, page, jobs, next_page, rest);
        assert(logs[logs.len() - 1] is Logs);
    }
}

/// What follows a page whose jobs were appended: if it is not the last of those that may be read,
/// no job of it left the window, and the server named another, that one is fetched. Otherwise the
/// store is saved.
pub proof fn lemma_what_follows_a_page(
    run: RunView,
    page: u32,
    jobs: Seq<JobView>,
    next_page: Option<u32>,
    logs: Seq<EventView>,
)
    requires
        run.phase == (PhaseView::Fetching { page }),
        legal(
            run.stepped(EventView::Page { jobs, next_page }).0,
            logs.push(EventView::Appended),
        ),
        forall|k: int| 0 <= k < logs.len() ==> #[trigger] logs[k] is Logs,
    ensures
        ({
            let events = logs.push(EventView::Appended);
            let first = run.stepped(EventView::Page { jobs, next_page }).0;
            let goes_on = page < run.max_pages && next_page is Some && !leaves(run.window, jobs);
            &&& goes_on ==> (last_action(first, events) matches ActionView::Fetch {
                page: fetched,
                request,
            } && {
                &&& fetched == next_page->0
                &&& asks_for(request, run.base_url, run.token, fetched)
                &&& after(first, events).phase == (PhaseView::Fetching { page: fetched })
            })
            &&& !goes_on ==> last_action(first, events) is Save && after(
                first,
                events,
            ).phase is Saving
        }),
{
    let events = logs.push(EventView::Appended);
    let first = run.stepped(EventView::Page { jobs, next_page }).0;
    assert(events.drop_last() =~= logs);
    assert(events.last() == EventView::Appended);
    lemma_page_is_remembered(run, page, jobs, next_page, logs);
    lemma_limit_where_the_window_is_left(run.window, jobs);
    if next_page is Some {
        lemma_fetch_asks_for_its_page(after(first, logs), next_page->0);
    }
}

/// Whether the `k`-th event was the last page that came, with this number and content.
pub open spec fn last_page_was(
    run: RunView,
    events: Seq<EventView>,
    k: int,
    page: u32,
    jobs: Seq<JobView>,
    next_page: Option<u32>,
) -> bool {
    &&& 0 <= k < events.len()
    &&& events[k] == (EventView::Page { jobs, next_page })
    &&& after(run, events.take(k)).phase == (PhaseView::Fetching { page })
    &&& forall|m: int| k < m < events.len() ==> #[trigger] events[m] !is Page
}

/// The last page that came stays so while others come than pages.
proof fn lemma_last_page_stays(
    run: RunView,
    events: Seq<EventView>,
    k: int,
    page: u32,
    jobs: Seq<JobView>,
    next_page: Option<u32>,
)
    requires
        events.len() > 0,
        last_page_was(run, events.drop_last(), k, page, jobs, next_page),
        events.last() !is Page,
    ensures
        last_page_was(run, events, k, page, jobs, next_page),
{
    assert(events.drop_last().take(k) =~= events.take(k));
    assert forall|m: int| k < m < events.len() implies #[trigger] events[m] !is Page by {
        if m < events.len() - 1 {
            assert(events.drop_last()[m] == events[m]);
        }
    }
}

/// Whether the last page that came had this number, was followed by that page, and left the window
/// there.
spec fn last_page_said(
    run: RunView,
    events: Seq<EventView>,
    page: u32,
    next_page: Option<u32>,
    limit: Option<LimitView>,
) -> bool {
    exists|k: int, jobs: Seq<JobView>|
        limit == run.window.limit_in(jobs) && #[trigger] last_page_was(
            run,
            events,
            k,
            page,
            jobs,
            next_page,
        )
}

/// A run that handles a page remembers what the last page said.
proof fn lemma_remembers_last_page(run: RunView, events: Seq<EventView>)
    requires
        run.phase is Fetching,
        legal(run, events),
    ensures
        match after(run, events).phase {
            PhaseView::Analyzing { page, next_page, limit, .. } => last_page_said(
                run,
                events,
                page,
                next_page,
                limit,
            ),
            PhaseView::Appending { page, next_page, limit } => last_page_said(
                run,
                events,
                page,
                next_page,
                limit,
            ),
            _ => true,
        },
    decreases events.len(),
{
    if events.len() > 0 {
        let rest = events.drop_last();
        let before = after(run, rest);
        lemma_remembers_last_page(run, rest);
        lemma_settings_stay(run, rest);
        match (before.phase, events.last()) {
            (PhaseView::Fetching { page }, EventView::Page { jobs, next_page }) => {
                let k = events.len() - 1;
                assert(events.take(k) =~= rest);
                assert(last_page_was(run, events, k, page, jobs, next_page));
                assert(last_page_said(run, events, page, next_page, run.window.limit_in(jobs)));
            },
            (PhaseView::Analyzing { page, next_page, limit, .. }, EventView::Logs(logs)) => {
                let (k, jobs) = choose|k: int, jobs: Seq<JobView>|
                    limit == run.window.limit_in(jobs) && #[trigger] last_page_was(
                        run,
                        rest,
                        k,
                        page,
                        jobs,
                        next_page,
                    );
                lemma_last_page_stays(run, events, k, page, jobs, next_page);
                assert(last_page_said(run, events, page, next_page, limit));
            },
            _ => {},
        }
    }
}

/// A run comes to save the store only after a page that was the last of those that may be read, or
/// that left the window, or after which the server named no other.
pub proof fn lemma_why_a_run_stops(run: RunView, events: Seq<EventView>)
    requires
        run.phase is Fetching,
        legal(run, events),
        events.len() > 0,
        last_action(run, events) is Save,
    ensures
        exists|k: int, page: u32, jobs: Seq<JobView>, next_page: Option<u32>|
            {
                &&& #[trigger] last_page_was(run, events, k, page, jobs, next_page)
                &&& page >= run.max_pages || leaves(run.window, jobs) || next_page is None
            },
{
    let rest = events.drop_last();
    let before = after(run, rest);
    lemma_remembers_last_page(run, rest);
    lemma_settings_stay(run, rest);
    match before.phase {
        PhaseView::Appending { page, next_page, limit } => {
            let (k, jobs) = choose|k: int, jobs: Seq<JobView>|
                limit == run.window.limit_in(jobs) && #[trigger] last_page_was(
                    run,
                    rest,
                    k,
                    page,
                    jobs,
                    next_page,
                );
            lemma_last_page_stays(run, events, k, page, jobs, next_page);
            lemma_limit_where_the_window_is_left(run.window, jobs);
        },
        _ => {},
    }
}

/// Only what was asked for reaches the store: jobs of the stage, above the id that the run was
/// started with, created after the base date and before the end date of its settings.
pub proof fn lemma_stored_jobs_were_asked_for(
    config: Config,
    last_id: u32,
    started: (Run, Action),
    events: Seq<EventView>,
    jobs: Seq<JobView>,
    i: int,
)
    requires
        call_ensures(Run::start, (config, last_id), started),
        legal(started.0@, events),
        events.len() > 0,
        last_action(started.0@, events) == ActionView::Append(jobs),
        0 <= i < jobs.len(),
    ensures
        jobs[i].stage == "zombienet"@,
        jobs[i].id > last_id,
        config.base_date matches Some(base) ==> comes_before(base@, jobs[i].created_at),
        config.end_date matches Some(end) ==> comes_before(jobs[i].created_at, end@),
{
    lemma_start_of_a_run(config, last_id, started);
    lemma_only_wanted_jobs_are_appended(started.0@, events, jobs, i);
    lemma_lies_in(started.0@.window, jobs[i]);
}

/// The jobs of a page that came are among those that were offered.
proof fn lemma_page_is_offered(events: Seq<EventView>, k: int, j: int)
    requires
        0 <= k < events.len(),
        events[k] is Page,
        0 <= j < events[k]->jobs.len(),
    ensures
        offered(events).contains(events[k]->jobs[j]),
    decreases events.len(),
{
    let rest = events.drop_last();
    let job = events[k]->jobs[j];
    let before = offered(rest);
    if k < rest.len() {
        lemma_page_is_offered(rest, k, j);
        let i = choose|i: int| 0 <= i < before.len() && before[i] == job;
        assert(offered(events)[i] == job);
    } else {
        assert(offered(events)[before.len() + j] == job);
    }
}

/// All that was asked for reaches the store: every job of the stage that lies in the window, on
/// whatever page it came, is appended, as it was or as a log tells that was read where its log is
/// found.
pub proof fn lemma_jobs_asked_for_are_stored(
    run: RunView,
    events: Seq<EventView>,
    k: int,
    j: int,
)
    requires
        run.phase is Fetching,
        legal(run, events),
        after(run, events).phase !is Analyzing,
        0 <= k < events.len(),
        events[k] is Page,
        0 <= j < events[k]->jobs.len(),
        events[k]->jobs[j].stage == "zombienet"@,
        lies_in(run.window, events[k]->jobs[j]),
    ensures
        exists|i: int|
            0 <= i < appended(run, events).len() && analyzed_or_same(
                run,
                events,
                events[k]->jobs[j],
                #[trigger] appended(run, events)[i],
            ),
{
    let job = events[k]->jobs[j];
    let selected = run.window.selected(offered(events));
    lemma_page_is_offered(events, k, j);
    lemma_lies_in(run.window, job);
    lemma_selected_exactly(run.window, offered(events), job);
    let i = choose|i: int| 0 <= i < selected.len() && selected[i] == job;
    lemma_store_gets_what_was_selected(run, events);
    assert(analyzed_or_same(run, events, selected[i], appended(run, events)[i]));
}

/// Logs are read for ten jobs at a time, or for as many as are left.
pub proof fn lemma_ten_at_a_time(jobs: Seq<JobView>, from: int)
    requires
        0 <= from <= jobs.len(),
    ensures
        jobs.len() - from >= 10 ==> batch_end(jobs, from) == from + 10,
        jobs.len() - from < 10 ==> batch_end(jobs, from) == jobs.len(),
{
}

/// Among the jobs up to some place, those that failed are those up to the place before, and the one
/// there if its status says that it failed.
pub proof fn lemma_which_jobs_failed(jobs: Seq<JobView>, from: int, i: int)
    requires
        0 <= from <= i < jobs.len(),
    ensures
        failed_between(jobs, from, from) == Seq::<JobView>::empty(),
        jobs[i].status == "failed"@ ==> failed_between(jobs, from, i + 1) == failed_between(
            jobs,
            from,
            i,
        ).push(jobs[i]),
        jobs[i].status != "failed"@ ==> failed_between(jobs, from, i + 1) == failed_between(
            jobs,
            from,
            i,
        ),
{
    reveal(Seq::filter);
    assert(jobs.subrange(from, from) =~= Seq::<JobView>::empty());
    assert(jobs.subrange(from, i + 1).drop_last() =~= jobs.subrange(from, i));
}

/// The places that are read are those beside the failed jobs of the batch, in their order.
pub proof fn lemma_places_that_are_read(jobs: Seq<JobView>, from: int, k: int)
    requires
        0 <= from <= jobs.len(),
        0 <= k < batch_urls(jobs, from).len(),
    ensures
        batch_urls(jobs, from).len() == failed_between(jobs, from, batch_end(jobs, from)).len(),
        batch_urls(jobs, from)[k] == failed_between(jobs, from, batch_end(jobs, from))[k].web_url
            + "/raw"@,
{
}

/// Logs change only the failed jobs of the batch that they were read for, and each of these only by
/// the log at its place.
pub proof fn lemma_logs_reach_their_jobs(
    jobs: Seq<JobView>,
    from: int,
    logs: Seq<Option<Seq<char>>>,
    i: int,
)
    requires
        0 <= from <= jobs.len(),
        0 <= i < jobs.len(),
    ensures
        with_logs(jobs, from, logs).len() == jobs.len(),
        i < from || i >= from + 10 || jobs[i].status != "failed"@ ==> with_logs(
            jobs,
            from,
            logs,
        )[i] == jobs[i],
        from <= i < from + 10 && jobs[i].status == "failed"@ ==> {
            let log = logs[failed_between(jobs, from, i).len() as int];
            &&& log is None ==> with_logs(jobs, from, logs)[i] == jobs[i]
            &&& log matches Some(log) ==> with_logs(jobs, from, logs)[i] == analyzed(jobs[i], log)
        },
{
}

/// The own log of a job of a page is the one in its batch of ten, behind those of the failed jobs
/// before it in the batch; a job is changed by it alone, and only if it failed.
pub proof fn lemma_own_logs(selected: Seq<JobView>, logs: Seq<EventView>, batch: int, i: int)
    requires
        0 <= batch < logs.len(),
        batch * 10 <= i < batch * 10 + 10,
        0 <= i < selected.len(),
        logs[batch] is Logs,
    ensures
        own_log(selected, logs, i) == logs[batch]->Logs_0[failed_between(
            selected,
            batch * 10,
            i,
        ).len() as int],
        selected[i].status != "failed"@ ==> as_its_log_tells(selected, logs, i) == selected[i],
        selected[i].status == "failed"@ && own_log(selected, logs, i) is None
            ==> as_its_log_tells(selected, logs, i) == selected[i],
        selected[i].status == "failed"@ && own_log(selected, logs, i) is Some
            ==> as_its_log_tells(selected, logs, i) == analyzed(
            selected[i],
            own_log(selected, logs, i)->0,
        ),
{
}

/// What a run takes: while it fetches, a page; while it analyzes, as many logs as were to be read;
/// while it appends and saves, that this was done; and where something else than reading a log
/// can fail, that it failed. Once it is over it takes nothing.
pub proof fn lemma_what_a_run_takes(run: Run, event: Event, accepted: bool)
    requires
        call_ensures(Run::accepts, (&run, &event), accepted),
    ensures
        run@.phase is Fetching ==> (accepted <==> event is Page || event is Failed),
        run@.phase matches PhaseView::Analyzing { jobs, done, .. } ==> (accepted <==> event is Logs
            && event->Logs_0@.len() == failed_between(jobs, done, batch_end(jobs, done)).len()),
        run@.phase is Appending ==> (accepted <==> event is Appended || event is Failed),
        run@.phase is Saving ==> (accepted <==> event is Saved || event is Failed),
        run@.phase is Finished || run@.phase is Failed ==> !accepted,
        accepted <==> run@.accepts(event@),
{
    match event {
        Event::Logs(logs) => {
            assert(logs.deep_view().len() == logs@.len());
        },
        _ => {},
    }
}

/// How a run ends: with a saved store it is finished, and with any failure it has failed.
pub proof fn lemma_how_a_run_ends(run: Run, event: Event, next: (Run, Action))
    requires
        run@.accepts(event@),
        call_ensures(Run::step, (run, event), next),
    ensures
        event is Saved ==> next.1 is Finish && next.0@.phase is Finished,
        event is Failed ==> next.1 is Abort && next.0@.phase is Failed,
        next.1 is Finish ==> event is Saved,
        next.1 is Abort ==> event is Failed,
        next.1 is Save ==> event is Appended,
{
}

/// The bound that a run shows after a page is the one at which its window was left there.
pub proof fn lemma_bound_that_is_shown(
    run: Run,
    page: Page,
    next: (Run, Action),
    limit: &Option<Limit>,
    window: Window,
    selection: Selection,
)
    requires
        run@.phase is Fetching,
        call_ensures(Run::step, (run, Event::Page(page)), next),
        call_ensures(Run::limit, (&next.0,), limit),
        window@ == run@.window,
        call_ensures(Window::select, (&window, page.jobs), selection),
    ensures
        limit.deep_view() == selection.limit.deep_view(),
{
    assert(run@.accepts(Event::Page(page)@));
}

/// A run that fetches, saves or is over shows no bound.
pub proof fn lemma_no_bound_without_a_page(run: Run, limit: &Option<Limit>)
    requires
        call_ensures(Run::limit, (&run,), limit),
        run@.phase !is Analyzing,
        run@.phase !is Appending,
    ensures
        limit is None,
{
}

/// While the logs of a page come in, the bound that is shown stays.
pub proof fn lemma_bound_stays(
    run: Run,
    before: &Option<Limit>,
    logs: Vec<Option<String>>,
    next: (Run, Action),
    limit: &Option<Limit>,
)
    requires
        run@.accepts(Event::Logs(logs)@),
        call_ensures(Run::limit, (&run,), before),
        call_ensures(Run::step, (run, Event::Logs(logs)), next),
        call_ensures(Run::limit, (&next.0,), limit),
    ensures
        limit.deep_view() == before.deep_view(),
{
}

} // verus!
