//! What holds of whole runs, whatever the server, the logs and the store answer.

use crate::analysis::analyzed;
use crate::db::{
    id_or_zero, lemma_offered_jobs_are_stored, row_id, row_of, rows_of, table_after_all, SqlView,
};
use crate::job::JobView;
use crate::request::log_url;
use crate::run::{
    batch_end, batch_urls, failed_between, lemma_log_belongs_to_its_job, with_logs, ActionView,
    EventView, PhaseView, RunView, BATCH,
};
use crate::select::{lemma_limit_of_first_outside, lemma_selected_exactly};
use crate::store::{
    descending, lemma_newest_is_highest, lemma_saved_file_stays_descending,
    lemma_selection_keeps_descending, newest_of,
};
use vstd::prelude::*;

verus! {

/// A run after some events.
pub open spec fn after(run: RunView, events: Seq<EventView>) -> RunView
    decreases events.len(),
{
    if events.len() == 0 {
        run
    } else {
        after(run, events.drop_last()).stepped(events.last()).0
    }
}

/// Whether each event can come of the action before it.
pub open spec fn legal(run: RunView, events: Seq<EventView>) -> bool
    decreases events.len(),
{
    events.len() > 0 ==> {
        &&& legal(run, events.drop_last())
        &&& after(run, events.drop_last()).accepts(events.last())
    }
}

/// What is to be done after the last of some events.
pub open spec fn last_action(run: RunView, events: Seq<EventView>) -> ActionView
    recommends
        events.len() > 0,
{
    after(run, events.drop_last()).stepped(events.last()).1
}

/// A run keeps what it was started with.
pub proof fn lemma_settings_stay(run: RunView, events: Seq<EventView>)
    requires
        legal(run, events),
    ensures
        after(run, events) == run.to(after(run, events).phase),
    decreases events.len(),
{
    if events.len() > 0 {
        lemma_settings_stay(run, events.drop_last());
    }
}

/// The jobs at hand are jobs that the window wants, and some of them are still to be analyzed.
spec fn at_hand_is_wanted(run: RunView) -> bool {
    run.phase matches PhaseView::Analyzing { jobs, done, .. } ==> {
        &&& 0 <= done < jobs.len()
        &&& forall|i: int| 0 <= i < jobs.len() ==> run.window.wants(#[trigger] jobs[i])
    }
}

/// The jobs at hand stay wanted.
proof fn lemma_at_hand_stays_wanted(run: RunView, events: Seq<EventView>)
    requires
        at_hand_is_wanted(run),
        legal(run, events),
    ensures
        at_hand_is_wanted(after(run, events)),
        after(run, events).window == run.window,
        events.len() > 0 ==> (last_action(run, events) matches ActionView::Append(jobs)
            ==> forall|i: int| 0 <= i < jobs.len() ==> run.window.wants(#[trigger] jobs[i])),
    decreases events.len(),
{
    if events.len() > 0 {
        let before = after(run, events.drop_last());
        lemma_at_hand_stays_wanted(run, events.drop_last());
        match (before.phase, events.last()) {
            (PhaseView::Fetching { .. }, EventView::Page { jobs, .. }) => {
                let kept = run.window.selected(jobs);
                assert forall|i: int| 0 <= i < kept.len() implies run.window.wants(
                    #[trigger] kept[i],
                ) by {
                    lemma_selected_exactly(run.window, jobs, kept[i]);
                }
            },
            (PhaseView::Analyzing { jobs, done, .. }, EventView::Logs(logs)) => {
                let read = with_logs(jobs, done, logs);
                assert forall|i: int| 0 <= i < read.len() implies run.window.wants(
                    #[trigger] read[i],
                ) by {
                    assert(run.window.wants(jobs[i]));
                }
            },
            _ => {},
        }
    }
}

/// Only jobs that the window wants reach the store: zombienet jobs above the last stored id and
/// between the two dates.
pub proof fn lemma_only_wanted_jobs_are_appended(
    run: RunView,
    events: Seq<EventView>,
    jobs: Seq<JobView>,
    i: int,
)
    requires
        run.phase is Fetching,
        legal(run, events),
        events.len() > 0,
        last_action(run, events) == ActionView::Append(jobs),
        0 <= i < jobs.len(),
    ensures
        run.window.wants(jobs[i]),
{
    lemma_at_hand_stays_wanted(run, events);
    match last_action(run, events) {
        ActionView::Append(appended) => {
            assert(run.window.wants(appended[i]));
        },
        _ => {},
    }
}

/// What reaches the store was not in its file: with falling ids there, a run that looks above the
/// last of them appends only jobs that are newer than every stored one.
pub proof fn lemma_appended_jobs_are_not_in_the_file(
    run: RunView,
    events: Seq<EventView>,
    jobs: Seq<JobView>,
    i: int,
    stored: Seq<JobView>,
    j: int,
)
    requires
        run.phase is Fetching,
        legal(run, events),
        events.len() > 0,
        last_action(run, events) == ActionView::Append(jobs),
        descending(stored),
        run.window.last_id == newest_of(stored),
        0 <= i < jobs.len(),
        0 <= j < stored.len(),
    ensures
        jobs[i].id > stored[j].id,
{
    lemma_only_wanted_jobs_are_appended(run, events, jobs, i);
    lemma_newest_is_highest(stored, j);
}

/// What reaches the store was not in its table: a run that looks above the highest id of the
/// table appends only jobs whose rows are not in it.
pub proof fn lemma_appended_jobs_are_not_in_the_table(
    run: RunView,
    events: Seq<EventView>,
    jobs: Seq<JobView>,
    i: int,
    table: Map<int, Seq<SqlView>>,
    max_id: i64,
)
    requires
        run.phase is Fetching,
        legal(run, events),
        events.len() > 0,
        last_action(run, events) == ActionView::Append(jobs),
        0 <= max_id <= u32::MAX,
        forall|id: int| #[trigger] table.contains_key(id) ==> id <= max_id,
        run.window.last_id == id_or_zero(Some(max_id)),
        0 <= i < jobs.len(),
    ensures
        !table.contains_key(row_id(row_of(jobs[i]))),
{
    lemma_only_wanted_jobs_are_appended(run, events, jobs, i);
}

/// A run that has left the window does not come to fetch again.
proof fn lemma_limit_lasts(run: RunView, events: Seq<EventView>)
    requires
        run.limit() is Some,
        legal(run, events),
    ensures
        after(run, events).phase !is Fetching,
        after(run, events).phase is Analyzing || after(run, events).phase is Appending
            ==> after(run, events).limit() is Some,
        events.len() > 0 ==> last_action(run, events) !is Fetch,
    decreases events.len(),
{
    if events.len() > 0 {
        lemma_limit_lasts(run, events.drop_last());
    }
}

/// Once a page shows a zombienet job outside the window, no further page is fetched.
pub proof fn lemma_no_page_after_the_limit(
    run: RunView,
    jobs: Seq<JobView>,
    next_page: Option<u32>,
    i: int,
    events: Seq<EventView>,
)
    requires
        run.phase is Fetching,
        0 <= i < jobs.len(),
        run.window.ends_at(jobs[i]),
        legal(run.stepped(EventView::Page { jobs, next_page }).0, events),
        events.len() > 0,
    ensures
        last_action(run.stepped(EventView::Page { jobs, next_page }).0, events) !is Fetch,
{
    lemma_limit_of_first_outside(run.window, jobs);
    lemma_limit_lasts(run.stepped(EventView::Page { jobs, next_page }).0, events);
}

/// A further page is fetched only if the server named it, the page before was not the last of those
/// that may be read, and that page did not leave the window.
pub proof fn lemma_pages_follow_the_server(run: RunView, event: EventView)
    requires
        run.accepts(event),
        run.stepped(event).1 is Fetch,
    ensures
        run.phase matches PhaseView::Appending { page, next_page, limit } && {
            &&& event == EventView::Appended
            &&& page < run.max_pages
            &&& limit is None
            &&& next_page == Some(run.stepped(event).1->Fetch_page)
        },
{
}

/// Whether the server numbers its pages one after the other.
pub open spec fn counts(run: RunView, events: Seq<EventView>) -> bool
    decreases events.len(),
{
    events.len() > 0 ==> {
        &&& counts(run, events.drop_last())
        &&& match (after(run, events.drop_last()).phase, events.last()) {
            (
                PhaseView::Fetching { page },
                EventView::Page { next_page: Some(next), .. },
            ) => next == page + 1,
            _ => true,
        }
    }
}

/// The page at hand is within the bound, and so is the one that follows it.
spec fn page_is_bounded(run: RunView) -> bool {
    match run.phase {
        PhaseView::Fetching { page } => page <= run.max_pages || page == 1,
        PhaseView::Analyzing { page, next_page, .. } => next_page matches Some(next) ==> next
            == page + 1,
        PhaseView::Appending { page, next_page, .. } => next_page matches Some(next) ==> next
            == page + 1,
        _ => true,
    }
}

/// The page at hand stays within the bound.
proof fn lemma_page_stays_bounded(run: RunView, events: Seq<EventView>)
    requires
        page_is_bounded(run),
        legal(run, events),
        counts(run, events),
    ensures
        page_is_bounded(after(run, events)),
        after(run, events).max_pages == run.max_pages,
    decreases events.len(),
{
    if events.len() > 0 {
        lemma_page_stays_bounded(run, events.drop_last());
    }
}

/// From a server that numbers its pages one after the other, a run that starts at the first page
/// fetches none beyond the number of pages it was given, but for the first.
pub proof fn lemma_pages_are_bounded(run: RunView, events: Seq<EventView>, page: u32)
    requires
        run.phase == (PhaseView::Fetching { page: 1 }),
        legal(run, events),
        counts(run, events),
        after(run, events).phase == (PhaseView::Fetching { page }),
    ensures
        page <= run.max_pages || page == 1,
{
    lemma_page_stays_bounded(run, events);
}

/// What was read for a failed job of a page whose logs came batch by batch: the log in the batch
/// of the job, at the place that the failed jobs before it leave to it; `None` if it could not be
/// read.
pub open spec fn own_log(selected: Seq<JobView>, logs: Seq<EventView>, i: int) -> Option<Seq<char>> {
    let batch = i / BATCH as int;
    logs[batch]->Logs_0[failed_between(selected, batch * BATCH, i).len() as int]
}

/// A job as its own log tells: unchanged if it did not fail or its log could not be read.
pub open spec fn as_its_log_tells(
    selected: Seq<JobView>,
    logs: Seq<EventView>,
    i: int,
) -> JobView {
    if selected[i].failed() {
        match own_log(selected, logs, i) {
            Some(log) => analyzed(selected[i], log),
            None => selected[i],
        }
    } else {
        selected[i]
    }
}

/// How far the jobs selected from a page have come after some batches of logs: each of those that
/// are behind is as its log tells, the others are as they were, and the next batch is read.
spec fn come_so_far(
    selected: Seq<JobView>,
    logs: Seq<EventView>,
    run: RunView,
    action: ActionView,
) -> bool {
    if logs.len() * BATCH < selected.len() {
        &&& action == ActionView::Read(batch_urls(selected, logs.len() * BATCH))
        &&& run.phase matches PhaseView::Analyzing { jobs, done, .. } && {
            &&& done == logs.len() * BATCH
            &&& jobs.len() == selected.len()
            &&& forall|i: int|
                0 <= i < done ==> #[trigger] jobs[i] == as_its_log_tells(selected, logs, i)
            &&& forall|i: int| done <= i < jobs.len() ==> selected[i] == #[trigger] jobs[i]
        }
    } else {
        run.phase is Appending && (action matches ActionView::Append(jobs) && {
            &&& jobs.len() == selected.len()
            &&& forall|i: int|
                0 <= i < jobs.len() ==> #[trigger] jobs[i] == as_its_log_tells(selected, logs, i)
        })
    }
}

/// What is to be done after a page was fetched and some of the logs of its jobs were read.
pub open spec fn page_action(
    run: RunView,
    jobs: Seq<JobView>,
    next_page: Option<u32>,
    logs: Seq<EventView>,
) -> ActionView {
    let first = run.stepped(EventView::Page { jobs, next_page });
    if logs.len() == 0 {
        first.1
    } else {
        last_action(first.0, logs)
    }
}

/// A batch speaks of its own jobs only.
proof fn lemma_batch_of_equal_jobs(one: Seq<JobView>, other: Seq<JobView>, from: int)
    requires
        0 <= from <= one.len(),
        one.len() == other.len(),
        forall|i: int| from <= i < one.len() ==> one[i] == #[trigger] other[i],
    ensures
        batch_urls(one, from) == batch_urls(other, from),
        forall|i: int|
            from <= i <= one.len() ==> #[trigger] failed_between(one, from, i) == failed_between(
                other,
                from,
                i,
            ),
{
    assert forall|i: int| from <= i <= one.len() implies #[trigger] failed_between(one, from, i)
        == failed_between(other, from, i) by {
        assert(one.subrange(from, i) =~= other.subrange(from, i));
    }
    assert(failed_between(one, from, batch_end(one, from)) == failed_between(
        other,
        from,
        batch_end(one, from),
    ));
}

/// The jobs of a page, batch by batch.
proof fn lemma_batches(
    run: RunView,
    jobs: Seq<JobView>,
    next_page: Option<u32>,
    logs: Seq<EventView>,
)
    requires
        run.phase is Fetching,
        legal(run.stepped(EventView::Page { jobs, next_page }).0, logs),
        forall|k: int| 0 <= k < logs.len() ==> #[trigger] logs[k] is Logs,
    ensures
        come_so_far(
            run.window.selected(jobs),
            logs,
            after(run.stepped(EventView::Page { jobs, next_page }).0, logs),
            page_action(run, jobs, next_page, logs),
        ),
        logs.len() > 0 ==> (logs.len() - 1) * BATCH < run.window.selected(jobs).len(),
    decreases logs.len(),
{
    let first = run.stepped(EventView::Page { jobs, next_page }).0;
    let selected = run.window.selected(jobs);
    if logs.len() > 0 {
        let rest = logs.drop_last();
        assert forall|k: int| 0 <= k < rest.len() implies #[trigger] rest[k] is Logs by {
            assert(logs[k] is Logs);
        }
        lemma_batches(run, jobs, next_page, rest);
        let before = after(first, rest);
        assert(logs[logs.len() - 1] is Logs);
        match (before.phase, logs.last()) {
            (PhaseView::Analyzing { jobs: at_hand, done, .. }, EventView::Logs(read)) => {
                let later = with_logs(at_hand, done, read);
                let end = batch_end(at_hand, done);
                lemma_batch_of_equal_jobs(at_hand, selected, done);
                assert forall|i: int| 0 <= i < end implies #[trigger] later[i] == as_its_log_tells(
                    selected,
                    logs,
                    i,
                ) by {
                    if i < done {
                        assert(at_hand[i] == as_its_log_tells(selected, rest, i));
                        assert(logs[i / BATCH as int] == rest[i / BATCH as int]);
                    } else {
                        assert(i / BATCH as int == rest.len());
                        assert(failed_between(at_hand, done, i) == failed_between(
                            selected,
                            done,
                            i,
                        ));
                        assert(selected[i] == at_hand[i]);
                    }
                }
                assert forall|i: int| end <= i < later.len() implies selected[i]
                    == #[trigger] later[i] by {
                    assert(selected[i] == at_hand[i]);
                }
                lemma_batch_of_equal_jobs(later, selected, end);
            },
            _ => {},
        }
    }
}

/// The jobs selected from a page are all appended to the store, once and in their order, after
/// as many batches of logs as they need and no more. A job that did not fail arrives unchanged; a
/// failed one as it was, if its log could not be read, or as its own log tells.
pub proof fn lemma_selected_jobs_are_appended(
    run: RunView,
    jobs: Seq<JobView>,
    next_page: Option<u32>,
    logs: Seq<EventView>,
)
    requires
        run.phase is Fetching,
        legal(run.stepped(EventView::Page { jobs, next_page }).0, logs),
        forall|k: int| 0 <= k < logs.len() ==> #[trigger] logs[k] is Logs,
    ensures
        ({
            let selected = run.window.selected(jobs);
            let action = page_action(run, jobs, next_page, logs);
            &&& logs.len() > 0 ==> (logs.len() - 1) * BATCH < selected.len()
            &&& logs.len() * BATCH < selected.len() ==> action == ActionView::Read(
                batch_urls(selected, logs.len() * BATCH),
            )
            &&& logs.len() * BATCH >= selected.len() ==> action == ActionView::Append(
                Seq::new(selected.len(), |i: int| as_its_log_tells(selected, logs, i)),
            )
        }),
{
    lemma_batches(run, jobs, next_page, logs);
    let selected = run.window.selected(jobs);
    if logs.len() * BATCH >= selected.len() {
        match page_action(run, jobs, next_page, logs) {
            ActionView::Append(appended) => {
                assert(appended =~= Seq::new(
                    selected.len(),
                    |i: int| as_its_log_tells(selected, logs, i),
                ));
            },
            _ => {},
        }
    }
}

/// Events that are legal are legal up to any of them.
proof fn lemma_legal_up_to(run: RunView, events: Seq<EventView>, n: int)
    requires
        legal(run, events),
        0 <= n <= events.len(),
    ensures
        legal(run, events.take(n)),
    decreases events.len(),
{
    if n == events.len() {
        assert(events.take(n) =~= events);
    } else {
        lemma_legal_up_to(run, events.drop_last(), n);
        assert(events.drop_last().take(n) =~= events.take(n));
    }
}

/// What is taken for the own log of a failed job is what was read where its log is found: when its
/// batch was to be read, that place stood where its log came.
pub proof fn lemma_own_log_is_read_at_its_place(
    run: RunView,
    jobs: Seq<JobView>,
    next_page: Option<u32>,
    logs: Seq<EventView>,
    i: int,
)
    requires
        run.phase is Fetching,
        legal(run.stepped(EventView::Page { jobs, next_page }).0, logs),
        forall|k: int| 0 <= k < logs.len() ==> #[trigger] logs[k] is Logs,
        0 <= i < run.window.selected(jobs).len(),
        run.window.selected(jobs)[i].failed(),
        (i / BATCH as int) < logs.len(),
    ensures
        ({
            let selected = run.window.selected(jobs);
            let batch = i / BATCH as int;
            let place = failed_between(selected, batch * BATCH, i).len() as int;
            page_action(run, jobs, next_page, logs.take(batch)) matches ActionView::Read(urls) && {
                &&& 0 <= place < urls.len()
                &&& urls[place] == log_url(selected[i].web_url)
                &&& own_log(selected, logs, i) == logs[batch]->Logs_0[place]
            }
        }),
{
    let selected = run.window.selected(jobs);
    let batch = i / BATCH as int;
    let before = logs.take(batch);
    assert(batch * BATCH <= i < batch * BATCH + BATCH);
    lemma_legal_up_to(run.stepped(EventView::Page { jobs, next_page }).0, logs, batch);
    assert forall|k: int| 0 <= k < before.len() implies #[trigger] before[k] is Logs by {
        assert(logs[k] is Logs);
    }
    lemma_selected_jobs_are_appended(run, jobs, next_page, before);
    lemma_log_belongs_to_its_job(selected, batch * BATCH, i);
}

/// Whether a log was read at a place.
pub open spec fn was_read(
    run: RunView,
    events: Seq<EventView>,
    url: Seq<char>,
    log: Seq<char>,
) -> bool
    decreases events.len(),
{
    events.len() > 0 && {
        ||| was_read(run, events.drop_last(), url, log)
        ||| match (after(run, events.drop_last()).phase, events.last()) {
            (PhaseView::Analyzing { jobs, done, .. }, EventView::Logs(logs)) => exists|k: int|
                0 <= k < logs.len() && #[trigger] logs[k] == Some(log) && batch_urls(jobs, done)[k]
                    == url,
            _ => false,
        }
    }
}

/// What the events may have made of a job: nothing, or, if the job failed, what a log tells that
/// was read where its log is found.
pub open spec fn analyzed_or_same(
    run: RunView,
    events: Seq<EventView>,
    job: JobView,
    later: JobView,
) -> bool {
    ||| later == job
    ||| job.failed() && exists|log: Seq<char>|
        was_read(run, events, log_url(job.web_url), log) && later == #[trigger] analyzed(job, log)
}

/// What was made of a job stays made when more events come.
proof fn lemma_analyzed_or_same_stays(
    run: RunView,
    events: Seq<EventView>,
    job: JobView,
    later: JobView,
)
    requires
        events.len() > 0,
        analyzed_or_same(run, events.drop_last(), job, later),
    ensures
        analyzed_or_same(run, events, job, later),
{
    if later != job {
        let log = choose|log: Seq<char>|
            was_read(run, events.drop_last(), log_url(job.web_url), log) && later
                == #[trigger] analyzed(job, log);
        assert(was_read(run, events, log_url(job.web_url), log));
    }
}

/// The jobs of all the pages that came, in their order.
pub open spec fn offered(events: Seq<EventView>) -> Seq<JobView>
    decreases events.len(),
{
    if events.len() == 0 {
        Seq::empty()
    } else {
        offered(events.drop_last()) + match events.last() {
            EventView::Page { jobs, .. } => jobs,
            _ => Seq::empty(),
        }
    }
}

/// The jobs that an action appends to the store.
pub open spec fn appends(action: ActionView) -> Seq<JobView> {
    match action {
        ActionView::Append(jobs) => jobs,
        _ => Seq::empty(),
    }
}

/// All the jobs that were to be appended to the store, in their order.
pub open spec fn appended(run: RunView, events: Seq<EventView>) -> Seq<JobView>
    decreases events.len(),
{
    if events.len() == 0 {
        Seq::empty()
    } else {
        appended(run, events.drop_last()) + appends(last_action(run, events))
    }
}

/// The jobs that are being analyzed.
spec fn at_hand(run: RunView) -> Seq<JobView> {
    match run.phase {
        PhaseView::Analyzing { jobs, .. } => jobs,
        _ => Seq::empty(),
    }
}

/// How many of the jobs that are being analyzed are behind.
spec fn behind(run: RunView) -> int {
    match run.phase {
        PhaseView::Analyzing { done, .. } => done,
        _ => 0,
    }
}

/// Whether `later` holds the given jobs in their order, each as it was or analyzed, and those
/// from `from` on as they were.
spec fn same_jobs(
    run: RunView,
    events: Seq<EventView>,
    jobs: Seq<JobView>,
    later: Seq<JobView>,
    from: int,
) -> bool {
    &&& jobs.len() == later.len()
    &&& forall|i: int|
        0 <= i < later.len() ==> analyzed_or_same(run, events, jobs[i], #[trigger] later[i])
    &&& forall|i: int| from <= i < later.len() ==> jobs[i] == #[trigger] later[i]
}

/// What was appended and what is at hand is what was selected.
proof fn lemma_nothing_is_lost(run: RunView, events: Seq<EventView>)
    requires
        run.phase is Fetching,
        legal(run, events),
    ensures
        same_jobs(
            run,
            events,
            run.window.selected(offered(events)),
            appended(run, events) + at_hand(after(run, events)),
            appended(run, events).len() + behind(after(run, events)),
        ),
        0 <= behind(after(run, events)) <= at_hand(after(run, events)).len(),
        after(run, events).window == run.window,
    decreases events.len(),
{
    let selected = run.window.selected(offered(events));
    if events.len() == 0 {
        reveal(Seq::filter);
        assert(selected =~= Seq::<JobView>::empty());
    } else {
        let rest = events.drop_last();
        let before = after(run, rest);
        let now = after(run, events);
        lemma_nothing_is_lost(run, rest);
        let held = appended(run, rest) + at_hand(before);
        let selected_before = run.window.selected(offered(rest));
        match (before.phase, events.last()) {
            (PhaseView::Fetching { .. }, EventView::Page { jobs, .. }) => {
                Seq::filter_distributes_over_add(
                    offered(rest),
                    jobs,
                    |job: JobView| run.window.wants(job),
                );
                assert(selected == selected_before + run.window.selected(jobs));
                assert(held =~= appended(run, rest));
                let all = appended(run, events) + at_hand(now);
                assert(all =~= appended(run, rest) + run.window.selected(jobs));
                assert forall|i: int| 0 <= i < all.len() implies analyzed_or_same(
                    run,
                    events,
                    selected[i],
                    #[trigger] all[i],
                ) by {
                    if i < held.len() {
                        assert(analyzed_or_same(run, rest, selected_before[i], held[i]));
                        lemma_analyzed_or_same_stays(run, events, selected_before[i], held[i]);
                    }
                }
            },
            (PhaseView::Analyzing { jobs, done, .. }, EventView::Logs(logs)) => {
                assert(offered(events) =~= offered(rest));
                let read = with_logs(jobs, done, logs);
                let all = appended(run, events) + at_hand(now);
                assert(all =~= appended(run, rest) + read);
                let n = appended(run, rest).len();
                assert forall|i: int| 0 <= i < all.len() implies analyzed_or_same(
                    run,
                    events,
                    selected[i],
                    #[trigger] all[i],
                ) by {
                    assert(analyzed_or_same(run, rest, selected[i], held[i]));
                    lemma_analyzed_or_same_stays(run, events, selected[i], held[i]);
                    if n + done <= i < n + batch_end(jobs, done) && held[i].failed() {
                        assert(selected[i] == held[i]);
                        lemma_log_belongs_to_its_job(jobs, done, i - n);
                        let place = failed_between(jobs, done, i - n).len() as int;
                        if logs[place] is Some {
                            assert(was_read(
                                run,
                                events,
                                log_url(selected[i].web_url),
                                logs[place]->0,
                            ));
                            assert(all[i] == analyzed(selected[i], logs[place]->0));
                        }
                    }
                }
                assert forall|i: int| n + batch_end(jobs, done) <= i < all.len() implies selected[i]
                    == #[trigger] all[i] by {
                    assert(selected[i] == held[i]);
                }
            },
            _ => {
                assert(offered(events) =~= offered(rest));
                assert(appended(run, events) + at_hand(now) =~= held);
                assert forall|i: int| 0 <= i < held.len() implies analyzed_or_same(
                    run,
                    events,
                    selected[i],
                    #[trigger] held[i],
                ) by {
                    lemma_analyzed_or_same_stays(run, events, selected[i], held[i]);
                }
            },
        }
    }
}

/// Whenever no logs are awaited, the store has got all the jobs selected from all the pages that
/// came, once and in their order, each as it was or, if it failed, as a log tells that was read
/// where its log is found.
pub proof fn lemma_store_gets_what_was_selected(run: RunView, events: Seq<EventView>)
    requires
        run.phase is Fetching,
        legal(run, events),
        after(run, events).phase !is Analyzing,
    ensures
        appended(run, events).len() == run.window.selected(offered(events)).len(),
        forall|i: int|
            0 <= i < appended(run, events).len() ==> analyzed_or_same(
                run,
                events,
                run.window.selected(offered(events))[i],
                #[trigger] appended(run, events)[i],
            ),
{
    lemma_nothing_is_lost(run, events);
    assert(appended(run, events) + at_hand(after(run, events)) =~= appended(run, events));
}

/// Whenever no logs are awaited, a table that was offered everything that was to be appended has a
/// row for every job selected from all the pages that came. If the ids of these jobs are new to
/// the table and no two are the same, it is the row of the job, as it was or as a log tells that was
/// read where its log is found.
pub proof fn lemma_table_gets_what_was_selected(
    run: RunView,
    events: Seq<EventView>,
    table: Map<int, Seq<SqlView>>,
    i: int,
)
    requires
        run.phase is Fetching,
        legal(run, events),
        after(run, events).phase !is Analyzing,
        0 <= i < run.window.selected(offered(events)).len(),
    ensures
        ({
            let selected = run.window.selected(offered(events));
            let filled = table_after_all(table, rows_of(appended(run, events)));
            let id = selected[i].id as int;
            &&& filled.contains_key(id)
            &&& !table.contains_key(id) && (forall|k: int|
                0 <= k < i ==> (#[trigger] selected[k]).id != selected[i].id) ==> {
                &&& filled[id] == row_of(appended(run, events)[i])
                &&& analyzed_or_same(run, events, selected[i], appended(run, events)[i])
            }
        }),
{
    let selected = run.window.selected(offered(events));
    let new = appended(run, events);
    let rows = rows_of(new);
    lemma_store_gets_what_was_selected(run, events);
    assert forall|k: int| 0 <= k < new.len() implies row_id(#[trigger] rows[k]) == selected[k].id by {
        assert(analyzed_or_same(run, events, selected[k], new[k]));
        assert(rows[k] == row_of(new[k]));
    }
    assert(analyzed_or_same(run, events, selected[i], new[i]));
    lemma_offered_jobs_are_stored(table, rows, i);
}

/// From a server that lists its jobs with falling ids, a run leaves the file with falling ids: so
/// the first job of the file is again the newest, and a store of that file knows the highest id
/// of all.
pub proof fn lemma_file_stays_newest_first(
    run: RunView,
    events: Seq<EventView>,
    stored: Seq<JobView>,
)
    requires
        run.phase is Fetching,
        legal(run, events),
        after(run, events).phase !is Analyzing,
        descending(offered(events)),
        descending(stored),
        run.window.last_id == newest_of(stored),
    ensures
        descending(appended(run, events) + stored),
        forall|i: int|
            0 <= i < (appended(run, events) + stored).len() ==> (#[trigger] (appended(run, events)
                + stored)[i]).id <= newest_of(appended(run, events) + stored),
{
    let new = appended(run, events);
    let selected = run.window.selected(offered(events));
    lemma_store_gets_what_was_selected(run, events);
    lemma_selection_keeps_descending(run.window, offered(events));
    assert forall|i: int| 0 <= i < new.len() implies (#[trigger] new[i]).id == selected[i].id by {
        assert(analyzed_or_same(run, events, selected[i], new[i]));
    }
    assert forall|i: int| 0 <= i < new.len() implies (#[trigger] new[i]).id > newest_of(stored) by {
        assert(new[i].id == selected[i].id);
        lemma_selected_exactly(run.window, offered(events), selected[i]);
    }
    assert(descending(new)) by {
        assert forall|i: int, j: int| 0 <= i < j < new.len() implies new[i].id > new[j].id by {
            assert(selected[i].id > selected[j].id);
        }
    }
    lemma_saved_file_stays_descending(new, stored);
}

/// A failure to fetch, to append or to save ends the run: it is the last event, and the store is
/// not saved after it.
pub proof fn lemma_failure_ends_the_run(run: RunView, events: Seq<EventView>, k: int)
    requires
        legal(run, events),
        0 <= k < events.len(),
        events[k] == EventView::Failed,
    ensures
        k == events.len() - 1,
        after(run, events).phase is Failed,
        last_action(run, events) == ActionView::Abort,
    decreases events.len(),
{
    if k < events.len() - 1 {
        assert(events.drop_last()[k] == EventView::Failed);
        lemma_failure_ends_the_run(run, events.drop_last(), k);
    }
}

/// A run that is over takes no event.
pub proof fn lemma_an_ended_run_stays_ended(run: RunView, event: EventView)
    requires
        run.phase is Finished || run.phase is Failed,
    ensures
        !run.accepts(event),
{
}

} // verus!
