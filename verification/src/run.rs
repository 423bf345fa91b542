//! A run: page after page is fetched, selected, analyzed and stored, until there is nothing new.
//!
//! A run decides and its owner acts: each step takes what came of the last action and gives the
//! next one.

use crate::analysis::{analyze_job, analyzed};
use crate::config::Config;
use crate::job::{views, Job, JobView};
use crate::request::{
    log_url, page_headers, page_request, page_url, Request, RequestView, SCOPE_FAILED,
    SCOPE_SUCCESS,
};
use crate::select::{Limit, LimitView, Window, WindowView};
use vstd::prelude::*;

verus! {

/// How many jobs are analyzed at the same time.
pub const BATCH: usize = 10;

/// A page of jobs, and the number of the page that follows, if any.
#[derive(Debug, PartialEq, Eq)]
pub struct Page {
    pub jobs: Vec<Job>,
    pub next_page: Option<u32>,
}

/// What came of an action.
#[derive(Debug, PartialEq, Eq)]
pub enum Event {
    /// The page that was fetched.
    Page(Page),
    /// The logs that were read, `None` for each that could not be.
    Logs(Vec<Option<String>>),
    /// The jobs were appended to the store.
    Appended,
    /// The store was saved.
    Saved,
    /// The page was not fetched, the jobs not appended, or the store not saved.
    Failed,
}

/// What an event says.
pub enum EventView {
    Page { jobs: Seq<JobView>, next_page: Option<u32> },
    Logs(Seq<Option<Seq<char>>>),
    Appended,
    Saved,
    Failed,
}

impl View for Event {
    type V = EventView;

    open spec fn view(&self) -> EventView {
        match self {
            Event::Page(page) => EventView::Page {
                jobs: views(page.jobs@),
                next_page: page.next_page,
            },
            Event::Logs(logs) => EventView::Logs(logs.deep_view()),
            Event::Appended => EventView::Appended,
            Event::Saved => EventView::Saved,
            Event::Failed => EventView::Failed,
        }
    }
}

/// What is to be done.
#[derive(Debug, PartialEq, Eq)]
pub enum Action {
    /// Fetch a page.
    Fetch { page: u32, request: Request },
    /// Read the logs found at these places, at the same time.
    Read(Vec<String>),
    /// Append these jobs to the store.
    Append(Vec<Job>),
    /// Save the store.
    Save,
    /// Nothing: the run is over.
    Finish,
    /// Nothing: the run is over and has failed.
    Abort,
}

/// What an action says.
pub enum ActionView {
    Fetch { page: u32, request: RequestView },
    Read(Seq<Seq<char>>),
    Append(Seq<JobView>),
    Save,
    Finish,
    Abort,
}

impl View for Action {
    type V = ActionView;

    open spec fn view(&self) -> ActionView {
        match self {
            Action::Fetch { page, request } => ActionView::Fetch { page: *page, request: request@ },
            Action::Read(urls) => ActionView::Read(urls.deep_view()),
            Action::Append(jobs) => ActionView::Append(views(jobs@)),
            Action::Save => ActionView::Save,
            Action::Finish => ActionView::Finish,
            Action::Abort => ActionView::Abort,
        }
    }
}

/// What a run waits for.
pub enum PhaseView {
    /// A page.
    Fetching { page: u32 },
    /// The logs of some of the jobs that were selected from a page.
    Analyzing {
        page: u32,
        next_page: Option<u32>,
        limit: Option<LimitView>,
        jobs: Seq<JobView>,
        /// How many of the jobs are behind.
        done: int,
    },
    /// The store, which takes the jobs of a page.
    Appending { page: u32, next_page: Option<u32>, limit: Option<LimitView> },
    /// The store, which is saved.
    Saving,
    /// Nothing.
    Finished,
    /// Nothing, after a failure.
    Failed,
}

/// A run: what it was started with, and what it waits for.
pub struct RunView {
    pub base_url: Seq<char>,
    pub token: Option<Seq<char>>,
    pub max_pages: u32,
    pub window: WindowView,
    pub phase: PhaseView,
}

/// The scopes that are asked for.
pub open spec fn scopes() -> Seq<Seq<char>> {
    seq![SCOPE_FAILED@, SCOPE_SUCCESS@]
}

/// Where the batch that starts at `from` ends.
pub open spec fn batch_end(jobs: Seq<JobView>, from: int) -> int {
    if from + BATCH <= jobs.len() {
        from + BATCH
    } else {
        jobs.len() as int
    }
}

/// The failed jobs among those from `from` up to `to`.
pub open spec fn failed_between(jobs: Seq<JobView>, from: int, to: int) -> Seq<JobView> {
    jobs.subrange(from, to).filter(|job: JobView| job.failed())
}

/// Where the logs of the failed jobs of the batch that starts at `from` are found.
pub open spec fn batch_urls(jobs: Seq<JobView>, from: int) -> Seq<Seq<char>> {
    failed_between(jobs, from, batch_end(jobs, from)).map_values(
        |job: JobView| log_url(job.web_url),
    )
}

/// The jobs after the logs of the batch that starts at `from` were read: each failed job of the
/// batch is analyzed with its log, if there is one, and no other job changes.
pub open spec fn with_logs(
    jobs: Seq<JobView>,
    from: int,
    logs: Seq<Option<Seq<char>>>,
) -> Seq<JobView> {
    Seq::new(
        jobs.len(),
        |i: int|
            if from <= i < batch_end(jobs, from) && jobs[i].failed() {
                match logs[failed_between(jobs, from, i).len() as int] {
                    Some(log) => analyzed(jobs[i], log),
                    None => jobs[i],
                }
            } else {
                jobs[i]
            },
    )
}

impl RunView {
    /// The run in another phase.
    pub open spec fn to(self, phase: PhaseView) -> RunView {
        RunView { phase, ..self }
    }

    /// The action that fetches a page.
    pub open spec fn fetch(self, page: u32) -> ActionView {
        ActionView::Fetch {
            page,
            request: RequestView {
                url: page_url(self.base_url, scopes(), page),
                headers: page_headers(self.token),
            },
        }
    }

    /// The page to fetch after another: the one that the server named, unless the other was the
    /// last of those that may be read or the window was left.
    pub open spec fn following(
        self,
        page: u32,
        next_page: Option<u32>,
        limit: Option<LimitView>,
    ) -> Option<u32> {
        if page >= self.max_pages || limit is Some {
            None
        } else {
            next_page
        }
    }

    /// Goes on with the jobs selected from a page, `done` of which are behind: the next batch is
    /// analyzed, or all are appended to the store.
    pub open spec fn proceed(
        self,
        page: u32,
        next_page: Option<u32>,
        limit: Option<LimitView>,
        jobs: Seq<JobView>,
        done: int,
    ) -> (RunView, ActionView) {
        if done < jobs.len() {
            (
                self.to(PhaseView::Analyzing { page, next_page, limit, jobs, done }),
                ActionView::Read(batch_urls(jobs, done)),
            )
        } else {
            (
                self.to(PhaseView::Appending { page, next_page, limit }),
                ActionView::Append(jobs),
            )
        }
    }

    /// Whether an event can come of the last action.
    pub open spec fn accepts(self, event: EventView) -> bool {
        match (self.phase, event) {
            (PhaseView::Fetching { .. }, EventView::Page { .. }) => true,
            (PhaseView::Fetching { .. }, EventView::Failed) => true,
            (PhaseView::Analyzing { jobs, done, .. }, EventView::Logs(logs)) => logs.len()
                == batch_urls(jobs, done).len(),
            (PhaseView::Appending { .. }, EventView::Appended) => true,
            (PhaseView::Appending { .. }, EventView::Failed) => true,
            (PhaseView::Saving, EventView::Saved) => true,
            (PhaseView::Saving, EventView::Failed) => true,
            _ => false,
        }
    }

    /// The run after an event, and what is to be done then.
    pub open spec fn stepped(self, event: EventView) -> (RunView, ActionView) {
        match (self.phase, event) {
            (
                PhaseView::Fetching { page },
                EventView::Page { jobs, next_page },
            ) => self.proceed(
                page,
                next_page,
                self.window.limit_in(jobs),
                self.window.selected(jobs),
                0,
            ),
            (
                PhaseView::Analyzing { page, next_page, limit, jobs, done },
                EventView::Logs(logs),
            ) => self.proceed(
                page,
                next_page,
                limit,
                with_logs(jobs, done, logs),
                batch_end(jobs, done),
            ),
            (
                PhaseView::Appending { page, next_page, limit },
                EventView::Appended,
            ) => match self.following(page, next_page, limit) {
                Some(next) => (self.to(PhaseView::Fetching { page: next }), self.fetch(next)),
                None => (self.to(PhaseView::Saving), ActionView::Save),
            },
            (PhaseView::Saving, EventView::Saved) => (
                self.to(PhaseView::Finished),
                ActionView::Finish,
            ),
            _ => (self.to(PhaseView::Failed), ActionView::Abort),
        }
    }
}

/// What a run waits for.
#[derive(Debug, PartialEq, Eq)]
enum Phase {
    Fetching { page: u32 },
    Analyzing {
        page: u32,
        next_page: Option<u32>,
        limit: Option<Limit>,
        jobs: Vec<Job>,
        done: usize,
    },
    Appending { page: u32, next_page: Option<u32>, limit: Option<Limit> },
    Saving,
    Finished,
    Failed,
}

/// A run: what it was started with, and what it waits for.
#[derive(Debug, PartialEq, Eq)]
pub struct Run {
    base_url: String,
    token: Option<String>,
    max_pages: u32,
    window: Window,
    phase: Phase,
}

impl View for Run {
    type V = RunView;

    closed spec fn view(&self) -> RunView {
        RunView {
            base_url: self.base_url@,
            token: self.token.deep_view(),
            max_pages: self.max_pages,
            window: self.window@,
            phase: match self.phase {
                Phase::Fetching { page } => PhaseView::Fetching { page },
                Phase::Analyzing { page, next_page, limit, jobs, done } => PhaseView::Analyzing {
                    page,
                    next_page,
                    limit: limit.deep_view(),
                    jobs: views(jobs@),
                    done: done as int,
                },
                Phase::Appending { page, next_page, limit } => PhaseView::Appending {
                    page,
                    next_page,
                    limit: limit.deep_view(),
                },
                Phase::Saving => PhaseView::Saving,
                Phase::Finished => PhaseView::Finished,
                Phase::Failed => PhaseView::Failed,
            },
        }
    }
}

/// Where the batch that starts at `from` ends.
fn end_of_batch(jobs: &Vec<Job>, from: usize) -> (end: usize)
    requires
        from <= jobs.len(),
    ensures
        end == batch_end(views(jobs@), from as int),
        from <= end <= jobs.len(),
{
    if jobs.len() - from >= BATCH {
        from + BATCH
    } else {
        jobs.len()
    }
}

/// The failed jobs up to a job and the job itself, if it failed.
proof fn lemma_failed_between_grows(jobs: Seq<JobView>, from: int, i: int)
    requires
        0 <= from <= i < jobs.len(),
    ensures
        failed_between(jobs, from, i + 1) == (if jobs[i].failed() {
            failed_between(jobs, from, i).push(jobs[i])
        } else {
            failed_between(jobs, from, i)
        }),
{
    reveal(Seq::filter);
    assert(jobs.subrange(from, i + 1).drop_last() =~= jobs.subrange(from, i));
}

/// A failed job stands among the failed ones behind those that failed before it.
proof fn lemma_place_among_failed(jobs: Seq<JobView>, from: int, i: int, to: int)
    requires
        0 <= from <= i < to <= jobs.len(),
        jobs[i].failed(),
    ensures
        failed_between(jobs, from, i).len() < failed_between(jobs, from, to).len(),
        failed_between(jobs, from, to)[failed_between(jobs, from, i).len() as int] == jobs[i],
    decreases to - i,
{
    lemma_failed_between_grows(jobs, from, to - 1);
    if i < to - 1 {
        lemma_place_among_failed(jobs, from, i, to - 1);
    }
}

/// Each failed job is analyzed with its own log: the place that is read for it, in the order in
/// which a batch is read and its logs are handed out, is the one where its log is found.
pub proof fn lemma_log_belongs_to_its_job(jobs: Seq<JobView>, from: int, i: int)
    requires
        0 <= from <= i < batch_end(jobs, from),
        jobs[i].failed(),
    ensures
        failed_between(jobs, from, i).len() < batch_urls(jobs, from).len(),
        batch_urls(jobs, from)[failed_between(jobs, from, i).len() as int] == log_url(
            jobs[i].web_url,
        ),
{
    lemma_place_among_failed(jobs, from, i, batch_end(jobs, from));
}

/// Where the logs of the failed jobs of the batch that starts at `from` are found.
fn urls_of_batch(jobs: &Vec<Job>, from: usize) -> (urls: Vec<String>)
    requires
        from <= jobs.len(),
    ensures
        urls.deep_view() == batch_urls(views(jobs@), from as int),
{
    let ghost all = views(jobs@);
    let url_of = Ghost(|job: JobView| log_url(job.web_url));
    let mut urls: Vec<String> = Vec::new();
    let end = end_of_batch(jobs, from);
    assert(all.subrange(from as int, from as int) =~= Seq::<JobView>::empty());
    assert(failed_between(all, from as int, from as int) =~= Seq::<JobView>::empty()) by {
        reveal(Seq::filter);
    }
    for i in from..end
        invariant
            from <= end <= jobs.len(),
            all == views(jobs@),
            url_of@ == (|job: JobView| log_url(job.web_url)),
            urls.deep_view() =~= failed_between(all, from as int, i as int).map_values(url_of@),
    {
        proof {
            lemma_failed_between_grows(all, from as int, i as int);
        }
        if jobs[i].failed() {
            let ghost before = urls.deep_view();
            let url = jobs[i].log_url();
            urls.push(url);
            assert(urls.deep_view() =~= before.push(log_url(all[i as int].web_url)));
        }
    }
    urls
}

/// Analyzes each failed job of the batch that starts at `from` with its log, if there is one.
fn read_logs(jobs: &mut Vec<Job>, from: usize, logs: &Vec<Option<String>>)
    requires
        from <= old(jobs).len(),
        logs.len() == batch_urls(views(old(jobs)@), from as int).len(),
    ensures
        views(final(jobs)@) == with_logs(views(old(jobs)@), from as int, logs.deep_view()),
{
    let ghost all = views(jobs@);
    let ghost wanted = with_logs(all, from as int, logs.deep_view());
    let end = end_of_batch(jobs, from);
    let mut k: usize = 0;
    assert(failed_between(all, from as int, from as int).len() == 0) by {
        reveal(Seq::filter);
    }
    for i in from..end
        invariant
            from <= end <= jobs.len(),
            jobs.len() == all.len(),
            end == batch_end(all, from as int),
            wanted == with_logs(all, from as int, logs.deep_view()),
            k == failed_between(all, from as int, i as int).len(),
            logs.len() == failed_between(all, from as int, end as int).len(),
            forall|n: int| 0 <= n < i ==> (#[trigger] jobs@[n])@ == wanted[n],
            forall|n: int| i <= n < jobs.len() ==> (#[trigger] jobs@[n])@ == all[n],
    {
        proof {
            lemma_failed_between_grows(all, from as int, i as int);
        }
        if jobs[i].failed() {
            proof {
                lemma_place_among_failed(all, from as int, i as int, end as int);
            }
            if let Some(log) = &logs[k] {
                analyze_job(&mut jobs[i], log.as_str());
            }
            k = k + 1;
        }
    }
    assert(views(jobs@) =~= wanted);
}

impl RunView {
    /// The bound at which the window was left, as far as the page at hand shows.
    pub open spec fn limit(self) -> Option<LimitView> {
        match self.phase {
            PhaseView::Analyzing { limit, .. } => limit,
            PhaseView::Appending { limit, .. } => limit,
            _ => None,
        }
    }
}

impl Run {
    #[verifier::type_invariant]
    spec fn well_formed(self) -> bool {
        self.phase matches Phase::Analyzing { jobs, done, .. } ==> done < jobs.len()
    }

    /// The action that fetches a page.
    fn fetch(base_url: &str, token: &Option<String>, page: u32) -> (action: Action)
        ensures
            action@ == (ActionView::Fetch {
                page,
                request: RequestView {
                    url: page_url(base_url@, scopes(), page),
                    headers: page_headers(token.deep_view()),
                },
            }),
    {
        let token = match token {
            Some(token) => Some(token.clone()),
            None => None,
        };
        let names = [SCOPE_FAILED, SCOPE_SUCCESS];
        let request = page_request(base_url, token, names.as_slice(), page);
        assert(names@.map_values(|scope: &str| scope@) =~= scopes());
        Action::Fetch { page, request }
    }

    /// Starts a run at the first page. It looks for jobs above `last_id`.
    pub fn start(config: Config, last_id: u32) -> (started: (Run, Action))
        ensures
            started.0@ == (RunView {
                base_url: config@.base_url,
                token: config@.token,
                max_pages: config@.max_pages,
                window: WindowView {
                    last_id,
                    base_date: config@.base_date,
                    end_date: config@.end_date,
                },
                phase: PhaseView::Fetching { page: 1 },
            }),
            started.1@ == started.0@.fetch(1),
    {
        let action = Self::fetch(config.base_url.as_str(), &config.token, 1);
        let run = Run {
            base_url: config.base_url,
            token: config.token,
            max_pages: config.max_pages,
            window: Window { last_id, base_date: config.base_date, end_date: config.end_date },
            phase: Phase::Fetching { page: 1 },
        };
        (run, action)
    }

    /// The bound at which the window was left, as far as the page at hand shows.
    pub fn limit(&self) -> (limit: &Option<Limit>)
        ensures
            limit.deep_view() == self@.limit(),
    {
        match &self.phase {
            Phase::Analyzing { limit, .. } => limit,
            Phase::Appending { limit, .. } => limit,
            _ => &None,
        }
    }

    /// Whether an event can come of the last action.
    pub fn accepts(&self, event: &Event) -> (accepted: bool)
        ensures
            accepted == self@.accepts(event@),
    {
        proof {
            use_type_invariant(self);
        }
        match (&self.phase, event) {
            (Phase::Fetching { .. }, Event::Page(_)) => true,
            (Phase::Fetching { .. }, Event::Failed) => true,
            (Phase::Analyzing { jobs, done, .. }, Event::Logs(logs)) => {
                let urls = urls_of_batch(jobs, *done);
                assert(urls.deep_view().len() == urls.len());
                logs.len() == urls.len()
            },
            (Phase::Appending { .. }, Event::Appended) => true,
            (Phase::Appending { .. }, Event::Failed) => true,
            (Phase::Saving, Event::Saved) => true,
            (Phase::Saving, Event::Failed) => true,
            _ => false,
        }
    }

    /// The run in another phase.
    fn to(self, phase: Phase) -> (run: Run)
        requires
            phase matches Phase::Analyzing { jobs, done, .. } ==> done < jobs.len(),
        ensures
            run == (Run { phase, ..self }),
    {
        Run {
            base_url: self.base_url,
            token: self.token,
            max_pages: self.max_pages,
            window: self.window,
            phase,
        }
    }

    /// Goes on with the jobs selected from a page, `done` of which are behind.
    fn proceed(
        self,
        page: u32,
        next_page: Option<u32>,
        limit: Option<Limit>,
        jobs: Vec<Job>,
        done: usize,
    ) -> (next: (Run, Action))
        requires
            done <= jobs.len(),
        ensures
            (next.0@, next.1@) == self@.proceed(
                page,
                next_page,
                limit.deep_view(),
                views(jobs@),
                done as int,
            ),
    {
        if done < jobs.len() {
            let urls = urls_of_batch(&jobs, done);
            (
                self.to(Phase::Analyzing { page, next_page, limit, jobs, done }),
                Action::Read(urls),
            )
        } else {
            (self.to(Phase::Appending { page, next_page, limit }), Action::Append(jobs))
        }
    }

    /// Takes what came of the last action and says what is to be done next.
    pub fn step(self, event: Event) -> (next: (Run, Action))
        requires
            self@.accepts(event@),
        ensures
            (next.0@, next.1@) == self@.stepped(event@),
    {
        proof {
            use_type_invariant(&self);
        }
        let Run { base_url, token, max_pages, window, phase } = self;
        let idle = Run { base_url, token, max_pages, window, phase: Phase::Failed };
        match (phase, event) {
            (Phase::Fetching { page }, Event::Page(fetched)) => {
                let selection = idle.window.select(fetched.jobs);
                idle.proceed(page, fetched.next_page, selection.limit, selection.jobs, 0)
            },
            (Phase::Analyzing { page, next_page, limit, jobs, done }, Event::Logs(logs)) => {
                let mut jobs = jobs;
                let end = end_of_batch(&jobs, done);
                read_logs(&mut jobs, done, &logs);
                assert(views(jobs@).len() == jobs.len());
                idle.proceed(page, next_page, limit, jobs, end)
            },
            (Phase::Appending { page, next_page, limit }, Event::Appended) => {
                let following = if page >= idle.max_pages || limit.is_some() {
                    None
                } else {
                    next_page
                };
                match following {
                    Some(next) => {
                        let action = Self::fetch(idle.base_url.as_str(), &idle.token, next);
                        (idle.to(Phase::Fetching { page: next }), action)
                    },
                    None => (idle.to(Phase::Saving), Action::Save),
                }
            },
            (Phase::Saving, Event::Saved) => (idle.to(Phase::Finished), Action::Finish),
            _ => (idle, Action::Abort),
        }
    }
}

} // verus!
