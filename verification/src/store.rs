//! Where jobs are kept between runs.

use crate::db::{rows_of, Inserts, InsertsView};
use crate::job::{views, Job, JobView};
use crate::select::{lemma_selected_exactly, WindowView};
use vstd::prelude::*;

verus! {

/// A place where jobs are kept. It decides; what it says is to be done to a file or to a
/// database is done by its owner.
pub trait Store {
    /// The id of the last stored job, as far as the store has been told: a file tells it when it
    /// is opened, a database whenever it is asked. Jobs that were appended since do not count.
    spec fn newest(&self) -> u32;

    /// Whether jobs are inserted as they come, rather than written when the store is saved.
    spec fn at_once(&self) -> bool;

    /// The jobs that were appended and wait to be written.
    spec fn pending(&self) -> Seq<JobView>;

    /// The jobs that were written before and are written again.
    spec fn kept(&self) -> Seq<JobView>;

    /// The id of the last stored job, as far as the store has been told; zero if there is none. A
    /// database has to be asked anew after jobs were appended.
    fn last_id(&self) -> (id: u32)
        ensures
            id == self.newest(),
    ;

    /// Takes new jobs and says which rows are to be inserted now.
    fn append(&mut self, jobs: Vec<Job>) -> (inserts: Inserts)
        ensures
            final(self).newest() == old(self).newest(),
            final(self).at_once() == old(self).at_once(),
            final(self).kept() == old(self).kept(),
            old(self).at_once() ==> {
                &&& inserts@ == (InsertsView { left: rows_of(views(jobs@)), failed: false })
                &&& final(self).pending() == old(self).pending()
            },
            !old(self).at_once() ==> {
                &&& inserts@ == (InsertsView { left: Seq::empty(), failed: false })
                &&& final(self).pending() == old(self).pending() + views(jobs@)
            },
    ;

    /// The jobs that the file is to hold, the new ones first; `None` if there is nothing to write.
    fn save(&self) -> (rows: Option<Vec<&Job>>)
        ensures
            rows is None <==> self.at_once(),
            rows matches Some(rows) ==> rows@.map_values(|job: &Job| job@) == self.pending()
                + self.kept(),
    ;
}

/// The id of the first of some stored jobs, zero if there is none.
pub open spec fn newest_of(stored: Seq<JobView>) -> u32 {
    if stored.len() > 0 {
        stored[0].id
    } else {
        0
    }
}

/// Jobs in a file, one row each, the newest first.
#[allow(clippy::upper_case_acronyms)]
#[derive(Debug, PartialEq, Eq)]
pub struct CSV {
    jobs: Vec<Job>,
    stored_jobs: Vec<Job>,
    file: String,
}

impl CSV {
    /// The file that the jobs are kept in.
    pub closed spec fn path(&self) -> Seq<char> {
        self.file@
    }

    /// The store of a file that holds the given jobs.
    pub fn new(file: &str, stored_jobs: Vec<Job>) -> (store: CSV)
        ensures
            store.path() == file@,
            store.pending() == Seq::<JobView>::empty(),
            store.kept() == views(stored_jobs@),
    {
        let store = CSV { jobs: Vec::new(), stored_jobs, file: file.to_owned() };
        assert(store.pending() =~= Seq::<JobView>::empty());
        store
    }

    /// The file that the jobs are kept in.
    pub fn file(&self) -> (file: &str)
        ensures
            file@ == self.path(),
    {
        self.file.as_str()
    }
}

impl Store for CSV {
    open spec fn newest(&self) -> u32 {
        newest_of(self.kept())
    }

    open spec fn at_once(&self) -> bool {
        false
    }

    closed spec fn pending(&self) -> Seq<JobView> {
        views(self.jobs@)
    }

    closed spec fn kept(&self) -> Seq<JobView> {
        views(self.stored_jobs@)
    }

    fn last_id(&self) -> (id: u32) {
        if self.stored_jobs.len() > 0 {
            self.stored_jobs[0].id
        } else {
            0
        }
    }

    fn append(&mut self, jobs: Vec<Job>) -> (inserts: Inserts)
        ensures
            final(self).path() == old(self).path(),
    {
        let mut jobs = jobs;
        let ghost before = self.pending();
        let ghost added = views(jobs@);
        self.jobs.append(&mut jobs);
        assert(self.pending() =~= before + added);
        let inserts = Inserts::new(Vec::new());
        assert(inserts@.left =~= Seq::empty());
        inserts
    }

    fn save(&self) -> (rows: Option<Vec<&Job>>) {
        let mut rows: Vec<&Job> = Vec::new();
        for i in 0..self.jobs.len()
            invariant
                rows.len() == i,
                forall|k: int| 0 <= k < i ==> *(#[trigger] rows@[k]) == self.jobs@[k],
        {
            rows.push(&self.jobs[i]);
        }
        for i in 0..self.stored_jobs.len()
            invariant
                rows.len() == self.jobs.len() + i,
                forall|k: int|
                    0 <= k < rows.len() ==> *(#[trigger] rows@[k]) == (self.jobs@
                        + self.stored_jobs@)[k],
        {
            rows.push(&self.stored_jobs[i]);
        }
        assert(rows@.map_values(|job: &Job| job@) =~= self.pending() + self.kept());
        Some(rows)
    }
}

/// A store that is opened on what another one saved holds all of it: first the jobs that waited
/// there, then those that were kept, and nothing waits.
pub proof fn lemma_reopened_store_holds_what_was_saved(
    saved: CSV,
    rows: Vec<&Job>,
    file: &str,
    read: Vec<Job>,
    opened: CSV,
)
    requires
        call_ensures(CSV::save, (&saved,), Some(rows)),
        views(read@) == rows@.map_values(|job: &Job| job@),
        file@ == saved.path(),
        call_ensures(CSV::new, (file, read), opened),
    ensures
        opened.path() == saved.path(),
        opened.pending() == Seq::<JobView>::empty(),
        opened.kept() == saved.pending() + saved.kept(),
        opened.newest() == newest_of(saved.pending() + saved.kept()),
{
}

/// Whether the ids of some jobs fall from each job to the next.
pub open spec fn descending(jobs: Seq<JobView>) -> bool {
    forall|i: int, j: int| 0 <= i < j < jobs.len() ==> jobs[i].id > jobs[j].id
}

/// In a file with falling ids the first job is the newest: no stored job has a higher id than the
/// store's last one.
pub proof fn lemma_newest_is_highest(stored: Seq<JobView>, i: int)
    requires
        descending(stored),
        0 <= i < stored.len(),
    ensures
        stored[i].id <= newest_of(stored),
{
}

/// Selection keeps falling ids falling.
pub proof fn lemma_selection_keeps_descending(window: WindowView, jobs: Seq<JobView>)
    requires
        descending(jobs),
    ensures
        descending(window.selected(jobs)),
    decreases jobs.len(),
{
    reveal(Seq::filter);
    if jobs.len() > 0 {
        let rest = jobs.drop_last();
        lemma_selection_keeps_descending(window, rest);
        let kept = window.selected(rest);
        assert forall|i: int| 0 <= i < kept.len() implies kept[i].id > jobs.last().id by {
            lemma_selected_exactly(window, rest, kept[i]);
            let k = choose|k: int| 0 <= k < rest.len() && rest[k] == kept[i];
            assert(jobs[k] == kept[i]);
        }
    }
}

/// Saving keeps falling ids falling: if the new jobs have falling ids above the last stored one,
/// so has the file that is written, and a store of that file knows the highest id of all.
pub proof fn lemma_saved_file_stays_descending(new: Seq<JobView>, stored: Seq<JobView>)
    requires
        descending(new),
        descending(stored),
        forall|i: int| 0 <= i < new.len() ==> (#[trigger] new[i]).id > newest_of(stored),
    ensures
        descending(new + stored),
        newest_of(new + stored) == (if new.len() > 0 {
            new[0].id
        } else {
            newest_of(stored)
        }),
        forall|i: int|
            0 <= i < (new + stored).len() ==> (#[trigger] (new + stored)[i]).id <= newest_of(
                new + stored,
            ),
{
    let all = new + stored;
    assert forall|i: int, j: int| 0 <= i < j < all.len() implies all[i].id > all[j].id by {
        if i < new.len() && j >= new.len() {
            lemma_newest_is_highest(stored, j - new.len());
            assert(new[i].id > newest_of(stored));
        }
    }
    assert forall|i: int| 0 <= i < all.len() implies (#[trigger] all[i]).id <= newest_of(all) by {
        lemma_newest_is_highest(all, i);
    }
    if new.len() == 0 {
        assert(all =~= stored);
    }
}

} // verus!
