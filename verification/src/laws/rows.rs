//! What the stores keep, and in which order.

use crate::cause::Cause;
use crate::db::{
    row_of, Answer, Db, Inserts, Progress, Row, SqlValue, INSERT_QUERY, LAST_ID_QUERY, SCHEMA_DB,
};
use crate::job::{views, Job, JobView, Seconds};
use crate::store::{Store, CSV};
use vstd::prelude::*;

verus! {

/// Whether a value holds a text.
pub open spec fn holds_text(value: SqlValue, text: Seq<char>) -> bool {
    value matches SqlValue::Text(held) && held@ == text
}

/// Whether a value holds a text that may be missing, and nothing where it is.
pub open spec fn holds_optional_text(value: SqlValue, text: Option<String>) -> bool {
    match text {
        Some(text) => holds_text(value, text@),
        None => value is Null,
    }
}

/// Whether a value holds a number of seconds that may be missing, and nothing where it is.
pub open spec fn holds_optional_seconds(value: SqlValue, seconds: Option<Seconds>) -> bool {
    match seconds {
        Some(seconds) => value == SqlValue::Float(seconds),
        None => value is Null,
    }
}

/// Whether a row holds a job, column by column in the order of the table.
pub open spec fn holds_job(row: Row, job: Job) -> bool {
    &&& row.values@.len() == 13
    &&& row.values@[0] == SqlValue::Integer(job.id as i64)
    &&& holds_text(row.values@[1], job.status@)
    &&& holds_text(row.values@[2], job.stage@)
    &&& holds_text(row.values@[3], job.name@)
    &&& holds_text(row.values@[4], job.ref_str@)
    &&& holds_optional_seconds(row.values@[5], job.duration)
    &&& holds_optional_seconds(row.values@[6], job.queued_duration)
    &&& holds_text(row.values@[7], job.created_at@)
    &&& holds_optional_text(row.values@[8], job.finished_at)
    &&& holds_optional_text(row.values@[9], job.failure_reason)
    &&& holds_text(row.values@[10], job.web_url@)
    &&& forall|cause: String| #[trigger]
        call_ensures(Cause::to_string, (&job.checked_cause,), cause) ==> holds_text(
            row.values@[11],
            cause@,
        )
    &&& holds_optional_text(row.values@[12], job.zombie_version)
}

/// A row that says what the row of a job says holds the job.
proof fn lemma_row_holds_the_job(row: Row, job: Job)
    requires
        row@ == row_of(job@),
    ensures
        holds_job(row, job),
{
    let seen = row@;
    assert(seen.len() == row.values@.len());
    assert forall|i: int| 0 <= i < 13 implies (#[trigger] row.values@[i])@ == row_of(job@)[i] by {
        assert(seen[i] == row.values@[i]@);
    }
    assert(row.values@[0]@ == row_of(job@)[0]);
    assert(row.values@[1]@ == row_of(job@)[1]);
    assert(row.values@[2]@ == row_of(job@)[2]);
    assert(row.values@[3]@ == row_of(job@)[3]);
    assert(row.values@[4]@ == row_of(job@)[4]);
    assert(row.values@[5]@ == row_of(job@)[5]);
    assert(row.values@[6]@ == row_of(job@)[6]);
    assert(row.values@[7]@ == row_of(job@)[7]);
    assert(row.values@[8]@ == row_of(job@)[8]);
    assert(row.values@[9]@ == row_of(job@)[9]);
    assert(row.values@[10]@ == row_of(job@)[10]);
    assert(row.values@[11]@ == row_of(job@)[11]);
    assert(row.values@[12]@ == row_of(job@)[12]);
}

/// The row of a job holds each of its fields in the column of the table that is meant for it.
pub proof fn lemma_columns_of_a_job(job: Job, row: Row)
    requires
        call_ensures(Row::of, (job,), row),
    ensures
        holds_job(row, job),
{
    lemma_row_holds_the_job(row, job);
}

/// The statements that the database is given: the columns of the table in the order of the rows,
/// a place for each value, and the highest id.
pub proof fn lemma_statements()
    ensures
        SCHEMA_DB@ == "CREATE TABLE IF NOT EXISTS jobs ( \
    id INTEGER PRIMARY KEY, \
    status TEXT NOT NULL, \
    stage TEXT NOT NULL, \
    name TEXT NOT NULL, \
    ref_str TEXT NOT NULL, \
    duration REAL, \
    queue_duration REAL, \
    created_at TEXT NOT NULL, \
    finished_at TEXT, \
    failure_reason TEXT, \
    web_url TEXT NOT NULL, \
    checked_cause TEXT, \
    zombie_version TEXT
    );
"@,
        INSERT_QUERY@ == "INSERT into jobs VALUES (?,?,?,?,?,?,?,?,?,?,?,?,?)"@,
        LAST_ID_QUERY@ == "SELECT MAX(id) from jobs"@,
{
}

/// Whether some rows are to be inserted that hold some jobs, in their order.
pub open spec fn offers(inserts: Inserts, jobs: Seq<Job>) -> bool {
    &&& !inserts@.failed
    &&& inserts@.left.len() == jobs.len()
    &&& forall|i: int, row: Row|
        0 <= i < jobs.len() && #[trigger] row@ == #[trigger] inserts@.left[i] ==> holds_job(
            row,
            jobs[i],
        )
}

/// Inserts that were made from jobs offer a row for each, in their order.
pub proof fn lemma_a_row_for_each_job(jobs: Vec<Job>, inserts: Inserts)
    requires
        call_ensures(Inserts::new, (jobs,), inserts),
    ensures
        offers(inserts, jobs@),
{
    assert forall|i: int, row: Row|
        0 <= i < jobs@.len() && #[trigger] row@ == #[trigger] inserts@.left[i] implies holds_job(
        row,
        jobs@[i],
    ) by {
        lemma_row_holds_the_job(row, jobs@[i]);
    }
}

/// The row to insert now is the first of those that are left; there is none exactly if none is
/// left or inserting was given up.
pub proof fn lemma_row_to_insert_now(inserts: Inserts, row: Option<&Row>, failed: bool)
    requires
        call_ensures(Inserts::current, (&inserts,), row),
        call_ensures(Inserts::failed, (&inserts,), failed),
    ensures
        failed <==> inserts@.failed,
        row is None <==> failed || inserts@.left.len() == 0,
        row matches Some(row) ==> row@ == inserts@.left[0],
{
}

/// A row that was stored, or whose id is taken, makes way for the next. Any other refusal, and one
/// without a message, ends the inserting.
pub proof fn lemma_answers_to_rows(answer: Answer, means: Progress)
    ensures
        forall|inserts: &mut Inserts| #[trigger]
            call_ensures(Inserts::answer, (inserts, answer), means) ==> {
                let taken = answer matches Answer::Refused(Some(message)) && message@
                    == "UNIQUE constraint failed: jobs.id"@;
                &&& means == Progress::Stored <==> answer is Stored
                &&& means == Progress::Skipped <==> taken
                &&& means == Progress::Failed <==> !(answer is Stored || taken)
                &&& answer is Stored || taken ==> {
                    &&& final(inserts)@.left == (*inserts)@.left.drop_first()
                    &&& final(inserts)@.failed == (*inserts)@.failed
                }
                &&& !(answer is Stored || taken) ==> {
                    &&& final(inserts)@.left == (*inserts)@.left
                    &&& final(inserts)@.failed
                }
            },
{
}

/// The last id of a database is the number that was read, if it is an id, and zero if not.
pub proof fn lemma_last_id_of_a_database(store: Db, id: u32)
    requires
        call_ensures(Db::last_id, (&store,), id),
    ensures
        store.read() is Some && 0 <= store.read()->0 <= u32::MAX ==> id == store.read()->0,
        !(store.read() is Some && 0 <= store.read()->0 <= u32::MAX) ==> id == 0,
        id == store.newest(),
{
}

/// A database is opened without an answer, keeps the last answer that it is given, and keeps it
/// when jobs are appended, whose rows are then to be inserted. It has nothing to save.
pub proof fn lemma_database_keeps_what_it_is_told(
    file: &str,
    opened: Db,
    path: &str,
    read: Option<i64>,
    jobs: Vec<Job>,
    inserts: Inserts,
    rows: Option<Vec<&Job>>,
)
    requires
        call_ensures(Db::new, (file,), opened),
        call_ensures(Db::file, (&opened,), path),
        call_ensures(Db::save, (&opened,), rows),
    ensures
        path@ == file@,
        opened.read() is None,
        rows is None,
        forall|store: &mut Db| #[trigger]
            call_ensures(Db::observe, (store, read), ()) ==> final(store).read() == read
                && final(store).path() == (*store).path(),
        forall|store: &mut Db| #[trigger]
            call_ensures(Db::append, (store, jobs), inserts) ==> {
                &&& final(store).read() == (*store).read()
                &&& final(store).path() == (*store).path()
                &&& offers(inserts, jobs@)
            },
{
    assert forall|store: &mut Db| #[trigger]
        call_ensures(Db::append, (store, jobs), inserts) implies offers(inserts, jobs@) by {
        assert forall|i: int, row: Row|
            0 <= i < jobs@.len() && #[trigger] row@
                == #[trigger] inserts@.left[i] implies holds_job(row, jobs@[i]) by {
            lemma_row_holds_the_job(row, jobs@[i]);
        }
    }
}

/// Whether the rows of a file are some jobs, in their order.
pub open spec fn rows_are(rows: Option<Vec<&Job>>, jobs: Seq<JobView>) -> bool {
    &&& rows is Some
    &&& rows->0@.len() == jobs.len()
    &&& forall|i: int| 0 <= i < jobs.len() ==> (#[trigger] rows->0@[i])@ == jobs[i]
}

/// A file's last id is that of its first job, or zero; and what was read from it is written again.
pub proof fn lemma_opened_file(
    file: &str,
    stored: Vec<Job>,
    store: CSV,
    path: &str,
    id: u32,
    rows: Option<Vec<&Job>>,
)
    requires
        call_ensures(CSV::new, (file, stored), store),
        call_ensures(CSV::file, (&store,), path),
        call_ensures(CSV::last_id, (&store,), id),
        call_ensures(CSV::save, (&store,), rows),
    ensures
        path@ == file@,
        stored@.len() > 0 ==> id == stored@[0].id,
        stored@.len() == 0 ==> id == 0,
        rows_are(rows, views(stored@)),
{
    assert(views(stored@).len() == stored@.len());
    if stored@.len() > 0 {
        assert(views(stored@)[0] == stored@[0]@);
    }
    assert(Seq::<JobView>::empty() + views(stored@) =~= views(stored@));
    let saved = rows->0@.map_values(|job: &Job| job@);
    assert(forall|i: int| 0 <= i < saved.len() ==> #[trigger] saved[i] == rows->0@[i]@);
    assert forall|i: int| 0 <= i < stored@.len() implies (#[trigger] rows->0@[i])@ == views(
        stored@,
    )[i] by {
        assert(saved[i] == rows->0@[i]@);
    }
}

/// Jobs that are appended wait behind those that were appended before; the jobs of the file stay,
/// the last id stays, and nothing is inserted.
pub proof fn lemma_appending_to_a_file(jobs: Vec<Job>, inserts: Inserts)
    ensures
        forall|store: &mut CSV| #[trigger]
            call_ensures(CSV::append, (store, jobs), inserts) ==> {
                &&& final(store).pending() == (*store).pending() + views(jobs@)
                &&& final(store).kept() == (*store).kept()
                &&& final(store).newest() == (*store).newest()
                &&& final(store).path() == (*store).path()
                &&& inserts@.left.len() == 0
                &&& !inserts@.failed
            },
{
}

/// Saving writes the jobs that wait, in the order in which they were appended, and then those that
/// the file had: a file of `stored` jobs to which `first` and then `second` are appended is written
/// as `first`, `second`, `stored`.
pub proof fn lemma_saved_file(
    file: &str,
    stored: Vec<Job>,
    opened: CSV,
    first: Vec<Job>,
    second: Vec<Job>,
    one: Inserts,
    two: Inserts,
    rows: Option<Vec<&Job>>,
)
    requires
        call_ensures(CSV::new, (file, stored), opened),
    ensures
        forall|a: &mut CSV, b: &mut CSV|
            #![trigger call_ensures(CSV::append, (a, first), one), call_ensures(
                CSV::append,
                (b, second),
                two,
            )]
            *a == opened && *b == *final(a) && call_ensures(CSV::append, (a, first), one)
                && call_ensures(CSV::append, (b, second), two) && call_ensures(
                CSV::save,
                (final(b),),
                rows,
            ) ==> rows_are(rows, views(first@) + views(second@) + views(stored@)),
{
    assert forall|a: &mut CSV, b: &mut CSV|
        #![trigger call_ensures(CSV::append, (a, first), one), call_ensures(
            CSV::append,
            (b, second),
            two,
        )]
        *a == opened && *b == *final(a) && call_ensures(CSV::append, (a, first), one)
            && call_ensures(CSV::append, (b, second), two) && call_ensures(
            CSV::save,
            (final(b),),
            rows,
        ) implies rows_are(rows, views(first@) + views(second@) + views(stored@)) by {
        let all = views(first@) + views(second@) + views(stored@);
        assert(final(b).pending() + final(b).kept() =~= all);
        let saved = rows->0@.map_values(|job: &Job| job@);
        assert(saved == all);
        assert forall|i: int| 0 <= i < all.len() implies (#[trigger] rows->0@[i])@ == all[i] by {
            assert(saved[i] == rows->0@[i]@);
        }
    }
}

} // verus!
