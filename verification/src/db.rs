//! The table of jobs in a database: its schema, its rows, and what its answers mean.

use crate::cause::lemma_printed_tells_causes_apart;
use crate::job::{views, Job, JobView, Seconds};
use crate::store::Store;
use crate::text::same_text;
use vstd::prelude::*;

verus! {

/// Creates the table of jobs where there is none yet.
pub const SCHEMA_DB: &'static str = "CREATE TABLE IF NOT EXISTS jobs ( \
    id INTEGER PRIMARY KEY, \
    status TEXT NOT NULL, \
    stage TEXT NOT NULL, \
    name TEXT NOT NULL, \
    ref_str TEXT NOT NULL, \
    duration REAL, \
    queue_duration REAL, \
    created_at TEXT NOT NULL, \
    finished_at TEXT, \
    failure_reason TEXT, \
    web_url TEXT NOT NULL, \
    checked_cause TEXT, \
    zombie_version TEXT
    );
";

/// Asks for the highest id of the table.
pub const LAST_ID_QUERY: &'static str = "SELECT MAX(id) from jobs";

/// Adds a row to the table.
pub const INSERT_QUERY: &'static str = "INSERT into jobs VALUES (?,?,?,?,?,?,?,?,?,?,?,?,?)";

/// What the database says of a row whose id is taken.
pub const DUPLICATE_ID: &'static str = "UNIQUE constraint failed: jobs.id";

/// A value of a row.
#[derive(Debug, PartialEq, Eq)]
pub enum SqlValue {
    Integer(i64),
    Float(Seconds),
    Text(String),
    Null,
}

/// What a value says.
pub enum SqlView {
    Integer(int),
    Float(Seconds),
    Text(Seq<char>),
    Null,
}

impl View for SqlValue {
    type V = SqlView;

    open spec fn view(&self) -> SqlView {
        match self {
            SqlValue::Integer(n) => SqlView::Integer(*n as int),
            SqlValue::Float(seconds) => SqlView::Float(*seconds),
            SqlValue::Text(text) => SqlView::Text(text@),
            SqlValue::Null => SqlView::Null,
        }
    }
}

/// The values of one row, in the order of the columns.
#[derive(Debug, PartialEq, Eq)]
pub struct Row {
    pub values: Vec<SqlValue>,
}

impl View for Row {
    type V = Seq<SqlView>;

    open spec fn view(&self) -> Seq<SqlView> {
        self.values@.map_values(|value: SqlValue| value@)
    }
}

/// A text that may be missing, as a value.
pub open spec fn text_value(text: Option<Seq<char>>) -> SqlView {
    match text {
        Some(text) => SqlView::Text(text),
        None => SqlView::Null,
    }
}

/// A number of seconds that may be missing, as a value.
pub open spec fn seconds_value(seconds: Option<Seconds>) -> SqlView {
    match seconds {
        Some(seconds) => SqlView::Float(seconds),
        None => SqlView::Null,
    }
}

/// The row of a job.
pub open spec fn row_of(job: JobView) -> Seq<SqlView> {
    seq![
        SqlView::Integer(job.id as int),
        SqlView::Text(job.status),
        SqlView::Text(job.stage),
        SqlView::Text(job.name),
        SqlView::Text(job.ref_str),
        seconds_value(job.duration),
        seconds_value(job.queued_duration),
        SqlView::Text(job.created_at),
        text_value(job.finished_at),
        text_value(job.failure_reason),
        SqlView::Text(job.web_url),
        SqlView::Text(job.checked_cause.printed()),
        text_value(job.zombie_version),
    ]
}

/// A text that may be missing, as a value.
fn optional_text(text: Option<String>) -> (value: SqlValue)
    ensures
        value@ == text_value(text.deep_view()),
{
    match text {
        Some(text) => SqlValue::Text(text),
        None => SqlValue::Null,
    }
}

/// A number of seconds that may be missing, as a value.
fn optional_seconds(seconds: Option<Seconds>) -> (value: SqlValue)
    ensures
        value@ == seconds_value(seconds),
{
    match seconds {
        Some(seconds) => SqlValue::Float(seconds),
        None => SqlValue::Null,
    }
}

impl Row {
    /// The row of a job.
    pub fn of(job: Job) -> (row: Row)
        ensures
            row@ == row_of(job@),
    {
        let cause = job.checked_cause.to_string();
        let mut values: Vec<SqlValue> = Vec::new();
        values.push(SqlValue::Integer(job.id as i64));
        values.push(SqlValue::Text(job.status));
        values.push(SqlValue::Text(job.stage));
        values.push(SqlValue::Text(job.name));
        values.push(SqlValue::Text(job.ref_str));
        values.push(optional_seconds(job.duration));
        values.push(optional_seconds(job.queued_duration));
        values.push(SqlValue::Text(job.created_at));
        values.push(optional_text(job.finished_at));
        values.push(optional_text(job.failure_reason));
        values.push(SqlValue::Text(job.web_url));
        values.push(SqlValue::Text(cause));
        values.push(optional_text(job.zombie_version));
        let row = Row { values };
        assert(row@ =~= row_of(job@));
        row
    }
}

/// A row tells everything that its job says.
pub proof fn lemma_row_tells_the_job(one: JobView, other: JobView)
    requires
        row_of(one) == row_of(other),
    ensures
        one == other,
{
    let a = row_of(one);
    let b = row_of(other);
    assert(a[0] == b[0]);
    assert(a[1] == b[1]);
    assert(a[2] == b[2]);
    assert(a[3] == b[3]);
    assert(a[4] == b[4]);
    assert(a[5] == b[5]);
    assert(a[6] == b[6]);
    assert(a[7] == b[7]);
    assert(a[8] == b[8]);
    assert(a[9] == b[9]);
    assert(a[10] == b[10]);
    assert(a[11] == b[11]);
    assert(a[12] == b[12]);
    lemma_printed_tells_causes_apart(one.checked_cause, other.checked_cause);
}

/// What the database answers to a row.
#[derive(Debug, PartialEq, Eq)]
pub enum Answer {
    /// The row is in the table.
    Stored,
    /// It is not, with the message of the database where it gave one.
    Refused(Option<String>),
}

/// What an answer says.
pub enum AnswerView {
    Stored,
    Refused(Option<Seq<char>>),
}

impl View for Answer {
    type V = AnswerView;

    open spec fn view(&self) -> AnswerView {
        match self {
            Answer::Stored => AnswerView::Stored,
            Answer::Refused(message) => AnswerView::Refused(message.deep_view()),
        }
    }
}

/// What an answer means for the rows that are left.
#[derive(Debug, Clone, Copy, PartialEq, Eq, Structural)]
pub enum Progress {
    /// The row was stored.
    Stored,
    /// The table has a row with this id, which stays.
    Skipped,
    /// Nothing more is inserted.
    Failed,
}

/// What an answer means: only a taken id is forgiven.
pub open spec fn progress(answer: AnswerView) -> Progress {
    match answer {
        AnswerView::Stored => Progress::Stored,
        AnswerView::Refused(message) => if message == Some(DUPLICATE_ID@) {
            Progress::Skipped
        } else {
            Progress::Failed
        },
    }
}

/// Rows on their way into the table, one after the other.
#[derive(Debug, PartialEq, Eq)]
pub struct Inserts {
    rows: Vec<Row>,
    done: usize,
    failed: bool,
}

/// The rows that are still to be inserted, and whether inserting was given up.
pub struct InsertsView {
    pub left: Seq<Seq<SqlView>>,
    pub failed: bool,
}

impl InsertsView {
    /// What is left after an answer to the first row.
    pub open spec fn answered(self, answer: AnswerView) -> InsertsView {
        if progress(answer) == Progress::Failed {
            InsertsView { failed: true, ..self }
        } else {
            InsertsView { left: self.left.drop_first(), ..self }
        }
    }

    /// Whether a row is to be inserted now.
    pub open spec fn waiting(self) -> bool {
        !self.failed && self.left.len() > 0
    }
}

/// The rows of some jobs, in their order.
pub open spec fn rows_of(jobs: Seq<JobView>) -> Seq<Seq<SqlView>> {
    jobs.map_values(|job: JobView| row_of(job))
}

impl View for Inserts {
    type V = InsertsView;

    closed spec fn view(&self) -> InsertsView {
        InsertsView {
            left: self.rows@.skip(self.done as int).map_values(|row: Row| row@),
            failed: self.failed,
        }
    }
}

impl Inserts {
    #[verifier::type_invariant]
    spec fn well_formed(self) -> bool {
        self.done <= self.rows.len()
    }

    /// One row for each job, in their order.
    pub fn new(jobs: Vec<Job>) -> (inserts: Inserts)
        ensures
            inserts@ == (InsertsView { left: rows_of(views(jobs@)), failed: false }),
    {
        let ghost all = jobs@;
        let mut rows: Vec<Row> = Vec::new();
        for job in it: jobs.into_iter()
            invariant
                it.seq() == all,
                rows.len() == it.index(),
                forall|k: int| 0 <= k < rows.len() ==> (#[trigger] rows[k])@ == row_of(all[k]@),
        {
            rows.push(Row::of(job));
        }
        let inserts = Inserts { rows, done: 0, failed: false };
        assert(inserts@.left =~= rows_of(views(all)));
        inserts
    }

    /// The row to insert now, unless all are done or inserting was given up.
    pub fn current(&self) -> (row: Option<&Row>)
        ensures
            row is Some <==> self@.waiting(),
            row matches Some(row) ==> row@ == self@.left[0],
    {
        proof {
            use_type_invariant(self);
        }
        if !self.failed && self.done < self.rows.len() {
            Some(&self.rows[self.done])
        } else {
            None
        }
    }

    /// Whether inserting was given up.
    pub fn failed(&self) -> (failed: bool)
        ensures
            failed == self@.failed,
    {
        self.failed
    }

    /// Takes the answer of the database to the current row.
    pub fn answer(&mut self, answer: Answer) -> (means: Progress)
        requires
            old(self)@.waiting(),
        ensures
            means == progress(answer@),
            final(self)@ == old(self)@.answered(answer@),
    {
        proof {
            use_type_invariant(&*self);
        }
        let means = match &answer {
            Answer::Stored => Progress::Stored,
            Answer::Refused(Some(message)) => if same_text(message.as_str(), DUPLICATE_ID) {
                Progress::Skipped
            } else {
                Progress::Failed
            },
            Answer::Refused(None) => Progress::Failed,
        };
        let ghost before = self@;
        if means == Progress::Failed {
            self.failed = true;
        } else {
            self.done = self.done + 1;
        }
        assert(self@.left =~= before.answered(answer@).left);
        means
    }
}

/// The id that an answer to the query for the highest id stands for: zero if there was none, or
/// if it is no id.
pub open spec fn id_or_zero(read: Option<i64>) -> u32 {
    match read {
        Some(id) => if 0 <= id <= u32::MAX {
            id as u32
        } else {
            0
        },
        None => 0,
    }
}

/// Jobs in a table of a database.
#[derive(Debug, PartialEq, Eq)]
pub struct Db {
    file: String,
    max_id: Option<i64>,
}

impl Db {
    /// The file of the database.
    pub closed spec fn path(&self) -> Seq<char> {
        self.file@
    }

    /// The answer that the query for the highest id got last.
    pub closed spec fn read(&self) -> Option<i64> {
        self.max_id
    }

    /// The store of a database, before its highest id is read.
    pub fn new(file: &str) -> (store: Db)
        ensures
            store.path() == file@,
            store.read() is None,
    {
        Db { file: file.to_owned(), max_id: None }
    }

    /// The file of the database.
    pub fn file(&self) -> (file: &str)
        ensures
            file@ == self.path(),
    {
        self.file.as_str()
    }

    /// Takes the answer to the query for the highest id, `None` if there was none.
    pub fn observe(&mut self, max_id: Option<i64>)
        ensures
            final(self).read() == max_id,
            final(self).path() == old(self).path(),
    {
        self.max_id = max_id;
    }
}

impl Store for Db {
    open spec fn newest(&self) -> u32 {
        id_or_zero(self.read())
    }

    open spec fn at_once(&self) -> bool {
        true
    }

    open spec fn pending(&self) -> Seq<JobView> {
        Seq::empty()
    }

    open spec fn kept(&self) -> Seq<JobView> {
        Seq::empty()
    }

    fn last_id(&self) -> (id: u32) {
        match self.max_id {
            Some(id) => if 0 <= id && id <= u32::MAX as i64 {
                id as u32
            } else {
                0
            },
            None => 0,
        }
    }

    fn append(&mut self, jobs: Vec<Job>) -> (inserts: Inserts)
        ensures
            *final(self) == *old(self),
    {
        Inserts::new(jobs)
    }

    fn save(&self) -> (rows: Option<Vec<&Job>>) {
        None
    }
}

/// The id of a row.
pub open spec fn row_id(row: Seq<SqlView>) -> int {
    row[0]->Integer_0
}

/// How a table whose ids are unique answers to a row.
pub open spec fn table_answer(table: Map<int, Seq<SqlView>>, row: Seq<SqlView>) -> AnswerView {
    if table.contains_key(row_id(row)) {
        AnswerView::Refused(Some(DUPLICATE_ID@))
    } else {
        AnswerView::Stored
    }
}

/// What a table whose ids are unique holds after a row was offered.
pub open spec fn table_after(table: Map<int, Seq<SqlView>>, row: Seq<SqlView>) -> Map<
    int,
    Seq<SqlView>,
> {
    if table.contains_key(row_id(row)) {
        table
    } else {
        table.insert(row_id(row), row)
    }
}

/// What a table holds after some rows were offered one by one.
pub open spec fn table_after_all(
    table: Map<int, Seq<SqlView>>,
    rows: Seq<Seq<SqlView>>,
) -> Map<int, Seq<SqlView>>
    decreases rows.len(),
{
    if rows.len() == 0 {
        table
    } else {
        table_after_all(table_after(table, rows[0]), rows.drop_first())
    }
}

/// The table and the inserts after the table was offered every row and answered.
pub open spec fn inserted(
    table: Map<int, Seq<SqlView>>,
    inserts: InsertsView,
) -> (Map<int, Seq<SqlView>>, InsertsView)
    decreases inserts.left.len(),
{
    if inserts.waiting() {
        inserted(
            table_after(table, inserts.left[0]),
            inserts.answered(table_answer(table, inserts.left[0])),
        )
    } else {
        (table, inserts)
    }
}

/// Against a table whose ids are unique every row is offered and nothing is given up.
pub proof fn lemma_every_row_is_offered(table: Map<int, Seq<SqlView>>, inserts: InsertsView)
    requires
        !inserts.failed,
    ensures
        inserted(table, inserts) == (
            table_after_all(table, inserts.left),
            InsertsView { left: Seq::empty(), failed: false },
        ),
    decreases inserts.left.len(),
{
    if inserts.left.len() > 0 {
        let row = inserts.left[0];
        lemma_every_row_is_offered(
            table_after(table, row),
            inserts.answered(table_answer(table, row)),
        );
    } else {
        assert(inserts.left =~= Seq::empty());
    }
}

/// A row that is in the table stays as it is, whatever is offered.
pub proof fn lemma_stored_rows_stay(
    table: Map<int, Seq<SqlView>>,
    rows: Seq<Seq<SqlView>>,
    id: int,
)
    requires
        table.contains_key(id),
    ensures
        table_after_all(table, rows).contains_key(id),
        table_after_all(table, rows)[id] == table[id],
    decreases rows.len(),
{
    if rows.len() > 0 {
        lemma_stored_rows_stay(table_after(table, rows[0]), rows.drop_first(), id);
    }
}

/// Every job that is offered has a row in the table afterwards: the one that its id had before,
/// or else that of the first offered job with this id.
pub proof fn lemma_offered_jobs_are_stored(
    table: Map<int, Seq<SqlView>>,
    rows: Seq<Seq<SqlView>>,
    i: int,
)
    requires
        0 <= i < rows.len(),
    ensures
        table_after_all(table, rows).contains_key(row_id(rows[i])),
        !table.contains_key(row_id(rows[i])) && (forall|k: int|
            0 <= k < i ==> row_id(#[trigger] rows[k]) != row_id(rows[i])) ==> table_after_all(
            table,
            rows,
        )[row_id(rows[i])] == rows[i],
    decreases rows.len(),
{
    let next = table_after(table, rows[0]);
    let rest = rows.drop_first();
    if i == 0 {
        lemma_stored_rows_stay(next, rest, row_id(rows[0]));
    } else {
        lemma_offered_jobs_are_stored(next, rest, i - 1);
        assert(rest[i - 1] == rows[i]);
        if !table.contains_key(row_id(rows[i])) && (forall|k: int|
            0 <= k < i ==> row_id(#[trigger] rows[k]) != row_id(rows[i])) {
            assert(row_id(rows[0]) != row_id(rows[i]));
            assert forall|k: int| 0 <= k < i - 1 implies row_id(#[trigger] rest[k]) != row_id(
                rest[i - 1],
            ) by {
                assert(rest[k] == rows[k + 1]);
            }
        }
    }
}

/// A table that has every id that is offered does not change.
proof fn lemma_known_ids_change_nothing(table: Map<int, Seq<SqlView>>, rows: Seq<Seq<SqlView>>)
    requires
        forall|i: int| 0 <= i < rows.len() ==> table.contains_key(row_id(#[trigger] rows[i])),
    ensures
        table_after_all(table, rows) == table,
    decreases rows.len(),
{
    if rows.len() > 0 {
        assert(table.contains_key(row_id(rows[0])));
        assert forall|i: int| 0 <= i < rows.drop_first().len() implies table.contains_key(
            row_id(#[trigger] rows.drop_first()[i]),
        ) by {
            assert(rows.drop_first()[i] == rows[i + 1]);
        }
        lemma_known_ids_change_nothing(table, rows.drop_first());
    }
}

/// Appending the same jobs again changes nothing.
pub proof fn lemma_inserting_again_changes_nothing(
    table: Map<int, Seq<SqlView>>,
    rows: Seq<Seq<SqlView>>,
)
    ensures
        table_after_all(table_after_all(table, rows), rows) == table_after_all(table, rows),
{
    assert forall|i: int| 0 <= i < rows.len() implies table_after_all(table, rows).contains_key(
        row_id(#[trigger] rows[i]),
    ) by {
        lemma_offered_jobs_are_stored(table, rows, i);
    }
    lemma_known_ids_change_nothing(table_after_all(table, rows), rows);
}

/// The ids of a table are those it had and those that were offered.
proof fn lemma_ids_after_all(table: Map<int, Seq<SqlView>>, rows: Seq<Seq<SqlView>>, id: int)
    ensures
        table_after_all(table, rows).contains_key(id) <==> table.contains_key(id) || exists|i: int|
            0 <= i < rows.len() && row_id(#[trigger] rows[i]) == id,
    decreases rows.len(),
{
    if rows.len() > 0 {
        let rest = rows.drop_first();
        lemma_ids_after_all(table_after(table, rows[0]), rest, id);
        if exists|i: int| 0 <= i < rows.len() && row_id(#[trigger] rows[i]) == id {
            let i = choose|i: int| 0 <= i < rows.len() && row_id(#[trigger] rows[i]) == id;
            if i > 0 {
                assert(rest[i - 1] == rows[i]);
            }
        }
        if exists|i: int| 0 <= i < rest.len() && row_id(#[trigger] rest[i]) == id {
            let i = choose|i: int| 0 <= i < rest.len() && row_id(#[trigger] rest[i]) == id;
            assert(rows[i + 1] == rest[i]);
        }
        assert(table_after(table, rows[0]).contains_key(id) <==> table.contains_key(id) || row_id(
            rows[0],
        ) == id);
    }
}

/// Whether `read` is the answer of a table to the query for its highest id. An empty table has
/// none, which reads as zero.
pub open spec fn answers_highest(table: Map<int, Seq<SqlView>>, read: Option<i64>) -> bool {
    if exists|id: int| table.contains_key(id) {
        &&& read is Some
        &&& table.contains_key(read->0 as int)
        &&& forall|id: int| #[trigger] table.contains_key(id) ==> id <= read->0
    } else {
        id_or_zero(read) == 0
    }
}

/// The highest id of some jobs, zero if there is none.
pub open spec fn highest_id(jobs: Seq<JobView>) -> u32
    decreases jobs.len(),
{
    if jobs.len() == 0 {
        0
    } else if jobs.last().id > highest_id(jobs.drop_last()) {
        jobs.last().id
    } else {
        highest_id(jobs.drop_last())
    }
}

/// The highest id is that of some job, and no job has a higher one.
proof fn lemma_highest_id(jobs: Seq<JobView>)
    ensures
        forall|i: int| 0 <= i < jobs.len() ==> (#[trigger] jobs[i]).id <= highest_id(jobs),
        jobs.len() > 0 ==> exists|i: int|
            0 <= i < jobs.len() && (#[trigger] jobs[i]).id == highest_id(jobs),
    decreases jobs.len(),
{
    if jobs.len() > 0 {
        let rest = jobs.drop_last();
        lemma_highest_id(rest);
        assert forall|i: int| 0 <= i < jobs.len() implies (#[trigger] jobs[i]).id <= highest_id(
            jobs,
        ) by {
            if i < rest.len() {
                assert(rest[i] == jobs[i]);
            }
        }
        if jobs.last().id > highest_id(rest) || rest.len() == 0 {
            assert(jobs[jobs.len() - 1].id == highest_id(jobs));
        } else {
            let i = choose|i: int|
                0 <= i < rest.len() && (#[trigger] rest[i]).id == highest_id(rest);
            assert(jobs[i] == rest[i]);
        }
    }
}

/// A store that asks anew sees the jobs that were appended: if the table answers the query for its
/// highest id before and after the rows of some jobs were offered, and its ids fit in 32 bits, the
/// last id is afterwards the larger of what it was and the highest id among the jobs.
pub proof fn lemma_last_id_after_append(
    table: Map<int, Seq<SqlView>>,
    jobs: Seq<JobView>,
    before: Db,
    later: Db,
)
    requires
        forall|id: int| #[trigger] table.contains_key(id) ==> 0 <= id <= u32::MAX,
        answers_highest(table, before.read()),
        answers_highest(table_after_all(table, rows_of(jobs)), later.read()),
    ensures
        later.newest() == (if before.newest() > highest_id(jobs) {
            before.newest()
        } else {
            highest_id(jobs)
        }),
{
    let rows = rows_of(jobs);
    let after = table_after_all(table, rows);
    lemma_highest_id(jobs);
    assert forall|id: int| #[trigger] after.contains_key(id) implies 0 <= id <= u32::MAX && (
    table.contains_key(id) || id <= highest_id(jobs)) by {
        lemma_ids_after_all(table, rows, id);
        if !table.contains_key(id) {
            let i = choose|i: int| 0 <= i < rows.len() && row_id(#[trigger] rows[i]) == id;
            assert(rows[i] == row_of(jobs[i]));
            assert(jobs[i].id <= highest_id(jobs));
        }
    }
    if exists|id: int| table.contains_key(id) {
        lemma_ids_after_all(table, rows, before.read()->0 as int);
    }
    if jobs.len() > 0 {
        let i = choose|i: int| 0 <= i < jobs.len() && (#[trigger] jobs[i]).id == highest_id(jobs);
        assert(rows[i] == row_of(jobs[i]));
        lemma_ids_after_all(table, rows, highest_id(jobs) as int);
        assert(after.contains_key(highest_id(jobs) as int));
    }
}

/// Rows that are offered in two portions fill the table as if they came in one.
pub proof fn lemma_portions_do_not_matter(
    table: Map<int, Seq<SqlView>>,
    first: Seq<Seq<SqlView>>,
    second: Seq<Seq<SqlView>>,
)
    ensures
        table_after_all(table_after_all(table, first), second) == table_after_all(
            table,
            first + second,
        ),
    decreases first.len(),
{
    if first.len() == 0 {
        assert(first + second =~= second);
    } else {
        assert((first + second).drop_first() =~= first.drop_first() + second);
        lemma_portions_do_not_matter(table_after(table, first[0]), first.drop_first(), second);
    }
}

/// The id of a job is the id of its row.
pub proof fn lemma_row_has_the_id_of_its_job(job: JobView)
    ensures
        row_id(row_of(job)) == job.id,
{
}

} // verus!
