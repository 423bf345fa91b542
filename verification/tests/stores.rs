use std::collections::BTreeMap;
use zombie_jobs::cause::Cause;
use zombie_jobs::db::{
    Answer, Db, Inserts, Progress, Row, SqlValue, DUPLICATE_ID, INSERT_QUERY, LAST_ID_QUERY, SCHEMA_DB,
};
use zombie_jobs::job::{Job, Seconds};
use zombie_jobs::store::{Store, CSV};

fn job(id: u32) -> Job {
    Job {
        id,
        status: "failed".to_string(),
        stage: "zombienet".to_string(),
        name: format!("job {}", id),
        ref_str: "master".to_string(),
        duration: Some(Seconds { bits: 1.5f32.to_bits() }),
        queued_duration: None,
        created_at: "2024-10-04T07:17:37Z".to_string(),
        finished_at: Some("2024-10-04T08:17:37Z".to_string()),
        failure_reason: None,
        web_url: "https://example.org/jobs/7".to_string(),
        checked_cause: Cause::Assertion,
        zombie_version: Some("v1.3.68".to_string()),
    }
}

fn text(text: &str) -> SqlValue {
    SqlValue::Text(text.to_string())
}

#[test]
fn csv_without_jobs_has_no_last_id() {
    let store = CSV::new("jobs.csv", vec![]);
    assert_eq!(store.last_id(), 0);
    assert_eq!(store.file(), "jobs.csv");
    assert_eq!(store.save(), Some(vec![]));
}

#[test]
fn csv_last_id_is_that_of_the_first_row() {
    let mut store = CSV::new("jobs.csv", vec![job(5), job(3)]);
    assert_eq!(store.last_id(), 5);
    store.append(vec![job(9)]);
    assert_eq!(store.last_id(), 5);
}

#[test]
fn csv_saves_new_jobs_before_stored_ones() {
    let mut store = CSV::new("jobs.csv", vec![job(5), job(3)]);
    assert!(store.append(vec![job(9), job(8)]).current().is_none());
    store.append(vec![job(7)]);
    let rows = store.save().unwrap();
    let ids: Vec<u32> = rows.iter().map(|job| job.id).collect();
    assert_eq!(ids, vec![9, 8, 7, 5, 3]);
    assert_eq!(*rows[0], job(9));
    // A store of that file holds the same jobs and knows the newest.
    let reopened = CSV::new(store.file(), rows.iter().map(|job| (*job).clone()).collect());
    assert_eq!(reopened.last_id(), 9);
    assert_eq!(reopened.save(), Some(rows));
    assert_eq!(reopened.file(), "jobs.csv");
}

#[test]
fn db_last_id_is_the_one_that_was_read() {
    let mut store = Db::new("jobs.db");
    assert_eq!(store.file(), "jobs.db");
    assert_eq!(store.last_id(), 0);
    for (read, id) in [
        (Some(0), 0),
        (Some(42), 42),
        (Some(4294967295), 4294967295),
        (Some(4294967296), 0),
        (Some(-1), 0),
        (None, 0),
    ] {
        store.observe(read);
        assert_eq!(store.last_id(), id);
    }
}

#[test]
fn db_saves_nothing() {
    let mut store = Db::new("jobs.db");
    store.append(vec![job(1)]);
    assert_eq!(store.save(), None);
}

#[test]
fn rows_hold_the_columns_of_the_table() {
    let row = Row::of(job(7));
    assert_eq!(
        row.values,
        vec![
            SqlValue::Integer(7),
            text("failed"),
            text("zombienet"),
            text("job 7"),
            text("master"),
            SqlValue::Float(Seconds { bits: 1.5f32.to_bits() }),
            SqlValue::Null,
            text("2024-10-04T07:17:37Z"),
            text("2024-10-04T08:17:37Z"),
            SqlValue::Null,
            text("https://example.org/jobs/7"),
            text("\"Assertion\""),
            text("v1.3.68"),
        ]
    );
}

#[test]
fn rows_hold_nothing_for_what_is_missing() {
    let row = Row::of(Job {
        duration: None,
        queued_duration: Some(Seconds { bits: 2 }),
        finished_at: None,
        failure_reason: Some("f".to_string()),
        zombie_version: None,
        ..job(4294967295)
    });
    assert_eq!(row.values[0], SqlValue::Integer(4294967295));
    assert_eq!(row.values[5], SqlValue::Null);
    assert_eq!(row.values[6], SqlValue::Float(Seconds { bits: 2 }));
    assert_eq!(row.values[8], SqlValue::Null);
    assert_eq!(row.values[9], text("f"));
    assert_eq!(row.values[12], SqlValue::Null);
}

#[test]
fn a_row_has_a_value_for_each_column() {
    let places = INSERT_QUERY.chars().filter(|c| *c == '?').count();
    assert_eq!(Row::of(job(1)).values.len(), places);
    assert_eq!(SCHEMA_DB.split(',').count(), places);
}

#[test]
fn rows_are_offered_in_order() {
    let mut inserts = Db::new("jobs.db").append(vec![job(3), job(2)]);
    assert_eq!(inserts.current(), Some(&Row::of(job(3))));
    assert_eq!(inserts.answer(Answer::Stored), Progress::Stored);
    assert_eq!(inserts.current(), Some(&Row::of(job(2))));
    assert_eq!(inserts.answer(Answer::Stored), Progress::Stored);
    assert_eq!(inserts.current(), None);
    assert!(!inserts.failed());
}

#[test]
fn a_taken_id_is_skipped() {
    let mut inserts = Inserts::new(vec![job(3), job(2)]);
    let answer = Answer::Refused(Some("UNIQUE constraint failed: jobs.id".to_string()));
    assert_eq!(inserts.answer(answer), Progress::Skipped);
    assert_eq!(inserts.current(), Some(&Row::of(job(2))));
    assert!(!inserts.failed());
}

#[test]
fn other_refusals_end_the_inserting() {
    for message in [None, Some("disk full".to_string()), Some("UNIQUE constraint failed: jobs.name".to_string())] {
        let mut inserts = Inserts::new(vec![job(3), job(2)]);
        assert_eq!(inserts.answer(Answer::Refused(message)), Progress::Failed);
        assert_eq!(inserts.current(), None);
        assert!(inserts.failed());
    }
}

fn offer(table: &mut BTreeMap<i64, Row>, jobs: Vec<Job>) {
    let mut inserts = Inserts::new(jobs);
    while let Some(row) = inserts.current() {
        let id = match &row.values[0] {
            SqlValue::Integer(id) => *id,
            _ => panic!("an id is an integer"),
        };
        let copy = Row { values: row.values.iter().map(same).collect() };
        let answer = if table.contains_key(&id) {
            Answer::Refused(Some(DUPLICATE_ID.to_string()))
        } else {
            table.insert(id, copy);
            Answer::Stored
        };
        inserts.answer(answer);
    }
    assert!(!inserts.failed());
}

fn same(value: &SqlValue) -> SqlValue {
    match value {
        SqlValue::Integer(n) => SqlValue::Integer(*n),
        SqlValue::Float(seconds) => SqlValue::Float(*seconds),
        SqlValue::Text(text) => SqlValue::Text(text.clone()),
        SqlValue::Null => SqlValue::Null,
    }
}

#[test]
fn a_table_keeps_its_rows_and_gets_the_new_ones() {
    let mut table = BTreeMap::new();
    offer(&mut table, vec![job(3), job(2)]);
    let changed = Job { name: "changed".to_string(), ..job(3) };
    offer(&mut table, vec![job(4), changed]);
    assert_eq!(table.keys().copied().collect::<Vec<i64>>(), vec![2, 3, 4]);
    assert_eq!(table[&3], Row::of(job(3)));
    let before = table.len();
    offer(&mut table, vec![job(4), job(3), job(2)]);
    assert_eq!(table.len(), before);
}

#[test]
fn a_database_answers_as_expected() {
    let connection = sqlite::open(":memory:").unwrap();
    connection.execute(SCHEMA_DB).unwrap();
    connection.execute(SCHEMA_DB).unwrap();
    let mut store = Db::new(":memory:");
    for (ids, last_id) in [(vec![], 0), (vec![3u32, 2], 3), (vec![4, 3], 4), (vec![1], 4)] {
        let mut inserts = store.append(ids.into_iter().map(job).collect());
        while let Some(row) = inserts.current() {
            let values: Vec<sqlite::Value> = row.values.iter().map(sql).collect();
            let mut statement = connection.prepare(INSERT_QUERY).unwrap();
            statement.bind(&values[..]).unwrap();
            let answer = match statement.next() {
                Ok(_) => Answer::Stored,
                Err(error) => Answer::Refused(error.message),
            };
            inserts.answer(answer);
        }
        assert!(!inserts.failed());
        let mut statement = connection.prepare(LAST_ID_QUERY).unwrap();
        statement.next().unwrap();
        store.observe(statement.read::<i64, _>(0).ok());
        assert_eq!(store.last_id(), last_id);
    }
}

fn sql(value: &SqlValue) -> sqlite::Value {
    match value {
        SqlValue::Integer(n) => sqlite::Value::Integer(*n),
        SqlValue::Float(seconds) => sqlite::Value::Float(f32::from_bits(seconds.bits) as f64),
        SqlValue::Text(text) => sqlite::Value::String(text.clone()),
        SqlValue::Null => sqlite::Value::Null,
    }
}
