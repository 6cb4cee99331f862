use statlog::database::Database;
use statlog::record::{DataPoint, Record, Timestamp};

fn point(v: u64) -> DataPoint {
    DataPoint {
        rank: v,
        upvotes: v * 10,
        downvotes: v + 1,
        reranks: 0,
        top5_reranks: v,
    }
}

fn series(payloads: &[u64]) -> Database {
    let mut db = Database::init(None).unwrap();
    for (i, &v) in payloads.iter().enumerate() {
        db.push(Record {
            timestamp: Timestamp::new(i as i64),
            data: point(v),
        });
    }
    db
}

fn payloads_of(records: &[Record]) -> Vec<(i64, u64)> {
    records
        .iter()
        .map(|r| (r.timestamp.as_secs(), r.data.rank))
        .collect()
}

#[test]
fn compaction_of_runs_keeps_onsets_and_run_ends() {
    // input payloads: A A A B B C at t0..t5
    let db = series(&[7, 7, 7, 8, 8, 9]);
    let out = db.compress_records();
    // expected: (t0,A) (t2,A) (t3,B) (t4,B) (t5,C)
    assert_eq!(
        payloads_of(&out),
        vec![(0, 7), (2, 7), (3, 8), (4, 8), (5, 9)]
    );
}

#[test]
fn compaction_of_empty_store_is_empty() {
    let db = series(&[]);
    assert_eq!(db.compress_records().len(), 0);
}

#[test]
fn compaction_of_single_record_is_itself() {
    let db = series(&[42]);
    let out = db.compress_records();
    assert_eq!(payloads_of(&out), vec![(0, 42)]);
}

#[test]
fn compaction_of_all_equal_keeps_first_and_last() {
    let db = series(&[5, 5, 5, 5, 5]);
    let out = db.compress_records();
    assert_eq!(payloads_of(&out), vec![(0, 5), (4, 5)]);
}

#[test]
fn compaction_of_two_equal_keeps_both() {
    let db = series(&[5, 5]);
    let out = db.compress_records();
    assert_eq!(payloads_of(&out), vec![(0, 5), (1, 5)]);
}

#[test]
fn compaction_keeps_trailing_duplicate_of_final_run() {
    // A B B: the final sample is kept even though it repeats the run's onset.
    let db = series(&[1, 2, 2]);
    let out = db.compress_records();
    assert_eq!(payloads_of(&out), vec![(0, 1), (1, 2), (2, 2)]);
}

#[test]
fn compaction_of_alternating_payloads_keeps_everything() {
    let db = series(&[1, 2, 1, 2, 1]);
    let out = db.compress_records();
    assert_eq!(
        payloads_of(&out),
        vec![(0, 1), (1, 2), (2, 1), (3, 2), (4, 1)]
    );
}

#[test]
fn compaction_is_idempotent_on_its_own_output() {
    let db = series(&[7, 7, 7, 8, 8, 9, 9, 9, 9, 3]);
    let once = db.compress_records();
    let mut db2 = Database::init(None).unwrap();
    for r in &once {
        db2.push(*r);
    }
    let twice = db2.compress_records();
    assert_eq!(payloads_of(&twice), payloads_of(&once));
    assert_eq!(twice, once);
}

#[test]
fn compaction_uses_whole_payload_not_one_field() {
    // equal ranks but differing other fields must not be merged
    let mut db = Database::init(None).unwrap();
    let mut a = point(1);
    let mut b = point(1);
    a.upvotes = 5;
    b.upvotes = 6;
    db.push(Record { timestamp: Timestamp::new(0), data: a });
    db.push(Record { timestamp: Timestamp::new(1), data: b });
    db.push(Record { timestamp: Timestamp::new(2), data: b });
    let out = db.compress_records();
    assert_eq!(out.len(), 3);
}
