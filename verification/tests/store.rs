use statlog::database::{Database, DatabaseError};
use statlog::record::{DataPoint, Record, Timestamp};

fn rec(t: i64, rank: u64, up: u64, down: u64, rer: u64, top5: u64) -> Record {
    Record {
        timestamp: Timestamp::new(t),
        data: DataPoint {
            rank,
            upvotes: up,
            downvotes: down,
            reranks: rer,
            top5_reranks: top5,
        },
    }
}

fn sample() -> Vec<Record> {
    vec![
        rec(1500000000, 3, 100, 20, 5, 1),
        rec(1500000060, 3, 101, 20, 5, 1),
        rec(-62, 0, 0, 0, 0, 0),
        rec(1500000180, 4, 102, 21, 6, 2),
    ]
}

#[test]
fn init_without_file_is_empty() {
    let db = Database::init(None).unwrap();
    assert_eq!(db.records().len(), 0);
    assert_eq!(db.write(), Vec::<u8>::new());
}

#[test]
fn push_serializes_one_line() {
    let mut db = Database::init(None).unwrap();
    let line = db.push(rec(1234567890, 1, 2, 3, 4, 5));
    assert_eq!(
        String::from_utf8(line).unwrap(),
        "{\"timestamp\":1234567890,\"data\":{\"rank\":1,\"upvotes\":2,\"downvotes\":3,\"reranks\":4,\"top5_reranks\":5}}\n"
    );
    assert_eq!(db.records().len(), 1);
}

#[test]
fn push_line_matches_serde_json_reading() {
    let mut db = Database::init(None).unwrap();
    let line = db.push(rec(-1234, 7, 8, 9, 10, 11));
    let text = String::from_utf8(line).unwrap();
    let v: serde_json::Value = serde_json::from_str(text.trim_end()).unwrap();
    assert_eq!(v["timestamp"].as_i64().unwrap(), -1234);
    assert_eq!(v["data"]["rank"].as_u64().unwrap(), 7);
    assert_eq!(v["data"]["upvotes"].as_u64().unwrap(), 8);
    assert_eq!(v["data"]["downvotes"].as_u64().unwrap(), 9);
    assert_eq!(v["data"]["reranks"].as_u64().unwrap(), 10);
    assert_eq!(v["data"]["top5_reranks"].as_u64().unwrap(), 11);
}

#[test]
fn write_then_read_round_trips() {
    let mut db = Database::init(None).unwrap();
    for r in sample() {
        db.push(r);
    }
    let content = db.write();
    let mut db2 = Database::init(None).unwrap();
    db2.read(&content).unwrap();
    assert_eq!(db2.records(), db.records());
}

#[test]
fn pushes_equal_write_all_at_once() {
    let mut pushed = Database::init(None).unwrap();
    let mut file: Vec<u8> = Vec::new();
    for r in sample() {
        let line = pushed.push(r);
        file.extend_from_slice(&line);
    }
    assert_eq!(file, pushed.write());
    let mut reread = Database::init(None).unwrap();
    reread.read(&file).unwrap();
    assert_eq!(reread.records(), pushed.records());
}

#[test]
fn init_parses_existing_contents() {
    let mut db = Database::init(None).unwrap();
    for r in sample() {
        db.push(r);
    }
    let content = db.write();
    let db2 = Database::init(Some(&content)).unwrap();
    assert_eq!(db2.records(), db.records());
}

#[test]
fn read_accepts_missing_final_newline() {
    let mut db = Database::init(None).unwrap();
    db.push(rec(5, 1, 1, 1, 1, 1));
    db.push(rec(6, 2, 2, 2, 2, 2));
    let mut content = db.write();
    assert_eq!(content.last(), Some(&b'\n'));
    content.pop();
    let mut db2 = Database::init(None).unwrap();
    db2.read(&content).unwrap();
    assert_eq!(db2.records(), db.records());
}

#[test]
fn read_rejects_malformed_line_with_its_number() {
    let mut db = Database::init(None).unwrap();
    db.push(rec(1, 1, 1, 1, 1, 1));
    let mut content = db.write();
    content.extend_from_slice(b"not a record\n");
    let mut db2 = Database::init(None).unwrap();
    match db2.read(&content) {
        Err(DatabaseError::Parse { line, text }) => {
            assert_eq!(line, 2);
            assert_eq!(text, b"not a record".to_vec());
        }
        other => panic!("expected a parse failure, got {:?}", other.map(|()| 0)),
    }
}

#[test]
fn read_rejects_empty_line_between_records() {
    let content = b"\n".to_vec();
    let mut db = Database::init(None).unwrap();
    match db.read(&content) {
        Err(DatabaseError::Parse { line, text }) => {
            assert_eq!(line, 1);
            assert_eq!(text, Vec::<u8>::new());
        }
        _ => panic!("expected a parse failure"),
    }
}

#[test]
fn read_rejects_overflowing_number() {
    let content = b"{\"timestamp\":1,\"data\":{\"rank\":99999999999999999999999,\"upvotes\":2,\"downvotes\":3,\"reranks\":4,\"top5_reranks\":5}}\n".to_vec();
    let mut db = Database::init(None).unwrap();
    assert!(db.read(&content).is_err());
}

#[test]
fn read_replaces_previous_contents() {
    let mut db = Database::init(None).unwrap();
    db.push(rec(1, 1, 1, 1, 1, 1));
    let one = db.write();
    let mut db2 = Database::init(None).unwrap();
    db2.push(rec(2, 2, 2, 2, 2, 2));
    db2.push(rec(3, 3, 3, 3, 3, 3));
    db2.read(&one).unwrap();
    assert_eq!(db2.records(), db.records());
}

#[test]
fn extreme_timestamps_round_trip() {
    let mut db = Database::init(None).unwrap();
    db.push(rec(i64::MIN, 0, 0, 0, 0, 0));
    db.push(rec(i64::MAX, u64::MAX, 0, 0, 0, 0));
    let content = db.write();
    let mut db2 = Database::init(None).unwrap();
    db2.read(&content).unwrap();
    assert_eq!(db2.records(), db.records());
}
