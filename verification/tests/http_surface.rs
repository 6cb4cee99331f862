use statlog::database::Database;
use statlog::record::{DataPoint, Record, Timestamp};
use statlog::server::{get_csv_stats, get_json_stats, route, Route};

fn rec(t: i64, rank: u64) -> Record {
    Record {
        timestamp: Timestamp::new(t),
        data: DataPoint {
            rank,
            upvotes: rank + 1,
            downvotes: rank + 2,
            reranks: rank + 3,
            top5_reranks: rank + 4,
        },
    }
}

fn resolve(method: &str, path: &str) -> Route {
    route(&method.as_bytes().to_vec(), &path.as_bytes().to_vec())
}

#[test]
fn routes_the_two_stats_endpoints_under_get() {
    assert_eq!(resolve("GET", "/ranker/stats.json"), Route::JsonStats);
    assert_eq!(resolve("GET", "/ranker/stats.csv"), Route::CsvStats);
}

#[test]
fn routes_other_methods_to_method_not_allowed() {
    assert_eq!(resolve("POST", "/ranker/stats.json"), Route::MethodNotAllowed);
    assert_eq!(resolve("PUT", "/ranker/stats.csv"), Route::MethodNotAllowed);
}

#[test]
fn routes_unknown_paths_to_not_found() {
    assert_eq!(resolve("GET", "/ranker/stats.xml"), Route::NotFound);
    assert_eq!(resolve("GET", "/ranker"), Route::NotFound);
    assert_eq!(resolve("GET", "/ranker/stats.json/"), Route::NotFound);
    assert_eq!(resolve("GET", "/"), Route::NotFound);
}

#[test]
fn routes_pathless_requests_to_bad_request() {
    assert_eq!(resolve("GET", ""), Route::BadRequest);
    assert_eq!(resolve("GET", "ranker/stats.json"), Route::BadRequest);
}

#[test]
fn json_body_lists_the_compacted_series() {
    let mut db = Database::init(None).unwrap();
    db.push(rec(10, 1));
    db.push(rec(11, 1));
    db.push(rec(12, 2));
    let body = String::from_utf8(get_json_stats(&db)).unwrap();
    assert_eq!(body, "[[10,1,2,3,4,5],[11,1,2,3,4,5],[12,2,3,4,5,6]]");
}

#[test]
fn json_body_of_an_empty_store_is_an_empty_array() {
    let db = Database::init(None).unwrap();
    let body = String::from_utf8(get_json_stats(&db)).unwrap();
    assert_eq!(body, "[]");
    assert!(serde_json::from_str::<serde_json::Value>(&body).unwrap().as_array().unwrap().is_empty());
}

#[test]
fn json_body_compacts_long_runs() {
    let mut db = Database::init(None).unwrap();
    for t in 0..5 {
        db.push(rec(t, 9));
    }
    let body = String::from_utf8(get_json_stats(&db)).unwrap();
    assert_eq!(body, "[[0,9,10,11,12,13],[4,9,10,11,12,13]]");
}

#[test]
fn csv_body_has_header_and_formatted_timestamps() {
    let mut db = Database::init(None).unwrap();
    db.push(rec(0, 1));
    db.push(rec(1234567890, 2));
    let body = String::from_utf8(get_csv_stats(&db)).unwrap();
    assert_eq!(
        body,
        "timestamp,rank,upvotes,downvotes,reranks,top5_reranks\n\
         1970-01-01 00:00:00,1,2,3,4,5\n\
         2009-02-13 23:31:30,2,3,4,5,6\n"
    );
}

#[test]
fn csv_body_of_an_empty_store_is_the_header_alone() {
    let db = Database::init(None).unwrap();
    let body = String::from_utf8(get_csv_stats(&db)).unwrap();
    assert_eq!(body, "timestamp,rank,upvotes,downvotes,reranks,top5_reranks\n");
}
