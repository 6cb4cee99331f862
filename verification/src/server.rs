use vstd::prelude::*;
use crate::record::{Record, spec_format_ts};
use crate::codec::{dec_u64, dec_i64, write_u64, write_i64};
use crate::database::Database;
use crate::compress::{spec_compress, lemma_compress_from_original};

verus! {

// ---------------------------------------------------------------------------
// The HTTP surface's decisions and bodies.  Transport stays with the caller;
// this module decides what a request means and computes the exact bytes of
// each response body.
// ---------------------------------------------------------------------------

/// What a request resolves to.
#[derive(Clone, Copy, Debug, PartialEq, Eq, Structural)]
pub enum Route {
    /// Serve the compacted series as JSON.
    JsonStats,
    /// Serve the compacted series as CSV.
    CsvStats,
    /// The path does not start with a slash.
    BadRequest,
    /// No endpoint under this path.
    NotFound,
    /// The endpoint exists but not under this method.
    MethodNotAllowed,
}

pub open spec fn lit_get() -> Seq<u8> {
    seq![71u8, 69u8, 84u8]
}

pub open spec fn lit_path_json() -> Seq<u8> {
    seq![47u8, 114u8, 97u8, 110u8, 107u8, 101u8, 114u8, 47u8, 115u8, 116u8, 97u8, 116u8, 115u8,
        46u8, 106u8, 115u8, 111u8, 110u8]
}

pub open spec fn lit_path_csv() -> Seq<u8> {
    seq![47u8, 114u8, 97u8, 110u8, 107u8, 101u8, 114u8, 47u8, 115u8, 116u8, 97u8, 116u8, 115u8,
        46u8, 99u8, 115u8, 118u8]
}

/// Which route a method and a path resolve to: the two statistics endpoints
/// under GET alone, a client error for a path without a leading slash or an
/// unknown path.
pub open spec fn spec_route(method: Seq<u8>, path: Seq<u8>) -> Route {
    if path.len() == 0 || path[0] != 47 {
        Route::BadRequest
    } else if path == lit_path_json() {
        if method == lit_get() {
            Route::JsonStats
        } else {
            Route::MethodNotAllowed
        }
    } else if path == lit_path_csv() {
        if method == lit_get() {
            Route::CsvStats
        } else {
            Route::MethodNotAllowed
        }
    } else {
        Route::NotFound
    }
}

fn bytes_eq(a: &Vec<u8>, b: &Vec<u8>) -> (r: bool)
    ensures
        r == (a@ == b@),
{
    if a.len() != b.len() {
        return false;
    }
    let n = a.len();
    let mut k: usize = 0;
    while k < n
        invariant
            0 <= k <= n,
            n == a@.len(),
            n == b@.len(),
            forall|m: int| 0 <= m < k ==> a@[m] == b@[m],
        decreases n - k,
    {
        if a[k] != b[k] {
            return false;
        }
        k = k + 1;
    }
    proof {
        assert(a@ =~= b@);
    }
    true
}

fn lit_get_vec() -> (v: Vec<u8>)
    ensures
        v@ == lit_get(),
{
    let a: [u8; 3] = [71u8, 69u8, 84u8];
    let v = vstd::slice::slice_to_vec(a.as_slice());
    assert(v@ =~= lit_get());
    v
}

fn lit_path_json_vec() -> (v: Vec<u8>)
    ensures
        v@ == lit_path_json(),
{
    let a: [u8; 18] = [47u8, 114u8, 97u8, 110u8, 107u8, 101u8, 114u8, 47u8, 115u8, 116u8, 97u8,
        116u8, 115u8, 46u8, 106u8, 115u8, 111u8, 110u8];
    let v = vstd::slice::slice_to_vec(a.as_slice());
    assert(v@ =~= lit_path_json());
    v
}

fn lit_path_csv_vec() -> (v: Vec<u8>)
    ensures
        v@ == lit_path_csv(),
{
    let a: [u8; 17] = [47u8, 114u8, 97u8, 110u8, 107u8, 101u8, 114u8, 47u8, 115u8, 116u8, 97u8,
        116u8, 115u8, 46u8, 99u8, 115u8, 118u8];
    let v = vstd::slice::slice_to_vec(a.as_slice());
    assert(v@ =~= lit_path_csv());
    v
}

/// Resolves a request's method and path.
pub fn route(method: &Vec<u8>, path: &Vec<u8>) -> (r: Route)
    ensures
        r == spec_route(method@, path@),
{
    if path.len() == 0 || path[0] != 47 {
        return Route::BadRequest;
    }
    let get = lit_get_vec();
    let json = lit_path_json_vec();
    if bytes_eq(path, &json) {
        return if bytes_eq(method, &get) {
            Route::JsonStats
        } else {
            Route::MethodNotAllowed
        };
    }
    let csv = lit_path_csv_vec();
    if bytes_eq(path, &csv) {
        return if bytes_eq(method, &get) {
            Route::CsvStats
        } else {
            Route::MethodNotAllowed
        };
    }
    Route::NotFound
}

// ---------------------------------------------------------------------------
// JSON body: a nested array of numbers per compacted record.  The body is
// built as one '[', one '[t,rank,upvotes,downvotes,reranks,top5],' chunk per
// record, then the trailing comma swapped for the closing ']'.  An empty
// series is served the empty array.
// ---------------------------------------------------------------------------

/// One JSON row, trailing comma included.
pub open spec fn spec_json_row(r: Record) -> Seq<u8> {
    seq![91u8] + dec_i64(r.timestamp@) + seq![44u8] + dec_u64(r.data.rank as nat) + seq![44u8]
        + dec_u64(r.data.upvotes as nat) + seq![44u8] + dec_u64(r.data.downvotes as nat)
        + seq![44u8] + dec_u64(r.data.reranks as nat) + seq![44u8] + dec_u64(
        r.data.top5_reranks as nat,
    ) + seq![93u8, 44u8]
}

pub open spec fn spec_json_rows(rs: Seq<Record>) -> Seq<u8>
    decreases rs.len(),
{
    if rs.len() == 0 {
        Seq::<u8>::empty()
    } else {
        spec_json_rows(rs.drop_last()) + spec_json_row(rs.last())
    }
}

/// The whole JSON body for a compacted series: the rows in one array, or the
/// empty array for an empty series.
pub open spec fn spec_json_body(rs: Seq<Record>) -> Seq<u8> {
    if rs.len() == 0 {
        seq![91u8, 93u8]
    } else {
        (seq![91u8] + spec_json_rows(rs)).drop_last().push(93u8)
    }
}

#[verifier::rlimit(50)]
#[verifier::spinoff_prover]
fn push_json_row(out: &mut Vec<u8>, r: &Record)
    ensures
        final(out)@ == old(out)@ + spec_json_row(*r),
{
    out.push(91u8);
    write_i64(out, r.timestamp.as_secs());
    out.push(44u8);
    write_u64(out, r.data.rank);
    out.push(44u8);
    write_u64(out, r.data.upvotes);
    out.push(44u8);
    write_u64(out, r.data.downvotes);
    out.push(44u8);
    write_u64(out, r.data.reranks);
    out.push(44u8);
    write_u64(out, r.data.top5_reranks);
    out.push(93u8);
    out.push(44u8);
    assert(out@ =~= old(out)@ + spec_json_row(*r));
}

/// The JSON statistics body: the store's run-compacted series, one nested
/// array of numbers per surviving record, and the empty array when the store
/// holds nothing.
pub fn get_json_stats(db: &Database) -> (out: Vec<u8>)
    ensures
        out@ == spec_json_body(spec_compress(db@)),
{
    let rows = db.compress_records();
    let mut out: Vec<u8> = Vec::new();
    out.push(91u8);
    if rows.len() == 0 {
        out.push(93u8);
        proof {
            assert(out@ =~= spec_json_body(rows@));
        }
        return out;
    }
    let mut i: usize = 0;
    while i < rows.len()
        invariant
            0 <= i <= rows@.len(),
            out@ == seq![91u8] + spec_json_rows(rows@.take(i as int)),
        decreases rows@.len() - i,
    {
        push_json_row(&mut out, &rows[i]);
        proof {
            assert(rows@.take(i + 1).drop_last() =~= rows@.take(i as int));
            assert(out@ =~= seq![91u8] + spec_json_rows(rows@.take(i + 1)));
        }
        i = i + 1;
    }
    proof {
        assert(rows@.take(rows@.len() as int) =~= rows@);
    }
    let _last = out.pop();
    out.push(93u8);
    proof {
        assert(out@ =~= spec_json_body(rows@));
    }
    out
}

// ---------------------------------------------------------------------------
// CSV body: a header line, then one line per compacted record with the
// timestamp in human-readable form.
// ---------------------------------------------------------------------------

/// The CSV header line, newline included.
pub open spec fn spec_csv_header() -> Seq<u8> {
    seq![116u8, 105u8, 109u8, 101u8, 115u8, 116u8, 97u8, 109u8, 112u8, 44u8, 114u8, 97u8, 110u8,
        107u8, 44u8, 117u8, 112u8, 118u8, 111u8, 116u8, 101u8, 115u8, 44u8, 100u8, 111u8, 119u8,
        110u8, 118u8, 111u8, 116u8, 101u8, 115u8, 44u8, 114u8, 101u8, 114u8, 97u8, 110u8, 107u8,
        115u8, 44u8, 116u8, 111u8, 112u8, 53u8, 95u8, 114u8, 101u8, 114u8, 97u8, 110u8, 107u8,
        115u8, 10u8]
}

/// One CSV row, newline included.
pub open spec fn spec_csv_row(r: Record) -> Seq<u8> {
    spec_format_ts(r.timestamp@) + seq![44u8] + dec_u64(r.data.rank as nat) + seq![44u8]
        + dec_u64(r.data.upvotes as nat) + seq![44u8] + dec_u64(r.data.downvotes as nat)
        + seq![44u8] + dec_u64(r.data.reranks as nat) + seq![44u8] + dec_u64(
        r.data.top5_reranks as nat,
    ) + seq![10u8]
}

pub open spec fn spec_csv_rows(rs: Seq<Record>) -> Seq<u8>
    decreases rs.len(),
{
    if rs.len() == 0 {
        Seq::<u8>::empty()
    } else {
        spec_csv_rows(rs.drop_last()) + spec_csv_row(rs.last())
    }
}

/// The whole CSV body for a compacted series.
pub open spec fn spec_csv_body(rs: Seq<Record>) -> Seq<u8> {
    spec_csv_header() + spec_csv_rows(rs)
}

fn csv_header_vec() -> (v: Vec<u8>)
    ensures
        v@ == spec_csv_header(),
{
    let a: [u8; 54] = [116u8, 105u8, 109u8, 101u8, 115u8, 116u8, 97u8, 109u8, 112u8, 44u8, 114u8,
        97u8, 110u8, 107u8, 44u8, 117u8, 112u8, 118u8, 111u8, 116u8, 101u8, 115u8, 44u8, 100u8,
        111u8, 119u8, 110u8, 118u8, 111u8, 116u8, 101u8, 115u8, 44u8, 114u8, 101u8, 114u8, 97u8,
        110u8, 107u8, 115u8, 44u8, 116u8, 111u8, 112u8, 53u8, 95u8, 114u8, 101u8, 114u8, 97u8,
        110u8, 107u8, 115u8, 10u8];
    let v = vstd::slice::slice_to_vec(a.as_slice());
    assert(v@ =~= spec_csv_header());
    v
}

#[verifier::rlimit(50)]
#[verifier::spinoff_prover]
fn push_csv_row(out: &mut Vec<u8>, r: &Record)
    requires
        r.timestamp.formattable(),
    ensures
        final(out)@ == old(out)@ + spec_csv_row(*r),
{
    r.timestamp.format_to(out);
    out.push(44u8);
    write_u64(out, r.data.rank);
    out.push(44u8);
    write_u64(out, r.data.upvotes);
    out.push(44u8);
    write_u64(out, r.data.downvotes);
    out.push(44u8);
    write_u64(out, r.data.reranks);
    out.push(44u8);
    write_u64(out, r.data.top5_reranks);
    out.push(10u8);
    assert(out@ =~= old(out)@ + spec_csv_row(*r));
}

/// The CSV statistics body: a header, then the store's run-compacted series,
/// one line per surviving record.  Every stored timestamp must lie within
/// the formatter's calendar range.
pub fn get_csv_stats(db: &Database) -> (out: Vec<u8>)
    requires
        forall|i: int| 0 <= i < db@.len() ==> #[trigger] db@[i].timestamp.formattable(),
    ensures
        out@ == spec_csv_body(spec_compress(db@)),
{
    proof {
        lemma_compress_from_original(db@);
    }
    let rows = db.compress_records();
    let mut out = csv_header_vec();
    let mut i: usize = 0;
    while i < rows.len()
        invariant
            0 <= i <= rows@.len(),
            rows@ == spec_compress(db@),
            forall|u: int|
                0 <= u < rows@.len() ==> exists|m: int|
                    0 <= m < db@.len() && #[trigger] rows@[u] == db@[m],
            forall|m: int| 0 <= m < db@.len() ==> #[trigger] db@[m].timestamp.formattable(),
            out@ == spec_csv_header() + spec_csv_rows(rows@.take(i as int)),
        decreases rows@.len() - i,
    {
        proof {
            let m = choose|m: int| 0 <= m < db@.len() && rows@[i as int] == db@[m];
            assert(rows@[i as int].timestamp.formattable());
        }
        push_csv_row(&mut out, &rows[i]);
        proof {
            assert(rows@.take(i + 1).drop_last() =~= rows@.take(i as int));
            assert(out@ =~= spec_csv_header() + spec_csv_rows(rows@.take(i + 1)));
        }
        i = i + 1;
    }
    proof {
        assert(rows@.take(rows@.len() as int) =~= rows@);
    }
    out
}

} // verus!
