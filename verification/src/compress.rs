use vstd::prelude::*;
use crate::record::Record;

verus! {

// ---------------------------------------------------------------------------
// Run-compaction: keep exactly the points needed to redraw the step function
// of payload-over-time.  A record survives when it opens a run (its payload
// differs from its predecessor's, or it is the first record), or when it
// closes a run of more than one record (its payload equals its predecessor's
// and the run ends with it, at a payload change or at the end of the series).
// ---------------------------------------------------------------------------

/// Index `i` of `s` survives run-compaction.
pub open spec fn emitted(s: Seq<Record>, i: int) -> bool {
    ||| i == 0
    ||| (0 < i < s.len() && s[i].data != s[i - 1].data)
    ||| (0 < i < s.len() && s[i].data == s[i - 1].data && (i == s.len() - 1 || s[i + 1].data
        != s[i].data))
}

/// The compacted projection of the first `k` records.
pub open spec fn compress_upto(s: Seq<Record>, k: int) -> Seq<Record>
    decreases k,
{
    if k <= 0 {
        Seq::<Record>::empty()
    } else {
        compress_upto(s, k - 1) + if emitted(s, k - 1) {
            seq![s[k - 1]]
        } else {
            Seq::<Record>::empty()
        }
    }
}

/// The run-compacted projection of `s`, in original order.
pub open spec fn spec_compress(s: Seq<Record>) -> Seq<Record> {
    compress_upto(s, s.len() as int)
}

/// The indices that survive, in increasing order.
pub open spec fn emitted_indices(s: Seq<Record>, k: int) -> Seq<int>
    decreases k,
{
    if k <= 0 {
        Seq::<int>::empty()
    } else {
        emitted_indices(s, k - 1) + if emitted(s, k - 1) {
            seq![k - 1]
        } else {
            Seq::<int>::empty()
        }
    }
}

/// The compacted projection consists exactly of the records at the surviving
/// indices, in increasing index order, and every surviving index is there.
proof fn lemma_upto_indices(s: Seq<Record>, k: int)
    requires
        0 <= k <= s.len(),
    ensures
        ({
            let t = compress_upto(s, k);
            let idx = emitted_indices(s, k);
            &&& t.len() == idx.len()
            &&& forall|u: int|
                0 <= u < idx.len() ==> 0 <= #[trigger] idx[u] < k && emitted(s, idx[u]) && t[u]
                    == s[idx[u]]
            &&& forall|u: int, v: int| 0 <= u < v < idx.len() ==> #[trigger] idx[u] < #[trigger] idx[v]
            &&& forall|m: int| 0 <= m < k && emitted(s, m) ==> #[trigger] idx.contains(m)
        }),
    decreases k,
{
    if k > 0 {
        lemma_upto_indices(s, k - 1);
        let t0 = compress_upto(s, k - 1);
        let idx0 = emitted_indices(s, k - 1);
        let t = compress_upto(s, k);
        let idx = emitted_indices(s, k);
        if emitted(s, k - 1) {
            assert(t =~= t0 + seq![s[k - 1]]);
            assert(idx =~= idx0 + seq![k - 1]);
            assert(idx[idx.len() - 1] == k - 1);
            assert forall|m: int| 0 <= m < k && emitted(s, m) implies #[trigger] idx.contains(
                m,
            ) by {
                if m < k - 1 {
                    assert(idx0.contains(m));
                    let u = choose|u: int| 0 <= u < idx0.len() && idx0[u] == m;
                    assert(idx[u] == m);
                } else {
                    assert(idx[idx.len() - 1] == m);
                }
            }
        } else {
            assert(t =~= t0);
            assert(idx =~= idx0);
            assert forall|m: int| 0 <= m < k && emitted(s, m) implies #[trigger] idx.contains(
                m,
            ) by {
                assert(m != k - 1);
                assert(idx0.contains(m));
                let u = choose|u: int| 0 <= u < idx0.len() && idx0[u] == m;
                assert(idx[u] == m);
            }
        }
    }
}

/// Between two surviving indices with no survivor strictly between them and
/// equal payloads at both ends, the payload is constant.
proof fn lemma_const_run(s: Seq<Record>, a: int, b: int, m: int)
    requires
        0 <= a < b < s.len(),
        forall|x: int| a < x < b ==> !emitted(s, x),
        a <= m <= b - 1,
    ensures
        s[m].data == s[a].data,
    decreases m - a,
{
    if m > a {
        lemma_const_run(s, a, b, m - 1);
        if s[m].data != s[m - 1].data {
            assert(emitted(s, m));
            assert(false);
        }
    }
}

proof fn lemma_const_between(s: Seq<Record>, a: int, b: int)
    requires
        0 <= a < b < s.len(),
        forall|x: int| a < x < b ==> !emitted(s, x),
        s[a].data == s[b].data,
    ensures
        forall|m: int| a <= m <= b ==> s[m].data == s[a].data,
{
    assert forall|m: int| a <= m <= b implies s[m].data == s[a].data by {
        if m <= b - 1 {
            lemma_const_run(s, a, b, m);
        } else {
            assert(m == b);
        }
    }
}

/// The compacted projection never holds three consecutive records of equal
/// payload.
proof fn lemma_no_three_equal(s: Seq<Record>)
    ensures
        ({
            let t = spec_compress(s);
            forall|j: int|
                0 <= j && j + 2 < t.len() ==> !(#[trigger] t[j].data == t[j + 1].data && t[j
                    + 1].data == t[j + 2].data)
        }),
{
    let n = s.len() as int;
    let t = spec_compress(s);
    let idx = emitted_indices(s, n);
    lemma_upto_indices(s, n);
    assert forall|j: int|
        0 <= j && j + 2 < t.len() implies !(#[trigger] t[j].data == t[j + 1].data && t[j
        + 1].data == t[j + 2].data) by {
        if t[j].data == t[j + 1].data && t[j + 1].data == t[j + 2].data {
            let a = idx[j];
            let b = idx[j + 1];
            let c = idx[j + 2];
            assert(a < b < c);
            assert forall|x: int| a < x < b implies !emitted(s, x) by {
                if emitted(s, x) {
                    assert(idx.contains(x));
                    let v = choose|v: int| 0 <= v < idx.len() && idx[v] == x;
                    if v <= j {
                        assert(idx[v] <= idx[j]) by {
                            if v < j {
                                assert(idx[v] < idx[j]);
                            }
                        }
                        assert(false);
                    } else {
                        assert(idx[j + 1] <= idx[v]) by {
                            if j + 1 < v {
                                assert(idx[j + 1] < idx[v]);
                            }
                        }
                        assert(false);
                    }
                }
            }
            assert forall|x: int| b < x < c implies !emitted(s, x) by {
                if emitted(s, x) {
                    assert(idx.contains(x));
                    let v = choose|v: int| 0 <= v < idx.len() && idx[v] == x;
                    if v <= j + 1 {
                        assert(idx[v] <= idx[j + 1]) by {
                            if v < j + 1 {
                                assert(idx[v] < idx[j + 1]);
                            }
                        }
                        assert(false);
                    } else {
                        assert(idx[j + 2] <= idx[v]) by {
                            if j + 2 < v {
                                assert(idx[j + 2] < idx[v]);
                            }
                        }
                        assert(false);
                    }
                }
            }
            assert(s[a].data == s[b].data);
            assert(s[b].data == s[c].data);
            lemma_const_between(s, a, b, );
            lemma_const_between(s, b, c, );
            assert(s[b].data == s[b - 1].data);
            assert(b + 1 <= c);
            assert(s[b + 1].data == s[b].data);
            assert(b < n - 1);
            assert(!emitted(s, b));
            assert(false);
        }
    }
}

/// A sequence in which every record survives is its own compacted form.
proof fn lemma_compress_upto_all_emitted(t: Seq<Record>, k: int)
    requires
        0 <= k <= t.len(),
        forall|i: int| 0 <= i < t.len() ==> emitted(t, i),
    ensures
        compress_upto(t, k) == t.take(k),
    decreases k,
{
    if k > 0 {
        lemma_compress_upto_all_emitted(t, k - 1);
        assert(emitted(t, k - 1));
        assert(compress_upto(t, k) =~= t.take(k - 1) + seq![t[k - 1]]);
        assert(t.take(k) =~= t.take(k - 1) + seq![t[k - 1]]);
    }
}

/// Run-compaction is idempotent: compacting the compacted series again
/// changes nothing.
pub proof fn lemma_compress_idempotent(s: Seq<Record>)
    ensures
        spec_compress(spec_compress(s)) == spec_compress(s),
{
    let t = spec_compress(s);
    lemma_no_three_equal(s);
    assert forall|i: int| 0 <= i < t.len() implies emitted(t, i) by {
        if i > 0 {
            if t[i].data == t[i - 1].data {
                if i < t.len() - 1 && t[i + 1].data == t[i].data {
                    assert(!(t[i - 1].data == t[i].data && t[i].data == t[i + 1].data));
                    assert(false);
                }
            }
        }
    }
    lemma_compress_upto_all_emitted(t, t.len() as int);
    assert(t.take(t.len() as int) =~= t);
}

/// An empty series compacts to nothing, and a single record to itself.
pub proof fn lemma_compress_small(s: Seq<Record>)
    ensures
        s.len() == 0 ==> spec_compress(s) == Seq::<Record>::empty(),
        s.len() == 1 ==> spec_compress(s) == seq![s[0]],
{
    if s.len() == 1 {
        assert(emitted(s, 0));
        assert(compress_upto(s, 0) == Seq::<Record>::empty());
        assert(spec_compress(s) =~= seq![s[0]]);
    }
}

/// A series of more than one record whose payloads are all equal compacts to
/// exactly its first and last records.
pub proof fn lemma_compress_all_equal(s: Seq<Record>)
    requires
        s.len() > 1,
        forall|i: int| 0 <= i < s.len() ==> #[trigger] s[i].data == s[0].data,
    ensures
        spec_compress(s) == seq![s[0], s.last()],
{
    let n = s.len() as int;
    assert forall|i: int| 0 < i < n - 1 implies !emitted(s, i) by {
        assert(s[i].data == s[0].data);
        assert(s[i - 1].data == s[0].data);
        assert(s[i + 1].data == s[0].data);
    }
    lemma_compress_upto_single(s, n - 1);
    assert(emitted(s, n - 1));
    assert(s[n - 1].data == s[0].data);
    assert(compress_upto(s, n) =~= compress_upto(s, n - 1) + seq![s[n - 1]]);
    assert(spec_compress(s) =~= seq![s[0], s.last()]);
}

proof fn lemma_compress_upto_single(s: Seq<Record>, k: int)
    requires
        1 <= k <= s.len() - 1,
        forall|i: int| 0 < i < s.len() - 1 ==> !emitted(s, i),
    ensures
        compress_upto(s, k) == seq![s[0]],
    decreases k,
{
    if k == 1 {
        assert(emitted(s, 0));
        assert(compress_upto(s, 0) == Seq::<Record>::empty());
        assert(compress_upto(s, 1) =~= seq![s[0]]);
    } else {
        lemma_compress_upto_single(s, k - 1);
        assert(!emitted(s, k - 1));
        assert(compress_upto(s, k) =~= compress_upto(s, k - 1));
    }
}


/// Every record of the compacted projection is one of the original records.
pub proof fn lemma_compress_from_original(s: Seq<Record>)
    ensures
        forall|u: int|
            0 <= u < spec_compress(s).len() ==> exists|i: int|
                0 <= i < s.len() && #[trigger] spec_compress(s)[u] == s[i],
{
    let n = s.len() as int;
    lemma_upto_indices(s, n);
    let idx = emitted_indices(s, n);
    assert forall|u: int| 0 <= u < spec_compress(s).len() implies exists|i: int|
        0 <= i < s.len() && #[trigger] spec_compress(s)[u] == s[i] by {
        assert(spec_compress(s)[u] == s[idx[u]]);
    }
}

} // verus!
