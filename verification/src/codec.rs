use vstd::prelude::*;
use crate::record::{Record, DataPoint, spec_ts, lemma_spec_ts_roundtrip};

verus! {

// ---------------------------------------------------------------------------
// Decimal digits
// ---------------------------------------------------------------------------

/// The byte is an ASCII decimal digit.
pub open spec fn is_digit(b: u8) -> bool {
    48 <= b <= 57
}

/// The ASCII decimal representation of `n`, most significant digit first.
pub open spec fn dec_u64(n: nat) -> Seq<u8>
    decreases n,
{
    if n < 10 {
        seq![(48 + n) as u8]
    } else {
        dec_u64(n / 10).push((48 + n % 10) as u8)
    }
}

/// The ASCII decimal representation of a signed value: a minus sign for
/// negative values, then the digits of the magnitude.
pub open spec fn dec_i64(v: int) -> Seq<u8> {
    if v < 0 {
        seq![45u8] + dec_u64((-v) as nat)
    } else {
        dec_u64(v as nat)
    }
}

/// The integer denoted by a sequence of digit bytes (0 for the empty
/// sequence).
pub open spec fn digits_val(s: Seq<u8>) -> int
    decreases s.len(),
{
    if s.len() == 0 {
        0
    } else {
        digits_val(s.drop_last()) * 10 + s.last() - 48
    }
}

pub open spec fn all_digits(s: Seq<u8>) -> bool {
    forall|k: int| 0 <= k < s.len() ==> is_digit(s[k])
}

/// End of the run of digit bytes that starts at `i`.
pub open spec fn digit_run_end(s: Seq<u8>, i: int) -> int
    decreases s.len() - i,
{
    if 0 <= i < s.len() && is_digit(s[i]) {
        digit_run_end(s, i + 1)
    } else {
        i
    }
}

pub proof fn lemma_dec_u64_digits(n: nat)
    ensures
        dec_u64(n).len() >= 1,
        all_digits(dec_u64(n)),
        digits_val(dec_u64(n)) == n,
    decreases n,
{
    if n < 10 {
        let d = dec_u64(n);
        assert(d =~= seq![(48 + n) as u8]);
        assert((48 + n) as u8 == 48 + n);
        assert(d.drop_last() =~= Seq::<u8>::empty());
        assert(digits_val(d) == digits_val(d.drop_last()) * 10 + d.last() - 48);
    } else {
        lemma_dec_u64_digits(n / 10);
        let d = dec_u64(n);
        assert(d.drop_last() =~= dec_u64(n / 10));
        assert((48 + n % 10) as u8 == 48 + n % 10);
        assert(digits_val(d) == digits_val(dec_u64(n / 10)) * 10 + (48 + n % 10) - 48);
        assert(n == (n / 10) * 10 + n % 10) by {
            vstd::arithmetic::div_mod::lemma_fundamental_div_mod(n as int, 10);
        }
        assert forall|k: int| 0 <= k < d.len() implies is_digit(d[k]) by {
            if k < d.len() - 1 {
                assert(d[k] == dec_u64(n / 10)[k]);
            }
        }
    }
}

/// Where a digit region is followed by a non-digit (or by the end), the run
/// that starts at its first byte ends exactly at its last.
pub proof fn lemma_digit_run_end(s: Seq<u8>, i: int, j: int)
    requires
        0 <= i <= j <= s.len(),
        forall|k: int| i <= k < j ==> is_digit(s[k]),
        j == s.len() || !is_digit(s[j]),
    ensures
        digit_run_end(s, i) == j,
    decreases j - i,
{
    if i < j {
        assert(is_digit(s[i]));
        lemma_digit_run_end(s, i + 1, j);
    }
}

/// Appends the decimal digits of `n`.
pub fn write_u64(out: &mut Vec<u8>, n: u64)
    ensures
        final(out)@ == old(out)@ + dec_u64(n as nat),
    decreases n,
{
    if n < 10 {
        out.push((48 + n) as u8);
        assert(out@ =~= old(out)@ + dec_u64(n as nat));
    } else {
        write_u64(out, n / 10);
        out.push((48 + (n % 10)) as u8);
        assert(out@ =~= old(out)@ + dec_u64(n as nat));
    }
}

/// Appends the decimal form of `v`, minus sign included for negatives.
pub fn write_i64(out: &mut Vec<u8>, v: i64)
    ensures
        final(out)@ == old(out)@ + dec_i64(v as int),
{
    if v >= 0 {
        write_u64(out, v as u64);
    } else {
        out.push(45u8);
        let m: u64 = ((-(v + 1)) as u64) + 1;
        assert(m as nat == (-(v as int)) as nat);
        write_u64(out, m);
        assert(out@ =~= old(out)@ + dec_i64(v as int));
    }
}

/// What parsing an unsigned decimal number at position `i` yields: the value
/// and the position after it, where the digit run is non-empty and the value
/// fits in a `u64`.
pub open spec fn spec_parse_u64_at(s: Seq<u8>, i: int) -> Option<(int, int)> {
    let j = digit_run_end(s, i);
    if j > i && digits_val(s.subrange(i, j)) <= u64::MAX {
        Some((digits_val(s.subrange(i, j)), j))
    } else {
        None
    }
}

/// What parsing a signed decimal number at position `i` yields.
pub open spec fn spec_parse_i64_at(s: Seq<u8>, i: int) -> Option<(int, int)> {
    if 0 <= i < s.len() && s[i] == 45 {
        let j = digit_run_end(s, i + 1);
        if j > i + 1 && -digits_val(s.subrange(i + 1, j)) >= i64::MIN {
            Some((-digits_val(s.subrange(i + 1, j)), j))
        } else {
            None
        }
    } else {
        let j = digit_run_end(s, i);
        if j > i && digits_val(s.subrange(i, j)) <= i64::MAX {
            Some((digits_val(s.subrange(i, j)), j))
        } else {
            None
        }
    }
}

/// Parses an unsigned decimal number at position `i`.
pub fn parse_u64(s: &Vec<u8>, i: usize) -> (r: Option<(u64, usize)>)
    requires
        i <= s@.len(),
    ensures
        match r {
            Some((v, j)) => {
                &&& spec_parse_u64_at(s@, i as int) == Some((v as int, j as int))
                &&& i < j <= s@.len()
            },
            None => spec_parse_u64_at(s@, i as int) is None,
        },
{
    let ghost end = digit_run_end(s@, i as int);
    let mut j: usize = i;
    let mut acc: u64 = 0;
    let mut overflowed: bool = false;
    loop
        invariant
            i <= j <= s@.len(),
            end == digit_run_end(s@, i as int),
            end == digit_run_end(s@, j as int),
            forall|k: int| i <= k < j ==> is_digit(s@[k]),
            !overflowed ==> acc == digits_val(s@.subrange(i as int, j as int)),
            overflowed ==> j > i && digits_val(s@.subrange(i as int, j as int)) > u64::MAX,
            overflowed ==> all_digits(s@.subrange(i as int, j as int)),
        ensures
            i <= j <= s@.len(),
            j == end,
            j == digit_run_end(s@, i as int),
            forall|k: int| i <= k < j ==> is_digit(s@[k]),
            !overflowed ==> acc == digits_val(s@.subrange(i as int, j as int)),
            overflowed ==> j > i && digits_val(s@.subrange(i as int, j as int)) > u64::MAX,
        decreases s@.len() - j,
    {
        if j == s.len() || !(48 <= s[j] && s[j] <= 57) {
            proof {
                lemma_digit_run_end(s@, j as int, j as int);
            }
            break;
        }
        let d: u64 = (s[j] - 48) as u64;
        proof {
            assert(s@.subrange(i as int, j + 1).drop_last() =~= s@.subrange(i as int, j as int));
        }
        if !overflowed {
            match acc.checked_mul(10) {
                Some(t) => match t.checked_add(d) {
                    Some(t2) => {
                        acc = t2;
                    },
                    None => {
                        overflowed = true;
                    },
                },
                None => {
                    overflowed = true;
                },
            }
            proof {
                if overflowed {
                    assert(digits_val(s@.subrange(i as int, j + 1)) > u64::MAX);
                }
            }
        } else {
            proof {
                let pre = s@.subrange(i as int, j as int);
                let cur = s@.subrange(i as int, j + 1);
                assert(all_digits(cur));
                assert(digits_val(cur) == digits_val(pre) * 10 + s@[j as int] - 48);
                assert(digits_val(pre) > u64::MAX);
                assert(digits_val(cur) > u64::MAX);
            }
        }
        j = j + 1;
    }
    if j == i {
        None
    } else if overflowed {
        None
    } else {
        Some((acc, j))
    }
}

/// Parses a signed decimal number at position `i`.
pub fn parse_i64(s: &Vec<u8>, i: usize) -> (r: Option<(i64, usize)>)
    requires
        i <= s@.len(),
    ensures
        match r {
            Some((v, j)) => {
                &&& spec_parse_i64_at(s@, i as int) == Some((v as int, j as int))
                &&& i < j <= s@.len()
            },
            None => spec_parse_i64_at(s@, i as int) is None,
        },
{
    if i < s.len() && s[i] == 45 {
        match parse_u64(s, i + 1) {
            Some((m, j)) => {
                if m <= i64::MAX as u64 {
                    Some((-(m as i64), j))
                } else if m == 9223372036854775808u64 {
                    Some((i64::MIN, j))
                } else {
                    None
                }
            },
            None => None,
        }
    } else {
        match parse_u64(s, i) {
            Some((m, j)) => {
                if m <= i64::MAX as u64 {
                    Some((m as i64, j))
                } else {
                    None
                }
            },
            None => None,
        }
    }
}


// ---------------------------------------------------------------------------
// The line format
//
// One record per line, exactly:
//   {"timestamp":T,"data":{"rank":R,"upvotes":U,"downvotes":D,"reranks":K,"top5_reranks":F}}
// where T is a signed and R..F are unsigned decimal numbers.
// ---------------------------------------------------------------------------

pub open spec fn lit_ts() -> Seq<u8> {
    seq![123u8, 34u8, 116u8, 105u8, 109u8, 101u8, 115u8, 116u8, 97u8, 109u8, 112u8, 34u8, 58u8]
}

pub open spec fn lit_rank() -> Seq<u8> {
    seq![44u8, 34u8, 100u8, 97u8, 116u8, 97u8, 34u8, 58u8, 123u8, 34u8, 114u8, 97u8, 110u8,
        107u8, 34u8, 58u8]
}

pub open spec fn lit_upvotes() -> Seq<u8> {
    seq![44u8, 34u8, 117u8, 112u8, 118u8, 111u8, 116u8, 101u8, 115u8, 34u8, 58u8]
}

pub open spec fn lit_downvotes() -> Seq<u8> {
    seq![44u8, 34u8, 100u8, 111u8, 119u8, 110u8, 118u8, 111u8, 116u8, 101u8, 115u8, 34u8, 58u8]
}

pub open spec fn lit_reranks() -> Seq<u8> {
    seq![44u8, 34u8, 114u8, 101u8, 114u8, 97u8, 110u8, 107u8, 115u8, 34u8, 58u8]
}

pub open spec fn lit_top5() -> Seq<u8> {
    seq![44u8, 34u8, 116u8, 111u8, 112u8, 53u8, 95u8, 114u8, 101u8, 114u8, 97u8, 110u8, 107u8,
        115u8, 34u8, 58u8]
}

pub open spec fn lit_close() -> Seq<u8> {
    seq![125u8, 125u8]
}

fn lit_ts_vec() -> (v: Vec<u8>)
    ensures
        v@ == lit_ts(),
{
    let a: [u8; 13] = [123u8, 34u8, 116u8, 105u8, 109u8, 101u8, 115u8, 116u8, 97u8, 109u8,
        112u8, 34u8, 58u8];
    let v = vstd::slice::slice_to_vec(a.as_slice());
    assert(v@ =~= lit_ts());
    v
}

fn lit_rank_vec() -> (v: Vec<u8>)
    ensures
        v@ == lit_rank(),
{
    let a: [u8; 16] = [44u8, 34u8, 100u8, 97u8, 116u8, 97u8, 34u8, 58u8, 123u8, 34u8, 114u8,
        97u8, 110u8, 107u8, 34u8, 58u8];
    let v = vstd::slice::slice_to_vec(a.as_slice());
    assert(v@ =~= lit_rank());
    v
}

fn lit_upvotes_vec() -> (v: Vec<u8>)
    ensures
        v@ == lit_upvotes(),
{
    let a: [u8; 11] = [44u8, 34u8, 117u8, 112u8, 118u8, 111u8, 116u8, 101u8, 115u8, 34u8, 58u8];
    let v = vstd::slice::slice_to_vec(a.as_slice());
    assert(v@ =~= lit_upvotes());
    v
}

fn lit_downvotes_vec() -> (v: Vec<u8>)
    ensures
        v@ == lit_downvotes(),
{
    let a: [u8; 13] = [44u8, 34u8, 100u8, 111u8, 119u8, 110u8, 118u8, 111u8, 116u8, 101u8,
        115u8, 34u8, 58u8];
    let v = vstd::slice::slice_to_vec(a.as_slice());
    assert(v@ =~= lit_downvotes());
    v
}

fn lit_reranks_vec() -> (v: Vec<u8>)
    ensures
        v@ == lit_reranks(),
{
    let a: [u8; 11] = [44u8, 34u8, 114u8, 101u8, 114u8, 97u8, 110u8, 107u8, 115u8, 34u8, 58u8];
    let v = vstd::slice::slice_to_vec(a.as_slice());
    assert(v@ =~= lit_reranks());
    v
}

fn lit_top5_vec() -> (v: Vec<u8>)
    ensures
        v@ == lit_top5(),
{
    let a: [u8; 16] = [44u8, 34u8, 116u8, 111u8, 112u8, 53u8, 95u8, 114u8, 101u8, 114u8, 97u8,
        110u8, 107u8, 115u8, 34u8, 58u8];
    let v = vstd::slice::slice_to_vec(a.as_slice());
    assert(v@ =~= lit_top5());
    v
}

fn lit_close_vec() -> (v: Vec<u8>)
    ensures
        v@ == lit_close(),
{
    let a: [u8; 2] = [125u8, 125u8];
    let v = vstd::slice::slice_to_vec(a.as_slice());
    assert(v@ =~= lit_close());
    v
}

/// The bytes `l` occur in `s` at position `i`.
pub open spec fn lit_match(s: Seq<u8>, i: int, l: Seq<u8>) -> bool {
    &&& 0 <= i
    &&& i + l.len() <= s.len()
    &&& forall|k: int| 0 <= k < l.len() ==> s[i + k] == l[k]
}

fn match_at(s: &Vec<u8>, i: usize, l: &Vec<u8>) -> (b: bool)
    requires
        i <= s@.len(),
    ensures
        b == lit_match(s@, i as int, l@),
{
    if s.len() - i < l.len() {
        return false;
    }
    let mut k: usize = 0;
    while k < l.len()
        invariant
            i + l@.len() <= s@.len(),
            s@.len() <= usize::MAX,
            0 <= k <= l@.len(),
            forall|m: int| 0 <= m < k ==> s@[i + m] == l@[m],
        decreases l@.len() - k,
    {
        if s[i + k] != l[k] {
            return false;
        }
        k = k + 1;
    }
    true
}

fn push_bytes(out: &mut Vec<u8>, l: &Vec<u8>)
    ensures
        final(out)@ == old(out)@ + l@,
{
    let mut k: usize = 0;
    while k < l.len()
        invariant
            0 <= k <= l@.len(),
            out@ == old(out)@ + l@.take(k as int),
        decreases l@.len() - k,
    {
        out.push(l[k]);
        assert(out@ =~= old(out)@ + l@.take(k + 1));
        k = k + 1;
    }
    assert(out@ =~= old(out)@ + l@);
}

/// The serialized form of one record, newline not included.
#[verifier::opaque]
pub open spec fn spec_render_line(r: Record) -> Seq<u8> {
    lit_ts() + dec_i64(r.timestamp@) + lit_rank() + dec_u64(r.data.rank as nat) + lit_upvotes()
        + dec_u64(r.data.upvotes as nat) + lit_downvotes() + dec_u64(r.data.downvotes as nat)
        + lit_reranks() + dec_u64(r.data.reranks as nat) + lit_top5()
        + dec_u64(r.data.top5_reranks as nat) + lit_close()
}

/// Appends the serialized form of `r`, newline not included.
pub fn render_line(out: &mut Vec<u8>, r: &Record)
    ensures
        final(out)@ == old(out)@ + spec_render_line(*r),
{
    proof {
        reveal(spec_render_line);
    }
    let l1 = lit_ts_vec();
    push_bytes(out, &l1);
    write_i64(out, r.timestamp.as_secs());
    let l2 = lit_rank_vec();
    push_bytes(out, &l2);
    write_u64(out, r.data.rank);
    let l3 = lit_upvotes_vec();
    push_bytes(out, &l3);
    write_u64(out, r.data.upvotes);
    let l4 = lit_downvotes_vec();
    push_bytes(out, &l4);
    write_u64(out, r.data.downvotes);
    let l5 = lit_reranks_vec();
    push_bytes(out, &l5);
    write_u64(out, r.data.reranks);
    let l6 = lit_top5_vec();
    push_bytes(out, &l6);
    write_u64(out, r.data.top5_reranks);
    let l7 = lit_close_vec();
    push_bytes(out, &l7);
    assert(out@ =~= old(out)@ + spec_render_line(*r));
}

/// What parsing one full line yields: the record, where the whole line is
/// exactly the serialized form of one record.
#[verifier::opaque]
pub open spec fn spec_parse_line(s: Seq<u8>) -> Option<Record> {
    if !lit_match(s, 0, lit_ts()) {
        None
    } else {
        match spec_parse_i64_at(s, lit_ts().len() as int) {
            None => None,
            Some((t, p2)) => if !lit_match(s, p2, lit_rank()) {
                None
            } else {
                match spec_parse_u64_at(s, p2 + lit_rank().len()) {
                    None => None,
                    Some((rank, p4)) => if !lit_match(s, p4, lit_upvotes()) {
                        None
                    } else {
                        match spec_parse_u64_at(s, p4 + lit_upvotes().len()) {
                            None => None,
                            Some((upvotes, p6)) => if !lit_match(s, p6, lit_downvotes()) {
                                None
                            } else {
                                match spec_parse_u64_at(s, p6 + lit_downvotes().len()) {
                                    None => None,
                                    Some((downvotes, p8)) => if !lit_match(s, p8, lit_reranks()) {
                                        None
                                    } else {
                                        match spec_parse_u64_at(s, p8 + lit_reranks().len()) {
                                            None => None,
                                            Some((reranks, p10)) => if !lit_match(s, p10, lit_top5()) {
                                                None
                                            } else {
                                                match spec_parse_u64_at(s, p10 + lit_top5().len()) {
                                                    None => None,
                                                    Some((top5, p12)) => if !lit_match(s, p12, lit_close())
                                                        || p12 + lit_close().len() != s.len() {
                                                        None
                                                    } else {
                                                        Some(Record {
                                                            timestamp: spec_ts(t),
                                                            data: DataPoint {
                                                                rank: rank as u64,
                                                                upvotes: upvotes as u64,
                                                                downvotes: downvotes as u64,
                                                                reranks: reranks as u64,
                                                                top5_reranks: top5 as u64,
                                                            },
                                                        })
                                                    },
                                                }
                                            },
                                        }
                                    },
                                }
                            },
                        }
                    },
                }
            },
        }
    }
}

/// Parses one full line.
pub fn parse_line(s: &Vec<u8>) -> (r: Option<Record>)
    ensures
        r == spec_parse_line(s@),
{
    proof {
        reveal(spec_parse_line);
    }
    let slen = s.len();
    let l1 = lit_ts_vec();
    if !match_at(s, 0, &l1) {
        return None;
    }
    let (t, p2) = match parse_i64(s, l1.len()) {
        Some(x) => x,
        None => {
            return None;
        },
    };
    let l2 = lit_rank_vec();
    if !match_at(s, p2, &l2) {
        return None;
    }
    let (rank, p4) = match parse_u64(s, p2 + l2.len()) {
        Some(x) => x,
        None => {
            return None;
        },
    };
    let l3 = lit_upvotes_vec();
    if !match_at(s, p4, &l3) {
        return None;
    }
    let (upvotes, p6) = match parse_u64(s, p4 + l3.len()) {
        Some(x) => x,
        None => {
            return None;
        },
    };
    let l4 = lit_downvotes_vec();
    if !match_at(s, p6, &l4) {
        return None;
    }
    let (downvotes, p8) = match parse_u64(s, p6 + l4.len()) {
        Some(x) => x,
        None => {
            return None;
        },
    };
    let l5 = lit_reranks_vec();
    if !match_at(s, p8, &l5) {
        return None;
    }
    let (reranks, p10) = match parse_u64(s, p8 + l5.len()) {
        Some(x) => x,
        None => {
            return None;
        },
    };
    let l6 = lit_top5_vec();
    if !match_at(s, p10, &l6) {
        return None;
    }
    let (top5, p12) = match parse_u64(s, p10 + l6.len()) {
        Some(x) => x,
        None => {
            return None;
        },
    };
    let l7 = lit_close_vec();
    if !match_at(s, p12, &l7) {
        return None;
    }
    if p12 + l7.len() != slen {
        return None;
    }
    Some(Record {
        timestamp: crate::record::Timestamp::new(t),
        data: DataPoint {
            rank,
            upvotes,
            downvotes,
            reranks,
            top5_reranks: top5,
        },
    })
}


// ---------------------------------------------------------------------------
// Round trip of one line
// ---------------------------------------------------------------------------

proof fn lemma_lit_match_of_subrange(s: Seq<u8>, i: int, l: Seq<u8>)
    requires
        0 <= i,
        i + l.len() <= s.len(),
        s.subrange(i, i + l.len() as int) == l,
    ensures
        lit_match(s, i, l),
{
    assert forall|k: int| 0 <= k < l.len() implies s[i + k] == l[k] by {
        assert(s.subrange(i, i + l.len() as int)[k] == s[i + k]);
    }
}

proof fn lemma_parse_u64_in_context(s: Seq<u8>, i: int, j: int, n: nat)
    requires
        0 <= i <= j <= s.len(),
        s.subrange(i, j) == dec_u64(n),
        n <= u64::MAX,
        j < s.len(),
        !is_digit(s[j]),
    ensures
        spec_parse_u64_at(s, i) == Some((n as int, j)),
{
    lemma_dec_u64_digits(n);
    let d = dec_u64(n);
    assert(j - i == d.len());
    assert forall|k: int| i <= k < j implies is_digit(s[k]) by {
        assert(s.subrange(i, j)[k - i] == s[k]);
        assert(is_digit(d[k - i]));
    }
    lemma_digit_run_end(s, i, j);
    assert(digits_val(s.subrange(i, j)) == n);
}

proof fn lemma_parse_i64_in_context(s: Seq<u8>, i: int, j: int, v: int)
    requires
        0 <= i <= j <= s.len(),
        s.subrange(i, j) == dec_i64(v),
        i64::MIN <= v <= i64::MAX,
        j < s.len(),
        !is_digit(s[j]),
        s[j] != 45,
    ensures
        spec_parse_i64_at(s, i) == Some((v, j)),
{
    if v >= 0 {
        lemma_dec_u64_digits(v as nat);
        let d = dec_u64(v as nat);
        assert(s.subrange(i, j) == d);
        assert(s[i] == s.subrange(i, j)[0]);
        assert(is_digit(d[0]));
        assert(s[i] != 45);
        assert forall|k: int| i <= k < j implies is_digit(s[k]) by {
            assert(s.subrange(i, j)[k - i] == s[k]);
            assert(is_digit(d[k - i]));
        }
        lemma_digit_run_end(s, i, j);
        assert(digits_val(s.subrange(i, j)) == v);
    } else {
        let m = (-v) as nat;
        lemma_dec_u64_digits(m);
        let d = dec_u64(m);
        assert(dec_i64(v) == seq![45u8] + d);
        assert(s[i] == s.subrange(i, j)[0]);
        assert((seq![45u8] + d)[0] == 45u8);
        assert(s[i] == 45);
        assert(s.subrange(i + 1, j) =~= d) by {
            assert forall|k: int| 0 <= k < j - i - 1 implies s.subrange(i + 1, j)[k] == d[k] by {
                assert(s.subrange(i + 1, j)[k] == s[i + 1 + k]);
                assert(s[i + 1 + k] == s.subrange(i, j)[k + 1]);
                assert((seq![45u8] + d)[k + 1] == d[k]);
            }
        }
        assert forall|k: int| i + 1 <= k < j implies is_digit(s[k]) by {
            assert(s.subrange(i + 1, j)[k - i - 1] == s[k]);
            assert(is_digit(d[k - i - 1]));
        }
        lemma_digit_run_end(s, i + 1, j);
        assert(j > i + 1);
        assert(digits_val(s.subrange(i + 1, j)) == m);
        assert(-digits_val(s.subrange(i + 1, j)) == v);
    }
}


/// Decomposing a concatenation: the right part is a subrange, and subranges
/// that lie inside the left part are subranges of it.
proof fn lemma_concat_parts(a: Seq<u8>, b: Seq<u8>, s: Seq<u8>)
    requires
        s == a + b,
    ensures
        s.len() == a.len() + b.len(),
        s.subrange(a.len() as int, s.len() as int) == b,
        forall|i: int, j: int|
            0 <= i <= j <= a.len() ==> #[trigger] s.subrange(i, j) == a.subrange(i, j),
{
    assert(s.subrange(a.len() as int, s.len() as int) =~= b);
    assert forall|i: int, j: int| 0 <= i <= j <= a.len() implies #[trigger] s.subrange(i, j)
        == a.subrange(i, j) by {
        assert(s.subrange(i, j) =~= a.subrange(i, j));
    }
}

/// The serialized form of a record decomposes into its literals and numbers.
#[verifier::rlimit(100)]
#[verifier::spinoff_prover]
proof fn lemma_render_line_parts(r: Record)
    ensures
        ({
            let s = spec_render_line(r);
            let p1 = lit_ts().len() as int;
            let p2 = p1 + dec_i64(r.timestamp@).len();
            let p3 = p2 + lit_rank().len();
            let p4 = p3 + dec_u64(r.data.rank as nat).len();
            let p5 = p4 + lit_upvotes().len();
            let p6 = p5 + dec_u64(r.data.upvotes as nat).len();
            let p7 = p6 + lit_downvotes().len();
            let p8 = p7 + dec_u64(r.data.downvotes as nat).len();
            let p9 = p8 + lit_reranks().len();
            let p10 = p9 + dec_u64(r.data.reranks as nat).len();
            let p11 = p10 + lit_top5().len();
            let p12 = p11 + dec_u64(r.data.top5_reranks as nat).len();
            let p13 = p12 + lit_close().len();
            &&& s.len() == p13
            &&& lit_match(s, 0, lit_ts())
            &&& spec_parse_i64_at(s, p1) == Some((r.timestamp@, p2))
            &&& lit_match(s, p2, lit_rank())
            &&& spec_parse_u64_at(s, p3) == Some((r.data.rank as int, p4))
            &&& lit_match(s, p4, lit_upvotes())
            &&& spec_parse_u64_at(s, p5) == Some((r.data.upvotes as int, p6))
            &&& lit_match(s, p6, lit_downvotes())
            &&& spec_parse_u64_at(s, p7) == Some((r.data.downvotes as int, p8))
            &&& lit_match(s, p8, lit_reranks())
            &&& spec_parse_u64_at(s, p9) == Some((r.data.reranks as int, p10))
            &&& lit_match(s, p10, lit_top5())
            &&& spec_parse_u64_at(s, p11) == Some((r.data.top5_reranks as int, p12))
            &&& lit_match(s, p12, lit_close())
        }),
{
    reveal(spec_render_line);
    let s = spec_render_line(r);
    crate::record::lemma_ts_view_range(r.timestamp);
    let b1 = dec_i64(r.timestamp@);
    let b2 = dec_u64(r.data.rank as nat);
    let b3 = dec_u64(r.data.upvotes as nat);
    let b4 = dec_u64(r.data.downvotes as nat);
    let b5 = dec_u64(r.data.reranks as nat);
    let b6 = dec_u64(r.data.top5_reranks as nat);
    if r.timestamp@ < 0 {
        lemma_dec_u64_digits((-r.timestamp@) as nat);
    } else {
        lemma_dec_u64_digits(r.timestamp@ as nat);
    }
    lemma_dec_u64_digits(r.data.rank as nat);
    lemma_dec_u64_digits(r.data.upvotes as nat);
    lemma_dec_u64_digits(r.data.downvotes as nat);
    lemma_dec_u64_digits(r.data.reranks as nat);
    lemma_dec_u64_digits(r.data.top5_reranks as nat);
    let p1 = lit_ts().len() as int;
    let p2 = p1 + b1.len();
    let p3 = p2 + lit_rank().len();
    let p4 = p3 + b2.len();
    let p5 = p4 + lit_upvotes().len();
    let p6 = p5 + b3.len();
    let p7 = p6 + lit_downvotes().len();
    let p8 = p7 + b4.len();
    let p9 = p8 + lit_reranks().len();
    let p10 = p9 + b5.len();
    let p11 = p10 + lit_top5().len();
    let p12 = p11 + b6.len();
    let p13 = p12 + lit_close().len();
    let c1 = lit_ts();
    let c2 = c1 + b1;
    let c3 = c2 + lit_rank();
    let c4 = c3 + b2;
    let c5 = c4 + lit_upvotes();
    let c6 = c5 + b3;
    let c7 = c6 + lit_downvotes();
    let c8 = c7 + b4;
    let c9 = c8 + lit_reranks();
    let c10 = c9 + b5;
    let c11 = c10 + lit_top5();
    let c12 = c11 + b6;
    assert(s == c12 + lit_close());
    lemma_concat_parts(c12, lit_close(), s);
    lemma_concat_parts(c11, b6, c12);
    lemma_concat_parts(c10, lit_top5(), c11);
    lemma_concat_parts(c9, b5, c10);
    lemma_concat_parts(c8, lit_reranks(), c9);
    lemma_concat_parts(c7, b4, c8);
    lemma_concat_parts(c6, lit_downvotes(), c7);
    lemma_concat_parts(c5, b3, c6);
    lemma_concat_parts(c4, lit_upvotes(), c5);
    lemma_concat_parts(c3, b2, c4);
    lemma_concat_parts(c2, lit_rank(), c3);
    lemma_concat_parts(c1, b1, c2);
    assert(s.len() == p13);
    assert(s.subrange(p12, p13) == lit_close());
    assert(s.subrange(p11, p12) == c12.subrange(p11, p12));
    assert(s.subrange(p11, p12) == b6);
    assert(s.subrange(p10, p11) == c12.subrange(p10, p11));
    assert(c12.subrange(p10, p11) == c11.subrange(p10, p11));
    assert(s.subrange(p10, p11) == lit_top5());
    assert(s.subrange(p9, p10) == c11.subrange(p9, p10));
    assert(c11.subrange(p9, p10) == c10.subrange(p9, p10));
    assert(s.subrange(p9, p10) == b5);
    assert(s.subrange(p8, p9) == c10.subrange(p8, p9));
    assert(c10.subrange(p8, p9) == c9.subrange(p8, p9));
    assert(s.subrange(p8, p9) == lit_reranks());
    assert(s.subrange(p7, p8) == c9.subrange(p7, p8));
    assert(c9.subrange(p7, p8) == c8.subrange(p7, p8));
    assert(s.subrange(p7, p8) == b4);
    assert(s.subrange(p6, p7) == c8.subrange(p6, p7));
    assert(c8.subrange(p6, p7) == c7.subrange(p6, p7));
    assert(s.subrange(p6, p7) == lit_downvotes());
    assert(s.subrange(p5, p6) == c7.subrange(p5, p6));
    assert(c7.subrange(p5, p6) == c6.subrange(p5, p6));
    assert(s.subrange(p5, p6) == b3);
    assert(s.subrange(p4, p5) == c6.subrange(p4, p5));
    assert(c6.subrange(p4, p5) == c5.subrange(p4, p5));
    assert(s.subrange(p4, p5) == lit_upvotes());
    assert(s.subrange(p3, p4) == c5.subrange(p3, p4));
    assert(c5.subrange(p3, p4) == c4.subrange(p3, p4));
    assert(s.subrange(p3, p4) == b2);
    assert(s.subrange(p2, p3) == c4.subrange(p2, p3));
    assert(c4.subrange(p2, p3) == c3.subrange(p2, p3));
    assert(s.subrange(p2, p3) == lit_rank());
    assert(s.subrange(p1, p2) == c3.subrange(p1, p2));
    assert(c3.subrange(p1, p2) == c2.subrange(p1, p2));
    assert(s.subrange(p1, p2) == b1);
    assert(s.subrange(0, p1) == c2.subrange(0, p1));
    assert(c2.subrange(0, p1) == c1.subrange(0, p1));
    assert(c1.subrange(0, p1) =~= c1);
    assert(s.subrange(0, p1) == lit_ts());
    lemma_lit_match_of_subrange(s, 0, lit_ts());
    lemma_lit_match_of_subrange(s, p2, lit_rank());
    lemma_lit_match_of_subrange(s, p4, lit_upvotes());
    lemma_lit_match_of_subrange(s, p6, lit_downvotes());
    lemma_lit_match_of_subrange(s, p8, lit_reranks());
    lemma_lit_match_of_subrange(s, p10, lit_top5());
    lemma_lit_match_of_subrange(s, p12, lit_close());
    assert(s[p2] == lit_rank()[0]);
    assert(s[p4] == lit_upvotes()[0]);
    assert(s[p6] == lit_downvotes()[0]);
    assert(s[p8] == lit_reranks()[0]);
    assert(s[p10] == lit_top5()[0]);
    assert(s[p12] == lit_close()[0]);
    lemma_parse_i64_in_context(s, p1, p2, r.timestamp@);
    lemma_parse_u64_in_context(s, p3, p4, r.data.rank as nat);
    lemma_parse_u64_in_context(s, p5, p6, r.data.upvotes as nat);
    lemma_parse_u64_in_context(s, p7, p8, r.data.downvotes as nat);
    lemma_parse_u64_in_context(s, p9, p10, r.data.reranks as nat);
    lemma_parse_u64_in_context(s, p11, p12, r.data.top5_reranks as nat);
}

/// Parsing the serialized form of a record gives that record back.
#[verifier::rlimit(100)]
#[verifier::spinoff_prover]
pub proof fn lemma_parse_render_line(r: Record)
    ensures
        spec_parse_line(spec_render_line(r)) == Some(r),
{
    lemma_render_line_parts(r);
    reveal(spec_parse_line);
    let s = spec_render_line(r);
    let p1 = lit_ts().len() as int;
    let p2 = p1 + dec_i64(r.timestamp@).len();
    let p3 = p2 + lit_rank().len();
    let p4 = p3 + dec_u64(r.data.rank as nat).len();
    let p5 = p4 + lit_upvotes().len();
    let p6 = p5 + dec_u64(r.data.upvotes as nat).len();
    let p7 = p6 + lit_downvotes().len();
    let p8 = p7 + dec_u64(r.data.downvotes as nat).len();
    let p9 = p8 + lit_reranks().len();
    let p10 = p9 + dec_u64(r.data.reranks as nat).len();
    let p11 = p10 + lit_top5().len();
    let p12 = p11 + dec_u64(r.data.top5_reranks as nat).len();
    lemma_spec_ts_roundtrip(r.timestamp);
    assert(spec_parse_line(s) == Some(r));
}


// ---------------------------------------------------------------------------
// The file format: one line per record, each terminated by a newline
// (a missing newline on the last line is accepted when reading).  The
// parser accepts exactly the canonical rendering above — fixed field order,
// no whitespace — plus leading zeros in digit runs; every file this store
// writes reads back identically.
// ---------------------------------------------------------------------------

/// Position of the first newline at or after `i` (or the end of `s`).
pub open spec fn find_nl(s: Seq<u8>, i: int) -> int
    decreases s.len() - i,
{
    if i >= s.len() || s[i] == 10 {
        i
    } else {
        find_nl(s, i + 1)
    }
}

pub proof fn lemma_find_nl_bounds(s: Seq<u8>, i: int)
    requires
        0 <= i <= s.len(),
    ensures
        i <= find_nl(s, i) <= s.len(),
        find_nl(s, i) == s.len() || s[find_nl(s, i)] == 10,
        forall|k: int| i <= k < find_nl(s, i) ==> s[k] != 10,
    decreases s.len() - i,
{
    if i < s.len() && s[i] != 10 {
        lemma_find_nl_bounds(s, i + 1);
    }
}

/// The serialized form of a whole record sequence.
pub open spec fn spec_render_file(rs: Seq<Record>) -> Seq<u8>
    decreases rs.len(),
{
    if rs.len() == 0 {
        Seq::<u8>::empty()
    } else {
        spec_render_line(rs[0]) + seq![10u8] + spec_render_file(rs.drop_first())
    }
}

/// What parsing the content from position `i` yields, counting lines from
/// `ln`: the records of the remaining lines, or the number and text of the
/// first line that is not a serialized record.
pub open spec fn spec_parse_file_from(s: Seq<u8>, i: int, ln: int) -> Result<
    Seq<Record>,
    (int, Seq<u8>),
>
    decreases s.len() - i,
    when 0 <= i <= s.len()
    via spec_parse_file_from_decreases
{
    if i >= s.len() {
        Ok(Seq::<Record>::empty())
    } else {
        let j = find_nl(s, i);
        let line = s.subrange(i, j);
        match spec_parse_line(line) {
            None => Err((ln, line)),
            Some(r) => {
                let next = if j < s.len() {
                    j + 1
                } else {
                    j
                };
                match spec_parse_file_from(s, next, ln + 1) {
                    Ok(rest) => Ok(seq![r] + rest),
                    Err(e) => Err(e),
                }
            },
        }
    }
}

#[via_fn]
proof fn spec_parse_file_from_decreases(s: Seq<u8>, i: int, ln: int) {
    if 0 <= i < s.len() {
        lemma_find_nl_bounds(s, i);
    }
}

/// What parsing a whole file yields.
pub open spec fn spec_parse_file(s: Seq<u8>) -> Result<Seq<Record>, (int, Seq<u8>)> {
    spec_parse_file_from(s, 0, 1)
}

/// Serializes a whole record sequence.
pub fn render_file(rs: &Vec<Record>) -> (out: Vec<u8>)
    ensures
        out@ == spec_render_file(rs@),
{
    let mut out: Vec<u8> = Vec::new();
    let mut i: usize = 0;
    while i < rs.len()
        invariant
            0 <= i <= rs@.len(),
            out@ == spec_render_file(rs@.take(i as int)),
        decreases rs@.len() - i,
    {
        render_line(&mut out, &rs[i]);
        out.push(10u8);
        proof {
            lemma_render_file_push(rs@.take(i as int), rs@[i as int]);
            assert(rs@.take(i + 1) =~= rs@.take(i as int).push(rs@[i as int]));
        }
        i = i + 1;
    }
    proof {
        assert(rs@.take(rs@.len() as int) =~= rs@);
    }
    out
}

/// Serializing one more record appends exactly its line.
pub proof fn lemma_render_file_push(rs: Seq<Record>, r: Record)
    ensures
        spec_render_file(rs.push(r)) == spec_render_file(rs) + spec_render_line(r) + seq![10u8],
    decreases rs.len(),
{
    if rs.len() == 0 {
        assert(rs.push(r)[0] == r);
        assert(rs.push(r).drop_first() =~= Seq::<Record>::empty());
        assert(spec_render_file(Seq::<Record>::empty()) == Seq::<u8>::empty());
        assert(spec_render_file(rs.push(r)) == spec_render_line(r) + seq![10u8]
            + Seq::<u8>::empty());
        assert(spec_render_line(r) + seq![10u8] + Seq::<u8>::empty() =~= spec_render_line(r)
            + seq![10u8]);
        assert(spec_render_file(rs) == Seq::<u8>::empty());
        assert(spec_render_file(rs) + spec_render_line(r) + seq![10u8] =~= spec_render_line(r)
            + seq![10u8]);
    } else {
        lemma_render_file_push(rs.drop_first(), r);
        assert(rs.push(r).drop_first() =~= rs.drop_first().push(r));
        assert(rs.push(r)[0] == rs[0]);
        assert(spec_render_file(rs.push(r)) == spec_render_line(rs[0]) + seq![10u8]
            + spec_render_file(rs.drop_first().push(r)));
        assert(spec_render_file(rs.push(r)) =~= spec_render_file(rs) + spec_render_line(r)
            + seq![10u8]);
    }
}

/// Parses a whole file.
pub fn parse_file(content: &Vec<u8>) -> (r: Result<Vec<Record>, (usize, Vec<u8>)>)
    requires
        content@.len() < usize::MAX,
    ensures
        match r {
            Ok(v) => spec_parse_file(content@) == Ok::<Seq<Record>, (int, Seq<u8>)>(v@),
            Err((ln, txt)) => spec_parse_file(content@) == Err::<Seq<Record>, (int, Seq<u8>)>(
                (ln as int, txt@),
            ),
        },
{
    let n = content.len();
    let mut i: usize = 0;
    let mut ln: usize = 1;
    let mut acc: Vec<Record> = Vec::new();
    while i < n
        invariant
            0 <= i <= n,
            n == content@.len(),
            n < usize::MAX,
            1 <= ln <= i + 1,
            match spec_parse_file_from(content@, i as int, ln as int) {
                Ok(rest) => spec_parse_file(content@) == Ok::<Seq<Record>, (int, Seq<u8>)>(
                    acc@ + rest,
                ),
                Err(e) => spec_parse_file(content@) == Err::<Seq<Record>, (int, Seq<u8>)>(e),
            },
        decreases n - i,
    {
        let ghost jj = find_nl(content@, i as int);
        proof {
            lemma_find_nl_bounds(content@, i as int);
        }
        let mut j: usize = i;
        while j < n && content[j] != 10
            invariant
                i <= j <= n,
                n == content@.len(),
                forall|k: int| i <= k < j ==> content@[k] != 10,
            decreases n - j,
        {
            j = j + 1;
        }
        proof {
            assert(jj == j) by {
                lemma_find_nl_bounds(content@, i as int);
                if jj < j {
                    assert(content@[jj] == 10);
                } else if j < jj {
                    assert(content@[j as int] != 10);
                    assert(j < n);
                }
            }
        }
        let mut line: Vec<u8> = Vec::new();
        let mut k: usize = i;
        while k < j
            invariant
                i <= k <= j <= n,
                n == content@.len(),
                line@ == content@.subrange(i as int, k as int),
            decreases j - k,
        {
            line.push(content[k]);
            assert(line@ =~= content@.subrange(i as int, k + 1));
            k = k + 1;
        }
        let ghost acc0 = acc@;
        match parse_line(&line) {
            None => {
                return Err((ln, line));
            },
            Some(rec) => {
                acc.push(rec);
                proof {
                    let next: int = if jj < n {
                        jj + 1
                    } else {
                        jj
                    };
                    assert(spec_parse_file_from(content@, i as int, ln as int) == (
                    match spec_parse_file_from(content@, next, ln + 1) {
                        Ok(rest) => Ok::<Seq<Record>, (int, Seq<u8>)>(seq![rec] + rest),
                        Err(e) => Err::<Seq<Record>, (int, Seq<u8>)>(e),
                    }));
                    match spec_parse_file_from(content@, next, ln + 1) {
                        Ok(rest) => {
                            assert(acc0 + (seq![rec] + rest) =~= acc@ + rest);
                        },
                        Err(_) => {},
                    }
                }
                i = if j < n {
                    j + 1
                } else {
                    j
                };
                ln = ln + 1;
            },
        }
    }
    proof {
        assert(acc@ + Seq::<Record>::empty() =~= acc@);
    }
    Ok(acc)
}


// ---------------------------------------------------------------------------
// Round trip of a whole file
// ---------------------------------------------------------------------------

/// No byte of `s` is a newline.
pub open spec fn no_nl(s: Seq<u8>) -> bool {
    forall|k: int| 0 <= k < s.len() ==> s[k] != 10
}

proof fn lemma_no_nl_concat(a: Seq<u8>, b: Seq<u8>)
    requires
        no_nl(a),
        no_nl(b),
    ensures
        no_nl(a + b),
{
    assert forall|k: int| 0 <= k < (a + b).len() implies (a + b)[k] != 10 by {
        if k < a.len() {
            assert((a + b)[k] == a[k]);
        } else {
            assert((a + b)[k] == b[k - a.len()]);
        }
    }
}

proof fn lemma_no_nl_dec_u64(n: nat)
    ensures
        no_nl(dec_u64(n)),
{
    lemma_dec_u64_digits(n);
}

proof fn lemma_no_nl_dec_i64(v: int)
    ensures
        no_nl(dec_i64(v)),
{
    if v < 0 {
        lemma_no_nl_dec_u64((-v) as nat);
        lemma_no_nl_concat(seq![45u8], dec_u64((-v) as nat));
    } else {
        lemma_no_nl_dec_u64(v as nat);
    }
}

/// A serialized record holds no newline byte.
proof fn lemma_render_line_no_nl(r: Record)
    ensures
        no_nl(spec_render_line(r)),
{
    reveal(spec_render_line);
    lemma_no_nl_dec_i64(r.timestamp@);
    lemma_no_nl_dec_u64(r.data.rank as nat);
    lemma_no_nl_dec_u64(r.data.upvotes as nat);
    lemma_no_nl_dec_u64(r.data.downvotes as nat);
    lemma_no_nl_dec_u64(r.data.reranks as nat);
    lemma_no_nl_dec_u64(r.data.top5_reranks as nat);
    let s1 = lit_ts() + dec_i64(r.timestamp@);
    lemma_no_nl_concat(lit_ts(), dec_i64(r.timestamp@));
    let s2 = s1 + lit_rank();
    lemma_no_nl_concat(s1, lit_rank());
    let s3 = s2 + dec_u64(r.data.rank as nat);
    lemma_no_nl_concat(s2, dec_u64(r.data.rank as nat));
    let s4 = s3 + lit_upvotes();
    lemma_no_nl_concat(s3, lit_upvotes());
    let s5 = s4 + dec_u64(r.data.upvotes as nat);
    lemma_no_nl_concat(s4, dec_u64(r.data.upvotes as nat));
    let s6 = s5 + lit_downvotes();
    lemma_no_nl_concat(s5, lit_downvotes());
    let s7 = s6 + dec_u64(r.data.downvotes as nat);
    lemma_no_nl_concat(s6, dec_u64(r.data.downvotes as nat));
    let s8 = s7 + lit_reranks();
    lemma_no_nl_concat(s7, lit_reranks());
    let s9 = s8 + dec_u64(r.data.reranks as nat);
    lemma_no_nl_concat(s8, dec_u64(r.data.reranks as nat));
    let s10 = s9 + lit_top5();
    lemma_no_nl_concat(s9, lit_top5());
    let s11 = s10 + dec_u64(r.data.top5_reranks as nat);
    lemma_no_nl_concat(s10, dec_u64(r.data.top5_reranks as nat));
    let s12 = s11 + lit_close();
    lemma_no_nl_concat(s11, lit_close());
    assert(spec_render_line(r) == s12);
}

proof fn lemma_find_nl_exact(s: Seq<u8>, i: int, j: int)
    requires
        0 <= i <= j <= s.len(),
        forall|k: int| i <= k < j ==> s[k] != 10,
        j == s.len() || s[j] == 10,
    ensures
        find_nl(s, i) == j,
    decreases j - i,
{
    if i < j {
        lemma_find_nl_exact(s, i + 1, j);
    }
}

/// Where the bytes from position `i` on are exactly the serialized form of
/// `rs`, parsing from `i` yields `rs`.
#[verifier::rlimit(100)]
#[verifier::spinoff_prover]
proof fn lemma_parse_render_file_from(s: Seq<u8>, i: int, ln: int, rs: Seq<Record>)
    requires
        0 <= i <= s.len(),
        s.subrange(i, s.len() as int) == spec_render_file(rs),
    ensures
        spec_parse_file_from(s, i, ln) == Ok::<Seq<Record>, (int, Seq<u8>)>(rs),
    decreases rs.len(),
{
    if rs.len() == 0 {
        assert(s.subrange(i, s.len() as int).len() == 0);
        assert(i == s.len());
        assert(rs =~= Seq::<Record>::empty());
    } else {
        let r0 = rs[0];
        let rest = rs.drop_first();
        let line = spec_render_line(r0);
        let tail = spec_render_file(rest);
        assert(spec_render_file(rs) == line + seq![10u8] + tail);
        let j = i + line.len();
        assert(j + 1 + tail.len() == s.len());
        assert forall|k: int| i <= k < j implies s[k] != 10 by {
            assert(s.subrange(i, s.len() as int)[k - i] == s[k]);
            assert((line + seq![10u8] + tail)[k - i] == line[k - i]);
            lemma_render_line_no_nl(r0);
        }
        assert(s[j] == 10) by {
            assert(s.subrange(i, s.len() as int)[j - i] == s[j]);
            assert((line + seq![10u8] + tail)[j - i] == 10u8);
        }
        lemma_find_nl_exact(s, i, j);
        assert(s.subrange(i, j) =~= line) by {
            assert forall|k: int| 0 <= k < line.len() implies s.subrange(i, j)[k] == line[k] by {
                assert(s.subrange(i, s.len() as int)[k] == s[i + k]);
                assert((line + seq![10u8] + tail)[k] == line[k]);
            }
        }
        lemma_parse_render_line(r0);
        assert(spec_parse_line(s.subrange(i, j)) == Some(r0));
        assert(s.subrange(j + 1, s.len() as int) =~= tail) by {
            assert forall|k: int| 0 <= k < tail.len() implies s.subrange(j + 1, s.len() as int)[k]
                == tail[k] by {
                assert(s.subrange(i, s.len() as int)[j + 1 - i + k] == s[j + 1 + k]);
                assert((line + seq![10u8] + tail)[line.len() + 1 + k] == tail[k]);
            }
        }
        lemma_parse_render_file_from(s, j + 1, ln + 1, rest);
        assert(j < s.len());
        assert(spec_parse_file_from(s, i, ln) == Ok::<Seq<Record>, (int, Seq<u8>)>(
            seq![r0] + rest,
        ));
        assert(seq![r0] + rest =~= rs);
    }
}

/// Round trip of the store file: reading back a file that `write` produced
/// yields exactly the records that were written.
pub proof fn lemma_parse_render_file(rs: Seq<Record>)
    ensures
        spec_parse_file(spec_render_file(rs)) == Ok::<Seq<Record>, (int, Seq<u8>)>(rs),
{
    let s = spec_render_file(rs);
    assert(s.subrange(0, s.len() as int) =~= s);
    lemma_parse_render_file_from(s, 0, 1, rs);
}

/// The file contents built by appending one serialized record at a time, the
/// way `push` extends the file.
pub open spec fn spec_pushed_file(rs: Seq<Record>) -> Seq<u8>
    decreases rs.len(),
{
    if rs.len() == 0 {
        Seq::<u8>::empty()
    } else {
        spec_pushed_file(rs.drop_last()) + spec_render_line(rs.last()) + seq![10u8]
    }
}

/// Pushing records one at a time writes the same bytes as serializing them
/// all at once.
pub proof fn lemma_pushed_file_is_render_file(rs: Seq<Record>)
    ensures
        spec_pushed_file(rs) == spec_render_file(rs),
    decreases rs.len(),
{
    if rs.len() == 0 {
    } else {
        lemma_pushed_file_is_render_file(rs.drop_last());
        lemma_render_file_push(rs.drop_last(), rs.last());
        assert(rs.drop_last().push(rs.last()) =~= rs);
    }
}

/// Pushing records one at a time and then reading the file back yields the
/// same records as writing them all at once and reading that file back.
pub proof fn lemma_push_read_matches_write_read(rs: Seq<Record>)
    ensures
        spec_parse_file(spec_pushed_file(rs)) == spec_parse_file(spec_render_file(rs)),
        spec_parse_file(spec_pushed_file(rs)) == Ok::<Seq<Record>, (int, Seq<u8>)>(rs),
{
    lemma_pushed_file_is_render_file(rs);
    lemma_parse_render_file(rs);
}

} // verus!
