//! Sorting of time-stamped records into equal time slices.

use vstd::prelude::*;

verus! {

/// An instant, in nanoseconds since the Unix epoch.
#[derive(Clone, Copy, Debug, PartialEq, Eq, Structural)]
pub struct Timestamp {
    pub nanos: u64,
}

/// The slice that `t` falls into when the span from `first` to `last` is cut
/// into `width` equal slices: `floor(width * (t - first) / (last - first))`,
/// held to `width - 1` from `last` on, and nothing before `first`.
pub open spec fn spec_bucket(width: int, first: Timestamp, last: Timestamp, t: Timestamp) -> Option<
    int,
> {
    if t.nanos < first.nanos {
        None
    } else {
        let raw = (width * (t.nanos - first.nanos)) / (last.nanos - first.nanos);
        if raw >= width {
            Some(width - 1)
        } else {
            Some(raw)
        }
    }
}

/// Why no bucket array could be made.
#[derive(Clone, Copy, Debug, PartialEq, Eq, Structural)]
pub enum AggregateError {
    /// The bucket count is zero.
    ZeroWidth,
    /// The time range does not start before it ends.
    MalformedTimeRange,
    /// Some bucket's total does not fit into 64 bits.
    Overflow,
}

/// What `get_bucket` owes: the error of a slicing that is unsound, a bucket
/// count of zero before a time range that does not start before it ends;
/// else the slice that holds the instant, or none for one before the range.
pub open spec fn is_bucket(
    found: Result<Option<usize>, AggregateError>,
    width: usize,
    first: Timestamp,
    last: Timestamp,
    t: Timestamp,
) -> bool {
    if width == 0 {
        found matches Err(AggregateError::ZeroWidth)
    } else if first.nanos >= last.nanos {
        found matches Err(AggregateError::MalformedTimeRange)
    } else {
        found matches Ok(bucket) && match bucket {
            Some(i) => spec_bucket(width as int, first, last, t) == Some(i as int),
            None => spec_bucket(width as int, first, last, t) is None,
        }
    }
}

/// The index of the slice of `first..last` that holds `t`, or `None` for an
/// instant before `first`. A range that cannot be cut into slices is an
/// error, whatever the instant.
pub fn get_bucket(width: usize, first: Timestamp, last: Timestamp, t: Timestamp) -> (found:
    Result<Option<usize>, AggregateError>)
    ensures
        is_bucket(found, width, first, last, t),
{
    if width == 0 {
        return Err(AggregateError::ZeroWidth);
    }
    if first.nanos >= last.nanos {
        return Err(AggregateError::MalformedTimeRange);
    }
    if t.nanos < first.nanos {
        return Ok(None);
    }
    let part: u64 = t.nanos - first.nanos;
    let whole: u64 = last.nanos - first.nanos;
    if part >= whole {
        proof {
            lemma_quotient_at_least(width as int, part as int, whole as int);
        }
        return Ok(Some(width - 1));
    }
    let wide: u128 = width as u128;
    assert(wide * (part as u128) <= u128::MAX) by (nonlinear_arith)
        requires
            wide <= u64::MAX,
            part <= u64::MAX,
    ;
    let scaled: u128 = wide * (part as u128);
    let raw: u128 = scaled / (whole as u128);
    proof {
        lemma_quotient_below(width as int, part as int, whole as int);
    }
    Ok(Some(raw as usize))
}

/// One packet as the record source reports it: when it was seen and how many
/// bytes it held.
#[derive(Clone, Copy, Debug, PartialEq, Eq, Structural)]
pub struct Record {
    pub timestamp: Timestamp,
    pub len: u64,
}

/// A completed bucket array, with two figures on the whole record set that
/// serve diagnostics only.
#[derive(Debug)]
pub struct Aggregate {
    pub buckets: Vec<u64>,
    pub record_count: usize,
    pub byte_sum: u128,
}

/// What one record adds to its bucket: one event, or its size in bits.
pub open spec fn contribution(r: Record, do_pps: bool) -> int {
    if do_pps {
        1
    } else {
        r.len * 8
    }
}

/// What one record adds to bucket `i`.
pub open spec fn added(
    r: Record,
    width: int,
    start: Timestamp,
    end: Timestamp,
    do_pps: bool,
    i: int,
) -> int {
    if spec_bucket(width, start, end, r.timestamp) == Some(i) {
        contribution(r, do_pps)
    } else {
        0
    }
}

/// The total that `records` leave in bucket `i`.
pub open spec fn bucket_total(
    records: Seq<Record>,
    width: int,
    start: Timestamp,
    end: Timestamp,
    do_pps: bool,
    i: int,
) -> int
    decreases records.len(),
{
    if records.len() == 0 {
        0
    } else {
        bucket_total(records.drop_last(), width, start, end, do_pps, i) + added(
            records.last(),
            width,
            start,
            end,
            do_pps,
            i,
        )
    }
}

/// Every bucket's total fits into a 64-bit accumulator.
pub open spec fn totals_fit(
    records: Seq<Record>,
    width: int,
    start: Timestamp,
    end: Timestamp,
    do_pps: bool,
) -> bool {
    forall|i: int|
        0 <= i < width ==> #[trigger] bucket_total(records, width, start, end, do_pps, i)
            <= u64::MAX
}

/// The bytes of all records together, dropped ones included.
pub open spec fn byte_total(records: Seq<Record>) -> int
    decreases records.len(),
{
    if records.len() == 0 {
        0
    } else {
        byte_total(records.drop_last()) + records.last().len
    }
}

/// What `aggregate` owes for given records and slicing: the bucket array with
/// its two figures where the slicing is sound and every total fits, and
/// otherwise the error that says what is wrong, the first of width, time
/// range and size.
pub open spec fn is_aggregate(
    result: Result<Aggregate, AggregateError>,
    records: Seq<Record>,
    start: Timestamp,
    end: Timestamp,
    width: usize,
    do_pps: bool,
) -> bool {
    match result {
        Ok(a) => {
            &&& width > 0
            &&& start.nanos < end.nanos
            &&& a.buckets@.len() == width
            &&& forall|i: int|
                0 <= i < width ==> #[trigger] a.buckets@[i] == bucket_total(
                    records,
                    width as int,
                    start,
                    end,
                    do_pps,
                    i,
                )
            &&& a.record_count == records.len()
            &&& a.byte_sum == byte_total(records)
        },
        Err(AggregateError::ZeroWidth) => width == 0,
        Err(AggregateError::MalformedTimeRange) => width > 0 && start.nanos >= end.nanos,
        Err(AggregateError::Overflow) => {
            &&& width > 0
            &&& start.nanos < end.nanos
            &&& !totals_fit(records, width as int, start, end, do_pps)
        },
    }
}

/// Sorts `records` into `width` equal slices of `start..end` and adds up, per
/// slice, either the events or the bits, as `do_pps` says. Records before
/// `start` count for no bucket.
pub fn aggregate(
    records: &Vec<Record>,
    start: Timestamp,
    end: Timestamp,
    width: usize,
    do_pps: bool,
) -> (result: Result<Aggregate, AggregateError>)
    ensures
        is_aggregate(result, records@, start, end, width, do_pps),
{
    if width == 0 {
        return Err(AggregateError::ZeroWidth);
    }
    if start.nanos >= end.nanos {
        return Err(AggregateError::MalformedTimeRange);
    }
    let mut buckets: Vec<u64> = vec![0u64; width];
    let mut byte_sum: u128 = 0;
    let n: usize = records.len();
    let mut k: usize = 0;
    assert(records@.take(0).len() == 0);
    while k < n
        invariant
            n == records@.len(),
            k <= n,
            width > 0,
            start.nanos < end.nanos,
            buckets@.len() == width,
            forall|i: int|
                0 <= i < width ==> #[trigger] buckets@[i] == bucket_total(
                    records@.take(k as int),
                    width as int,
                    start,
                    end,
                    do_pps,
                    i,
                ),
            byte_sum == byte_total(records@.take(k as int)),
            byte_sum <= k * u64::MAX,
        decreases n - k,
    {
        let r: Record = records[k];
        let ghost before = records@.take(k as int);
        let ghost after = records@.take(k + 1);
        assert(after.drop_last() =~= before);
        assert(after.last() == r);
        assert((k + 1) * u64::MAX == k * u64::MAX + u64::MAX) by (nonlinear_arith);
        byte_sum = byte_sum + r.len as u128;
        match get_bucket(width, start, end, r.timestamp) {
            Err(e) => {
                return Err(e);
            },
            Ok(None) => {},
            Ok(Some(j)) => {
                let amount: Option<u64> = if do_pps {
                    Some(1)
                } else {
                    r.len.checked_mul(8)
                };
                let sum: Option<u64> = match amount {
                    Some(c) => buckets[j].checked_add(c),
                    None => None,
                };
                match sum {
                    Some(v) => {
                        buckets.set(j, v);
                    },
                    None => {
                        proof {
                            let w = width as int;
                            assert(bucket_total(before, w, start, end, do_pps, j as int)
                                == buckets@[j as int]);
                            lemma_total_grows(records@, k + 1, w, start, end, do_pps, j as int);
                        }
                        return Err(AggregateError::Overflow);
                    },
                }
            },
        }
        k = k + 1;
    }
    assert(records@.take(n as int) =~= records@);
    Ok(Aggregate { buckets, record_count: n, byte_sum })
}

/// A bucket's total never shrinks as records are added.
pub proof fn lemma_total_grows(
    records: Seq<Record>,
    k: int,
    width: int,
    start: Timestamp,
    end: Timestamp,
    do_pps: bool,
    i: int,
)
    requires
        0 <= k <= records.len(),
    ensures
        0 <= bucket_total(records.take(k), width, start, end, do_pps, i) <= bucket_total(
            records,
            width,
            start,
            end,
            do_pps,
            i,
        ),
    decreases records.len(),
{
    if records.len() == 0 {
        assert(records.take(k) =~= records);
    } else if k == records.len() {
        assert(records.take(k) =~= records);
        lemma_total_grows(records.drop_last(), k - 1, width, start, end, do_pps, i);
    } else {
        assert(records.drop_last().take(k) =~= records.take(k));
        lemma_total_grows(records.drop_last(), k, width, start, end, do_pps, i);
    }
}

/// The boundaries of the bucketing rule: an instant before `start` has no
/// bucket, `start` itself falls into bucket 0, `end` and everything after it
/// into the last bucket, and every instant from `start` on into some bucket of
/// the array.
pub proof fn lemma_bucket_boundaries(width: int, start: Timestamp, end: Timestamp, t: Timestamp)
    requires
        width > 0,
        start.nanos < end.nanos,
    ensures
        t.nanos < start.nanos ==> spec_bucket(width, start, end, t) is None,
        t.nanos == start.nanos ==> spec_bucket(width, start, end, t) == Some(0int),
        t.nanos >= end.nanos ==> spec_bucket(width, start, end, t) == Some(width - 1),
        t.nanos >= start.nanos ==> spec_bucket(width, start, end, t) is Some && 0
            <= spec_bucket(width, start, end, t).unwrap() < width,
{
    let part = t.nanos - start.nanos;
    let whole = end.nanos - start.nanos;
    if t.nanos >= start.nanos {
        if part >= whole {
            lemma_quotient_at_least(width, part, whole);
        } else {
            lemma_quotient_below(width, part, whole);
        }
        if part == 0 {
            assert(width * part == 0) by (nonlinear_arith)
                requires
                    part == 0,
            ;
        }
    }
}

/// Aggregation is linear: the records of two sources taken together leave in
/// every bucket the sum of what each source leaves there alone.
pub proof fn lemma_aggregation_is_linear(
    a: Seq<Record>,
    b: Seq<Record>,
    width: int,
    start: Timestamp,
    end: Timestamp,
    do_pps: bool,
    i: int,
)
    ensures
        bucket_total(a + b, width, start, end, do_pps, i) == bucket_total(
            a,
            width,
            start,
            end,
            do_pps,
            i,
        ) + bucket_total(b, width, start, end, do_pps, i),
    decreases b.len(),
{
    if b.len() == 0 {
        assert(a + b =~= a);
    } else {
        assert((a + b).drop_last() =~= a + b.drop_last());
        assert((a + b).last() == b.last());
        lemma_aggregation_is_linear(a, b.drop_last(), width, start, end, do_pps, i);
    }
}

/// From `last` on the quotient reaches `width`.
proof fn lemma_quotient_at_least(width: int, part: int, whole: int)
    requires
        width > 0,
        0 < whole <= part,
    ensures
        (width * part) / whole >= width,
{
    assert(whole * width <= width * part) by (nonlinear_arith)
        requires
            width > 0,
            0 < whole <= part,
    ;
    vstd::arithmetic::div_mod::lemma_div_is_ordered(whole * width, width * part, whole);
    vstd::arithmetic::div_mod::lemma_div_multiples_vanish(width, whole);
}

/// Before `last` the quotient stays under `width`.
proof fn lemma_quotient_below(width: int, part: int, whole: int)
    requires
        width > 0,
        0 <= part < whole,
    ensures
        0 <= (width * part) / whole < width,
{
    assert(0 <= width * part < whole * width) by (nonlinear_arith)
        requires
            width > 0,
            0 <= part < whole,
    ;
    vstd::arithmetic::div_mod::lemma_div_pos_is_pos(width * part, whole);
    vstd::arithmetic::div_mod::lemma_multiply_divide_lt(width * part, whole, width);
}

} // verus!
