//! The record source's table: one packet per row, its capture time and its
//! length in two fields that a `|` separates.

use crate::bucket::{Record, Timestamp};
use crate::text::{all_digits, decimal_value, digit_run, parse_u64, scan_digits, spec_parse_u64};
use vstd::prelude::*;

verus! {

/// The error of the `csv` crate. It is carried through unread.
#[verifier::external_type_specification]
#[verifier::external_body]
pub struct ExCsvError(csv::Error);

/// The rows and fields that the `csv` crate reads out of a table without a
/// header line and with `|` between the fields, or `None` where it gives up
/// on the table.
pub uninterp spec fn csv_rows(table: Seq<u8>) -> Option<Seq<Seq<Seq<u8>>>>;

/// Splits a table into rows and fields with `csv::Reader::byte_records`, on a
/// reader that `csv::ReaderBuilder` makes for `|` as the delimiter and no
/// header line. The contract gives what comes back a name and claims nothing
/// of it but that it depends on the table's bytes alone; the first row that
/// the reader refuses ends the walk with its error.
#[verifier::external_body]
fn split_rows(table: &[u8]) -> (rows: Result<Vec<Vec<Vec<u8>>>, csv::Error>)
    ensures
        match rows {
            Ok(rows) => csv_rows(table@) == Some(rows.deep_view()),
            Err(_) => csv_rows(table@) is None,
        },
{
    let mut reader = csv::ReaderBuilder::new().delimiter(b'|').has_headers(false).from_reader(
        table,
    );
    let mut rows = Vec::new();
    for row in reader.byte_records() {
        rows.push(row?.iter().map(|field| field.to_vec()).collect());
    }
    Ok(rows)
}

/// The rows of a table, or `None` where the table cannot be read.
pub fn table_rows(table: &[u8]) -> (rows: Option<Vec<Vec<Vec<u8>>>>)
    ensures
        match rows {
            Some(rows) => csv_rows(table@) == Some(rows.deep_view()),
            None => csv_rows(table@) is None,
        },
{
    match split_rows(table) {
        Ok(rows) => Some(rows),
        Err(_) => None,
    }
}

/// Ten to the power `k`, for the nine places behind the point.
pub open spec fn pow10(k: int) -> int {
    if k <= 0 {
        1
    } else if k == 1 {
        10
    } else if k == 2 {
        100
    } else if k == 3 {
        1_000
    } else if k == 4 {
        10_000
    } else if k == 5 {
        100_000
    } else if k == 6 {
        1_000_000
    } else if k == 7 {
        10_000_000
    } else if k == 8 {
        100_000_000
    } else {
        1_000_000_000
    }
}

/// Ten to the power `k`.
fn pow10_exec(k: usize) -> (p: u64)
    requires
        k <= 9,
    ensures
        p == pow10(k as int),
        1 <= p <= 1_000_000_000,
{
    if k == 0 {
        1
    } else if k == 1 {
        10
    } else if k == 2 {
        100
    } else if k == 3 {
        1_000
    } else if k == 4 {
        10_000
    } else if k == 5 {
        100_000
    } else if k == 6 {
        1_000_000
    } else if k == 7 {
        10_000_000
    } else if k == 8 {
        100_000_000
    } else {
        1_000_000_000
    }
}

/// The nanoseconds that a field of the form `seconds.fraction` stands for.
pub open spec fn spec_instant(field: Seq<u8>) -> int {
    let dot = digit_run(field);
    let fraction = field.skip(dot + 1);
    decimal_value(field.take(dot)) * 1_000_000_000 + decimal_value(fraction) * pow10(
        9 - fraction.len(),
    )
}

/// A capture time in text: whole seconds since the epoch in digits, a point,
/// and one to nine digits of a fraction of a second; the instant must fit
/// into 64 bits of nanoseconds.
pub open spec fn spec_parse_timestamp(field: Seq<u8>) -> Option<Timestamp> {
    let dot = digit_run(field);
    let fraction = field.skip(dot + 1);
    if 0 < dot < field.len() && field[dot] == 46 && 1 <= fraction.len() <= 9 && all_digits(
        fraction,
    ) && spec_instant(field) <= u64::MAX {
        Some(Timestamp { nanos: spec_instant(field) as u64 })
    } else {
        None
    }
}

/// Reads a capture time of the form `seconds.fraction`.
pub fn parse_timestamp(field: &[u8]) -> (t: Option<Timestamp>)
    ensures
        t == spec_parse_timestamp(field@),
{
    let n: usize = field.len();
    let (dot, seconds) = scan_digits(field, 0);
    proof {
        assert(field@.skip(0) =~= field@);
        assert(field@.subrange(0, dot as int) =~= field@.take(dot as int));
    }
    if dot == 0 || dot >= n || field[dot] != 46 {
        return None;
    }
    let (end, fraction) = scan_digits(field, dot + 1);
    proof {
        assert(field@.subrange(dot + 1, n as int) =~= field@.skip(dot + 1));
    }
    if end != n || end - (dot + 1) < 1 || end - (dot + 1) > 9 {
        return None;
    }
    let places: usize = end - (dot + 1);
    let scale: u64 = pow10_exec(9 - places);
    let ghost whole = decimal_value(field@.take(dot as int));
    let ghost part = decimal_value(field@.skip(dot + 1));
    match (seconds, fraction) {
        (Some(s), Some(f)) => {
            assert((s as u128) * 1_000_000_000 + (f as u128) * (scale as u128) <= u128::MAX)
                by (nonlinear_arith)
                requires
                    s <= u64::MAX,
                    f <= u64::MAX,
                    scale <= 1_000_000_000,
            ;
            let instant: u128 = (s as u128) * 1_000_000_000 + (f as u128) * (scale as u128);
            if instant <= u64::MAX as u128 {
                Some(Timestamp { nanos: instant as u64 })
            } else {
                None
            }
        },
        (None, _) => {
            assert(whole * 1_000_000_000 + part * (scale as int) > u64::MAX) by (nonlinear_arith)
                requires
                    whole > u64::MAX,
                    part >= 0,
                    scale >= 1,
            ;
            None
        },
        (_, None) => {
            assert(whole * 1_000_000_000 + part * (scale as int) > u64::MAX) by (nonlinear_arith)
                requires
                    whole >= 0,
                    part > u64::MAX,
                    scale >= 1,
            ;
            None
        },
    }
}

/// The record that a row stands for: its first field is the capture time,
/// its second the length in bytes; what follows them is not read.
pub open spec fn spec_parse_record(row: Seq<Seq<u8>>) -> Option<Record> {
    if row.len() >= 2 && spec_parse_timestamp(row[0]) is Some && spec_parse_u64(row[1]) is Some {
        Some(
            Record {
                timestamp: spec_parse_timestamp(row[0]).unwrap(),
                len: spec_parse_u64(row[1]).unwrap(),
            },
        )
    } else {
        None
    }
}

/// Reads one row as a record.
pub fn parse_record(row: &Vec<Vec<u8>>) -> (record: Option<Record>)
    ensures
        record == spec_parse_record(row.deep_view()),
{
    if row.len() < 2 {
        return None;
    }
    assert(row.deep_view()[0] == row@[0]@);
    assert(row.deep_view()[1] == row@[1]@);
    let timestamp = parse_timestamp(row[0].as_slice());
    let len = parse_u64(row[1].as_slice());
    match (timestamp, len) {
        (Some(timestamp), Some(len)) => Some(Record { timestamp, len }),
        _ => None,
    }
}

/// Every row stands for a record.
pub open spec fn all_rows_parse(rows: Seq<Seq<Seq<u8>>>) -> bool {
    forall|i: int| 0 <= i < rows.len() ==> (#[trigger] spec_parse_record(rows[i])) is Some
}

/// The records of a table whose rows all stand for one, in the table's order.
pub open spec fn spec_records(rows: Seq<Seq<Seq<u8>>>) -> Seq<Record> {
    Seq::new(rows.len(), |i: int| spec_parse_record(rows[i]).unwrap())
}

/// Row `i` is the first that stands for no record.
pub open spec fn first_bad_row(rows: Seq<Seq<Seq<u8>>>, i: int) -> bool {
    &&& 0 <= i < rows.len()
    &&& spec_parse_record(rows[i]) is None
    &&& forall|j: int| 0 <= j < i ==> (#[trigger] spec_parse_record(rows[j])) is Some
}

/// Reads every row as a record, in order, or names the first row that is
/// none.
pub fn records_from_rows(rows: &Vec<Vec<Vec<u8>>>) -> (records: Result<Vec<Record>, usize>)
    ensures
        match records {
            Ok(records) => all_rows_parse(rows.deep_view()) && records@ == spec_records(
                rows.deep_view(),
            ),
            Err(i) => first_bad_row(rows.deep_view(), i as int),
        },
{
    let n: usize = rows.len();
    let mut records: Vec<Record> = Vec::new();
    let mut i: usize = 0;
    while i < n
        invariant
            n == rows@.len(),
            i <= n,
            records@.len() == i,
            forall|j: int|
                0 <= j < i ==> (#[trigger] spec_parse_record(rows.deep_view()[j])) == Some(
                    records@[j],
                ),
        decreases n - i,
    {
        assert(rows.deep_view()[i as int] == rows@[i as int].deep_view());
        match parse_record(&rows[i]) {
            Some(record) => records.push(record),
            None => {
                return Err(i);
            },
        }
        i = i + 1;
    }
    assert(records@ =~= spec_records(rows.deep_view()));
    Ok(records)
}

} // verus!
