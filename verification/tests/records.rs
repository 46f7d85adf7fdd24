use plakat::bucket::{Record, Timestamp};
use plakat::cachable::CachableData;
use plakat::histogram::{DataError, HistogramData};
use plakat::records::{parse_record, parse_timestamp, records_from_rows, table_rows};
use plakat::text::{parse_hex_pair, parse_u64, push_decimal, scan_digits};

fn field(text: &str) -> Vec<u8> {
    text.as_bytes().to_vec()
}

fn request(start: u64, end: u64, width: usize, do_pps: bool) -> HistogramData {
    HistogramData {
        filter: Some("udp".to_string()),
        filter_description: Some("udp".to_string()),
        start_time: Timestamp { nanos: start * 1_000_000_000 },
        end_time: Timestamp { nanos: end * 1_000_000_000 },
        width,
        do_pps,
        data_file: "./raw_data/a.pcapng".to_string(),
    }
}

#[test]
fn decimal_numbers_are_read() {
    assert_eq!(parse_u64(b"0"), Some(0));
    assert_eq!(parse_u64(b"007"), Some(7));
    assert_eq!(parse_u64(b"1514"), Some(1514));
    assert_eq!(parse_u64(b"18446744073709551615"), Some(u64::MAX));
}

#[test]
fn what_is_no_decimal_number_is_refused() {
    assert_eq!(parse_u64(b""), None);
    assert_eq!(parse_u64(b"12a"), None);
    assert_eq!(parse_u64(b"+12"), None);
    assert_eq!(parse_u64(b" 12"), None);
    assert_eq!(parse_u64(b"0x10"), None);
    assert_eq!(parse_u64(b"18446744073709551616"), None);
    assert_eq!(parse_u64(b"99999999999999999999999"), None);
}

#[test]
fn digits_are_scanned_up_to_the_first_other_byte() {
    assert_eq!(scan_digits(b"ab123.5", 2), (5, Some(123)));
    assert_eq!(scan_digits(b"ab123.5", 0), (0, Some(0)));
    assert_eq!(scan_digits(b"12", 2), (2, Some(0)));
    assert_eq!(scan_digits(b"99999999999999999999x", 0), (20, None));
}

#[test]
fn numbers_are_written_in_base_ten() {
    let mut out = "n=".to_string();
    push_decimal(&mut out, 0);
    out.push(' ');
    push_decimal(&mut out, 9);
    out.push(' ');
    push_decimal(&mut out, 10);
    out.push(' ');
    push_decimal(&mut out, 1547420400);
    out.push(' ');
    push_decimal(&mut out, u64::MAX);
    assert_eq!(out, "n=0 9 10 1547420400 18446744073709551615");
}

#[test]
fn hexadecimal_pairs_are_read_in_both_cases() {
    assert_eq!(parse_hex_pair(b'0', b'0'), Some(0));
    assert_eq!(parse_hex_pair(b'f', b'F'), Some(255));
    assert_eq!(parse_hex_pair(b'6', b'6'), Some(0x66));
    assert_eq!(parse_hex_pair(b'A', b'9'), Some(0xa9));
    assert_eq!(parse_hex_pair(b'g', b'0'), None);
    assert_eq!(parse_hex_pair(b'0', b'+'), None);
}

#[test]
fn capture_time_with_nine_places_is_read_to_the_nanosecond() {
    assert_eq!(
        parse_timestamp(b"1547420400.123456789"),
        Some(Timestamp { nanos: 1_547_420_400_123_456_789 })
    );
}

#[test]
fn capture_time_with_fewer_places_is_a_fraction_of_a_second() {
    assert_eq!(parse_timestamp(b"1.5"), Some(Timestamp { nanos: 1_500_000_000 }));
    assert_eq!(parse_timestamp(b"0.000001"), Some(Timestamp { nanos: 1_000 }));
    assert_eq!(parse_timestamp(b"10.0"), Some(Timestamp { nanos: 10_000_000_000 }));
}

#[test]
fn capture_time_needs_seconds_point_and_fraction() {
    assert_eq!(parse_timestamp(b""), None);
    assert_eq!(parse_timestamp(b"15"), None);
    assert_eq!(parse_timestamp(b"15."), None);
    assert_eq!(parse_timestamp(b".5"), None);
    assert_eq!(parse_timestamp(b"1.2.3"), None);
    assert_eq!(parse_timestamp(b"1,5"), None);
    assert_eq!(parse_timestamp(b"1.0000000001"), None);
    assert_eq!(parse_timestamp(b"-1.5"), None);
    assert_eq!(parse_timestamp(b"1.5 "), None);
}

#[test]
fn capture_time_must_fit_into_64_bits_of_nanoseconds() {
    assert_eq!(
        parse_timestamp(b"18446744073.709551615"),
        Some(Timestamp { nanos: u64::MAX })
    );
    assert_eq!(parse_timestamp(b"18446744073.709551616"), None);
    assert_eq!(parse_timestamp(b"18446744074.0"), None);
    assert_eq!(parse_timestamp(b"99999999999999999999999.0"), None);
}

#[test]
fn row_is_read_as_time_and_length() {
    let row = vec![field("3.25"), field("1514")];
    assert_eq!(
        parse_record(&row),
        Some(Record { timestamp: Timestamp { nanos: 3_250_000_000 }, len: 1514 })
    );
    let row = vec![field("3.25"), field("60"), field("more")];
    assert_eq!(
        parse_record(&row),
        Some(Record { timestamp: Timestamp { nanos: 3_250_000_000 }, len: 60 })
    );
}

#[test]
fn row_without_two_sound_fields_is_no_record() {
    assert_eq!(parse_record(&vec![field("3.25")]), None);
    assert_eq!(parse_record(&Vec::new()), None);
    assert_eq!(parse_record(&vec![field("3.25"), field("")]), None);
    assert_eq!(parse_record(&vec![field("x"), field("60")]), None);
}

#[test]
fn first_row_that_is_no_record_is_named() {
    let rows = vec![
        vec![field("1.0"), field("1")],
        vec![field("2.0"), field("two")],
        vec![field("bad"), field("3")],
    ];
    assert_eq!(records_from_rows(&rows), Err(1));
    assert_eq!(records_from_rows(&Vec::new()), Ok(Vec::new()));
}

#[test]
fn table_is_split_at_bars_and_line_ends() {
    let rows = table_rows(b"1.5|60\n2.25|1514\n").unwrap();
    assert_eq!(
        rows,
        vec![vec![field("1.5"), field("60")], vec![field("2.25"), field("1514")]]
    );
    assert_eq!(table_rows(b"").unwrap(), Vec::<Vec<Vec<u8>>>::new());
}

#[test]
fn table_with_rows_of_unequal_length_is_unreadable() {
    assert_eq!(table_rows(b"1.5|60\n2.25\n"), None);
}

#[test]
fn table_is_sorted_into_buckets() {
    let table = b"0.000000000|10\n2.500000000|20\n2.999999999|30\n9.000000000|5\n10.000000000|1\n";
    let a = request(0, 10, 10, false).data_uncached(table).unwrap();
    assert_eq!(a.buckets, vec![80, 0, 400, 0, 0, 0, 0, 0, 0, 48]);
    assert_eq!(a.record_count, 5);
    assert_eq!(a.byte_sum, 66);
    let a = request(0, 10, 10, true).data_uncached(table).unwrap();
    assert_eq!(a.buckets, vec![1, 0, 2, 0, 0, 0, 0, 0, 0, 2]);
}

#[test]
fn three_records_in_one_bucket_in_both_modes() {
    let table = b"2.1|10\n2.5|20\n2.9|30\n";
    let a = request(0, 10, 10, true).data_uncached(table).unwrap();
    assert_eq!(a.buckets[2], 3);
    let a = request(0, 10, 10, false).data_uncached(table).unwrap();
    assert_eq!(a.buckets[2], 480);
}

#[test]
fn every_failure_of_a_table_has_its_error() {
    let r = request(0, 10, 10, false);
    assert_eq!(r.data_uncached(b"1.0|1\n2.0\n").unwrap_err(), DataError::UnreadableTable);
    assert_eq!(r.data_uncached(b"1.0|1\n2|2\n").unwrap_err(), DataError::MalformedRow(1));
    assert_eq!(
        request(0, 10, 0, false).data_uncached(b"1.0|1\n").unwrap_err(),
        DataError::ZeroWidth
    );
    assert_eq!(
        request(10, 10, 3, false).data_uncached(b"1.0|1\n").unwrap_err(),
        DataError::MalformedTimeRange
    );
    assert_eq!(
        r.data_uncached(b"1.0|18446744073709551615\n").unwrap_err(),
        DataError::Overflow
    );
}

#[test]
fn unsound_request_is_reported_before_the_table_is_read() {
    assert_eq!(
        request(0, 10, 0, false).data_uncached(b"oops|1\n").unwrap_err(),
        DataError::ZeroWidth
    );
    assert_eq!(
        request(10, 9, 4, false).data_uncached(b"1.0|1\n2.0\n").unwrap_err(),
        DataError::MalformedTimeRange
    );
    assert_eq!(
        request(0, 10, 4, false).data_uncached(b"oops|1\n").unwrap_err(),
        DataError::MalformedRow(0)
    );
}
