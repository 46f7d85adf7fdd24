use plakat::bucket::{aggregate, get_bucket, AggregateError, Record, Timestamp};

const SECOND: u64 = 1_000_000_000;

fn at(seconds: u64) -> Timestamp {
    Timestamp { nanos: seconds * SECOND }
}

fn record(seconds: u64, len: u64) -> Record {
    Record { timestamp: at(seconds), len }
}

#[test]
fn record_at_half_time_falls_into_middle_bucket() {
    assert_eq!(get_bucket(10, at(0), at(10), at(5)), Ok(Some(5)));
}

#[test]
fn record_at_start_falls_into_first_bucket() {
    assert_eq!(get_bucket(10, at(3), at(13), at(3)), Ok(Some(0)));
}

#[test]
fn record_at_end_falls_into_last_bucket() {
    assert_eq!(get_bucket(10, at(0), at(10), at(10)), Ok(Some(9)));
}

#[test]
fn record_after_end_falls_into_last_bucket() {
    assert_eq!(get_bucket(10, at(0), at(10), at(1000)), Ok(Some(9)));
}

#[test]
fn record_before_start_has_no_bucket() {
    assert_eq!(get_bucket(10, at(5), at(10), at(4)), Ok(None));
}

#[test]
fn bucket_index_is_rounded_down() {
    let start = Timestamp { nanos: 0 };
    let end = Timestamp { nanos: 3 };
    assert_eq!(get_bucket(2, start, end, Timestamp { nanos: 1 }), Ok(Some(0)));
    assert_eq!(get_bucket(2, start, end, Timestamp { nanos: 2 }), Ok(Some(1)));
    assert_eq!(get_bucket(7, start, end, Timestamp { nanos: 2 }), Ok(Some(4)));
}

#[test]
fn bucket_of_the_largest_instants_does_not_overflow() {
    let start = Timestamp { nanos: 0 };
    let end = Timestamp { nanos: u64::MAX };
    let t = Timestamp { nanos: u64::MAX - 1 };
    assert_eq!(get_bucket(usize::MAX, start, end, t), Ok(Some(usize::MAX - 1)));
}

#[test]
fn time_range_of_no_length_has_no_buckets() {
    assert_eq!(get_bucket(10, at(5), at(5), at(5)), Err(AggregateError::MalformedTimeRange));
    assert_eq!(get_bucket(10, at(5), at(5), at(9)), Err(AggregateError::MalformedTimeRange));
    assert_eq!(get_bucket(10, at(5), at(4), at(1)), Err(AggregateError::MalformedTimeRange));
}

#[test]
fn bucket_count_of_zero_has_no_buckets() {
    assert_eq!(get_bucket(0, at(0), at(10), at(5)), Err(AggregateError::ZeroWidth));
    assert_eq!(get_bucket(0, at(5), at(5), at(5)), Err(AggregateError::ZeroWidth));
    assert_eq!(get_bucket(0, at(5), at(9), at(1)), Err(AggregateError::ZeroWidth));
}

#[test]
fn event_count_mode_counts_records() {
    let records = vec![record(2, 10), record(2, 20), record(2, 30)];
    let a = aggregate(&records, at(0), at(10), 10, true).unwrap();
    assert_eq!(a.buckets, vec![0, 0, 3, 0, 0, 0, 0, 0, 0, 0]);
}

#[test]
fn bit_volume_mode_adds_up_bits() {
    let records = vec![record(2, 10), record(2, 20), record(2, 30)];
    let a = aggregate(&records, at(0), at(10), 10, false).unwrap();
    assert_eq!(a.buckets[2], 480);
    assert_eq!(a.buckets, vec![0, 0, 480, 0, 0, 0, 0, 0, 0, 0]);
}

#[test]
fn diagnostics_cover_dropped_records_too() {
    let records = vec![record(1, 7), record(6, 100), record(20, 3)];
    let a = aggregate(&records, at(5), at(15), 5, false).unwrap();
    assert_eq!(a.buckets, vec![800, 0, 0, 0, 24]);
    assert_eq!(a.record_count, 3);
    assert_eq!(a.byte_sum, 110);
}

#[test]
fn no_records_give_empty_buckets() {
    let a = aggregate(&Vec::new(), at(0), at(10), 4, true).unwrap();
    assert_eq!(a.buckets, vec![0, 0, 0, 0]);
    assert_eq!(a.record_count, 0);
    assert_eq!(a.byte_sum, 0);
}

#[test]
fn empty_time_range_is_refused() {
    let records = vec![record(2, 10)];
    let r = aggregate(&records, at(5), at(5), 10, true);
    assert_eq!(r.unwrap_err(), AggregateError::MalformedTimeRange);
}

#[test]
fn backward_time_range_is_refused() {
    let r = aggregate(&Vec::new(), at(6), at(5), 10, true);
    assert_eq!(r.unwrap_err(), AggregateError::MalformedTimeRange);
}

#[test]
fn zero_width_is_refused_first() {
    let r = aggregate(&Vec::new(), at(5), at(5), 0, true);
    assert_eq!(r.unwrap_err(), AggregateError::ZeroWidth);
}

#[test]
fn bucket_beyond_64_bits_is_refused() {
    let records = vec![record(1, u64::MAX / 8), record(1, 1)];
    let r = aggregate(&records, at(0), at(10), 10, false);
    assert_eq!(r.unwrap_err(), AggregateError::Overflow);
    let records = vec![record(1, u64::MAX / 8 + 1)];
    let r = aggregate(&records, at(0), at(10), 10, false);
    assert_eq!(r.unwrap_err(), AggregateError::Overflow);
}

#[test]
fn largest_bucket_that_fits_is_accepted() {
    let records = vec![record(1, u64::MAX / 8)];
    let a = aggregate(&records, at(0), at(10), 10, false).unwrap();
    assert_eq!(a.buckets[1], u64::MAX - 7);
}

#[test]
fn dropped_record_cannot_overflow_a_bucket() {
    let records = vec![record(1, u64::MAX), record(6, 2)];
    let a = aggregate(&records, at(5), at(15), 10, false).unwrap();
    assert_eq!(a.buckets[1], 16);
    assert_eq!(a.byte_sum, u64::MAX as u128 + 2);
}

#[test]
fn two_sources_together_are_the_sum_of_each() {
    let one = vec![record(1, 5), record(9, 2), record(3, 1)];
    let two = vec![record(3, 7), record(0, 4)];
    let mut both = one.clone();
    both.extend(two.iter().cloned());
    let a = aggregate(&one, at(0), at(10), 5, false).unwrap();
    let b = aggregate(&two, at(0), at(10), 5, false).unwrap();
    let joint = aggregate(&both, at(0), at(10), 5, false).unwrap();
    for i in 0..5 {
        assert_eq!(joint.buckets[i], a.buckets[i] + b.buckets[i]);
    }
    assert_eq!(joint.buckets, vec![72, 64, 0, 0, 16]);
}
