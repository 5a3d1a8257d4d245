use impeller2::append_log::{AppendLog, AppendLogWriter};
use impeller2::error::StoreError;
use impeller2::time_series::{TimeSeries, TimeSeriesWriter, WaitQueue};
use impeller2::types::Timestamp;

fn abc() -> TimeSeriesWriter {
    let mut writer = TimeSeries::create(Timestamp(0), 1);
    writer.push_with_buf(Timestamp(1), b"a").unwrap();
    writer.push_with_buf(Timestamp(5), b"b").unwrap();
    writer.push_with_buf(Timestamp(9), b"c").unwrap();
    writer
}

#[test]
fn point_nearest_and_range_queries() {
    let writer = abc();
    let series = writer.series();
    assert_eq!(series.get(Timestamp(5)), Some(&b"b"[..]));
    assert_eq!(series.get_nearest(Timestamp(7)), Some((Timestamp(5), &b"b"[..])));
    assert_eq!(series.get_nearest(Timestamp(0)), Some((Timestamp(1), &b"a"[..])));
    assert_eq!(
        series.get_range(Timestamp(2)..Timestamp(8)),
        Some((vec![Timestamp(5)], &b"b"[..]))
    );
}

#[test]
fn get_finds_exact_timestamps_only() {
    let writer = abc();
    let series = writer.series();
    assert_eq!(series.get(Timestamp(1)), Some(&b"a"[..]));
    assert_eq!(series.get(Timestamp(9)), Some(&b"c"[..]));
    assert_eq!(series.get(Timestamp(0)), None);
    assert_eq!(series.get(Timestamp(4)), None);
    assert_eq!(series.get(Timestamp(10)), None);
    assert_eq!(series.get(Timestamp(i64::MIN)), None);
    assert_eq!(series.get(Timestamp(i64::MAX)), None);
}

#[test]
fn get_nearest_is_a_floor() {
    let writer = abc();
    let series = writer.series();
    assert_eq!(series.get_nearest(Timestamp(1)), Some((Timestamp(1), &b"a"[..])));
    assert_eq!(series.get_nearest(Timestamp(4)), Some((Timestamp(1), &b"a"[..])));
    assert_eq!(series.get_nearest(Timestamp(5)), Some((Timestamp(5), &b"b"[..])));
    assert_eq!(series.get_nearest(Timestamp(9)), Some((Timestamp(9), &b"c"[..])));
    assert_eq!(series.get_nearest(Timestamp(1000)), Some((Timestamp(9), &b"c"[..])));
    assert_eq!(series.get_nearest(Timestamp(-1000)), Some((Timestamp(1), &b"a"[..])));
}

#[test]
fn get_range_takes_both_ends_in() {
    let writer = abc();
    let series = writer.series();
    assert_eq!(
        series.get_range(Timestamp(1)..Timestamp(9)),
        Some((vec![Timestamp(1), Timestamp(5), Timestamp(9)], &b"abc"[..]))
    );
    assert_eq!(
        series.get_range(Timestamp(5)..Timestamp(5)),
        Some((vec![Timestamp(5)], &b"b"[..]))
    );
    assert_eq!(
        series.get_range(Timestamp(-5)..Timestamp(100)),
        Some((vec![Timestamp(1), Timestamp(5), Timestamp(9)], &b"abc"[..]))
    );
    assert_eq!(
        series.get_range(Timestamp(6)..Timestamp(9)),
        Some((vec![Timestamp(9)], &b"c"[..]))
    );
}

#[test]
fn get_range_of_nothing() {
    let writer = abc();
    let series = writer.series();
    // a range between two entries is empty
    assert_eq!(series.get_range(Timestamp(6)..Timestamp(8)), Some((vec![], &b""[..])));
    // a range behind all entries is empty
    assert_eq!(series.get_range(Timestamp(10)..Timestamp(20)), Some((vec![], &b""[..])));
    // a range that is inverted by more than one entry gives nothing
    assert_eq!(series.get_range(Timestamp(10)..Timestamp(3)), None);
    assert_eq!(series.get_range(Timestamp(9)..Timestamp(2)), None);
    // an empty series gives nothing
    let empty = TimeSeries::create(Timestamp(0), 1);
    assert_eq!(empty.series().get_range(Timestamp(0)..Timestamp(10)), None);
    assert_eq!(empty.series().get(Timestamp(0)), None);
    assert_eq!(empty.series().get_nearest(Timestamp(0)), None);
    assert_eq!(empty.series().latest(), None);
    assert_eq!(empty.series().len(), 0);
}

#[test]
fn get_range_that_ends_before_all_entries_yields_nothing() {
    let mut writer = TimeSeries::create(Timestamp(0), 1);
    writer.push_with_buf(Timestamp(5), b"b").unwrap();
    writer.push_with_buf(Timestamp(9), b"c").unwrap();
    let series = writer.series();
    // no entry lies in a range that ends before the first one: the first
    // entry is no stand-in here, as it is for the nearest query
    assert_eq!(series.get_range(Timestamp(1)..Timestamp(3)), None);
    assert_eq!(series.get_range(Timestamp(5)..Timestamp(3)), None);
    assert_eq!(series.get_range(Timestamp(6)..Timestamp(3)), None);
    assert_eq!(series.get_range(Timestamp(i64::MIN)..Timestamp(4)), None);
    assert_eq!(series.get_nearest(Timestamp(3)), Some((Timestamp(5), &b"b"[..])));
    let writer = abc();
    let series = writer.series();
    assert_eq!(series.get_range(Timestamp(-5)..Timestamp(0)), None);
    assert_eq!(
        series.get_range(Timestamp(-5)..Timestamp(1)),
        Some((vec![Timestamp(1)], &b"a"[..]))
    );
}

#[test]
fn increasing_timestamps_are_accepted() {
    let mut writer = TimeSeries::create(Timestamp(-3), 2);
    for (i, t) in [-7i64, -1, 0, 3, 3, 1 << 40].iter().enumerate() {
        assert_eq!(writer.push_with_buf(Timestamp(*t), &[i as u8, 0xee]), Ok(()));
        assert_eq!(writer.series().len(), i + 1);
    }
    let series = writer.series();
    assert_eq!(series.start_timestamp(), Timestamp(-3));
    assert_eq!(series.element_size(), 2);
    assert_eq!(series.latest(), Some((Timestamp(1 << 40), &[5u8, 0xee][..])));
    assert_eq!(series.timestamp_at(0), Timestamp(-7));
    assert_eq!(
        series.timestamps(),
        vec![Timestamp(-7), Timestamp(-1), Timestamp(0), Timestamp(3), Timestamp(3), Timestamp(1 << 40)]
    );
    assert_eq!(series.timestamp_at(5), Timestamp(1 << 40));
    assert_eq!(series.get(Timestamp(-7)), Some(&[0u8, 0xee][..]));
    // of two entries with one timestamp the last is found
    assert_eq!(series.get(Timestamp(3)), Some(&[4u8, 0xee][..]));
    assert_eq!(
        series.get_range(Timestamp(3)..Timestamp(3)),
        Some((vec![Timestamp(3), Timestamp(3)], &[3u8, 0xee, 4, 0xee][..]))
    );
}

#[test]
fn time_travel_is_refused_and_changes_nothing() {
    let mut writer = abc();
    let index = writer.index_image();
    let data = writer.data_image();
    assert_eq!(writer.push_with_buf(Timestamp(8), b"x"), Err(StoreError::TimeTravel));
    assert_eq!(writer.push_with_buf(Timestamp(i64::MIN), b"x"), Err(StoreError::TimeTravel));
    assert_eq!(writer.series().len(), 3);
    assert_eq!(writer.index_image(), index);
    assert_eq!(writer.data_image(), data);
    assert_eq!(writer.series().latest(), Some((Timestamp(9), &b"c"[..])));
    // the same timestamp again is no travel back
    assert_eq!(writer.push_with_buf(Timestamp(9), b"d"), Ok(()));
    assert_eq!(writer.series().len(), 4);
}

#[test]
fn the_logs_stay_correlated() {
    let mut writer = TimeSeries::create(Timestamp(0), 3);
    for n in 0..10usize {
        assert_eq!(writer.index_image().len(), 8 + 8 * n);
        assert_eq!(writer.data_image().len(), 8 + 3 * n);
        writer.push_with_buf(Timestamp(n as i64), &[n as u8; 3]).unwrap();
    }
}

#[test]
fn a_short_element_is_not_returned() {
    let mut writer = TimeSeries::create(Timestamp(0), 4);
    writer.push_with_buf(Timestamp(1), b"ab").unwrap();
    let series = writer.series();
    assert_eq!(series.get(Timestamp(1)), None);
    assert_eq!(series.latest(), None);
    assert_eq!(series.get_nearest(Timestamp(1)), None);
    assert_eq!(series.get_range(Timestamp(0)..Timestamp(2)), None);
}

#[test]
fn images_hold_header_and_entries_in_little_endian() {
    let mut writer = TimeSeries::create(Timestamp(0x0102), 1);
    writer.push_with_buf(Timestamp(-2), b"z").unwrap();
    let index = writer.index_image();
    assert_eq!(
        index,
        vec![2, 1, 0, 0, 0, 0, 0, 0, 0xfe, 0xff, 0xff, 0xff, 0xff, 0xff, 0xff, 0xff]
    );
    assert_eq!(writer.data_image(), vec![1, 0, 0, 0, 0, 0, 0, 0, b'z']);
}

#[test]
fn a_stored_series_opens_again() {
    let writer = abc();
    let reopened = TimeSeries::open(&writer.index_image(), &writer.data_image()).unwrap();
    let series = reopened.series();
    assert_eq!(series.len(), 3);
    assert_eq!(series.start_timestamp(), Timestamp(0));
    assert_eq!(series.element_size(), 1);
    assert_eq!(series.get(Timestamp(5)), Some(&b"b"[..]));
    assert_eq!(series.latest(), Some((Timestamp(9), &b"c"[..])));
    let mut reopened = reopened;
    assert_eq!(reopened.push_with_buf(Timestamp(8), b"x"), Err(StoreError::TimeTravel));
    assert_eq!(reopened.push_with_buf(Timestamp(10), b"d"), Ok(()));
    assert_eq!(reopened.series().get(Timestamp(10)), Some(&b"d"[..]));
}

#[test]
fn broken_images_do_not_open() {
    let writer = abc();
    let index = writer.index_image();
    let data = writer.data_image();
    assert!(matches!(TimeSeries::open(&index[..7], &data), Err(StoreError::Truncated)));
    assert!(matches!(TimeSeries::open(&index, &data[..3]), Err(StoreError::Truncated)));
    assert!(matches!(TimeSeries::open(&index[..index.len() - 1], &data), Err(StoreError::Truncated)));
    let mut swapped = index.clone();
    swapped[8] = 7;
    assert!(matches!(TimeSeries::open(&swapped, &data), Err(StoreError::TimeTravel)));
    assert!(TimeSeries::open(&index[..8], &data[..8]).is_ok());
}

#[test]
fn a_push_wakes_the_waiters() {
    let mut writer = abc();
    let first = writer.series().waiter();
    let second = writer.series().waiter();
    assert!(!writer.series().is_woken(&first));
    assert_eq!(writer.push_with_buf(Timestamp(3), b"x"), Err(StoreError::TimeTravel));
    assert!(!writer.series().is_woken(&first));
    writer.push_with_buf(Timestamp(11), b"d").unwrap();
    // every waiter is woken by the one push, and finds the entry committed
    assert!(writer.series().is_woken(&first));
    assert!(writer.series().is_woken(&second));
    assert_eq!(writer.series().latest(), Some((Timestamp(11), &b"d"[..])));
    assert_eq!(writer.series().get(Timestamp(11)), Some(&b"d"[..]));
    let third = writer.series().waiter();
    assert!(!writer.series().is_woken(&third));
}

#[test]
fn wait_queue_counts_wake_ups() {
    let mut queue = WaitQueue::new();
    assert_eq!(queue.generation(), 0);
    let waiter = queue.waiter();
    assert!(!waiter.is_woken(&queue));
    queue.wake_all();
    assert_eq!(queue.generation(), 1);
    assert!(waiter.is_woken(&queue));
}

#[test]
fn reserved_bytes_are_hidden_until_committed() {
    let mut writer = AppendLog::create(7u64);
    assert_eq!(*writer.inner().extra(), 7);
    assert_eq!(writer.inner().len(), 0);
    {
        let head = writer.head_mut(3).unwrap();
        assert_eq!(head, &[0u8, 0, 0][..]);
        head.copy_from_slice(b"abc");
    }
    assert_eq!(writer.inner().len(), 0);
    assert_eq!(writer.inner().get(0..1), None);
    writer.commit_head().unwrap();
    assert_eq!(writer.inner().len(), 3);
    assert_eq!(writer.inner().get(0..3), Some(&b"abc"[..]));
    // a reservation that is not committed is dropped by the next one
    writer.head_mut(2).unwrap().copy_from_slice(b"xy");
    writer.head_mut(1).unwrap().copy_from_slice(b"d");
    writer.commit_head().unwrap();
    assert_eq!(writer.inner().as_slice(), b"abcd");
    writer.write(b"ef").unwrap();
    assert_eq!(writer.inner().as_slice(), b"abcdef");
}

#[test]
fn get_checks_the_range_against_the_committed_bytes() {
    let log = AppendLog::from_parts(Timestamp(4), b"hello".to_vec());
    assert_eq!(*log.extra(), Timestamp(4));
    assert_eq!(log.get(1..3), Some(&b"el"[..]));
    assert_eq!(log.get(0..5), Some(&b"hello"[..]));
    assert_eq!(log.get(5..5), Some(&b""[..]));
    assert_eq!(log.get(3..6), None);
    assert_eq!(log.get(4..2), None);
    let writer = AppendLogWriter::new(log);
    assert_eq!(writer.inner().len(), 5);
    let mut writer = AppendLog::open(9u64, b"ab".to_vec());
    writer.write(b"c").unwrap();
    assert_eq!(writer.inner().as_slice(), b"abc");
    assert_eq!(*writer.inner().extra(), 9);
}
