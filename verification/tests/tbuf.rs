use coap_server_temp::tbuf::{Mean, Tbuf, Tdata, MAX_CAPACITY};

fn reading(data: i64, timestamp: u64) -> Tdata {
    Tdata::new((data, timestamp))
}

fn value(avg: Option<Mean>) -> Option<f64> {
    avg.map(|m| m.sum as f64 / m.count as f64)
}

#[test]
fn tdata_keeps_what_it_is_given() {
    let d = Tdata::new((-215i64, 1_700_000_000u64));
    assert_eq!(d.data(), -215);
    assert_eq!(d.ts(), 1_700_000_000);
    assert_eq!(d, Tdata { timestamp: 1_700_000_000, data: -215 });
}

#[test]
fn tdata_from_either_order() {
    let a = Tdata::from((21_500i64, 7u64));
    let b = Tdata::from((7u64, 21_500i64));
    assert_eq!(a, Tdata { timestamp: 7, data: 21_500 });
    assert_eq!(a, b);
    assert_eq!(Tdata::new((21_500i64, 7u64)), a);
    assert_eq!(Tdata::new((7u64, 21_500i64)), a);
    assert_eq!(Tdata::new(a), a);
}

#[test]
fn tdata_within_counts_the_age() {
    let d = reading(1, 100);
    assert!(d.is_within(100, 0));
    assert!(d.is_within(400, 300));
    assert!(!d.is_within(401, 300));
    // a reading dated after now is within every window
    assert!(d.is_within(50, 0));
    assert!(reading(1, 0).is_within(u64::MAX, u64::MAX));
    assert!(!reading(1, 0).is_within(u64::MAX, u64::MAX - 1));
}

#[test]
fn new_buffer_has_no_average() {
    let tbuf = Tbuf::new(&[300, 900]);
    assert_eq!(tbuf.len(), 0);
    assert!(tbuf.is_empty());
    assert_eq!(tbuf.average(300), None);
    assert_eq!(tbuf.average(900), None);
}

#[test]
fn with_capacity_is_an_empty_buffer() {
    let tbuf = Tbuf::with_capacity(0, &[60]);
    assert!(tbuf.is_empty());
    assert_eq!(tbuf.average(60), None);
    let tbuf = Tbuf::with_capacity(1024, &[60, 120, 180]);
    assert_eq!(tbuf.len(), 0);
    assert_eq!(tbuf.average(180), None);
    assert!(MAX_CAPACITY >= 1024);
}

#[test]
fn one_reading_is_its_own_average() {
    let mut tbuf = Tbuf::new(&[300, 900]);
    tbuf.add(reading(10, 0), 0);
    assert_eq!(tbuf.len(), 1);
    assert!(!tbuf.is_empty());
    assert_eq!(tbuf.average(300), Some(Mean { sum: 10, count: 1 }));
    assert_eq!(tbuf.average(900), Some(Mean { sum: 10, count: 1 }));
}

#[test]
fn average_is_the_mean_of_the_readings_within_the_window() {
    let mut tbuf = Tbuf::new(&[300, 900]);
    let readings: [(i64, u64); 5] = [(10, 1000), (20, 1050), (-5, 1100), (40, 1200), (7, 1299)];
    let mut sum: i128 = 0;
    for (k, (v, t)) in readings.iter().enumerate() {
        tbuf.add(reading(*v, *t), *t);
        sum += *v as i128;
        let expect = Some(Mean { sum, count: k as u64 + 1 });
        assert_eq!(tbuf.average(300), expect);
        assert_eq!(tbuf.average(900), expect);
    }
    assert_eq!(value(tbuf.average(300)), Some(72.0 / 5.0));
}

#[test]
fn a_window_that_is_not_configured_has_no_average() {
    let mut tbuf = Tbuf::new(&[300, 900]);
    assert_eq!(tbuf.average(0), None);
    assert_eq!(tbuf.average(600), None);
    tbuf.add(reading(10, 0), 0);
    tbuf.add(reading(20, 150), 150);
    assert_eq!(tbuf.average(0), None);
    assert_eq!(tbuf.average(299), None);
    assert_eq!(tbuf.average(301), None);
    assert_eq!(tbuf.average(600), None);
    assert_eq!(tbuf.average(u64::MAX), None);
    tbuf.expire(5000);
    tbuf.update_averages(5000);
    assert_eq!(tbuf.average(600), None);
}

#[test]
fn a_reading_leaves_the_short_window_first() {
    let mut tbuf = Tbuf::new(&[300, 900]);
    tbuf.add(reading(10, 0), 0);
    tbuf.add(reading(20, 150), 150);
    assert_eq!(tbuf.average(300), Some(Mean { sum: 30, count: 2 }));
    assert_eq!(tbuf.expire(400), 0);
    tbuf.update_averages(400);
    assert_eq!(tbuf.len(), 2);
    assert_eq!(tbuf.average(300), Some(Mean { sum: 20, count: 1 }));
    assert_eq!(tbuf.average(900), Some(Mean { sum: 30, count: 2 }));
}

#[test]
fn the_window_includes_its_far_end() {
    let mut tbuf = Tbuf::new(&[300]);
    tbuf.add(reading(10, 100), 100);
    tbuf.add(reading(20, 200), 200);
    tbuf.update_averages(400);
    // the first reading is exactly 300 old: still inside
    assert_eq!(tbuf.average(300), Some(Mean { sum: 30, count: 2 }));
    tbuf.update_averages(401);
    assert_eq!(tbuf.average(300), Some(Mean { sum: 20, count: 1 }));
}

#[test]
fn expire_discards_what_is_older_than_the_longest_window() {
    let mut tbuf = Tbuf::new(&[900, 300]);
    tbuf.add(reading(1, 100), 100);
    tbuf.add(reading(2, 200), 200);
    tbuf.add(reading(3, 300), 300);
    // at 1000 the first reading is exactly 900 old: it stays
    assert_eq!(tbuf.expire(1000), 0);
    assert_eq!(tbuf.len(), 3);
    // at 1001 it is older than the longest window
    assert_eq!(tbuf.expire(1001), 1);
    assert_eq!(tbuf.len(), 2);
    assert_eq!(tbuf.expire(1001), 0);
    assert_eq!(tbuf.expire(1200), 1);
    assert_eq!(tbuf.len(), 1);
    assert_eq!(tbuf.expire(5000), 1);
    assert!(tbuf.is_empty());
    assert_eq!(tbuf.expire(5000), 0);
}

#[test]
fn expire_leaves_the_cached_averages_alone() {
    let mut tbuf = Tbuf::new(&[300, 900]);
    tbuf.add(reading(10, 0), 0);
    tbuf.add(reading(20, 150), 150);
    assert_eq!(tbuf.expire(10_000), 2);
    assert!(tbuf.is_empty());
    // nothing is held, but the cache has not been brought up to date
    assert_eq!(tbuf.average(300), Some(Mean { sum: 30, count: 2 }));
    assert_eq!(tbuf.average(900), Some(Mean { sum: 30, count: 2 }));
    tbuf.update_averages(10_000);
    assert_eq!(tbuf.average(300), None);
    assert_eq!(tbuf.average(900), None);
}

#[test]
fn a_window_without_readings_keeps_its_average_while_something_is_held() {
    let mut tbuf = Tbuf::new(&[300, 900]);
    tbuf.add(reading(10, 0), 0);
    tbuf.add(reading(20, 150), 150);
    tbuf.add(reading(60, 500), 500);
    // at 500: the short window holds only the last reading
    assert_eq!(tbuf.average(300), Some(Mean { sum: 60, count: 1 }));
    assert_eq!(tbuf.average(900), Some(Mean { sum: 90, count: 3 }));
    // at 1000: the first two are older than 900, the last is 500 old
    assert_eq!(tbuf.expire(1000), 1);
    tbuf.update_averages(1000);
    assert_eq!(tbuf.len(), 2);
    assert_eq!(tbuf.average(300), Some(Mean { sum: 60, count: 1 }));
    assert_eq!(tbuf.average(900), Some(Mean { sum: 80, count: 2 }));
    // at 1500 nothing is left
    assert_eq!(tbuf.expire(1500), 2);
    tbuf.update_averages(1500);
    assert_eq!(tbuf.average(300), None);
    assert_eq!(tbuf.average(900), None);
}

#[test]
fn updating_twice_changes_nothing_the_second_time() {
    let mut tbuf = Tbuf::new(&[300, 900]);
    tbuf.add(reading(10, 0), 0);
    tbuf.add(reading(20, 150), 150);
    tbuf.add(reading(33, 420), 420);
    for now in [420u64, 450, 700, 1100, 1321, 9000] {
        tbuf.update_averages(now);
        let first = (tbuf.average(300), tbuf.average(900));
        tbuf.update_averages(now);
        assert_eq!((tbuf.average(300), tbuf.average(900)), first);
    }
}

#[test]
fn a_late_reading_is_taken_in_and_expired_like_any_other() {
    let mut tbuf = Tbuf::new(&[100]);
    tbuf.add(reading(1, 500), 500);
    // dated before the reading that arrived last
    tbuf.add(reading(2, 450), 500);
    tbuf.add(reading(4, 520), 520);
    assert_eq!(tbuf.average(100), Some(Mean { sum: 7, count: 3 }));
    // at 551 only the late reading is older than the window
    assert_eq!(tbuf.expire(551), 1);
    tbuf.update_averages(551);
    assert_eq!(tbuf.len(), 2);
    assert_eq!(tbuf.average(100), Some(Mean { sum: 5, count: 2 }));
    // what is left is in time order again
    assert_eq!(tbuf.expire(601), 1);
    tbuf.update_averages(601);
    assert_eq!(tbuf.average(100), Some(Mean { sum: 4, count: 1 }));
    assert_eq!(tbuf.expire(621), 1);
    assert!(tbuf.is_empty());
}

#[test]
fn late_readings_behind_a_fresh_head_are_still_found() {
    let mut tbuf = Tbuf::new(&[100]);
    tbuf.add(reading(1, 500), 500);
    tbuf.add(reading(2, 300), 500);
    tbuf.add(reading(3, 350), 500);
    tbuf.add(reading(4, 510), 510);
    // the head is fresh, two readings behind it are not
    assert_eq!(tbuf.expire(520), 2);
    assert_eq!(tbuf.len(), 2);
    tbuf.update_averages(520);
    assert_eq!(tbuf.average(100), Some(Mean { sum: 5, count: 2 }));
}

#[test]
fn a_reading_dated_after_now_is_within_every_window() {
    let mut tbuf = Tbuf::new(&[10]);
    tbuf.add(reading(8, 1000), 100);
    assert_eq!(tbuf.average(10), Some(Mean { sum: 8, count: 1 }));
    assert_eq!(tbuf.expire(100), 0);
    assert_eq!(tbuf.expire(1010), 0);
    assert_eq!(tbuf.expire(1011), 1);
}

#[test]
fn sums_do_not_wrap() {
    let mut tbuf = Tbuf::new(&[10]);
    tbuf.add(reading(i64::MAX, 0), 0);
    tbuf.add(reading(i64::MAX, 1), 1);
    tbuf.add(reading(i64::MAX, 2), 2);
    assert_eq!(tbuf.average(10), Some(Mean { sum: 3 * (i64::MAX as i128), count: 3 }));
    let mut tbuf = Tbuf::new(&[10]);
    tbuf.add(reading(i64::MIN, 0), 0);
    tbuf.add(reading(i64::MIN, 1), 1);
    assert_eq!(tbuf.average(10), Some(Mean { sum: 2 * (i64::MIN as i128), count: 2 }));
}

#[test]
fn of_two_equal_windows_the_first_answers() {
    let mut tbuf = Tbuf::new(&[900, 900]);
    tbuf.add(reading(3, 0), 0);
    tbuf.add(reading(5, 10), 10);
    assert_eq!(tbuf.average(900), Some(Mean { sum: 8, count: 2 }));
}

#[test]
fn a_window_of_no_length_holds_what_is_dated_now() {
    let mut tbuf = Tbuf::new(&[0, 50]);
    tbuf.add(reading(3, 10), 10);
    assert_eq!(tbuf.average(0), Some(Mean { sum: 3, count: 1 }));
    tbuf.add(reading(5, 20), 20);
    assert_eq!(tbuf.average(0), Some(Mean { sum: 5, count: 1 }));
    assert_eq!(tbuf.average(50), Some(Mean { sum: 8, count: 2 }));
    tbuf.update_averages(21);
    // nothing is dated 21: the average of the window stays what it was
    assert_eq!(tbuf.average(0), Some(Mean { sum: 5, count: 1 }));
}

#[test]
fn expiry_takes_nothing_from_any_window() {
    let mut a = Tbuf::new(&[100, 400]);
    let mut b = Tbuf::new(&[100, 400]);
    for (v, t) in [(1i64, 0u64), (2, 90), (3, 200), (4, 390), (5, 450)] {
        a.add(reading(v, t), t);
        b.add(reading(v, t), t);
    }
    assert_eq!(a.expire(480), 1);
    a.update_averages(480);
    b.update_averages(480);
    assert_eq!(a.average(100), b.average(100));
    assert_eq!(a.average(400), b.average(400));
    assert_eq!(a.average(400), Some(Mean { sum: 14, count: 4 }));
}
