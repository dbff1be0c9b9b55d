use coap_server_temp::influxdb::{timestamp_start, wait_secs};

#[test]
fn a_batch_is_dated_with_the_start_of_its_interval() {
    assert_eq!(timestamp_start(0, 300), 0);
    assert_eq!(timestamp_start(299, 300), 0);
    assert_eq!(timestamp_start(300, 300), 300);
    assert_eq!(timestamp_start(1_700_000_123, 300), 1_700_000_100);
    assert_eq!(timestamp_start(1_700_000_123, 60), 1_700_000_100);
    assert_eq!(timestamp_start(1_700_000_123, 1), 1_700_000_123);
    assert_eq!(timestamp_start(u64::MAX, u64::MAX), u64::MAX);
    assert_eq!(timestamp_start(u64::MAX - 1, u64::MAX), 0);
}

#[test]
fn the_wait_ends_at_the_next_start() {
    assert_eq!(wait_secs(0, 300), 300);
    assert_eq!(wait_secs(1, 300), 299);
    assert_eq!(wait_secs(299, 300), 1);
    assert_eq!(wait_secs(300, 300), 300);
    assert_eq!(wait_secs(1_700_000_123, 300), 277);
    assert_eq!(wait_secs(1_700_000_123, 1), 1);
    for now in [0u64, 5, 59, 60, 61, 3599, 86_400] {
        let w = wait_secs(now, 60);
        assert!(0 < w && w <= 60);
        assert_eq!((now + w) % 60, 0);
        assert_eq!(timestamp_start(now + w, 60), now + w);
    }
}
