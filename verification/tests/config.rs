use coap_server_temp::config::{LogLevel, OptsCommon};

fn opts() -> OptsCommon {
    OptsCommon {
        debug: false,
        trace: false,
        listen: "127.0.0.1:5683".to_string(),
        out_sensor: "000".to_string(),
        average_db_t: 900,
        average_out_t: 900,
        send_interval: 300,
        db_url: "http://127.0.0.1:8086".to_string(),
        token: "secret_token".to_string(),
        org: "myorg".to_string(),
        bucket: "temperature".to_string(),
        measurement: "temperature".to_string(),
        expire_interval: 30,
    }
}

#[test]
fn loglevel_without_flags_is_info() {
    assert_eq!(opts().get_loglevel(), LogLevel::Info);
}

#[test]
fn loglevel_debug() {
    let mut o = opts();
    o.debug = true;
    assert_eq!(o.get_loglevel(), LogLevel::Debug);
}

#[test]
fn loglevel_trace_wins_over_debug() {
    let mut o = opts();
    o.trace = true;
    assert_eq!(o.get_loglevel(), LogLevel::Trace);
    o.debug = true;
    assert_eq!(o.get_loglevel(), LogLevel::Trace);
}

#[test]
fn finalize_succeeds_and_changes_nothing() {
    let mut o = opts();
    o.debug = true;
    assert_eq!(o.finalize(), Ok(()));
    assert_eq!(format!("{:?}", o), format!("{:?}", { let mut p = opts(); p.debug = true; p }));
}
