use coap_server_temp::outsensor::{get, init, split, DEFAULT_OUTSENSOR};

fn pieces(selector: &str) -> Vec<String> {
    selector.split(',').map(|s| s.to_string()).collect()
}

#[test]
fn init_names_the_default_sensor() {
    let sel = init();
    assert_eq!(get(&sel), "28F41A2800008091");
    assert_eq!(sel, DEFAULT_OUTSENSOR);
    assert_eq!(split(&sel), vec!["28F41A2800008091".to_string()]);
}

#[test]
fn set_keeps_the_selector_as_it_is() {
    let mut sel = init();
    coap_server_temp::outsensor::set(&mut sel, "B,A");
    assert_eq!(get(&sel), "B,A");
    coap_server_temp::outsensor::set(&mut sel, " b , a ,");
    assert_eq!(get(&sel), " b , a ,");
    coap_server_temp::outsensor::set(&mut sel, "");
    assert_eq!(get(&sel), "");
}

#[test]
fn candidates_are_the_pieces_between_commas() {
    let mut sel = init();
    coap_server_temp::outsensor::set(&mut sel, "B,A");
    assert_eq!(split(&get(&sel)), vec!["B".to_string(), "A".to_string()]);
    coap_server_temp::outsensor::set(&mut sel, "one");
    assert_eq!(split(&sel), vec!["one".to_string()]);
}

#[test]
fn split_keeps_empty_pieces() {
    assert_eq!(split(""), vec!["".to_string()]);
    assert_eq!(split(","), vec!["".to_string(), "".to_string()]);
    assert_eq!(split("a,"), vec!["a".to_string(), "".to_string()]);
    assert_eq!(split(",a"), vec!["".to_string(), "a".to_string()]);
    assert_eq!(split("a,,b"), vec!["a".to_string(), "".to_string(), "b".to_string()]);
}

#[test]
fn split_agrees_with_the_standard_library() {
    for s in ["", ",", ",,", "a", "a,b", "a,b,c", ",a,", "28F41A2800008091,000", " x , y ",
        "k\u{e4}ll\u{e4}ri,ulko", "\u{1F321},\u{1F321}\u{1F321},", "a,b\n,c\t"]
    {
        assert_eq!(split(s), pieces(s), "selector {s:?}");
    }
}
