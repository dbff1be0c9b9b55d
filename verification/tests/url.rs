use coap_server_temp::url::{MyResponse, ResponseType, UrlHandler, UrlMap, MAX_PATHS};

#[test]
fn a_response_keeps_what_it_is_given() {
    let r = MyResponse::new(ResponseType::NotFound, "NOT FOUND");
    assert_eq!(r.code(), ResponseType::NotFound);
    assert_eq!(r.data(), "NOT FOUND");
    let r = MyResponse::new(ResponseType::Content, "");
    assert_eq!(r.code(), ResponseType::Content);
    assert_eq!(r.data(), "");
    let r = MyResponse::new(ResponseType::ServiceUnavailable, "NO DATA");
    assert_ne!(r.code(), ResponseType::Content);
    assert_eq!(r.data(), "NO DATA");
}

#[test]
fn a_new_map_leads_nowhere() {
    let urlmap = UrlMap::new();
    assert_eq!(urlmap.len(), 0);
    assert_eq!(urlmap.get_handler("avg_out"), UrlHandler::NotFound);
    assert_eq!(urlmap.get_handler(""), UrlHandler::NotFound);
    let urlmap = UrlMap::new_cap(0);
    assert_eq!(urlmap.len(), 0);
    assert_eq!(urlmap.get_handler("dump"), UrlHandler::NotFound);
    assert!(MAX_PATHS >= 8);
}

#[test]
fn a_path_leads_to_its_handler() {
    let urlmap = UrlMap::new()
        .with_path("avg_out", UrlHandler::AvgOut)
        .with_path("dump", UrlHandler::Dump)
        .with_path("list_sensors", UrlHandler::ListSensors)
        .with_path("set_outsensor", UrlHandler::SetOutsensor)
        .with_path("store_temp", UrlHandler::StoreTemp);
    assert_eq!(urlmap.len(), 5);
    assert_eq!(urlmap.get_handler("avg_out"), UrlHandler::AvgOut);
    assert_eq!(urlmap.get_handler("dump"), UrlHandler::Dump);
    assert_eq!(urlmap.get_handler("list_sensors"), UrlHandler::ListSensors);
    assert_eq!(urlmap.get_handler("set_outsensor"), UrlHandler::SetOutsensor);
    assert_eq!(urlmap.get_handler("store_temp"), UrlHandler::StoreTemp);
    assert_eq!(urlmap.get_handler("store"), UrlHandler::NotFound);
    assert_eq!(urlmap.get_handler("/dump"), UrlHandler::NotFound);
    assert_eq!(urlmap.get_handler("Dump"), UrlHandler::NotFound);
    assert_eq!(urlmap.get_handler("dump "), UrlHandler::NotFound);
}

#[test]
fn a_path_that_is_added_again_gets_the_new_handler() {
    let mut urlmap = UrlMap::new();
    urlmap.add_path("a", UrlHandler::Dump).add_path("b", UrlHandler::AvgOut);
    assert_eq!(urlmap.len(), 2);
    urlmap.add_path("a", UrlHandler::StoreTemp);
    assert_eq!(urlmap.len(), 2);
    assert_eq!(urlmap.get_handler("a"), UrlHandler::StoreTemp);
    assert_eq!(urlmap.get_handler("b"), UrlHandler::AvgOut);
}

#[test]
fn the_default_answers_for_every_other_path() {
    let mut urlmap = UrlMap::new().with_path("dump", UrlHandler::Dump);
    urlmap.set_default(UrlHandler::ListSensors);
    assert_eq!(urlmap.get_handler("dump"), UrlHandler::Dump);
    assert_eq!(urlmap.get_handler("anything"), UrlHandler::ListSensors);
    assert_eq!(urlmap.len(), 1);
}

#[test]
fn clear_empties_the_map_and_restores_the_default() {
    let mut urlmap = UrlMap::new().with_path("dump", UrlHandler::Dump);
    urlmap.set_default(UrlHandler::ListSensors);
    urlmap.clear();
    assert_eq!(urlmap.len(), 0);
    assert_eq!(urlmap.get_handler("dump"), UrlHandler::NotFound);
    assert_eq!(urlmap.get_handler("anything"), UrlHandler::NotFound);
    urlmap.clear().add_path("x", UrlHandler::AvgOut);
    assert_eq!(urlmap.get_handler("x"), UrlHandler::AvgOut);
}
