use safe_thing::{ErrorCode, Error, Fetched, SAFEthingComm, ThingStatus, SAFE_THING_TYPE_TAG};

#[test]
fn addr_name_is_lowercase_hex() {
    let mut comm = SAFEthingComm::new("thing-one", "");
    let mut name = [0u8; 32];
    name[0] = 0xab;
    name[1] = 0x01;
    name[31] = 0xff;
    let (addr, tag) = comm.store_thing_entity(name);
    assert_eq!(tag, SAFE_THING_TYPE_TAG);
    assert_eq!(addr.len(), 64);
    assert!(addr.starts_with("ab01"));
    assert!(addr.ends_with("00ff"));
    assert_eq!(comm.addr_name(), addr);
}

#[test]
fn unknown_status_cannot_be_stored() {
    let comm = SAFEthingComm::new("thing-one", "");
    let e = comm.set_status(ThingStatus::Unknown).unwrap_err();
    assert_eq!(e.code, ErrorCode::InvalidArgument);
    assert_eq!(comm.set_status(ThingStatus::Published).unwrap().value, "Published");
    assert_eq!(comm.set_status(ThingStatus::Disabled).unwrap().value, "Disabled");
}

#[test]
fn stored_status_is_read_back() {
    let comm = SAFEthingComm::new("thing-one", "");
    let got = comm.get_status(Fetched::Found("Published".to_string())).unwrap();
    assert_eq!(got, ThingStatus::Published);
    let got = comm.get_status(Fetched::Found("Sleeping".to_string())).unwrap();
    assert_eq!(got, ThingStatus::Unknown);
    assert_eq!(comm.get_status(Fetched::NotFound).unwrap(), ThingStatus::Unknown);
    let e = comm
        .get_status(Fetched::Failed(Error::new(ErrorCode::NetworkErr, "down")))
        .unwrap_err();
    assert_eq!(e.code, ErrorCode::NetworkErr);
}

#[test]
fn missing_entries_read_as_empty() {
    let comm = SAFEthingComm::new("thing-one", "");
    assert_eq!(comm.get_thing_attrs(Fetched::NotFound).unwrap(), "[]");
    assert_eq!(comm.get_thing_topics(Fetched::NotFound).unwrap(), "[]");
    assert_eq!(comm.get_thing_actions(Fetched::NotFound).unwrap(), "[]");
    assert_eq!(comm.get_topic_events(Fetched::NotFound).unwrap(), "[]");
    assert_eq!(comm.get_thing_topic_events(Fetched::NotFound).unwrap(), "[]");
    assert_eq!(comm.get_subscriptions(Fetched::NotFound).unwrap(), "{}");
    assert_eq!(comm.get_thing_action_request_state(Fetched::NotFound).unwrap(), "{}");
    assert_eq!(comm.get_thing_attrs(Fetched::Found("[1]".to_string())).unwrap(), "[1]");
    let failed = Fetched::Failed(Error::new(ErrorCode::NetworkErr, "down"));
    assert_eq!(comm.get_thing_topics(failed).unwrap_err().code, ErrorCode::NetworkErr);
}

#[test]
fn entry_keys() {
    let comm = SAFEthingComm::new("thing-one", "");
    assert_eq!(comm.set_attributes("[]").key, "_safe_thing_attributes");
    assert_eq!(comm.set_topics("[]").key, "_safe_thing_topics");
    assert_eq!(comm.set_actions("[]").key, "_safe_thing_actions");
    assert_eq!(comm.set_subscriptions("{}").key, "_safe_thing_subscriptions");
    let w = comm.set_topic_events("outOfInk", "[]");
    assert_eq!(w.key, "_safe_thing_events_outOfInk");
    assert_eq!(w.thing_id, "thing-one");
    let e = SAFEthingComm::topic_events_entry("thing-two", "outOfInk");
    assert_eq!(e.thing_id, "thing-two");
    assert_eq!(e.key, "_safe_thing_events_outOfInk");
    assert_eq!(SAFEthingComm::attrs_entry("x").key, "_safe_thing_attributes");
    assert_eq!(comm.subscriptions_entry().key, "_safe_thing_subscriptions");
    assert_eq!(comm.status_entry().thing_id, "thing-one");
}

#[test]
fn action_request_keys_use_decimal_ids() {
    let comm = SAFEthingComm::new("thing-one", "");
    let w = comm.set_action_request_state(1234567890123456789012345, "{}");
    assert_eq!(w.key, "_safe_thing_action_req_1234567890123456789012345");
    assert_eq!(w.thing_id, "thing-one");
    let e = SAFEthingComm::action_request_entry("thing-two", 0);
    assert_eq!(e.key, "_safe_thing_action_req_0");
    let (id, w) = comm.send_action_request("thing-two", "{\"state\":\"Requested\"}");
    assert_eq!(w.thing_id, "thing-two");
    assert_eq!(w.key, format!("_safe_thing_action_req_{}", id));
    assert_eq!(w.value, "{\"state\":\"Requested\"}");
}

#[test]
fn action_requests_listed_from_entries() {
    let comm = SAFEthingComm::new("thing-one", "");
    let entries = vec![
        ("_safe_thing_status".to_string(), "Connected".to_string()),
        ("_safe_thing_action_req_17".to_string(), "req17".to_string()),
        ("_safe_thing_action_req_18".to_string(), "".to_string()),
        ("_safe_thing_action_req_x".to_string(), "bad".to_string()),
        ("_safe_thing_action_req_340282366920938463463374607431768211456".to_string(), "big".to_string()),
        ("_safe_thing_action_req_340282366920938463463374607431768211455".to_string(), "max".to_string()),
        ("_safe_thing_action_req_5".to_string(), "req5".to_string()),
    ];
    let got = comm.get_actions_requests(Ok(entries)).unwrap();
    assert_eq!(
        got,
        vec![
            (17u128, "req17".to_string()),
            (u128::MAX, "max".to_string()),
            (5u128, "req5".to_string())
        ]
    );
    let e = comm
        .get_actions_requests(Err(Error::new(ErrorCode::NetworkErr, "down")))
        .unwrap_err();
    assert_eq!(e.code, ErrorCode::NetworkErr);
}

#[test]
fn clone_keeps_identity() {
    let comm = SAFEthingComm::new("thing-one", "creds");
    let c = comm.clone();
    assert_eq!(c.thing_id, "thing-one");
    assert_eq!(c.auth_str, "creds");
}

#[test]
fn error_message_names_the_kind() {
    let e = Error::new(ErrorCode::ConnectionErr, "no route");
    assert_eq!(e.message(), "[Error] Connection error - no route");
    assert_eq!(Error::new(ErrorCode::InvalidArgument, "x").message(), "[Error] Invalid parameters - x");
}
