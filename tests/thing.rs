use safe_thing::{
    append_event, events_of_text, ErrorCode, Error, Fetched, FilterOperator, Observed,
    RegisteredSubscriptions, SAFEthing, Status, Subscription, ThingAttr,
};

#[test]
fn minimum_id_length() {
    let e = SAFEthing::new("abcd", "").unwrap_err();
    assert_eq!(e.code, ErrorCode::InvalidArgument);
    let t = SAFEthing::new("abcde", "").unwrap();
    assert_eq!(t.thing_id, "abcde");
}

#[test]
fn register_writes_lists_and_status() {
    let mut t = SAFEthing::new("printer-1", "").unwrap();
    let w = t.register("[a]", "[t]", "[c]", RegisteredSubscriptions::new());
    assert_eq!(w.len(), 4);
    assert_eq!((w[0].key.as_str(), w[0].value.as_str()), ("_safe_thing_attributes", "[a]"));
    assert_eq!((w[1].key.as_str(), w[1].value.as_str()), ("_safe_thing_topics", "[t]"));
    assert_eq!((w[2].key.as_str(), w[2].value.as_str()), ("_safe_thing_actions", "[c]"));
    assert_eq!((w[3].key.as_str(), w[3].value.as_str()), ("_safe_thing_status", "Connected"));
    assert!(w.iter().all(|x| x.thing_id == "printer-1"));
    let again = t.register("[a]", "[t]", "[c]", RegisteredSubscriptions::new());
    let pairs = |v: &Vec<safe_thing::EntryWrite>| {
        v.iter().map(|x| (x.key.clone(), x.value.clone())).collect::<Vec<_>>()
    };
    assert_eq!(pairs(&w), pairs(&again));
}

#[test]
fn status_and_publish() {
    let t = SAFEthing::new("printer-1", "").unwrap();
    assert_eq!(t.status(Fetched::Found("Connected".to_string())).unwrap(), Status::Connected);
    assert_eq!(t.status(Fetched::NotFound).unwrap(), Status::Unknown);
    let e = t.status(Fetched::Failed(Error::new(ErrorCode::NetworkErr, "x"))).unwrap_err();
    assert_eq!(e.code, ErrorCode::NetworkErr);
    let w = t.publish();
    assert_eq!(w.key, "_safe_thing_status");
    assert_eq!(w.value, "Published");
    assert_eq!(Status::Published.name(), "Published");
}

#[test]
fn set_attr_value_updates_or_adds() {
    let mut attrs = vec![
        ThingAttr::new("model", "HP", false),
        ThingAttr::new("ink-level", "70", true),
    ];
    SAFEthing::set_attr_value(&mut attrs, "ink-level", "60");
    assert_eq!(attrs.len(), 2);
    assert_eq!(attrs[1].value, "60");
    assert!(attrs[1].is_dynamic);
    SAFEthing::set_attr_value(&mut attrs, "model", "Canon");
    assert_eq!(attrs[0].value, "Canon");
    assert!(!attrs[0].is_dynamic);
    SAFEthing::set_attr_value(&mut attrs, "status", "on");
    assert_eq!(attrs.len(), 3);
    assert_eq!(attrs[2].attr, "status");
    assert_eq!(attrs[2].value, "on");
    assert!(attrs[2].is_dynamic);
}

#[test]
fn subscriptions_accumulate_per_thing() {
    let mut t = SAFEthing::new("controller", "").unwrap();
    t.subscribe_to_topic("printer", "outOfInk", FilterOperator::Any, "").unwrap();
    t.subscribe_to_attr("printer", "ink-level", FilterOperator::LessThan, "20").unwrap();
    t.subscribe_to_attr("garden", "humidity", FilterOperator::Any, "").unwrap();
    let p = t.subscriptions.subscriptions_of("printer");
    assert_eq!(p.len(), 2);
    match &p[0] {
        Subscription::Topic(ts, _) => assert_eq!(ts.topic, "outOfInk"),
        _ => panic!("expected a topic subscription"),
    }
    match &p[1] {
        Subscription::Attr(a, last) => {
            assert_eq!(a.attr_name, "ink-level");
            assert_eq!(a.filter_value, "20");
            assert_eq!(last, "");
        }
        _ => panic!("expected an attribute subscription"),
    }
    assert_eq!(t.subscriptions.thing_count(), 2);
    assert_eq!(t.subscriptions.subscriptions_of("nobody").len(), 0);
}

#[test]
fn polling_a_subscription_moves_its_watermark() {
    let mut t = SAFEthing::new("controller", "").unwrap();
    t.subscribe_to_attr("printer", "ink-level", FilterOperator::Any, "").unwrap();
    let e = t.subscriptions.entry_for(0, 0);
    assert_eq!(e.thing_id, "printer");
    assert_eq!(e.key, "_safe_thing_attributes");
    let seen = Observed::Attrs(vec![ThingAttr::new("ink-level", "55", true)]);
    let ns = t.subscriptions.check_at(0, 0, &seen).unwrap();
    assert_eq!(ns.len(), 1);
    assert_eq!(ns[0].thing_id, "printer");
    assert_eq!(t.subscriptions.check_at(0, 0, &seen).unwrap().len(), 0);
    let wrong_kind = Observed::Events(vec![(1, "x".to_string())]);
    assert_eq!(t.subscriptions.check_at(0, 0, &wrong_kind).unwrap().len(), 0);
}

#[test]
fn notify_appends_to_the_log() {
    let t = SAFEthing::new("printer-1", "").unwrap();
    let w = t.notify("printRequested", "job 1", Fetched::NotFound).unwrap();
    assert_eq!(w.key, "_safe_thing_events_printRequested");
    let log = events_of_text(&w.value);
    assert_eq!(log.len(), 1);
    assert_eq!(log[0].1, "job 1");
    let w2 = t.notify("printRequested", "job 2", Fetched::Found(w.value.clone())).unwrap();
    let log2 = events_of_text(&w2.value);
    assert_eq!(log2.len(), 2);
    assert_eq!(log2[0], log[0]);
    assert_eq!(log2[1].1, "job 2");
    assert!(log2[1].0 >= log2[0].0);
    let e = t
        .notify("printRequested", "x", Fetched::Failed(Error::new(ErrorCode::NetworkErr, "x")))
        .unwrap_err();
    assert_eq!(e.code, ErrorCode::NetworkErr);
}

#[test]
fn event_log_text() {
    assert_eq!(append_event("[]", 5, "x").unwrap(), "[[5,\"x\"]]");
    assert_eq!(append_event("not json", 7, "y").unwrap(), "[[7,\"y\"]]");
    assert_eq!(append_event("[[5,\"x\"]]", 9, "z").unwrap(), "[[5,\"x\"],[9,\"z\"]]");
    assert_eq!(events_of_text("[[1,\"a\"],[2,\"b\"]]"), vec![(1, "a".to_string()), (2, "b".to_string())]);
    assert_eq!(events_of_text("{}").len(), 0);
}

#[test]
fn update_action_request_state_writes_own_record() {
    let t = SAFEthing::new("printer-1", "").unwrap();
    let w = t.update_action_request_state(99, "{\"state\":\"InProgress\"}");
    assert_eq!(w.thing_id, "printer-1");
    assert_eq!(w.key, "_safe_thing_action_req_99");
}
