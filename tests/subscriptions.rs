use safe_thing::{
    check_attrs_subs_and_notify, check_topic_subs_and_notify, AttrSubscription, ErrorCode,
    FilterOperator, ThingAttr, TopicSubscription,
};

fn topic_sub(op: FilterOperator, value: &str) -> TopicSubscription {
    TopicSubscription {
        topic: "printRequested".to_string(),
        filter_op: op,
        filter_value: value.to_string(),
    }
}

fn attr_sub(op: FilterOperator, value: &str) -> AttrSubscription {
    AttrSubscription {
        attr_name: "ink-level".to_string(),
        filter_op: op,
        filter_value: value.to_string(),
    }
}

#[test]
fn topic_events_reported_once_in_order() {
    let events = vec![
        (100u128, "a".to_string()),
        (200u128, "b".to_string()),
        (300u128, "c".to_string()),
    ];
    let sub = topic_sub(FilterOperator::Any, "");
    let mut last = 50u128;
    let ns = check_topic_subs_and_notify("printer", &sub, &mut last, &events).unwrap();
    assert_eq!(ns.len(), 3);
    assert_eq!(ns[0].payload, "a");
    assert_eq!(ns[0].timestamp, 100);
    assert_eq!(ns[1].payload, "b");
    assert_eq!(ns[2].payload, "c");
    assert_eq!(ns[2].timestamp, 300);
    assert_eq!(ns[0].thing_id, "printer");
    assert_eq!(ns[0].name, "printRequested");
    assert_eq!(last, 300);
    let again = check_topic_subs_and_notify("printer", &sub, &mut last, &events).unwrap();
    assert_eq!(again.len(), 0);
    assert_eq!(last, 300);
}

#[test]
fn topic_events_before_watermark_are_skipped() {
    let events = vec![(100u128, "a".to_string()), (200u128, "b".to_string())];
    let sub = topic_sub(FilterOperator::Any, "");
    let mut last = 150u128;
    let ns = check_topic_subs_and_notify("printer", &sub, &mut last, &events).unwrap();
    assert_eq!(ns.len(), 1);
    assert_eq!(ns[0].payload, "b");
}

#[test]
fn topic_filter_selects_events() {
    let events = vec![
        (1u128, "10".to_string()),
        (2u128, "30".to_string()),
        (3u128, "5".to_string()),
    ];
    let sub = topic_sub(FilterOperator::GreaterThan, "20");
    let mut last = 0u128;
    let ns = check_topic_subs_and_notify("t", &sub, &mut last, &events).unwrap();
    assert_eq!(ns.len(), 1);
    assert_eq!(ns[0].payload, "30");
    assert_eq!(last, 2);
}

#[test]
fn topic_filter_error_keeps_watermark() {
    let events = vec![(1u128, "10".to_string()), (2u128, "lots".to_string())];
    let sub = topic_sub(FilterOperator::LessThan, "20");
    let mut last = 0u128;
    let e = check_topic_subs_and_notify("t", &sub, &mut last, &events).unwrap_err();
    assert_eq!(e.code, ErrorCode::InvalidArgument);
    assert_eq!(last, 0);
}

#[test]
fn attr_same_value_reported_once() {
    let sub = attr_sub(FilterOperator::Any, "");
    let mut last = String::new();
    let attrs = vec![
        ThingAttr::new("model", "HP", false),
        ThingAttr::new("ink-level", "70", true),
    ];
    let ns = check_attrs_subs_and_notify("printer", &sub, &mut last, &attrs).unwrap();
    assert_eq!(ns.len(), 1);
    assert_eq!(ns[0].name, "ink-level");
    assert_eq!(ns[0].payload, "70");
    assert_eq!(ns[0].timestamp, 0);
    assert_eq!(last, "70");
    let again = check_attrs_subs_and_notify("printer", &sub, &mut last, &attrs).unwrap();
    assert_eq!(again.len(), 0);
}

#[test]
fn attr_a_b_a_reported_at_each_change() {
    let sub = attr_sub(FilterOperator::Any, "");
    let mut last = String::new();
    let a = vec![ThingAttr::new("ink-level", "A", true)];
    let b = vec![ThingAttr::new("ink-level", "B", true)];
    assert_eq!(check_attrs_subs_and_notify("p", &sub, &mut last, &a).unwrap().len(), 1);
    assert_eq!(check_attrs_subs_and_notify("p", &sub, &mut last, &a).unwrap().len(), 0);
    let n = check_attrs_subs_and_notify("p", &sub, &mut last, &b).unwrap();
    assert_eq!(n.len(), 1);
    assert_eq!(n[0].payload, "B");
    let n = check_attrs_subs_and_notify("p", &sub, &mut last, &a).unwrap();
    assert_eq!(n.len(), 1);
    assert_eq!(n[0].payload, "A");
    assert_eq!(last, "A");
}

#[test]
fn attr_static_or_other_names_ignored() {
    let sub = attr_sub(FilterOperator::Any, "");
    let mut last = String::new();
    let attrs = vec![
        ThingAttr::new("ink-level", "70", false),
        ThingAttr::new("status", "on", true),
    ];
    let ns = check_attrs_subs_and_notify("p", &sub, &mut last, &attrs).unwrap();
    assert_eq!(ns.len(), 0);
    assert_eq!(last, "");
}

#[test]
fn attr_threshold_filter() {
    let sub = attr_sub(FilterOperator::LessThan, "20");
    let mut last = String::new();
    let high = vec![ThingAttr::new("ink-level", "70", true)];
    let low = vec![ThingAttr::new("ink-level", "15", true)];
    assert_eq!(check_attrs_subs_and_notify("p", &sub, &mut last, &high).unwrap().len(), 0);
    assert_eq!(check_attrs_subs_and_notify("p", &sub, &mut last, &low).unwrap().len(), 1);
    assert_eq!(check_attrs_subs_and_notify("p", &sub, &mut last, &low).unwrap().len(), 0);
    let bad = vec![ThingAttr::new("ink-level", "70%", true)];
    let e = check_attrs_subs_and_notify("p", &sub, &mut last, &bad).unwrap_err();
    assert_eq!(e.code, ErrorCode::InvalidArgument);
    assert_eq!(last, "15");
}
