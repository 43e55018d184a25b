use safe_thing::{handle_received, ActionReq, ActionReqMonitor, SAFEthing, ACTION_REQUEST_MONITORING_TIMEOUT};

#[test]
fn request_lifecycle() {
    let sender = SAFEthing::new("controller", "").unwrap();
    let req = sender.new_action_request("print", &["data", "copies"]);
    assert_eq!(req.thing_id, "controller");
    assert_eq!(req.action, "print");
    assert_eq!(req.args, vec!["data".to_string(), "copies".to_string()]);
    assert_eq!(req.state, "Requested");
    assert!(req.is_pending());

    let done = handle_received(&req).unwrap();
    assert_eq!(done.state, "Done");
    assert_eq!(done.action, "print");
    assert_eq!(done.args, req.args);
    assert!(!done.is_pending());
    assert!(handle_received(&done).is_none());

    let mut monitor = ActionReqMonitor::new("printer", 42);
    assert!(monitor.is_active());
    assert_eq!(monitor.entry().key, "_safe_thing_action_req_42");
    assert_eq!(monitor.entry().thing_id, "printer");
    assert_eq!(monitor.observe(Some("Requested")), None);
    assert_eq!(monitor.observe(None), None);
    assert_eq!(monitor.observe(Some("Done")), Some("Done".to_string()));
    assert!(!monitor.is_active());
}

#[test]
fn monitor_reports_each_change_until_stopped() {
    let mut monitor = ActionReqMonitor::new("printer", 7);
    assert_eq!(monitor.observe(Some("InProgress")), Some("InProgress".to_string()));
    monitor.record_answer(true);
    assert!(monitor.is_active());
    assert_eq!(monitor.observe(Some("InProgress")), None);
    assert_eq!(monitor.observe(Some("Paused")), Some("Paused".to_string()));
    monitor.record_answer(false);
    assert!(!monitor.is_active());
}

#[test]
fn monitor_times_out() {
    let mut monitor = ActionReqMonitor::new("printer", 7);
    monitor.record_elapsed(ACTION_REQUEST_MONITORING_TIMEOUT as u128);
    assert!(monitor.is_active());
    monitor.record_elapsed(ACTION_REQUEST_MONITORING_TIMEOUT as u128 + 1);
    assert!(!monitor.is_active());
    monitor.record_elapsed(0);
    monitor.record_answer(true);
    assert!(!monitor.is_active());
}

#[test]
fn received_request_in_other_state_is_left_alone() {
    let mut req = ActionReq::new("controller", "turnOff", &["timer"]);
    req.state = "InProgress".to_string();
    assert!(handle_received(&req).is_none());
}
