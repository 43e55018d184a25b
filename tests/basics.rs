use safe_thing::{FilterOperator, SAFEthing, SAFEthingComm, ThingStatus};

#[test]
fn comm_it_works() {
    let comm = SAFEthingComm::new("thing-one", "credentials");
    let w = comm.set_status(ThingStatus::Connected).unwrap();
    assert_eq!(w.thing_id, "thing-one");
    assert_eq!(w.key, "_safe_thing_status");
    assert_eq!(w.value, "Connected");
}

#[test]
fn lib_it_works() {
    let mut thing = SAFEthing::new("thing-one", "").unwrap();
    assert_eq!(thing.thing_id, "thing-one");
    thing
        .subscribe_to_topic("thing-two", "printRequested", FilterOperator::Any, "")
        .unwrap();
    assert_eq!(thing.subscriptions.subscriptions_of("thing-two").len(), 1);
}

#[test]
fn it_works() {
    let t = SAFEthing::new("abcde", "").unwrap();
    let req = t.new_action_request("turnOn", &[]);
    assert!(req.is_pending());
    assert_eq!(req.args.len(), 0);
}
