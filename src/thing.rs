use vstd::prelude::*;
use crate::actions::{requested_state, ActionReq, ActionReqId};
use crate::clock::gen_timestamp;
use crate::comm::{
    actions_key, attrs_key, events_key, status_from_text, status_key, topics_key, EntryWrite, Fetched,
    SAFEthingComm,
};
use crate::errors::{Error, ErrorCode};
use crate::events::{append_event, log_of, Timestamp};
use crate::filter::FilterOperator;
use crate::json::events_json;
use crate::model::{status_of, Status, ThingAttr, ThingStatus};
use crate::registry::{copy_subscriptions, RegisteredSubscriptions};
use crate::subscriptions::{AttrSubscription, Subscription, TopicSubscription};
use crate::text::str_equal;

verus! {

/// The shortest thing id accepted, in bytes.
pub const THING_ID_MIN_LENGTH: usize = 5;

/// How often subscriptions are checked, in milliseconds.
pub const SUBSCRIPTIONS_CHECK_FREQ: u64 = 5_000;

pub open spec fn write_view(w: EntryWrite) -> (Seq<char>, Seq<char>, Seq<char>) {
    (w.thing_id@, w.key@, w.value@)
}

pub open spec fn writes_view(ws: Seq<EntryWrite>) -> Seq<(Seq<char>, Seq<char>, Seq<char>)> {
    ws.map_values(|w: EntryWrite| write_view(w))
}

/// The writes that registering a thing makes in its own record, in order: the
/// attributes, the topics, the actions, then the status "Connected".
pub open spec fn register_writes(thing_id: Seq<char>, attrs: Seq<char>, topics: Seq<char>, actions: Seq<char>) -> Seq<
    (Seq<char>, Seq<char>, Seq<char>),
> {
    seq![
        (thing_id, attrs_key(), attrs),
        (thing_id, topics_key(), topics),
        (thing_id, actions_key(), actions),
        (thing_id, status_key(), "Connected"@),
    ]
}

/// A record after a list of writes to it, each one inserting or replacing the value
/// at its key.
pub open spec fn apply_writes(record: Map<Seq<char>, Seq<char>>, writes: Seq<(Seq<char>, Seq<char>, Seq<char>)>) -> Map<
    Seq<char>,
    Seq<char>,
>
    decreases writes.len(),
{
    if writes.len() == 0 {
        record
    } else {
        apply_writes(record, writes.drop_last()).insert(writes.last().1, writes.last().2)
    }
}

proof fn lemma_apply_writes_union(record: Map<Seq<char>, Seq<char>>, writes: Seq<(Seq<char>, Seq<char>, Seq<char>)>)
    ensures
        apply_writes(record, writes) == record.union_prefer_right(apply_writes(Map::empty(), writes)),
    decreases writes.len(),
{
    if writes.len() == 0 {
        assert(record.union_prefer_right(Map::empty()) =~= record);
    } else {
        lemma_apply_writes_union(record, writes.drop_last());
        lemma_apply_writes_union(Map::empty(), writes.drop_last());
        assert(Map::<Seq<char>, Seq<char>>::empty().union_prefer_right(apply_writes(Map::empty(), writes.drop_last())) =~= apply_writes(Map::empty(), writes.drop_last()));
        assert(apply_writes(record, writes) =~= record.union_prefer_right(apply_writes(Map::empty(), writes)));
    }
}

/// Writing the same list twice leaves a record as writing it once does.
pub proof fn lemma_apply_writes_twice(record: Map<Seq<char>, Seq<char>>, writes: Seq<(Seq<char>, Seq<char>, Seq<char>)>)
    ensures
        apply_writes(apply_writes(record, writes), writes) == apply_writes(record, writes),
{
    lemma_apply_writes_union(record, writes);
    lemma_apply_writes_union(apply_writes(record, writes), writes);
    let l = apply_writes(Map::empty(), writes);
    assert(record.union_prefer_right(l).union_prefer_right(l) =~= record.union_prefer_right(l));
}

/// Registering a thing twice with the same attributes, topics and actions leaves
/// its record as registering once does, and the record then holds exactly the
/// lists given.
pub proof fn lemma_register_idempotent(
    record: Map<Seq<char>, Seq<char>>,
    thing_id: Seq<char>,
    attrs: Seq<char>,
    topics: Seq<char>,
    actions: Seq<char>,
)
    ensures
        ({
            let w = register_writes(thing_id, attrs, topics, actions);
            let once = apply_writes(record, w);
            &&& apply_writes(once, w) == once
            &&& once[attrs_key()] == attrs
            &&& once[topics_key()] == topics
            &&& once[actions_key()] == actions
            &&& once[status_key()] == "Connected"@
        }),
{
    let w = register_writes(thing_id, attrs, topics, actions);
    lemma_apply_writes_twice(record, w);
    reveal_with_fuel(apply_writes, 5);
    reveal_strlit("_safe_thing_attributes");
    reveal_strlit("_safe_thing_topics");
    reveal_strlit("_safe_thing_actions");
    reveal_strlit("_safe_thing_status");
    assert(w.drop_last().drop_last().drop_last().drop_last() =~= Seq::<(Seq<char>, Seq<char>, Seq<char>)>::empty());
    assert(attrs_key() != topics_key()) by {
        assert(attrs_key().len() != topics_key().len());
    }
    assert(attrs_key() != actions_key()) by {
        assert(attrs_key()[13] != actions_key()[13]);
    }
    assert(attrs_key() != status_key()) by {
        assert(attrs_key().len() != status_key().len());
    }
    assert(topics_key() != actions_key()) by {
        assert(topics_key().len() != actions_key().len());
    }
    assert(topics_key() != status_key()) by {
        assert(topics_key()[12] != status_key()[12]);
    }
    assert(actions_key() != status_key()) by {
        assert(actions_key().len() != status_key().len());
    }
}

/// A thing: its id, its store access, and the subscriptions it holds.
#[derive(Debug)]
pub struct SAFEthing {
    pub thing_id: String,
    pub safe_thing_comm: SAFEthingComm,
    pub subscriptions: RegisteredSubscriptions,
}

impl SAFEthing {
    pub open spec fn wf(&self) -> bool {
        &&& self.subscriptions.wf()
        &&& self.safe_thing_comm.thing_id@ == self.thing_id@
    }

    /// A thing with id `thing_id` and the credentials `auth_uri` for the store. The
    /// id must be at least `THING_ID_MIN_LENGTH` bytes long.
    pub fn new(thing_id: &str, auth_uri: &str) -> (r: Result<SAFEthing, Error>)
        ensures
            thing_id.len() < THING_ID_MIN_LENGTH ==> r is Err && r->Err_0.code
                == ErrorCode::InvalidArgument,
            thing_id.len() >= THING_ID_MIN_LENGTH ==> r is Ok && r->Ok_0.wf()
                && r->Ok_0.thing_id@ == thing_id@ && r->Ok_0.safe_thing_comm.auth_str@ == auth_uri@
                && r->Ok_0.subscriptions@ == Map::<Seq<char>, Seq<Subscription>>::empty(),
    {
        if thing_id.len() < THING_ID_MIN_LENGTH {
            return Err(Error::new(ErrorCode::InvalidArgument, "SAFEthing ID must be at least 5 bytes long"));
        }
        Ok(SAFEthing {
            thing_id: thing_id.to_owned(),
            safe_thing_comm: SAFEthingComm::new(thing_id, auth_uri),
            subscriptions: RegisteredSubscriptions::new(),
        })
    }

    /// Registers (or registers again) the thing: gives the writes that store its
    /// encoded attributes, topics and actions and set its status to "Connected",
    /// and takes the subscriptions that were stored for it.
    pub fn register(
        &mut self,
        attrs: &str,
        topics: &str,
        actions: &str,
        stored: RegisteredSubscriptions,
    ) -> (r: Vec<EntryWrite>)
        requires
            old(self).wf(),
            stored.wf(),
        ensures
            final(self).wf(),
            final(self).thing_id == old(self).thing_id,
            final(self).subscriptions@ == stored@,
            writes_view(r@) == register_writes(old(self).thing_id@, attrs@, topics@, actions@),
    {
        let mut writes: Vec<EntryWrite> = Vec::new();
        writes.push(self.safe_thing_comm.set_attributes(attrs));
        writes.push(self.safe_thing_comm.set_topics(topics));
        writes.push(self.safe_thing_comm.set_actions(actions));
        let status = match self.safe_thing_comm.set_status(ThingStatus::Connected) {
            Ok(w) => w,
            Err(_) => {
                proof {
                    reveal_strlit("Connected");
                }
                vstd::pervasive::unreached()
            },
        };
        writes.push(status);
        self.subscriptions = stored;
        proof {
            reveal_strlit("Connected");
            assert(writes_view(writes@) =~= register_writes(self.thing_id@, attrs@, topics@, actions@));
        }
        writes
    }

    /// The status of the thing from what the store answered for its status entry.
    pub fn status(&self, fetched: Fetched) -> (r: Result<Status, Error>)
        ensures
            match fetched {
                Fetched::Found(s) => r == Ok::<Status, Error>(status_of(status_from_text(s@))),
                Fetched::NotFound => r == Ok::<Status, Error>(Status::Unknown),
                Fetched::Failed(e) => r == Err::<Status, Error>(e),
            },
    {
        match self.safe_thing_comm.get_status(fetched) {
            Ok(s) => Ok(Status::from_thing_status(s)),
            Err(e) => Err(e),
        }
    }

    /// Publishes the thing: the write that sets its status to "Published".
    pub fn publish(&self) -> (w: EntryWrite)
        ensures
            w.thing_id@ == self.safe_thing_comm.thing_id@,
            w.key@ == status_key(),
            w.value@ == "Published"@,
    {
        proof {
            reveal_strlit("Published");
        }
        match self.safe_thing_comm.set_status(ThingStatus::Published) {
            Ok(w) => w,
            Err(_) => vstd::pervasive::unreached(),
        }
    }

    /// Sets the value of an attribute in a list, or adds the attribute as dynamic
    /// where the list has none of that name. Names stay unique in the list.
    pub fn set_attr_value(attrs: &mut Vec<ThingAttr>, attr: &str, value: &str)
        ensures
            set_attr_spec(old(attrs)@, attr@, value@, final(attrs)@),
            unique_names(old(attrs)@) ==> unique_names(final(attrs)@),
    {
        let mut k: usize = 0;
        while k < attrs.len()
            invariant
                attrs@ == old(attrs)@,
                k <= attrs@.len(),
                forall|m: int| 0 <= m < k ==> (#[trigger] attrs@[m]).attr@ != attr@,
            decreases attrs@.len() - k,
        {
            if str_equal(attrs[k].attr.as_str(), attr) {
                let ghost before = attrs@;
                let updated = ThingAttr {
                    attr: attrs[k].attr.clone(),
                    value: value.to_owned(),
                    is_dynamic: attrs[k].is_dynamic,
                };
                attrs.set(k, updated);
                proof {
                    assert(before[k as int].attr@ == attr@);
                    assert(has_named(before, attr@));
                    let c = first_named(before, attr@);
                    if c != k as int {
                        if c < k as int {
                            assert(before[c].attr@ != attr@);
                        } else {
                            assert(before[k as int].attr@ != attr@);
                        }
                    }
                    assert(set_attr_spec(before, attr@, value@, attrs@));
                    if unique_names(before) {
                        assert forall|i: int, j: int| 0 <= i < j < attrs@.len() implies (
                        #[trigger] attrs@[i]).attr@ != (#[trigger] attrs@[j]).attr@ by {
                            assert(before[i].attr@ != before[j].attr@);
                        }
                    }
                }
                return;
            }
            k = k + 1;
        }
        let ghost before = attrs@;
        attrs.push(ThingAttr { attr: attr.to_owned(), value: value.to_owned(), is_dynamic: true });
        proof {
            assert(attrs@.drop_last() =~= before);
            if unique_names(before) {
                assert forall|i: int, j: int| 0 <= i < j < attrs@.len() implies (
                #[trigger] attrs@[i]).attr@ != (#[trigger] attrs@[j]).attr@ by {
                    if j < before.len() {
                        assert(before[i].attr@ != before[j].attr@);
                    } else {
                        assert(before[i].attr@ != attr@);
                    }
                }
            }
        }
    }

    /// Adds a subscription for `thing_id` after those it has, and gives the thing's
    /// new list of subscriptions, for the polling loop.
    pub fn register_new_subscription(&mut self, thing_id: &str, subscription: Subscription) -> (r: Vec<
        Subscription,
    >)
        requires
            old(self).wf(),
        ensures
            final(self).wf(),
            final(self).thing_id == old(self).thing_id,
            r@ == subs_or_empty(old(self).subscriptions@, thing_id@).push(subscription),
            final(self).subscriptions@ == old(self).subscriptions@.insert(thing_id@, r@),
    {
        let mut thing_subs = self.subscriptions.subscriptions_of(thing_id);
        thing_subs.push(subscription);
        let sent = copy_subscriptions(&thing_subs);
        self.subscriptions.insert(thing_id, thing_subs);
        proof {
            assert(sent@ =~= subs_or_empty(old(self).subscriptions@, thing_id@).push(subscription));
        }
        sent
    }

    /// Subscribes to the events of `topic` of `thing_id` that pass the filter. Events
    /// from before this call are not reported: the watermark starts at the time now.
    pub fn subscribe_to_topic(
        &mut self,
        thing_id: &str,
        topic: &str,
        filter_op: FilterOperator,
        filter_value: &str,
    ) -> (r: Result<(), Error>)
        requires
            old(self).wf(),
        ensures
            r is Ok,
            final(self).wf(),
            final(self).thing_id == old(self).thing_id,
            ({
                let list = final(self).subscriptions@[thing_id@];
                &&& final(self).subscriptions@ == old(self).subscriptions@.insert(thing_id@, list)
                &&& list.drop_last() == subs_or_empty(old(self).subscriptions@, thing_id@)
                &&& list.len() > 0
                &&& list.last() matches Subscription::Topic(ts, _) && ts.topic@ == topic@
                    && ts.filter_op == filter_op && ts.filter_value@ == filter_value@
            }),
    {
        let ts = TopicSubscription {
            topic: topic.to_owned(),
            filter_op,
            filter_value: filter_value.to_owned(),
        };
        let now = gen_timestamp();
        let sub = Subscription::Topic(ts, now);
        let r = self.register_new_subscription(thing_id, sub);
        proof {
            assert(r@.drop_last() =~= subs_or_empty(old(self).subscriptions@, thing_id@));
        }
        Ok(())
    }

    /// Subscribes to the changes of the dynamic attribute `attr_name` of `thing_id`
    /// whose new value passes the filter. The first value seen counts as a change.
    pub fn subscribe_to_attr(
        &mut self,
        thing_id: &str,
        attr_name: &str,
        filter_op: FilterOperator,
        filter_value: &str,
    ) -> (r: Result<(), Error>)
        requires
            old(self).wf(),
        ensures
            r is Ok,
            final(self).wf(),
            final(self).thing_id == old(self).thing_id,
            ({
                let list = final(self).subscriptions@[thing_id@];
                &&& final(self).subscriptions@ == old(self).subscriptions@.insert(thing_id@, list)
                &&& list.drop_last() == subs_or_empty(old(self).subscriptions@, thing_id@)
                &&& list.len() > 0
                &&& list.last() matches Subscription::Attr(a, last) && a.attr_name@ == attr_name@
                    && a.filter_op == filter_op && a.filter_value@ == filter_value@ && last@.len() == 0
            }),
    {
        let a = AttrSubscription {
            attr_name: attr_name.to_owned(),
            filter_op,
            filter_value: filter_value.to_owned(),
        };
        let sub = Subscription::Attr(a, String::new());
        let r = self.register_new_subscription(thing_id, sub);
        proof {
            assert(r@.drop_last() =~= subs_or_empty(old(self).subscriptions@, thing_id@));
        }
        Ok(())
    }

    /// Notifies an event on one of this thing's topics: from what the store answered
    /// for the topic's log, the write that stores the log with the event added at
    /// its end, stamped with the time now.
    pub fn notify(&self, topic: &str, data: &str, stored: Fetched) -> (r: Result<EntryWrite, Error>)
        requires
            self.wf(),
        ensures
            stored matches Fetched::Failed(e) ==> r == Err::<EntryWrite, Error>(e),
            !(stored is Failed) ==> r is Ok,
            r is Ok ==> r->Ok_0.thing_id@ == self.thing_id@ && r->Ok_0.key@ == events_key(topic@)
                && exists|t: Timestamp|
                #[trigger] events_json(log_of(stored_text(stored)).push((t, data@))) == r->Ok_0.value@,
    {
        let text = self.safe_thing_comm.get_topic_events(stored)?;
        let timestamp = gen_timestamp();
        let events = append_event(text.as_str(), timestamp, data)?;
        let w = self.safe_thing_comm.set_topic_events(topic, events.as_str());
        proof {
            assert(text@ == stored_text(stored));
            assert(events_json(log_of(stored_text(stored)).push((timestamp, data@))) == w.value@);
        }
        Ok(w)
    }

    /// Updates the state of an action request this thing received: the write that
    /// stores the given (encoded) request.
    pub fn update_action_request_state(&self, request_id: ActionReqId, new_state: &str) -> (w: EntryWrite)
        ensures
            w.thing_id@ == self.safe_thing_comm.thing_id@,
            w.key@ == crate::comm::action_req_key(request_id),
            w.value@ == new_state@,
    {
        self.safe_thing_comm.set_action_request_state(request_id, new_state)
    }

    /// A new request from this thing for `action` with `args`, in state "Requested".
    pub fn new_action_request(&self, action: &str, args: &[&str]) -> (r: ActionReq)
        ensures
            r.thing_id@ == self.thing_id@,
            r.action@ == action@,
            r.args@.len() == args@.len(),
            forall|i: int| 0 <= i < args@.len() ==> #[trigger] r.args@[i]@ == args@[i]@,
            r.state@ == requested_state(),
    {
        ActionReq::new(self.thing_id.as_str(), action, args)
    }
}

/// The log text read from a store answer: the value found, or an empty list.
pub open spec fn stored_text(stored: Fetched) -> Seq<char> {
    match stored {
        Fetched::Found(s) => s@,
        Fetched::NotFound => "[]"@,
        Fetched::Failed(_) => Seq::empty(),
    }
}

pub open spec fn subs_or_empty(m: Map<Seq<char>, Seq<Subscription>>, id: Seq<char>) -> Seq<Subscription> {
    if m.contains_key(id) {
        m[id]
    } else {
        Seq::empty()
    }
}

pub open spec fn unique_names(attrs: Seq<ThingAttr>) -> bool {
    forall|i: int, j: int| 0 <= i < j < attrs.len() ==> (#[trigger] attrs[i]).attr@ != (#[trigger] attrs[j]).attr@
}

pub open spec fn has_named(attrs: Seq<ThingAttr>, name: Seq<char>) -> bool {
    exists|i: int| 0 <= i < attrs.len() && (#[trigger] attrs[i]).attr@ == name
}

/// The position of the first attribute of a name.
pub open spec fn first_named(attrs: Seq<ThingAttr>, name: Seq<char>) -> int {
    choose|i: int| 0 <= i < attrs.len() && (#[trigger] attrs[i]).attr@ == name && forall|j: int| 0 <= j < i ==> (#[trigger] attrs[j]).attr@ != name
}

/// `after` is `before` with the first attribute named `name` given `value`, or
/// with a dynamic attribute `name` = `value` added at the end where there is none.
pub open spec fn set_attr_spec(before: Seq<ThingAttr>, name: Seq<char>, value: Seq<char>, after: Seq<ThingAttr>) -> bool {
    if has_named(before, name) {
        let k = first_named(before, name);
        &&& after.len() == before.len()
        &&& forall|i: int| 0 <= i < before.len() && i != k ==> #[trigger] after[i] == before[i]
        &&& after[k].attr == before[k].attr
        &&& after[k].is_dynamic == before[k].is_dynamic
        &&& after[k].value@ == value
    } else {
        &&& after.len() == before.len() + 1
        &&& after.drop_last() == before
        &&& after.last().attr@ == name
        &&& after.last().value@ == value
        &&& after.last().is_dynamic
    }
}

} // verus!
