use vstd::prelude::*;
use crate::errors::{Error, ErrorCode};
use crate::events::Timestamp;
use crate::filter::{eval_spec, FilterOperator};
use crate::json::events_view;
use crate::model::ThingAttr;
use crate::text::str_equal;

verus! {

/// A subscription to the events of a topic of another thing, and the filter that
/// an event's payload must pass.
#[derive(Clone, Debug)]
pub struct TopicSubscription {
    pub topic: String,
    pub filter_op: FilterOperator,
    pub filter_value: String,
}

/// A subscription to the changes of a dynamic attribute of another thing, and the
/// filter that its new value must pass.
#[derive(Clone, Debug)]
pub struct AttrSubscription {
    pub attr_name: String,
    pub filter_op: FilterOperator,
    pub filter_value: String,
}

/// A subscription with its watermark: the timestamp of the last event reported,
/// or the last attribute value reported (empty while none was).
#[derive(Clone, Debug)]
pub enum Subscription {
    Topic(TopicSubscription, Timestamp),
    Attr(AttrSubscription, String),
}

/// One notification due to the subscriber: the thing it comes from, the topic or
/// attribute, the payload or new value, and the event's timestamp (zero for an
/// attribute change).
#[derive(Clone, Debug)]
pub struct Notification {
    pub thing_id: String,
    pub name: String,
    pub payload: String,
    pub timestamp: Timestamp,
}

pub open spec fn notif_view(n: Notification) -> (Seq<char>, Seq<char>, Seq<char>, u128) {
    (n.thing_id@, n.name@, n.payload@, n.timestamp)
}

pub open spec fn notifs_view(ns: Seq<Notification>) -> Seq<(Seq<char>, Seq<char>, Seq<char>, u128)> {
    ns.map_values(|n: Notification| notif_view(n))
}

/// Goes through an event log in order with watermark `last`: an event is due when
/// its timestamp is above the watermark and its payload passes the filter, and the
/// watermark then moves to it. Gives the due events and the final watermark, or
/// `None` where the filter cannot be evaluated on an event that is past the watermark.
pub open spec fn topic_scan(
    events: Seq<(u128, Seq<char>)>,
    op: FilterOperator,
    fv: Seq<char>,
    last: u128,
) -> Option<(Seq<(u128, Seq<char>)>, u128)>
    decreases events.len(),
{
    if events.len() == 0 {
        Some((Seq::empty(), last))
    } else {
        match topic_scan(events.drop_last(), op, fv, last) {
            None => None,
            Some((due, w)) => {
                let (t, p) = events.last();
                if t > w {
                    match eval_spec(op, p, fv) {
                        None => None,
                        Some(true) => Some((due.push((t, p)), t)),
                        Some(false) => Some((due, w)),
                    }
                } else {
                    Some((due, w))
                }
            },
        }
    }
}

pub open spec fn topic_notifs(thing_id: Seq<char>, topic: Seq<char>, due: Seq<(u128, Seq<char>)>) -> Seq<
    (Seq<char>, Seq<char>, Seq<char>, u128),
> {
    due.map_values(|e: (u128, Seq<char>)| (thing_id, topic, e.1, e.0))
}

pub open spec fn attr_view(a: ThingAttr) -> (Seq<char>, Seq<char>, bool) {
    (a.attr@, a.value@, a.is_dynamic)
}

pub open spec fn attrs_view(v: Seq<ThingAttr>) -> Seq<(Seq<char>, Seq<char>, bool)> {
    v.map_values(|a: ThingAttr| attr_view(a))
}

/// A value counts as a change when nothing was reported yet or it differs from
/// what was reported last.
pub open spec fn attr_changed(value: Seq<char>, last: Seq<char>) -> bool {
    last.len() == 0 || value != last
}

/// Goes through an attribute list in order with watermark `last`: a dynamic
/// attribute of the subscribed name is due when its value is a change and passes the
/// filter, and the watermark then moves to that value. Gives the due values and the
/// final watermark, or `None` where the filter cannot be evaluated on a change.
pub open spec fn attr_scan(
    attrs: Seq<(Seq<char>, Seq<char>, bool)>,
    name: Seq<char>,
    op: FilterOperator,
    fv: Seq<char>,
    last: Seq<char>,
) -> Option<(Seq<Seq<char>>, Seq<char>)>
    decreases attrs.len(),
{
    if attrs.len() == 0 {
        Some((Seq::empty(), last))
    } else {
        match attr_scan(attrs.drop_last(), name, op, fv, last) {
            None => None,
            Some((due, w)) => {
                let (a, v, dynamic) = attrs.last();
                if dynamic && a == name && attr_changed(v, w) {
                    match eval_spec(op, v, fv) {
                        None => None,
                        Some(true) => Some((due.push(v), v)),
                        Some(false) => Some((due, w)),
                    }
                } else {
                    Some((due, w))
                }
            },
        }
    }
}

pub open spec fn attr_notifs(thing_id: Seq<char>, name: Seq<char>, due: Seq<Seq<char>>) -> Seq<
    (Seq<char>, Seq<char>, Seq<char>, u128),
> {
    due.map_values(|v: Seq<char>| (thing_id, name, v, 0u128))
}

proof fn lemma_notifs_push(ns: Seq<Notification>, n: Notification)
    ensures
        notifs_view(ns.push(n)) == notifs_view(ns).push(notif_view(n)),
{
    assert(notifs_view(ns.push(n)) =~= notifs_view(ns).push(notif_view(n)));
}

proof fn lemma_topic_notifs_push(
    thing_id: Seq<char>,
    topic: Seq<char>,
    due: Seq<(u128, Seq<char>)>,
    e: (u128, Seq<char>),
)
    ensures
        topic_notifs(thing_id, topic, due.push(e)) == topic_notifs(thing_id, topic, due).push(
            (thing_id, topic, e.1, e.0),
        ),
{
    assert(topic_notifs(thing_id, topic, due.push(e)) =~= topic_notifs(thing_id, topic, due).push(
        (thing_id, topic, e.1, e.0),
    ));
}

proof fn lemma_attr_notifs_push(thing_id: Seq<char>, name: Seq<char>, due: Seq<Seq<char>>, v: Seq<char>)
    ensures
        attr_notifs(thing_id, name, due.push(v)) == attr_notifs(thing_id, name, due).push(
            (thing_id, name, v, 0u128),
        ),
{
    assert(attr_notifs(thing_id, name, due.push(v)) =~= attr_notifs(thing_id, name, due).push(
        (thing_id, name, v, 0u128),
    ));
}

proof fn lemma_topic_scan_fails_on_prefix(
    events: Seq<(u128, Seq<char>)>,
    op: FilterOperator,
    fv: Seq<char>,
    last: u128,
    j: int,
)
    requires
        0 <= j <= events.len(),
        topic_scan(events.subrange(0, j), op, fv, last) is None,
    ensures
        topic_scan(events, op, fv, last) is None,
    decreases events.len() - j,
{
    if j < events.len() {
        assert(events.drop_last().subrange(0, j) =~= events.subrange(0, j));
        lemma_topic_scan_fails_on_prefix(events.drop_last(), op, fv, last, j);
    } else {
        assert(events.subrange(0, j) =~= events);
    }
}

proof fn lemma_attr_scan_fails_on_prefix(
    attrs: Seq<(Seq<char>, Seq<char>, bool)>,
    name: Seq<char>,
    op: FilterOperator,
    fv: Seq<char>,
    last: Seq<char>,
    j: int,
)
    requires
        0 <= j <= attrs.len(),
        attr_scan(attrs.subrange(0, j), name, op, fv, last) is None,
    ensures
        attr_scan(attrs, name, op, fv, last) is None,
    decreases attrs.len() - j,
{
    if j < attrs.len() {
        assert(attrs.drop_last().subrange(0, j) =~= attrs.subrange(0, j));
        lemma_attr_scan_fails_on_prefix(attrs.drop_last(), name, op, fv, last, j);
    } else {
        assert(attrs.subrange(0, j) =~= attrs);
    }
}

/// The watermark after a log has been gone through with every event due: the
/// timestamp of the last event, or the starting one for an empty log.
pub open spec fn latest(events: Seq<(u128, Seq<char>)>, t0: u128) -> u128 {
    if events.len() == 0 {
        t0
    } else {
        events.last().0
    }
}

/// A log whose timestamps all lie at or below the watermark has nothing due.
pub proof fn lemma_topic_nothing_past_watermark(
    events: Seq<(u128, Seq<char>)>,
    op: FilterOperator,
    fv: Seq<char>,
    w: u128,
)
    requires
        forall|i: int| 0 <= i < events.len() ==> #[trigger] events[i].0 <= w,
    ensures
        topic_scan(events, op, fv, w) == Some((Seq::<(u128, Seq<char>)>::empty(), w)),
    decreases events.len(),
{
    if events.len() > 0 {
        let d = events.drop_last();
        assert forall|i: int| 0 <= i < d.len() implies #[trigger] d[i].0 <= w by {
            assert(d[i] == events[i]);
        }
        lemma_topic_nothing_past_watermark(d, op, fv, w);
        assert(events.last() == events[events.len() - 1]);
    }
}

/// Events with strictly increasing timestamps, all past the watermark and all
/// passing the filter, are each due exactly once and in the order of the log, and
/// the watermark ends at the last of them. Checking the same log again with that
/// watermark finds nothing due.
pub proof fn lemma_topic_events_reported_once(
    events: Seq<(u128, Seq<char>)>,
    op: FilterOperator,
    fv: Seq<char>,
    t0: u128,
)
    requires
        forall|i: int, j: int| 0 <= i < j < events.len() ==> events[i].0 < events[j].0,
        forall|i: int| 0 <= i < events.len() ==> t0 < #[trigger] events[i].0,
        forall|i: int| 0 <= i < events.len() ==> eval_spec(op, #[trigger] events[i].1, fv) == Some(true),
    ensures
        topic_scan(events, op, fv, t0) == Some((events, latest(events, t0))),
        topic_scan(events, op, fv, latest(events, t0)) == Some(
            (Seq::<(u128, Seq<char>)>::empty(), latest(events, t0)),
        ),
    decreases events.len(),
{
    if events.len() > 0 {
        let d = events.drop_last();
        let n = events.len() - 1;
        assert forall|i: int, j: int| 0 <= i < j < d.len() implies d[i].0 < d[j].0 by {
            assert(d[i] == events[i] && d[j] == events[j]);
        }
        assert forall|i: int| 0 <= i < d.len() implies t0 < #[trigger] d[i].0 by {
            assert(d[i] == events[i]);
        }
        assert forall|i: int| 0 <= i < d.len() implies eval_spec(op, #[trigger] d[i].1, fv) == Some(
            true,
        ) by {
            assert(d[i] == events[i]);
        }
        lemma_topic_events_reported_once(d, op, fv, t0);
        assert(events.last() == events[n]);
        assert(t0 < events[n].0);
        assert(eval_spec(op, events[n].1, fv) == Some(true));
        if d.len() > 0 {
            assert(d.last() == events[n - 1]);
            assert(events[n - 1].0 < events[n].0);
        }
        assert(d.push(events.last()) =~= events);
        assert forall|i: int| 0 <= i < events.len() implies #[trigger] events[i].0 <= latest(
            events,
            t0,
        ) by {
            if i < n {
                assert(events[i].0 < events[n].0);
            }
        }
    }
    lemma_topic_nothing_past_watermark(events, op, fv, latest(events, t0));
}

/// While an attribute keeps the value last reported, nothing more is due for it.
pub proof fn lemma_attr_same_value_not_reported_again(
    attrs: Seq<(Seq<char>, Seq<char>, bool)>,
    name: Seq<char>,
    op: FilterOperator,
    fv: Seq<char>,
    v: Seq<char>,
)
    requires
        v.len() > 0,
        forall|i: int|
            0 <= i < attrs.len() && (#[trigger] attrs[i]).2 && attrs[i].0 == name ==> attrs[i].1 == v,
    ensures
        attr_scan(attrs, name, op, fv, v) == Some((Seq::<Seq<char>>::empty(), v)),
    decreases attrs.len(),
{
    if attrs.len() > 0 {
        let d = attrs.drop_last();
        assert forall|i: int| 0 <= i < d.len() && (#[trigger] d[i]).2 && d[i].0 == name implies d[i].1
            == v by {
            assert(d[i] == attrs[i]);
        }
        lemma_attr_same_value_not_reported_again(d, name, op, fv, v);
        assert(attrs.last() == attrs[attrs.len() - 1]);
    }
}

/// An attribute that goes from `a` to `b` and back to `a` is reported at each of
/// the two changes when both values pass the filter; the same value seen twice in a
/// row is reported once.
pub proof fn lemma_attr_changes_reported(
    name: Seq<char>,
    op: FilterOperator,
    fv: Seq<char>,
    a: Seq<char>,
    b: Seq<char>,
)
    requires
        a.len() > 0,
        b.len() > 0,
        a != b,
        eval_spec(op, a, fv) == Some(true),
        eval_spec(op, b, fv) == Some(true),
    ensures
        attr_scan(seq![(name, a, true)], name, op, fv, Seq::empty()) == Some((seq![a], a)),
        attr_scan(seq![(name, a, true)], name, op, fv, a) == Some((Seq::<Seq<char>>::empty(), a)),
        attr_scan(seq![(name, b, true)], name, op, fv, a) == Some((seq![b], b)),
        attr_scan(seq![(name, a, true)], name, op, fv, b) == Some((seq![a], a)),
{
    reveal_with_fuel(attr_scan, 2);
    let sa = seq![(name, a, true)];
    let sb = seq![(name, b, true)];
    assert(sa.last() == (name, a, true));
    assert(attr_changed(a, Seq::<char>::empty()));
    assert(!attr_changed(a, a));
    assert(sa.drop_last() =~= Seq::<(Seq<char>, Seq<char>, bool)>::empty());
    assert(sb.drop_last() =~= Seq::<(Seq<char>, Seq<char>, bool)>::empty());
    assert(Seq::<Seq<char>>::empty().push(a) =~= seq![a]);
    assert(Seq::<Seq<char>>::empty().push(b) =~= seq![b]);
}

/// The events of a log that lie past the watermark `w` and pass the filter, in the
/// order of the log.
pub open spec fn due_events(
    events: Seq<(u128, Seq<char>)>,
    op: FilterOperator,
    fv: Seq<char>,
    w: u128,
) -> Seq<(u128, Seq<char>)>
    decreases events.len(),
{
    if events.len() == 0 {
        Seq::empty()
    } else {
        let d = due_events(events.drop_last(), op, fv, w);
        let e = events.last();
        if e.0 > w && eval_spec(op, e.1, fv) == Some(true) {
            d.push(e)
        } else {
            d
        }
    }
}

/// Timestamps that rise strictly along the log.
pub open spec fn increasing(events: Seq<(u128, Seq<char>)>) -> bool {
    forall|i: int, j: int| 0 <= i < j < events.len() ==> #[trigger] events[i].0 < #[trigger] events[j].0
}

/// Every event past the watermark can be put to the filter.
pub open spec fn evaluable_past(events: Seq<(u128, Seq<char>)>, op: FilterOperator, fv: Seq<char>, w: u128) -> bool {
    forall|i: int| 0 <= i < events.len() && events[i].0 > w ==> #[trigger] eval_spec(op, events[i].1, fv) is Some
}

/// For a log with strictly increasing timestamps whose events past the watermark
/// can all be evaluated, the events due are exactly those past the watermark that
/// pass the filter, in log order (so with increasing timestamps), and the watermark
/// ends at the last of them.
pub proof fn lemma_topic_due_in_log_order(
    events: Seq<(u128, Seq<char>)>,
    op: FilterOperator,
    fv: Seq<char>,
    w: u128,
)
    requires
        increasing(events),
        evaluable_past(events, op, fv, w),
    ensures
        topic_scan(events, op, fv, w) == Some(
            (due_events(events, op, fv, w), latest(due_events(events, op, fv, w), w)),
        ),
        increasing(due_events(events, op, fv, w)),
        due_events(events, op, fv, w).len() > 0 ==> w < due_events(events, op, fv, w).last().0
            && due_events(events, op, fv, w).last().0 <= events.last().0,
    decreases events.len(),
{
    if events.len() > 0 {
        let d = events.drop_last();
        let n = events.len() - 1;
        assert forall|i: int, j: int| 0 <= i < j < d.len() implies #[trigger] d[i].0 < #[trigger] d[j].0 by {
            assert(d[i] == events[i] && d[j] == events[j]);
        }
        assert forall|i: int| 0 <= i < d.len() && d[i].0 > w implies #[trigger] eval_spec(op, d[i].1, fv) is Some by {
            assert(d[i] == events[i]);
        }
        lemma_topic_due_in_log_order(d, op, fv, w);
        let dd = due_events(d, op, fv, w);
        let e = events.last();
        assert(e == events[n]);
        if d.len() > 0 {
            assert(d.last() == events[n - 1]);
            assert(events[n - 1].0 < events[n].0);
        }
        if e.0 > w {
            assert(eval_spec(op, events[n].1, fv) is Some);
        }
        if e.0 > w && eval_spec(op, e.1, fv) == Some(true) {
            let pd = dd.push(e);
            assert forall|i: int, j: int| 0 <= i < j < pd.len() implies #[trigger] pd[i].0 < #[trigger] pd[j].0 by {
                if j == pd.len() - 1 {
                    if i < dd.len() - 1 {
                        assert(dd[i].0 < dd[dd.len() - 1].0);
                    }
                } else {
                    assert(dd[i].0 < dd[j].0);
                }
            }
        }
    }
}

/// A list without a dynamic entry of the subscribed name has nothing due.
pub proof fn lemma_attr_no_entry(
    attrs: Seq<(Seq<char>, Seq<char>, bool)>,
    name: Seq<char>,
    op: FilterOperator,
    fv: Seq<char>,
    w: Seq<char>,
)
    requires
        forall|i: int| 0 <= i < attrs.len() ==> !((#[trigger] attrs[i]).2 && attrs[i].0 == name),
    ensures
        attr_scan(attrs, name, op, fv, w) == Some((Seq::<Seq<char>>::empty(), w)),
    decreases attrs.len(),
{
    if attrs.len() > 0 {
        let d = attrs.drop_last();
        assert forall|i: int| 0 <= i < d.len() implies !((#[trigger] d[i]).2 && d[i].0 == name) by {
            assert(d[i] == attrs[i]);
        }
        lemma_attr_no_entry(d, name, op, fv, w);
        assert(attrs.last() == attrs[attrs.len() - 1]);
    }
}

/// In a list whose one dynamic entry of the subscribed name holds `b`, a value that
/// is a change from the watermark `a` and passes the filter, `b` is due once and
/// becomes the watermark.
pub proof fn lemma_attr_single_change(
    attrs: Seq<(Seq<char>, Seq<char>, bool)>,
    name: Seq<char>,
    op: FilterOperator,
    fv: Seq<char>,
    a: Seq<char>,
    b: Seq<char>,
    k: int,
)
    requires
        0 <= k < attrs.len(),
        attrs[k] == (name, b, true),
        forall|i: int| 0 <= i < attrs.len() && i != k ==> !((#[trigger] attrs[i]).2 && attrs[i].0 == name),
        attr_changed(b, a),
        eval_spec(op, b, fv) == Some(true),
    ensures
        attr_scan(attrs, name, op, fv, a) == Some((seq![b], b)),
    decreases attrs.len(),
{
    let d = attrs.drop_last();
    let n = attrs.len() - 1;
    assert(attrs.last() == attrs[n]);
    if k == n {
        assert forall|i: int| 0 <= i < d.len() implies !((#[trigger] d[i]).2 && d[i].0 == name) by {
            assert(d[i] == attrs[i]);
        }
        lemma_attr_no_entry(d, name, op, fv, a);
        assert(Seq::<Seq<char>>::empty().push(b) =~= seq![b]);
    } else {
        assert(d[k] == attrs[k]);
        assert forall|i: int| 0 <= i < d.len() && i != k implies !((#[trigger] d[i]).2 && d[i].0 == name) by {
            assert(d[i] == attrs[i]);
        }
        lemma_attr_single_change(d, name, op, fv, a, b, k);
    }
}

/// An attribute that goes from `a` to `b` and back to `a` across two checks is
/// reported at each change, `b` then `a`, when both values pass the filter, in any
/// attribute lists where it is the only dynamic entry of its name.
pub proof fn lemma_attr_back_and_forth(
    first: Seq<(Seq<char>, Seq<char>, bool)>,
    second: Seq<(Seq<char>, Seq<char>, bool)>,
    name: Seq<char>,
    op: FilterOperator,
    fv: Seq<char>,
    a: Seq<char>,
    b: Seq<char>,
    k1: int,
    k2: int,
)
    requires
        a.len() > 0,
        a != b,
        0 <= k1 < first.len(),
        first[k1] == (name, b, true),
        forall|i: int| 0 <= i < first.len() && i != k1 ==> !((#[trigger] first[i]).2 && first[i].0 == name),
        0 <= k2 < second.len(),
        second[k2] == (name, a, true),
        forall|i: int| 0 <= i < second.len() && i != k2 ==> !((#[trigger] second[i]).2 && second[i].0 == name),
        eval_spec(op, a, fv) == Some(true),
        eval_spec(op, b, fv) == Some(true),
    ensures
        attr_scan(first, name, op, fv, a) == Some((seq![b], b)),
        attr_scan(second, name, op, fv, b) == Some((seq![a], a)),
{
    lemma_attr_single_change(first, name, op, fv, a, b, k1);
    lemma_attr_single_change(second, name, op, fv, b, a, k2);
}

/// Checks the events of a topic of `thing_id` against a subscription: gives the
/// notifications due, in the order of the log, and moves the watermark past them.
/// Where the filter cannot be evaluated the watermark stays and an error is given.
pub fn check_topic_subs_and_notify(
    thing_id: &str,
    topic_subs: &TopicSubscription,
    last_report_timestamp: &mut Timestamp,
    events: &Vec<(Timestamp, String)>,
) -> (r: Result<Vec<Notification>, Error>)
    ensures
        match topic_scan(
            events_view(events@),
            topic_subs.filter_op,
            topic_subs.filter_value@,
            *old(last_report_timestamp),
        ) {
            Some((due, w)) => r is Ok && notifs_view(r->Ok_0@) == topic_notifs(
                thing_id@,
                topic_subs.topic@,
                due,
            ) && *final(last_report_timestamp) == w,
            None => r is Err && r->Err_0.code == ErrorCode::InvalidArgument && *final(last_report_timestamp)
                == *old(last_report_timestamp),
        },
{
    let ghost ev = events_view(events@);
    let ghost op = topic_subs.filter_op;
    let ghost fv = topic_subs.filter_value@;
    let ghost w0 = *last_report_timestamp;
    let ghost mut due: Seq<(u128, Seq<char>)> = Seq::empty();
    let mut w: Timestamp = *last_report_timestamp;
    let mut out: Vec<Notification> = Vec::new();
    let mut i: usize = 0;
    proof {
        assert(ev.subrange(0, 0) =~= Seq::<(u128, Seq<char>)>::empty());
        assert(notifs_view(out@) =~= topic_notifs(thing_id@, topic_subs.topic@, due));
    }
    while i < events.len()
        invariant
            i <= events@.len(),
            ev == events_view(events@),
            w0 == *old(last_report_timestamp),
            *last_report_timestamp == *old(last_report_timestamp),
            op == topic_subs.filter_op,
            fv == topic_subs.filter_value@,
            topic_scan(ev.subrange(0, i as int), op, fv, w0) == Some((due, w)),
            notifs_view(out@) == topic_notifs(thing_id@, topic_subs.topic@, due),
        decreases events@.len() - i,
    {
        let t = events[i].0;
        let p = events[i].1.as_str();
        proof {
            let q = ev.subrange(0, i + 1);
            assert(q.drop_last() =~= ev.subrange(0, i as int));
            assert(q.last() == (t, p@));
        }
        if t > w {
            match topic_subs.filter_op.eval(p, topic_subs.filter_value.as_str()) {
                Err(e) => {
                    proof {
                        lemma_topic_scan_fails_on_prefix(ev, op, fv, w0, i + 1);
                    }
                    return Err(e);
                },
                Ok(true) => {
                    let ghost before = out@;
                    out.push(
                        Notification {
                            thing_id: thing_id.to_owned(),
                            name: topic_subs.topic.clone(),
                            payload: p.to_owned(),
                            timestamp: t,
                        },
                    );
                    proof {
                        let ghost old_due = due;
                        due = due.push((t, p@));
                        lemma_notifs_push(before, out@.last());
                        assert(out@ == before.push(out@.last()));
                        lemma_topic_notifs_push(thing_id@, topic_subs.topic@, old_due, (t, p@));
                        assert(notifs_view(out@) =~= topic_notifs(
                            thing_id@,
                            topic_subs.topic@,
                            due,
                        ));
                    }
                    w = t;
                },
                Ok(false) => {},
            }
        }
        i = i + 1;
    }
    proof {
        assert(ev.subrange(0, events@.len() as int) =~= ev);
    }
    *last_report_timestamp = w;
    Ok(out)
}

/// Checks the attributes of `thing_id` against a subscription: gives the
/// notifications due, in the order of the list, and moves the watermark to the last
/// value reported. Where the filter cannot be evaluated the watermark stays and an
/// error is given.
pub fn check_attrs_subs_and_notify(
    thing_id: &str,
    attr_subs: &AttrSubscription,
    last_val_reported: &mut String,
    attrs: &Vec<ThingAttr>,
) -> (r: Result<Vec<Notification>, Error>)
    ensures
        match attr_scan(
            attrs_view(attrs@),
            attr_subs.attr_name@,
            attr_subs.filter_op,
            attr_subs.filter_value@,
            old(last_val_reported)@,
        ) {
            Some((due, w)) => r is Ok && notifs_view(r->Ok_0@) == attr_notifs(
                thing_id@,
                attr_subs.attr_name@,
                due,
            ) && final(last_val_reported)@ == w,
            None => r is Err && r->Err_0.code == ErrorCode::InvalidArgument && *final(last_val_reported)
                == *old(last_val_reported),
        },
{
    let ghost av = attrs_view(attrs@);
    let ghost name = attr_subs.attr_name@;
    let ghost op = attr_subs.filter_op;
    let ghost fv = attr_subs.filter_value@;
    let ghost w0 = last_val_reported@;
    let ghost mut due: Seq<Seq<char>> = Seq::empty();
    let mut w: String = last_val_reported.clone();
    let mut out: Vec<Notification> = Vec::new();
    let mut i: usize = 0;
    proof {
        assert(av.subrange(0, 0) =~= Seq::<(Seq<char>, Seq<char>, bool)>::empty());
        assert(notifs_view(out@) =~= attr_notifs(thing_id@, name, due));
    }
    while i < attrs.len()
        invariant
            i <= attrs@.len(),
            av == attrs_view(attrs@),
            w0 == old(last_val_reported)@,
            *last_val_reported == *old(last_val_reported),
            name == attr_subs.attr_name@,
            op == attr_subs.filter_op,
            fv == attr_subs.filter_value@,
            attr_scan(av.subrange(0, i as int), name, op, fv, w0) == Some((due, w@)),
            notifs_view(out@) == attr_notifs(thing_id@, name, due),
        decreases attrs@.len() - i,
    {
        let a = &attrs[i];
        proof {
            let q = av.subrange(0, i + 1);
            assert(q.drop_last() =~= av.subrange(0, i as int));
            assert(q.last() == attr_view(*a));
        }
        let changed = w.as_str().unicode_len() == 0 || !str_equal(a.value.as_str(), w.as_str());
        if a.is_dynamic && str_equal(a.attr.as_str(), attr_subs.attr_name.as_str()) && changed {
            match attr_subs.filter_op.eval(a.value.as_str(), attr_subs.filter_value.as_str()) {
                Err(e) => {
                    proof {
                        lemma_attr_scan_fails_on_prefix(av, name, op, fv, w0, i + 1);
                    }
                    return Err(e);
                },
                Ok(true) => {
                    let ghost before = out@;
                    out.push(
                        Notification {
                            thing_id: thing_id.to_owned(),
                            name: a.attr.clone(),
                            payload: a.value.clone(),
                            timestamp: 0,
                        },
                    );
                    proof {
                        let ghost old_due = due;
                        due = due.push(a.value@);
                        lemma_notifs_push(before, out@.last());
                        assert(out@ == before.push(out@.last()));
                        lemma_attr_notifs_push(thing_id@, name, old_due, a.value@);
                        assert(notifs_view(out@) =~= attr_notifs(thing_id@, name, due));
                    }
                    w = a.value.clone();
                },
                Ok(false) => {},
            }
        }
        i = i + 1;
    }
    proof {
        assert(av.subrange(0, attrs@.len() as int) =~= av);
    }
    *last_val_reported = w;
    Ok(out)
}

} // verus!
