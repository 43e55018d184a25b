use vstd::prelude::*;
use crate::errors::{Error, ErrorCode};
use crate::comm::{attrs_key, events_key, EntryRef, SAFEthingComm};
use crate::json::events_view;
use crate::model::ThingAttr;
use crate::subscriptions::{
    attr_notifs, attr_scan, attrs_view, check_attrs_subs_and_notify, check_topic_subs_and_notify,
    notifs_view, topic_notifs, topic_scan, Notification, Subscription, AttrSubscription,
    TopicSubscription,
};

verus! {

/// What was read from another thing for one subscription: the event log of the
/// topic, or the attribute list.
#[derive(Clone, Debug)]
pub enum Observed {
    Events(Vec<(u128, String)>),
    Attrs(Vec<ThingAttr>),
}

impl Subscription {
    /// A copy of the subscription, watermark included.
    pub fn duplicate(&self) -> (r: Subscription)
        ensures
            r == *self,
    {
        match self {
            Subscription::Topic(ts, t) => Subscription::Topic(
                TopicSubscription {
                    topic: ts.topic.clone(),
                    filter_op: ts.filter_op,
                    filter_value: ts.filter_value.clone(),
                },
                *t,
            ),
            Subscription::Attr(a, last) => Subscription::Attr(
                AttrSubscription {
                    attr_name: a.attr_name.clone(),
                    filter_op: a.filter_op,
                    filter_value: a.filter_value.clone(),
                },
                last.clone(),
            ),
        }
    }
}

/// A copy of a list of subscriptions.
pub fn copy_subscriptions(v: &Vec<Subscription>) -> (r: Vec<Subscription>)
    ensures
        r@ == v@,
{
    let mut out: Vec<Subscription> = Vec::new();
    let mut i: usize = 0;
    while i < v.len()
        invariant
            i <= v@.len(),
            out@ == v@.subrange(0, i as int),
        decreases v@.len() - i,
    {
        out.push(v[i].duplicate());
        proof {
            assert(out@ =~= v@.subrange(0, i + 1));
        }
        i = i + 1;
    }
    proof {
        assert(v@.subrange(0, v@.len() as int) =~= v@);
    }
    out
}

pub open spec fn has_thing(e: Seq<(String, Vec<Subscription>)>, id: Seq<char>) -> bool {
    exists|i: int| 0 <= i < e.len() && #[trigger] e[i].0@ == id
}

pub open spec fn index_of_thing(e: Seq<(String, Vec<Subscription>)>, id: Seq<char>) -> int {
    choose|i: int| 0 <= i < e.len() && #[trigger] e[i].0@ == id
}

/// The subscriptions of each thing that has some.
pub open spec fn subs_map(e: Seq<(String, Vec<Subscription>)>) -> Map<Seq<char>, Seq<Subscription>> {
    Map::new(|id: Seq<char>| has_thing(e, id), |id: Seq<char>| e[index_of_thing(e, id)].1@)
}

/// The subscriptions held for each remote thing, one entry per thing, in the order
/// the things were first subscribed to.
#[derive(Debug)]
pub struct RegisteredSubscriptions {
    pub entries: Vec<(String, Vec<Subscription>)>,
}

impl View for RegisteredSubscriptions {
    type V = Map<Seq<char>, Seq<Subscription>>;

    open spec fn view(&self) -> Map<Seq<char>, Seq<Subscription>> {
        subs_map(self.entries@)
    }
}

impl RegisteredSubscriptions {
    /// Each thing has one entry at most.
    pub open spec fn wf(&self) -> bool {
        forall|i: int, j: int|
            0 <= i < j < self.entries@.len() ==> (#[trigger] self.entries@[i]).0@ != (
            #[trigger] self.entries@[j]).0@
    }

    pub fn new() -> (r: RegisteredSubscriptions)
        ensures
            r.wf(),
            r@ == Map::<Seq<char>, Seq<Subscription>>::empty(),
    {
        let r = RegisteredSubscriptions { entries: Vec::new() };
        assert(r@ =~= Map::<Seq<char>, Seq<Subscription>>::empty());
        r
    }

    /// The position of a thing's entry.
    pub fn find(&self, thing_id: &str) -> (r: Option<usize>)
        ensures
            match r {
                Some(k) => k < self.entries@.len() && self.entries@[k as int].0@ == thing_id@,
                None => !has_thing(self.entries@, thing_id@),
            },
    {
        let mut k: usize = 0;
        while k < self.entries.len()
            invariant
                k <= self.entries@.len(),
                forall|m: int| 0 <= m < k ==> (#[trigger] self.entries@[m]).0@ != thing_id@,
            decreases self.entries@.len() - k,
        {
            if str_eq_string(&self.entries[k].0, thing_id) {
                return Some(k);
            }
            k = k + 1;
        }
        None
    }

    proof fn lemma_index(&self, id: Seq<char>, k: int)
        requires
            self.wf(),
            0 <= k < self.entries@.len(),
            self.entries@[k].0@ == id,
        ensures
            has_thing(self.entries@, id),
            index_of_thing(self.entries@, id) == k,
    {
        assert(self.entries@[k].0@ == id);
        let c = index_of_thing(self.entries@, id);
        if c != k {
            if c < k {
                assert(self.entries@[c].0@ != self.entries@[k].0@);
            } else {
                assert(self.entries@[k].0@ != self.entries@[c].0@);
            }
        }
    }

    /// The subscriptions held for a thing (none where it has no entry).
    pub fn subscriptions_of(&self, thing_id: &str) -> (r: Vec<Subscription>)
        requires
            self.wf(),
        ensures
            self@.contains_key(thing_id@) ==> r@ == self@[thing_id@],
            !self@.contains_key(thing_id@) ==> r@.len() == 0,
    {
        match self.find(thing_id) {
            Some(k) => {
                proof {
                    self.lemma_index(thing_id@, k as int);
                }
                copy_subscriptions(&self.entries[k].1)
            },
            None => Vec::new(),
        }
    }

    /// Sets the subscriptions held for a thing, in place of any it had.
    pub fn insert(&mut self, thing_id: &str, subs: Vec<Subscription>)
        requires
            old(self).wf(),
        ensures
            final(self).wf(),
            final(self)@ == old(self)@.insert(thing_id@, subs@),
    {
        let ghost old_e = self.entries@;
        let ghost sv = subs@;
        match self.find(thing_id) {
            Some(k) => {
                self.entries.set(k, (thing_id.to_owned(), subs));
                proof {
                    let e = self.entries@;
                    assert forall|i: int, j: int| 0 <= i < j < e.len() implies (#[trigger] e[i]).0@
                        != (#[trigger] e[j]).0@ by {
                        assert(old_e[i].0@ != old_e[j].0@);
                    }
                    assert forall|id: Seq<char>| #[trigger] self@.contains_key(id) == old(self)@.insert(
                        thing_id@,
                        sv,
                    ).contains_key(id) by {
                        if has_thing(e, id) {
                            let c = index_of_thing(e, id);
                            assert(old_e[c].0@ == id || c == k);
                        }
                        if has_thing(old_e, id) {
                            let c = index_of_thing(old_e, id);
                            assert(e[c].0@ == id);
                        }
                    }
                    assert forall|id: Seq<char>| #[trigger] self@.contains_key(id) implies self@[id]
                        == old(self)@.insert(thing_id@, sv)[id] by {
                        let c = index_of_thing(e, id);
                        self.lemma_index(id, c);
                        if id != thing_id@ {
                            assert(c != k);
                            assert(old_e[c] == e[c]);
                            old(self).lemma_index(id, c);
                        }
                    }
                    assert(self@ =~= old(self)@.insert(thing_id@, sv));
                }
            },
            None => {
                self.entries.push((thing_id.to_owned(), subs));
                proof {
                    let e = self.entries@;
                    let n = old_e.len();
                    assert forall|i: int, j: int| 0 <= i < j < e.len() implies (#[trigger] e[i]).0@
                        != (#[trigger] e[j]).0@ by {
                        if j == n {
                            assert(old_e[i].0@ != thing_id@);
                        } else {
                            assert(old_e[i].0@ != old_e[j].0@);
                        }
                    }
                    assert forall|id: Seq<char>| #[trigger] self@.contains_key(id) == old(self)@.insert(
                        thing_id@,
                        sv,
                    ).contains_key(id) by {
                        if has_thing(e, id) {
                            let c = index_of_thing(e, id);
                            if c < n {
                                assert(old_e[c].0@ == id);
                            }
                        }
                        if has_thing(old_e, id) {
                            let c = index_of_thing(old_e, id);
                            assert(e[c].0@ == id);
                        }
                        if id == thing_id@ {
                            assert(e[n as int].0@ == id);
                        }
                    }
                    assert forall|id: Seq<char>| #[trigger] self@.contains_key(id) implies self@[id]
                        == old(self)@.insert(thing_id@, sv)[id] by {
                        let c = index_of_thing(e, id);
                        self.lemma_index(id, c);
                        if id != thing_id@ {
                            assert(c != n);
                            assert(old_e[c] == e[c]);
                            old(self).lemma_index(id, c);
                        }
                    }
                    assert(self@ =~= old(self)@.insert(thing_id@, sv));
                }
            },
        }
    }

    /// How many things have subscriptions.
    pub fn thing_count(&self) -> (r: usize)
        ensures
            r == self.entries@.len(),
    {
        self.entries.len()
    }

    /// How many subscriptions the `i`-th thing has.
    pub fn subscription_count(&self, i: usize) -> (r: usize)
        requires
            i < self.entries@.len(),
        ensures
            r == self.entries@[i as int].1@.len(),
    {
        self.entries[i].1.len()
    }

    /// What to read for the `j`-th subscription of the `i`-th thing: the event log of
    /// the topic, or the attribute list.
    pub fn entry_for(&self, i: usize, j: usize) -> (e: EntryRef)
        requires
            i < self.entries@.len(),
            j < self.entries@[i as int].1@.len(),
        ensures
            e.thing_id@ == self.entries@[i as int].0@,
            match self.entries@[i as int].1@[j as int] {
                Subscription::Topic(ts, _) => e.key@ == events_key(ts.topic@),
                Subscription::Attr(_, _) => e.key@ == attrs_key(),
            },
    {
        let thing_id = self.entries[i].0.as_str();
        match &self.entries[i].1[j] {
            Subscription::Topic(ts, _) => SAFEthingComm::topic_events_entry(thing_id, ts.topic.as_str()),
            Subscription::Attr(_, _) => SAFEthingComm::attrs_entry(thing_id),
        }
    }

    /// Checks the `j`-th subscription of the `i`-th thing against what was read for
    /// it, gives the notifications due and moves its watermark. What was read must
    /// be of the subscription's kind; otherwise nothing happens.
    pub fn check_at(&mut self, i: usize, j: usize, observed: &Observed) -> (r: Result<
        Vec<Notification>,
        Error,
    >)
        requires
            old(self).wf(),
            i < old(self).entries@.len(),
            j < old(self).entries@[i as int].1@.len(),
        ensures
            final(self).wf(),
            final(self).entries@.len() == old(self).entries@.len(),
            forall|k: int|
                0 <= k < old(self).entries@.len() && k != i ==> #[trigger] final(self).entries@[k]
                    == old(self).entries@[k],
            final(self).entries@[i as int].0 == old(self).entries@[i as int].0,
            final(self).entries@[i as int].1@.len() == old(self).entries@[i as int].1@.len(),
            forall|m: int|
                0 <= m < old(self).entries@[i as int].1@.len() && m != j
                    ==> #[trigger] final(self).entries@[i as int].1@[m]
                    == old(self).entries@[i as int].1@[m],
            ({
                let key = old(self).entries@[i as int].0@;
                let sub = old(self).entries@[i as int].1@[j as int];
                let after = final(self).entries@[i as int].1@[j as int];
                match (sub, *observed) {
                    (Subscription::Topic(ts, last), Observed::Events(evs)) => match topic_scan(
                        events_view(evs@),
                        ts.filter_op,
                        ts.filter_value@,
                        last,
                    ) {
                        Some((due, w)) => r is Ok && notifs_view(r->Ok_0@) == topic_notifs(
                            key,
                            ts.topic@,
                            due,
                        ) && after == Subscription::Topic(ts, w),
                        None => r is Err && r->Err_0.code == ErrorCode::InvalidArgument && after
                            == sub,
                    },
                    (Subscription::Attr(a, last), Observed::Attrs(attrs)) => match attr_scan(
                        attrs_view(attrs@),
                        a.attr_name@,
                        a.filter_op,
                        a.filter_value@,
                        last@,
                    ) {
                        Some((due, w)) => r is Ok && notifs_view(r->Ok_0@) == attr_notifs(
                            key,
                            a.attr_name@,
                            due,
                        ) && (after matches Subscription::Attr(a2, l2) && a2 == a && l2@ == w),
                        None => r is Err && r->Err_0.code == ErrorCode::InvalidArgument && after
                            == sub,
                    },
                    _ => r is Ok && r->Ok_0@.len() == 0 && after == sub,
                }
            }),
    {
        let key = self.entries[i].0.clone();
        let mut inner = copy_subscriptions(&self.entries[i].1);
        let sub = inner[j].duplicate();
        let r = match (sub, observed) {
            (Subscription::Topic(ts, last), Observed::Events(evs)) => {
                let mut w = last;
                let r = check_topic_subs_and_notify(key.as_str(), &ts, &mut w, evs);
                if r.is_ok() {
                    inner.set(j, Subscription::Topic(ts, w));
                }
                r
            },
            (Subscription::Attr(a, last), Observed::Attrs(attrs)) => {
                let mut w = last;
                let r = check_attrs_subs_and_notify(key.as_str(), &a, &mut w, attrs);
                if r.is_ok() {
                    inner.set(j, Subscription::Attr(a, w));
                }
                r
            },
            _ => Ok(Vec::new()),
        };
        let ghost old_e = self.entries@;
        self.entries.set(i, (key, inner));
        proof {
            let e = self.entries@;
            assert forall|a: int, b: int| 0 <= a < b < e.len() implies (#[trigger] e[a]).0@ != (
            #[trigger] e[b]).0@ by {
                assert(old_e[a].0@ != old_e[b].0@);
            }
        }
        r
    }
}

fn str_eq_string(a: &String, b: &str) -> (r: bool)
    ensures
        r == (a@ == b@),
{
    crate::text::str_equal(a.as_str(), b)
}

} // verus!
