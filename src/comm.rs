use vstd::prelude::*;
use crate::clock::gen_timestamp;
use crate::errors::{Error, ErrorCode};
use crate::model::ThingStatus;
use crate::text::{
    decimal_of, decimal_string, hex_of, hex_string, lemma_request_id_round_trip, parse_u128_from,
    starts_with, u128_of,
};

verus! {

/// The type tag under which things' records are stored.
pub const SAFE_THING_TYPE_TAG: u64 = 27417;

pub open spec fn status_key() -> Seq<char> {
    "_safe_thing_status"@
}

pub open spec fn attrs_key() -> Seq<char> {
    "_safe_thing_attributes"@
}

pub open spec fn topics_key() -> Seq<char> {
    "_safe_thing_topics"@
}

pub open spec fn actions_key() -> Seq<char> {
    "_safe_thing_actions"@
}

pub open spec fn subscriptions_key() -> Seq<char> {
    "_safe_thing_subscriptions"@
}

pub open spec fn events_prefix() -> Seq<char> {
    "_safe_thing_events_"@
}

pub open spec fn action_req_prefix() -> Seq<char> {
    "_safe_thing_action_req_"@
}

/// The key of the event log of a topic.
pub open spec fn events_key(topic: Seq<char>) -> Seq<char> {
    events_prefix() + topic
}

/// The key of an action request.
pub open spec fn action_req_key(request_id: u128) -> Seq<char> {
    action_req_prefix() + decimal_of(request_id as nat)
}

/// The stored text of each status that can be stored.
pub open spec fn status_text(s: ThingStatus) -> Option<Seq<char>> {
    match s {
        ThingStatus::Connected => Some("Connected"@),
        ThingStatus::Published => Some("Published"@),
        ThingStatus::Disabled => Some("Disabled"@),
        ThingStatus::Unknown => None,
    }
}

/// The status that a stored text stands for; any other text is `Unknown`.
pub open spec fn status_from_text(t: Seq<char>) -> ThingStatus {
    if t == "Connected"@ {
        ThingStatus::Connected
    } else if t == "Published"@ {
        ThingStatus::Published
    } else if t == "Disabled"@ {
        ThingStatus::Disabled
    } else {
        ThingStatus::Unknown
    }
}

/// What the store answered when an entry was read.
#[derive(Clone, Debug)]
pub enum Fetched {
    /// The entry holds this value.
    Found(String),
    /// The record or the entry does not exist.
    NotFound,
    /// The store could not be asked.
    Failed(Error),
}

/// An entry to read: the record of a thing, and a key in it.
#[derive(Clone, Debug)]
pub struct EntryRef {
    pub thing_id: String,
    pub key: String,
}

/// A value to write (insert or update) at a key in the record of a thing.
#[derive(Clone, Debug)]
pub struct EntryWrite {
    pub thing_id: String,
    pub key: String,
    pub value: String,
}

/// The value read, or `default` where there is no entry; a failure of the store
/// is passed on.
pub open spec fn read_or(fetched: Fetched, default: Seq<char>, r: Result<String, Error>) -> bool {
    match fetched {
        Fetched::Found(s) => r is Ok && r->Ok_0@ == s@,
        Fetched::NotFound => r is Ok && r->Ok_0@ == default,
        Fetched::Failed(e) => r == Err::<String, Error>(e),
    }
}

fn value_or(fetched: Fetched, default: &str) -> (r: Result<String, Error>)
    ensures
        read_or(fetched, default@, r),
{
    match fetched {
        Fetched::Found(s) => Ok(s),
        Fetched::NotFound => Ok(default.to_owned()),
        Fetched::Failed(e) => Err(e),
    }
}

/// The request ids and values of the action requests among the entries of a
/// record, in their order. Entries whose value is empty were withdrawn and are left
/// out, as are keys that do not end in a request id.
pub open spec fn action_requests_in(entries: Seq<(Seq<char>, Seq<char>)>) -> Seq<(u128, Seq<char>)>
    decreases entries.len(),
{
    if entries.len() == 0 {
        Seq::empty()
    } else {
        let rest = action_requests_in(entries.drop_last());
        let (k, v) = entries.last();
        let p = action_req_prefix();
        if p.len() <= k.len() && k.subrange(0, p.len() as int) == p && v.len() > 0 && u128_of(
            k.subrange(p.len() as int, k.len() as int),
        ) is Some {
            rest.push((u128_of(k.subrange(p.len() as int, k.len() as int))->Some_0, v))
        } else {
            rest
        }
    }
}

pub open spec fn entries_view(v: Seq<(String, String)>) -> Seq<(Seq<char>, Seq<char>)> {
    v.map_values(|e: (String, String)| (e.0@, e.1@))
}

pub open spec fn requests_view(v: Seq<(u128, String)>) -> Seq<(u128, Seq<char>)> {
    v.map_values(|e: (u128, String)| (e.0, e.1@))
}

/// An action request stored under its key is listed back with the same id, as
/// long as its value is not empty (an empty value marks a withdrawn request).
pub proof fn lemma_stored_request_listed(id: u128, value: Seq<char>)
    requires
        value.len() > 0,
    ensures
        action_requests_in(seq![(action_req_key(id), value)]) == seq![(id, value)],
{
    let k = action_req_key(id);
    let p = action_req_prefix();
    lemma_request_id_round_trip(id);
    assert(k.subrange(0, p.len() as int) =~= p);
    assert(k.subrange(p.len() as int, k.len() as int) =~= decimal_of(id as nat));
    let es = seq![(k, value)];
    reveal_with_fuel(action_requests_in, 2);
    assert(es.drop_last() =~= Seq::<(Seq<char>, Seq<char>)>::empty());
    assert(es.last() == (k, value));
    assert(action_requests_in(es.drop_last()) =~= Seq::<(u128, Seq<char>)>::empty());
    assert(Seq::<(u128, Seq<char>)>::empty().push((id, value)) =~= seq![(id, value)]);
}

/// The part of a thing that deals with its record in the store: where each piece
/// of the thing is kept, and what the stored values mean.
#[derive(Clone, Debug)]
pub struct SAFEthingComm {
    pub thing_id: String,
    pub auth_str: String,
    pub xor_name: [u8; 32],
}

impl SAFEthingComm {
    /// A thing's store access before its record is stored.
    pub fn new(thing_id: &str, auth_str: &str) -> (r: SAFEthingComm)
        ensures
            r.thing_id@ == thing_id@,
            r.auth_str@ == auth_str@,
            r.xor_name@ == Seq::new(32, |i: int| 0u8),
    {
        let r = SAFEthingComm {
            thing_id: thing_id.to_owned(),
            auth_str: auth_str.to_owned(),
            xor_name: [0u8; 32],
        };
        assert(r.xor_name@ =~= Seq::new(32, |i: int| 0u8));
        r
    }

    /// Another access to the same thing, for a loop that keeps its own connection.
    pub fn clone(&self) -> (r: SAFEthingComm)
        ensures
            r.thing_id@ == self.thing_id@,
            r.auth_str@ == self.auth_str@,
            r.xor_name@ == self.xor_name@,
    {
        SAFEthingComm {
            thing_id: self.thing_id.as_str().to_owned(),
            auth_str: self.auth_str.as_str().to_owned(),
            xor_name: self.xor_name,
        }
    }

    /// Records the address at which the store keeps this thing's record, and gives
    /// it back in hexadecimal with the type tag.
    pub fn store_thing_entity(&mut self, xor_name: [u8; 32]) -> (r: (String, u64))
        ensures
            final(self).xor_name@ == xor_name@,
            final(self).thing_id == old(self).thing_id,
            final(self).auth_str == old(self).auth_str,
            r.0@ == hex_of(xor_name@),
            r.1 == SAFE_THING_TYPE_TAG,
    {
        self.xor_name = xor_name;
        (self.addr_name(), SAFE_THING_TYPE_TAG)
    }

    /// The address of the record in lower-case hexadecimal.
    pub fn addr_name(&self) -> (r: String)
        ensures
            r@ == hex_of(self.xor_name@),
    {
        hex_string(self.xor_name.as_slice())
    }

    fn own_write(&self, key: &str, value: &str) -> (w: EntryWrite)
        ensures
            w.thing_id@ == self.thing_id@,
            w.key@ == key@,
            w.value@ == value@,
    {
        EntryWrite { thing_id: self.thing_id.as_str().to_owned(), key: key.to_owned(), value: value.to_owned() }
    }

    fn entry(thing_id: &str, key: &str) -> (e: EntryRef)
        ensures
            e.thing_id@ == thing_id@,
            e.key@ == key@,
    {
        EntryRef { thing_id: thing_id.to_owned(), key: key.to_owned() }
    }

    /// The write that stores the status. `Unknown` cannot be stored.
    pub fn set_status(&self, status: ThingStatus) -> (r: Result<EntryWrite, Error>)
        ensures
            match status_text(status) {
                Some(t) => r is Ok && r->Ok_0.thing_id@ == self.thing_id@ && r->Ok_0.key@
                    == status_key() && r->Ok_0.value@ == t,
                None => r is Err && r->Err_0.code == ErrorCode::InvalidArgument,
            },
    {
        proof {
            reveal_strlit("_safe_thing_status");
            reveal_strlit("Connected");
            reveal_strlit("Published");
            reveal_strlit("Disabled");
        }
        let text = match status {
            ThingStatus::Connected => "Connected",
            ThingStatus::Published => "Published",
            ThingStatus::Disabled => "Disabled",
            ThingStatus::Unknown => {
                return Err(Error::new(ErrorCode::InvalidArgument, "Status param is invalid: Unknown"));
            },
        };
        Ok(self.own_write("_safe_thing_status", text))
    }

    /// Where this thing's status is kept.
    pub fn status_entry(&self) -> (e: EntryRef)
        ensures
            e.thing_id@ == self.thing_id@,
            e.key@ == status_key(),
    {
        proof {
            reveal_strlit("_safe_thing_status");
        }
        SAFEthingComm::entry(self.thing_id.as_str(), "_safe_thing_status")
    }

    /// The status that the store answered for `status_entry`; no entry means `Unknown`.
    pub fn get_status(&self, fetched: Fetched) -> (r: Result<ThingStatus, Error>)
        ensures
            match fetched {
                Fetched::Found(s) => r == Ok::<ThingStatus, Error>(status_from_text(s@)),
                Fetched::NotFound => r == Ok::<ThingStatus, Error>(ThingStatus::Unknown),
                Fetched::Failed(e) => r == Err::<ThingStatus, Error>(e),
            },
    {
        proof {
            reveal_strlit("Connected");
            reveal_strlit("Published");
            reveal_strlit("Disabled");
        }
        match fetched {
            Fetched::Found(s) => {
                if crate::text::str_equal(s.as_str(), "Connected") {
                    Ok(ThingStatus::Connected)
                } else if crate::text::str_equal(s.as_str(), "Published") {
                    Ok(ThingStatus::Published)
                } else if crate::text::str_equal(s.as_str(), "Disabled") {
                    Ok(ThingStatus::Disabled)
                } else {
                    Ok(ThingStatus::Unknown)
                }
            },
            Fetched::NotFound => Ok(ThingStatus::Unknown),
            Fetched::Failed(e) => Err(e),
        }
    }

    /// The write that stores the encoded attribute list.
    pub fn set_attributes(&self, attrs: &str) -> (w: EntryWrite)
        ensures
            w.thing_id@ == self.thing_id@,
            w.key@ == attrs_key(),
            w.value@ == attrs@,
    {
        proof {
            reveal_strlit("_safe_thing_attributes");
        }
        self.own_write("_safe_thing_attributes", attrs)
    }

    /// Where the attributes of a thing are kept.
    pub fn attrs_entry(thing_id: &str) -> (e: EntryRef)
        ensures
            e.thing_id@ == thing_id@,
            e.key@ == attrs_key(),
    {
        proof {
            reveal_strlit("_safe_thing_attributes");
        }
        SAFEthingComm::entry(thing_id, "_safe_thing_attributes")
    }

    /// The encoded attribute list the store answered; no entry means an empty list.
    pub fn get_thing_attrs(&self, fetched: Fetched) -> (r: Result<String, Error>)
        ensures
            read_or(fetched, "[]"@, r),
    {
        proof {
            reveal_strlit("[]");
        }
        value_or(fetched, "[]")
    }

    /// The write that stores the encoded topic list.
    pub fn set_topics(&self, topics: &str) -> (w: EntryWrite)
        ensures
            w.thing_id@ == self.thing_id@,
            w.key@ == topics_key(),
            w.value@ == topics@,
    {
        proof {
            reveal_strlit("_safe_thing_topics");
        }
        self.own_write("_safe_thing_topics", topics)
    }

    /// Where the topics of a thing are kept.
    pub fn topics_entry(thing_id: &str) -> (e: EntryRef)
        ensures
            e.thing_id@ == thing_id@,
            e.key@ == topics_key(),
    {
        proof {
            reveal_strlit("_safe_thing_topics");
        }
        SAFEthingComm::entry(thing_id, "_safe_thing_topics")
    }

    /// The encoded topic list the store answered; no entry means an empty list.
    pub fn get_thing_topics(&self, fetched: Fetched) -> (r: Result<String, Error>)
        ensures
            read_or(fetched, "[]"@, r),
    {
        proof {
            reveal_strlit("[]");
        }
        value_or(fetched, "[]")
    }

    /// The write that stores the encoded action list.
    pub fn set_actions(&self, actions: &str) -> (w: EntryWrite)
        ensures
            w.thing_id@ == self.thing_id@,
            w.key@ == actions_key(),
            w.value@ == actions@,
    {
        proof {
            reveal_strlit("_safe_thing_actions");
        }
        self.own_write("_safe_thing_actions", actions)
    }

    /// Where the actions of a thing are kept.
    pub fn actions_entry(thing_id: &str) -> (e: EntryRef)
        ensures
            e.thing_id@ == thing_id@,
            e.key@ == actions_key(),
    {
        proof {
            reveal_strlit("_safe_thing_actions");
        }
        SAFEthingComm::entry(thing_id, "_safe_thing_actions")
    }

    /// The encoded action list the store answered; no entry means an empty list.
    pub fn get_thing_actions(&self, fetched: Fetched) -> (r: Result<String, Error>)
        ensures
            read_or(fetched, "[]"@, r),
    {
        proof {
            reveal_strlit("[]");
        }
        value_or(fetched, "[]")
    }

    /// The write that stores the encoded subscriptions of this thing.
    pub fn set_subscriptions(&self, subscriptions: &str) -> (w: EntryWrite)
        ensures
            w.thing_id@ == self.thing_id@,
            w.key@ == subscriptions_key(),
            w.value@ == subscriptions@,
    {
        proof {
            reveal_strlit("_safe_thing_subscriptions");
        }
        self.own_write("_safe_thing_subscriptions", subscriptions)
    }

    /// Where this thing's subscriptions are kept.
    pub fn subscriptions_entry(&self) -> (e: EntryRef)
        ensures
            e.thing_id@ == self.thing_id@,
            e.key@ == subscriptions_key(),
    {
        proof {
            reveal_strlit("_safe_thing_subscriptions");
        }
        SAFEthingComm::entry(self.thing_id.as_str(), "_safe_thing_subscriptions")
    }

    /// The encoded subscriptions the store answered; no entry means an empty map.
    pub fn get_subscriptions(&self, fetched: Fetched) -> (r: Result<String, Error>)
        ensures
            read_or(fetched, "{}"@, r),
    {
        proof {
            reveal_strlit("{}");
        }
        value_or(fetched, "{}")
    }

    fn events_key_of(topic: &str) -> (k: String)
        ensures
            k@ == events_key(topic@),
    {
        proof {
            reveal_strlit("_safe_thing_events_");
        }
        let mut k = String::from_str("_safe_thing_events_");
        k.append(topic);
        k
    }

    /// The write that stores the encoded event log of one of this thing's topics.
    pub fn set_topic_events(&self, topic: &str, events: &str) -> (w: EntryWrite)
        ensures
            w.thing_id@ == self.thing_id@,
            w.key@ == events_key(topic@),
            w.value@ == events@,
    {
        let k = SAFEthingComm::events_key_of(topic);
        self.own_write(k.as_str(), events)
    }

    /// Where the event log of a topic of a thing is kept.
    pub fn topic_events_entry(thing_id: &str, topic: &str) -> (e: EntryRef)
        ensures
            e.thing_id@ == thing_id@,
            e.key@ == events_key(topic@),
    {
        let k = SAFEthingComm::events_key_of(topic);
        SAFEthingComm::entry(thing_id, k.as_str())
    }

    /// The encoded event log of one of this thing's topics as the store answered
    /// it; no entry means an empty log.
    pub fn get_topic_events(&self, fetched: Fetched) -> (r: Result<String, Error>)
        ensures
            read_or(fetched, "[]"@, r),
    {
        proof {
            reveal_strlit("[]");
        }
        value_or(fetched, "[]")
    }

    /// The encoded event log of a topic of another thing as the store answered it;
    /// no entry means an empty log.
    pub fn get_thing_topic_events(&self, fetched: Fetched) -> (r: Result<String, Error>)
        ensures
            read_or(fetched, "[]"@, r),
    {
        proof {
            reveal_strlit("[]");
        }
        value_or(fetched, "[]")
    }

    fn action_req_key_of(request_id: u128) -> (k: String)
        ensures
            k@ == action_req_key(request_id),
    {
        proof {
            reveal_strlit("_safe_thing_action_req_");
        }
        let mut k = String::from_str("_safe_thing_action_req_");
        let id = decimal_string(request_id);
        k.append(id.as_str());
        k
    }

    /// Sends an encoded action request to a thing: a fresh request id is taken from
    /// the clock, and the request is written under it in the target's record.
    pub fn send_action_request(&self, thing_id: &str, action_req: &str) -> (r: (u128, EntryWrite))
        ensures
            r.1.thing_id@ == thing_id@,
            r.1.key@ == action_req_key(r.0),
            r.1.value@ == action_req@,
    {
        let request_id = gen_timestamp();
        (request_id, self.request_write(thing_id, request_id, action_req))
    }

    /// The write that puts an encoded action request, under a given id, in a record.
    pub fn request_write(&self, thing_id: &str, request_id: u128, value: &str) -> (w: EntryWrite)
        ensures
            w.thing_id@ == thing_id@,
            w.key@ == action_req_key(request_id),
            w.value@ == value@,
    {
        let k = SAFEthingComm::action_req_key_of(request_id);
        EntryWrite { thing_id: thing_id.to_owned(), key: k, value: value.to_owned() }
    }

    /// Where an action request sent to a thing is kept.
    pub fn action_request_entry(thing_id: &str, request_id: u128) -> (e: EntryRef)
        ensures
            e.thing_id@ == thing_id@,
            e.key@ == action_req_key(request_id),
    {
        let k = SAFEthingComm::action_req_key_of(request_id);
        EntryRef { thing_id: thing_id.to_owned(), key: k }
    }

    /// The encoded action request the store answered; no entry means an empty object.
    pub fn get_thing_action_request_state(&self, fetched: Fetched) -> (r: Result<String, Error>)
        ensures
            read_or(fetched, "{}"@, r),
    {
        proof {
            reveal_strlit("{}");
        }
        value_or(fetched, "{}")
    }

    /// The action requests among the entries of this thing's record, with their ids.
    pub fn get_actions_requests(&self, entries: Result<Vec<(String, String)>, Error>) -> (r: Result<
        Vec<(u128, String)>,
        Error,
    >)
        ensures
            match entries {
                Ok(es) => r is Ok && requests_view(r->Ok_0@) == action_requests_in(entries_view(es@)),
                Err(e) => r == Err::<Vec<(u128, String)>, Error>(e),
            },
    {
        let es = match entries {
            Ok(es) => es,
            Err(e) => return Err(e),
        };
        let prefix = "_safe_thing_action_req_";
        proof {
            reveal_strlit("_safe_thing_action_req_");
        }
        let mut out: Vec<(u128, String)> = Vec::new();
        let mut i: usize = 0;
        while i < es.len()
            invariant
                i <= es@.len(),
                prefix@ == action_req_prefix(),
                requests_view(out@) == action_requests_in(entries_view(es@.subrange(0, i as int))),
            decreases es@.len() - i,
        {
            let ghost before = out@;
            let key = es[i].0.as_str();
            let value = es[i].1.as_str();
            proof {
                let p = entries_view(es@.subrange(0, i + 1));
                assert(p.drop_last() =~= entries_view(es@.subrange(0, i as int)));
                assert(p.last() == (key@, value@));
            }
            if starts_with(key, prefix) && value.unicode_len() > 0 {
                let n = prefix.unicode_len();
                match parse_u128_from(key, n) {
                    Some(id) => {
                        out.push((id, value.to_owned()));
                        proof {
                            assert(requests_view(out@) =~= requests_view(before).push((id, value@)));
                        }
                    },
                    None => {},
                }
            }
            i = i + 1;
        }
        proof {
            assert(es@.subrange(0, es@.len() as int) =~= es@);
        }
        Ok(out)
    }

    /// The write that sets the encoded state of an action request this thing received.
    pub fn set_action_request_state(&self, request_id: u128, new_state: &str) -> (w: EntryWrite)
        ensures
            w.thing_id@ == self.thing_id@,
            w.key@ == action_req_key(request_id),
            w.value@ == new_state@,
    {
        self.request_write(self.thing_id.as_str(), request_id, new_state)
    }
}

} // verus!
