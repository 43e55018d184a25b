use vstd::prelude::*;
use crate::errors::Error;
use crate::json::{decode_events, encode_events, events_from_json, events_json, events_view};

verus! {

/// Timestamps of events, in nanoseconds since the Unix epoch.
pub type Timestamp = u128;

/// The log a stored text holds; a text that holds none counts as an empty log.
pub open spec fn log_of(text: Seq<char>) -> Seq<(u128, Seq<char>)> {
    match events_from_json(text) {
        Some(evs) => evs,
        None => Seq::empty(),
    }
}

/// Reads an event log from its stored text; see `log_of`.
pub fn events_of_text(text: &str) -> (r: Vec<(u128, String)>)
    ensures
        events_view(r@) == log_of(text@),
{
    match decode_events(text) {
        Some(v) => v,
        None => {
            let v: Vec<(u128, String)> = Vec::new();
            assert(events_view(v@) =~= Seq::<(u128, Seq<char>)>::empty());
            v
        },
    }
}

/// The stored text of a log with one more event at its end.
pub fn append_event(events_text: &str, timestamp: Timestamp, data: &str) -> (r: Result<String, Error>)
    ensures
        r is Ok,
        r->Ok_0@ == events_json(log_of(events_text@).push((timestamp, data@))),
{
    let mut events = events_of_text(events_text);
    let ghost before = events@;
    events.push((timestamp, data.to_owned()));
    assert(events_view(events@) =~= events_view(before).push((timestamp, data@)));
    match encode_events(&events) {
        Some(s) => Ok(s),
        None => vstd::pervasive::unreached(),
    }
}

} // verus!
