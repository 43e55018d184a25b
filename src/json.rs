use vstd::prelude::*;

verus! {

/// The JSON text of an event log, as serde_json writes a list of
/// `(timestamp, payload)` pairs.
pub uninterp spec fn events_json(events: Seq<(u128, Seq<char>)>) -> Seq<char>;

/// The event log that a JSON text holds, where it holds one.
pub uninterp spec fn events_from_json(text: Seq<char>) -> Option<Seq<(u128, Seq<char>)>>;

pub open spec fn events_view(v: Seq<(u128, String)>) -> Seq<(u128, Seq<char>)> {
    v.map_values(|e: (u128, String)| (e.0, e.1@))
}

/// Relies on `serde_json::to_string`: the text depends on the events alone, and
/// it fails only where a `Serialize` impl fails or a map has non-string keys, which
/// cannot happen for a list of `(u128, String)` pairs written into memory.
#[verifier::external_body]
pub(crate) fn encode_events(events: &Vec<(u128, String)>) -> (r: Option<String>)
    ensures
        r is Some,
        r->Some_0@ == events_json(events_view(events@)),
{
    serde_json::to_string(events).ok()
}

/// Relies on `serde_json::from_str` for a list of `(u128, String)` pairs: the
/// outcome depends on the text alone.
#[verifier::external_body]
pub(crate) fn decode_events(text: &str) -> (r: Option<Vec<(u128, String)>>)
    ensures
        match events_from_json(text@) {
            Some(evs) => r is Some && events_view(r->Some_0@) == evs,
            None => r is None,
        },
{
    serde_json::from_str(text).ok()
}

} // verus!
