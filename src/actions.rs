use vstd::prelude::*;
use crate::comm::{action_req_key, EntryRef, SAFEthingComm};
use crate::model::strings_of;
use crate::text::str_equal;

verus! {

/// Every action request gets its own id.
pub type ActionReqId = u128;

/// How often the receiving side looks for new requests, in milliseconds.
pub const ACTION_REQUEST_CHECK_FREQ: u64 = 4_000;

/// How often the sending side reads the state of a request it sent, in milliseconds.
pub const ACTION_REQUEST_MONITORING_FREQ: u64 = 2_000;

/// How long the sending side follows a request, in milliseconds.
pub const ACTION_REQUEST_MONITORING_TIMEOUT: u64 = 60_000;

pub open spec fn requested_state() -> Seq<char> {
    "Requested"@
}

pub open spec fn done_state() -> Seq<char> {
    "Done"@
}

/// An action request as stored in the record of the thing it is sent to: who sent
/// it, the action, its arguments, and its state.
#[derive(Clone, Debug)]
pub struct ActionReq {
    pub thing_id: String,
    pub action: String,
    pub args: Vec<String>,
    pub state: String,
}

pub open spec fn strings_view(v: Seq<String>) -> Seq<Seq<char>> {
    v.map_values(|s: String| s@)
}

fn copy_strings(v: &Vec<String>) -> (r: Vec<String>)
    ensures
        r@ == v@,
{
    let mut out: Vec<String> = Vec::new();
    let mut i: usize = 0;
    while i < v.len()
        invariant
            i <= v@.len(),
            out@ == v@.subrange(0, i as int),
        decreases v@.len() - i,
    {
        out.push(v[i].clone());
        proof {
            assert(out@ =~= v@.subrange(0, i + 1));
        }
        i = i + 1;
    }
    proof {
        assert(v@.subrange(0, v@.len() as int) =~= v@);
    }
    out
}

impl ActionReq {
    /// A request from `thing_id` for `action` with `args`, in state "Requested".
    pub fn new(thing_id: &str, action: &str, args: &[&str]) -> (r: ActionReq)
        ensures
            r.thing_id@ == thing_id@,
            r.action@ == action@,
            r.args@.len() == args@.len(),
            forall|i: int| 0 <= i < args@.len() ==> #[trigger] r.args@[i]@ == args@[i]@,
            r.state@ == requested_state(),
    {
        proof {
            reveal_strlit("Requested");
        }
        ActionReq {
            thing_id: thing_id.to_owned(),
            action: action.to_owned(),
            args: strings_of(args),
            state: "Requested".to_owned(),
        }
    }

    /// Whether the request still waits for its handler.
    pub fn is_pending(&self) -> (r: bool)
        ensures
            r == (self.state@ == requested_state()),
    {
        proof {
            reveal_strlit("Requested");
        }
        str_equal(self.state.as_str(), "Requested")
    }

    /// The same request in state "Done".
    pub fn completed(&self) -> (r: ActionReq)
        ensures
            r.thing_id == self.thing_id,
            r.action == self.action,
            r.args@ == self.args@,
            r.state@ == done_state(),
    {
        proof {
            reveal_strlit("Done");
        }
        ActionReq {
            thing_id: self.thing_id.clone(),
            action: self.action.clone(),
            args: copy_strings(&self.args),
            state: "Done".to_owned(),
        }
    }
}

/// What the receiving side does with a stored request in a given state: one still
/// "Requested" goes to the handler and is then stored back as "Done"; any other is
/// left alone.
pub open spec fn receive_spec(state: Seq<char>) -> Option<Seq<char>> {
    if state == requested_state() {
        Some(done_state())
    } else {
        None
    }
}

/// The receiving side's decision on one stored request: the request to store
/// back once the handler has run, or `None` where the request is not for the handler.
pub fn handle_received(req: &ActionReq) -> (r: Option<ActionReq>)
    ensures
        match receive_spec(req.state@) {
            Some(s) => r is Some && r->Some_0.state@ == s && r->Some_0.thing_id == req.thing_id
                && r->Some_0.action == req.action && r->Some_0.args@ == req.args@,
            None => r is None,
        },
{
    if req.is_pending() {
        Some(req.completed())
    } else {
        None
    }
}

/// Where the sending side stands in following a request.
pub struct MonitorState {
    /// The last state seen.
    pub current: Seq<char>,
    /// Whether the callback asked to go on.
    pub keep_checking: bool,
    /// Whether the time allowed has run out.
    pub timed_out: bool,
}

pub open spec fn monitor_start() -> MonitorState {
    MonitorState { current: requested_state(), keep_checking: true, timed_out: false }
}

/// The monitor goes on while the callback wants it, the request is not done, and
/// time remains.
pub open spec fn monitor_active(s: MonitorState) -> bool {
    s.keep_checking && s.current != done_state() && !s.timed_out
}

/// Reading a state: a state other than the last one seen becomes the current one
/// and is reported; an unreadable request or the same state changes nothing.
pub open spec fn monitor_observe(s: MonitorState, observed: Option<Seq<char>>) -> (MonitorState, Option<
    Seq<char>,
>) {
    match observed {
        Some(t) => if t != s.current {
            (MonitorState { current: t, ..s }, Some(t))
        } else {
            (s, None)
        },
        None => (s, None),
    }
}

/// The callback's answer to a reported state.
pub open spec fn monitor_answer(s: MonitorState, keep_checking: bool) -> MonitorState {
    MonitorState { keep_checking, ..s }
}

/// The time since the request was sent, in milliseconds.
pub open spec fn monitor_elapsed(s: MonitorState, elapsed_ms: nat) -> MonitorState {
    MonitorState {
        timed_out: s.timed_out || elapsed_ms > ACTION_REQUEST_MONITORING_TIMEOUT,
        ..s
    }
}

/// The sending side of one request: follows the request's state in the target's
/// record until the callback says stop, the request is done, or time runs out.
#[derive(Debug)]
pub struct ActionReqMonitor {
    pub thing_id: String,
    pub request_id: ActionReqId,
    pub current_state: String,
    pub keep_checking: bool,
    pub timed_out: bool,
}

impl View for ActionReqMonitor {
    type V = MonitorState;

    open spec fn view(&self) -> MonitorState {
        MonitorState {
            current: self.current_state@,
            keep_checking: self.keep_checking,
            timed_out: self.timed_out,
        }
    }
}

impl ActionReqMonitor {
    /// Starts following request `request_id` sent to `thing_id`.
    pub fn new(thing_id: &str, request_id: ActionReqId) -> (r: ActionReqMonitor)
        ensures
            r@ == monitor_start(),
            r.thing_id@ == thing_id@,
            r.request_id == request_id,
    {
        proof {
            reveal_strlit("Requested");
        }
        ActionReqMonitor {
            thing_id: thing_id.to_owned(),
            request_id,
            current_state: "Requested".to_owned(),
            keep_checking: true,
            timed_out: false,
        }
    }

    /// Whether to poll again.
    pub fn is_active(&self) -> (r: bool)
        ensures
            r == monitor_active(self@),
    {
        proof {
            reveal_strlit("Done");
        }
        self.keep_checking && !str_equal(self.current_state.as_str(), "Done") && !self.timed_out
    }

    /// Where the request's state is to be read.
    pub fn entry(&self) -> (e: EntryRef)
        ensures
            e.thing_id@ == self.thing_id@,
            e.key@ == action_req_key(self.request_id),
    {
        SAFEthingComm::action_request_entry(self.thing_id.as_str(), self.request_id)
    }

    /// Takes the state read from the request (`None` where it could not be read) and
    /// gives the state to report to the callback, if any.
    pub fn observe(&mut self, observed: Option<&str>) -> (r: Option<String>)
        ensures
            ({
                let (s, rep) = monitor_observe(
                    old(self)@,
                    match observed {
                        Some(t) => Some(t@),
                        None => None,
                    },
                );
                final(self)@ == s && match rep {
                    Some(t) => r is Some && r->Some_0@ == t,
                    None => r is None,
                }
            }),
            final(self).thing_id == old(self).thing_id,
            final(self).request_id == old(self).request_id,
    {
        match observed {
            Some(t) => {
                if !str_equal(t, self.current_state.as_str()) {
                    self.current_state = t.to_owned();
                    Some(t.to_owned())
                } else {
                    None
                }
            },
            None => None,
        }
    }

    /// Takes the callback's answer: whether to go on following the request.
    pub fn record_answer(&mut self, keep_checking: bool)
        ensures
            final(self)@ == monitor_answer(old(self)@, keep_checking),
            final(self).thing_id == old(self).thing_id,
            final(self).request_id == old(self).request_id,
    {
        self.keep_checking = keep_checking;
    }

    /// Takes the time elapsed since the request was sent.
    pub fn record_elapsed(&mut self, elapsed_ms: u128)
        ensures
            final(self)@ == monitor_elapsed(old(self)@, elapsed_ms as nat),
            final(self).thing_id == old(self).thing_id,
            final(self).request_id == old(self).request_id,
    {
        if elapsed_ms > ACTION_REQUEST_MONITORING_TIMEOUT as u128 {
            self.timed_out = true;
        }
    }
}

/// A request is handed to the receiver's handler while it is "Requested", and once
/// stored back as "Done" it is not handed out again. A monitor that starts on the
/// request and reads "Done" reports "Done" to its callback and stops; the same holds
/// after any other states were reported first.
pub proof fn lemma_action_request_lifecycle(s: MonitorState)
    requires
        s.keep_checking,
        !s.timed_out,
    ensures
        receive_spec(requested_state()) == Some(done_state()),
        receive_spec(done_state()) is None,
        monitor_active(monitor_start()),
        s.current != done_state() ==> monitor_observe(s, Some(done_state())).1 == Some(done_state()),
        !monitor_active(monitor_observe(s, Some(done_state())).0),
{
    reveal_strlit("Requested");
    reveal_strlit("Done");
    assert(requested_state() != done_state()) by {
        assert(requested_state().len() != done_state().len());
    }
}

/// Once the time allowed has run out the monitor is no longer active, and nothing
/// it reads, no answer and no further time makes it active again; the polling loop
/// therefore stops and calls the callback no more.
pub proof fn lemma_monitor_timeout(s: MonitorState, elapsed_ms: nat, observed: Option<Seq<char>>, keep: bool, later_ms: nat)
    requires
        elapsed_ms > ACTION_REQUEST_MONITORING_TIMEOUT,
    ensures
        !monitor_active(monitor_elapsed(s, elapsed_ms)),
        monitor_observe(monitor_elapsed(s, elapsed_ms), observed).0.timed_out,
        monitor_answer(monitor_elapsed(s, elapsed_ms), keep).timed_out,
        monitor_elapsed(monitor_elapsed(s, elapsed_ms), later_ms).timed_out,
        !monitor_active(monitor_observe(monitor_elapsed(s, elapsed_ms), observed).0),
{
}

} // verus!
