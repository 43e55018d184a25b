//! A framework for "things" that publish their attributes, topics and actions on a
//! key-value store of records, subscribe to each other's changes, and exchange
//! action requests whose state they follow.
//!
//! This crate holds the decisions: how a thing's record is laid out, how filters
//! evaluate, which events and attribute changes are due for notification, and how
//! an action request moves through its states. Talking to the store, running the
//! polling loops and encoding records are left to the caller.

pub mod actions;
mod clock;
pub mod comm;
pub mod errors;
pub mod events;
pub mod filter;
pub mod json;
pub mod model;
pub mod registry;
pub mod subscriptions;
pub mod text;
pub mod thing;

pub use actions::{
    handle_received, ActionReq, ActionReqId, ActionReqMonitor, ACTION_REQUEST_CHECK_FREQ,
    ACTION_REQUEST_MONITORING_FREQ, ACTION_REQUEST_MONITORING_TIMEOUT,
};
pub use comm::{EntryRef, EntryWrite, Fetched, SAFEthingComm, SAFE_THING_TYPE_TAG};
pub use errors::{Error, ErrorCode, ResultReturn};
pub use events::{append_event, events_of_text, Timestamp};
pub use filter::FilterOperator;
pub use registry::{copy_subscriptions, Observed, RegisteredSubscriptions};
pub use subscriptions::{
    check_attrs_subs_and_notify, check_topic_subs_and_notify, AttrSubscription, Notification,
    Subscription, TopicSubscription,
};
pub use thing::{SAFEthing, SUBSCRIPTIONS_CHECK_FREQ, THING_ID_MIN_LENGTH};
pub use model::{AccessType, ActionDef, Status, ThingAttr, ThingStatus, Topic};
