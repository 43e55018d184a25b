use vstd::prelude::*;

verus! {

/// Who may use a topic or an action, from the narrowest scope to the widest:
/// the thing itself, its owner, a group, or anyone.
#[derive(Clone, Copy, Debug, PartialEq, Eq, Structural)]
pub enum AccessType {
    Thing,
    Owner,
    Group,
    All,
}

/// Status of a thing as its users see it.
#[derive(Clone, Copy, Debug, PartialEq, Eq, Structural)]
pub enum Status {
    Unknown,
    NonConnected,
    Connected,
    Published,
    Disabled,
}

/// Status of a thing as its record stores it.
#[derive(Clone, Copy, Debug, PartialEq, Eq, Structural)]
pub enum ThingStatus {
    Unknown,
    Connected,
    Published,
    Disabled,
}

pub open spec fn status_name(s: Status) -> Seq<char> {
    match s {
        Status::Unknown => "Unknown"@,
        Status::NonConnected => "NonConnected"@,
        Status::Connected => "Connected"@,
        Status::Published => "Published"@,
        Status::Disabled => "Disabled"@,
    }
}

impl Status {
    /// The name of the status, as it is shown.
    pub fn name(&self) -> (r: &'static str)
        ensures
            r@ == status_name(*self),
    {
        proof {
            reveal_strlit("Unknown");
            reveal_strlit("NonConnected");
            reveal_strlit("Connected");
            reveal_strlit("Published");
            reveal_strlit("Disabled");
        }
        match self {
            Status::Unknown => "Unknown",
            Status::NonConnected => "NonConnected",
            Status::Connected => "Connected",
            Status::Published => "Published",
            Status::Disabled => "Disabled",
        }
    }

    /// The status that users see for a stored status.
    pub fn from_thing_status(s: ThingStatus) -> (r: Status)
        ensures
            r == status_of(s),
    {
        match s {
            ThingStatus::Unknown => Status::Unknown,
            ThingStatus::Connected => Status::Connected,
            ThingStatus::Published => Status::Published,
            ThingStatus::Disabled => Status::Disabled,
        }
    }
}

pub open spec fn status_of(s: ThingStatus) -> Status {
    match s {
        ThingStatus::Unknown => Status::Unknown,
        ThingStatus::Connected => Status::Connected,
        ThingStatus::Published => Status::Published,
        ThingStatus::Disabled => Status::Disabled,
    }
}

/// A topic a thing emits events on, with who may subscribe to it.
#[derive(Clone, Debug)]
pub struct Topic {
    pub name: String,
    pub access: AccessType,
}

impl Topic {
    pub fn new(name: &str, access: AccessType) -> (r: Topic)
        ensures
            r.name@ == name@,
            r.access == access,
    {
        Topic { name: name.to_owned(), access }
    }
}

/// An attribute of a thing. Only dynamic attributes can be subscribed to.
#[derive(Clone, Debug)]
pub struct ThingAttr {
    pub attr: String,
    pub value: String,
    pub is_dynamic: bool,
}

impl ThingAttr {
    pub fn new(attr: &str, value: &str, is_dynamic: bool) -> (r: ThingAttr)
        ensures
            r.attr@ == attr@,
            r.value@ == value@,
            r.is_dynamic == is_dynamic,
    {
        ThingAttr { attr: attr.to_owned(), value: value.to_owned(), is_dynamic }
    }
}

/// An action a thing accepts, with who may request it and the names of its
/// parameters.
#[derive(Clone, Debug)]
pub struct ActionDef {
    pub name: String,
    pub access: AccessType,
    pub params: Vec<String>,
}

impl ActionDef {
    pub fn new(name: &str, access: AccessType, params: &[&str]) -> (r: ActionDef)
        ensures
            r.name@ == name@,
            r.access == access,
            r.params@.len() == params@.len(),
            forall|i: int| 0 <= i < params@.len() ==> #[trigger] r.params@[i]@ == params@[i]@,
    {
        ActionDef { name: name.to_owned(), access, params: strings_of(params) }
    }
}

/// Owned copies of a list of string slices, in the same order.
pub fn strings_of(items: &[&str]) -> (r: Vec<String>)
    ensures
        r@.len() == items@.len(),
        forall|i: int| 0 <= i < items@.len() ==> #[trigger] r@[i]@ == items@[i]@,
{
    let mut out: Vec<String> = Vec::new();
    let mut i: usize = 0;
    while i < items.len()
        invariant
            i <= items@.len(),
            out@.len() == i,
            forall|k: int| 0 <= k < i ==> #[trigger] out@[k]@ == items@[k]@,
        decreases items@.len() - i,
    {
        out.push(items[i].to_owned());
        i = i + 1;
    }
    out
}

} // verus!
