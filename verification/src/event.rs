//! The event data model: raw events, the grouping key, and the shapes a
//! flush cycle produces (counters, the window summary, the packed batch).

use vstd::prelude::*;

verus! {

/// One raw telemetry event, immutable once created.
pub enum Event {
    AccessEvent(AccessEvent),
    CustomEvent(CustomEvent),
    DebugEvent(DebugEvent),
}

/// A record of one flag evaluation served to one user.
pub struct AccessEvent {
    pub kind: String,
    pub time: u128,
    pub key: String,
    pub user: String,
    pub value: serde_json::Value,
    pub variation_index: usize,
    pub version: Option<u64>,
    pub rule_index: Option<usize>,
    /// Whether this event may appear in the packed batch's raw-event list.
    /// Aggregation counts the event either way.
    pub track_access_events: bool,
}

/// An application-defined named event.
pub struct CustomEvent {
    pub kind: String,
    pub time: u128,
    pub user: String,
    pub name: String,
    /// Optional numeric payload, carried as the raw bit pattern of the
    /// producer's floating-point number. The recorder never interprets it;
    /// the transport layer restores the number when it serializes.
    pub value_bits: Option<u64>,
}

/// A diagnostic mirror of an access event, emitted while a server-side
/// debug window is active.
pub struct DebugEvent {
    pub kind: String,
    pub time: u128,
    pub key: String,
    pub user: String,
    pub user_detail: serde_json::Value,
    pub value: serde_json::Value,
    pub variation_index: usize,
    pub version: Option<u64>,
    pub rule_index: Option<usize>,
    pub reason: Option<String>,
}

/// The identity under which access events aggregate: two events fall into
/// the same counter exactly when flag key, variation index and flag version
/// are all equal (`None == None` versions count as equal).
pub struct Variation {
    pub key: String,
    pub index: usize,
    pub version: Option<u64>,
}

/// The mathematical identity of a [`Variation`].
pub type VariationId = (Seq<char>, int, Option<u64>);

impl View for Variation {
    type V = VariationId;

    open spec fn view(&self) -> VariationId {
        (self.key@, self.index as int, self.version)
    }
}

/// A running count of access events sharing one variation, together with
/// the value of the first such event observed in the window.
pub struct CountValue {
    pub count: u128,
    pub value: serde_json::Value,
}

/// One counter of the window summary, keyed by its flag through the
/// enclosing [`FlagCounters`] group.
pub struct ToggleCounter {
    pub value: serde_json::Value,
    pub version: Option<u64>,
    pub index: usize,
    pub count: u128,
}

/// All counters of one flag key within a window.
pub struct FlagCounters {
    pub key: String,
    pub counters: Vec<ToggleCounter>,
}

/// The aggregated summary of one window: the true time bounds of its
/// access events and their counters grouped by flag key. Group keys are
/// unique and every group is non-empty.
pub struct Access {
    pub start_time: u128,
    pub end_time: u128,
    pub counters: Vec<FlagCounters>,
}

/// One transmissible unit: the filtered raw events of one flush cycle and
/// the aggregated summary of the same batch.
pub struct PackedData {
    pub events: Vec<Event>,
    pub access: Access,
}

impl AccessEvent {
    /// The identity under which this event aggregates.
    pub open spec fn variation_id(&self) -> VariationId {
        (self.key@, self.variation_index as int, self.version)
    }

    /// The grouping key of this event as a value of its own.
    pub fn variation(&self) -> (v: Variation)
        ensures
            v@ == self.variation_id(),
    {
        Variation { key: self.key.clone(), index: self.variation_index, version: self.version }
    }
}

pub open spec fn is_access(e: Event) -> bool {
    e is AccessEvent
}

pub open spec fn access_id(e: Event) -> VariationId
    recommends
        is_access(e),
{
    e->AccessEvent_0.variation_id()
}

pub open spec fn access_time(e: Event) -> u128
    recommends
        is_access(e),
{
    e->AccessEvent_0.time
}

pub open spec fn access_value(e: Event) -> serde_json::Value
    recommends
        is_access(e),
{
    e->AccessEvent_0.value
}

/// The predicate selecting the access events of one variation. Shared by
/// every spec function and invariant that filters on a variation, so that
/// all of them speak of one and the same closure.
pub open spec fn id_pred(k: VariationId) -> spec_fn(Event) -> bool {
    |e: Event| is_access(e) && access_id(e) == k
}

/// The access events of variation `k`, in arrival order.
pub open spec fn key_events(events: Seq<Event>, k: VariationId) -> Seq<Event> {
    events.filter(id_pred(k))
}

/// How many access events of variation `k` the batch holds.
pub open spec fn key_count(events: Seq<Event>, k: VariationId) -> nat {
    key_events(events, k).len()
}

/// The value of the first access event of variation `k`, in arrival order.
pub open spec fn first_value(events: Seq<Event>, k: VariationId) -> serde_json::Value
    recommends
        key_count(events, k) > 0,
{
    access_value(key_events(events, k)[0])
}

} // verus!
