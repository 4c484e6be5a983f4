//! Events: what an application records, before and after a bucket stores it.

use std::convert::Infallible;
use vstd::prelude::*;
use crate::identity::Identity;

verus! {

/// A typed value of one detail field.
#[derive(Debug, PartialEq, Eq)]
pub enum DetailValue {
    True,
    False,
    U64(u64),
    I64(i64),
    Text(String),
    Slice(Vec<u8>),
    Principal(Identity),
    Array(Vec<DetailValue>),
    Mapping(Vec<(String, DetailValue)>),
}

/// The mathematical value of a [`DetailValue`].
pub enum DetailView {
    True,
    False,
    U64(u64),
    I64(i64),
    Text(Seq<char>),
    Slice(Seq<u8>),
    Principal(Seq<u8>),
    Array(Seq<DetailView>),
    Mapping(Seq<(Seq<char>, DetailView)>),
}

/// The values of a list of detail values, in order.
pub open spec fn values_view(v: Seq<DetailValue>) -> Seq<DetailView>
    decreases v,
{
    Seq::new(
        v.len(),
        |i: int|
            if 0 <= i < v.len() {
                v[i].view()
            } else {
                DetailView::True
            },
    )
}

/// The names and values of a list of detail fields, in order.
pub open spec fn fields_view(m: Seq<(String, DetailValue)>) -> Seq<(Seq<char>, DetailView)>
    decreases m,
{
    Seq::new(
        m.len(),
        |i: int|
            if 0 <= i < m.len() {
                (m[i].0@, m[i].1.view())
            } else {
                (Seq::empty(), DetailView::True)
            },
    )
}

impl View for DetailValue {
    type V = DetailView;

    open spec fn view(&self) -> DetailView
        decreases self,
    {
        match self {
            DetailValue::True => DetailView::True,
            DetailValue::False => DetailView::False,
            DetailValue::U64(n) => DetailView::U64(*n),
            DetailValue::I64(n) => DetailView::I64(*n),
            DetailValue::Text(s) => DetailView::Text(s@),
            DetailValue::Slice(b) => DetailView::Slice(b@),
            DetailValue::Principal(p) => DetailView::Principal(p@),
            DetailValue::Array(v) => DetailView::Array(values_view(v@)),
            DetailValue::Mapping(m) => DetailView::Mapping(fields_view(m@)),
        }
    }
}

/// A deep copy of a list of detail values.
pub fn duplicate_values(v: &Vec<DetailValue>) -> (r: Vec<DetailValue>)
    ensures
        values_view(r@) == values_view(v@),
    decreases v,
{
    let mut out: Vec<DetailValue> = Vec::new();
    let mut i: usize = 0;
    while i < v.len()
        invariant
            i <= v.len(),
            out@.len() == i,
            forall|j: int| 0 <= j < i ==> out@[j]@ == v@[j]@,
        decreases v.len() - i,
    {
        assert(decreases_to!(*v => v[i as int]));
        let item = v[i].duplicate();
        out.push(item);
        i += 1;
    }
    assert(values_view(out@) =~= values_view(v@));
    out
}

/// A deep copy of a list of detail fields.
pub fn duplicate_fields(m: &Vec<(String, DetailValue)>) -> (r: Vec<(String, DetailValue)>)
    ensures
        fields_view(r@) == fields_view(m@),
    decreases m,
{
    let mut out: Vec<(String, DetailValue)> = Vec::new();
    let mut i: usize = 0;
    while i < m.len()
        invariant
            i <= m.len(),
            out@.len() == i,
            forall|j: int| 0 <= j < i ==> out@[j].0@ == m@[j].0@ && out@[j].1@ == m@[j].1@,
        decreases m.len() - i,
    {
        assert(decreases_to!(*m => m[i as int]));
        assert(decreases_to!(m[i as int] => m[i as int].1));
        let name = m[i].0.clone();
        let value = m[i].1.duplicate();
        out.push((name, value));
        i += 1;
    }
    assert(fields_view(out@) =~= fields_view(m@));
    out
}

impl DetailValue {
    /// A deep copy of the value.
    pub fn duplicate(&self) -> (r: DetailValue)
        ensures
            r@ == self@,
        decreases self,
    {
        match self {
            DetailValue::True => DetailValue::True,
            DetailValue::False => DetailValue::False,
            DetailValue::U64(n) => DetailValue::U64(*n),
            DetailValue::I64(n) => DetailValue::I64(*n),
            DetailValue::Text(s) => DetailValue::Text(s.clone()),
            DetailValue::Slice(b) => DetailValue::Slice(b.clone()),
            DetailValue::Principal(p) => DetailValue::Principal(p.duplicate()),
            DetailValue::Array(v) => {
                assert(decreases_to!(*self => self->Array_0));
                DetailValue::Array(duplicate_values(v))
            },
            DetailValue::Mapping(m) => {
                assert(decreases_to!(*self => self->Mapping_0));
                DetailValue::Mapping(duplicate_fields(m))
            },
        }
    }
}

impl Clone for DetailValue {
    fn clone(&self) -> (r: DetailValue)
        ensures
            r@ == self@,
    {
        self.duplicate()
    }
}

/// An event as an application submits it: no sequence id and no time yet.
#[derive(Debug, PartialEq, Eq)]
pub struct IndefiniteEvent {
    pub caller: Identity,
    pub operation: String,
    pub details: Vec<(String, DetailValue)>,
}

/// The mathematical value of an [`IndefiniteEvent`].
pub struct IndefiniteEventView {
    pub caller: Seq<u8>,
    pub operation: Seq<char>,
    pub details: Seq<(Seq<char>, DetailView)>,
}

impl View for IndefiniteEvent {
    type V = IndefiniteEventView;

    open spec fn view(&self) -> IndefiniteEventView {
        IndefiniteEventView {
            caller: self.caller@,
            operation: self.operation@,
            details: fields_view(self.details@),
        }
    }
}

/// An event as a bucket stores it: with its sequence id, its position in the
/// bucket, and the time at which it was written.
#[derive(Debug, PartialEq, Eq)]
pub struct Event {
    pub id: u64,
    pub offset: u64,
    pub time: u64,
    pub caller: Identity,
    pub operation: String,
    pub details: Vec<(String, DetailValue)>,
}

/// The mathematical value of an [`Event`].
pub struct EventView {
    pub id: u64,
    pub offset: u64,
    pub time: u64,
    pub caller: Seq<u8>,
    pub operation: Seq<char>,
    pub details: Seq<(Seq<char>, DetailView)>,
}

impl EventView {
    /// The event without what the bucket assigned to it.
    pub open spec fn indefinite(self) -> IndefiniteEventView {
        IndefiniteEventView { caller: self.caller, operation: self.operation, details: self.details }
    }
}

impl IndefiniteEventView {
    /// The event as stored under `id`, at position `offset`, at `time`.
    pub open spec fn stored(self, id: u64, offset: u64, time: u64) -> EventView {
        EventView {
            id,
            offset,
            time,
            caller: self.caller,
            operation: self.operation,
            details: self.details,
        }
    }
}

impl View for Event {
    type V = EventView;

    open spec fn view(&self) -> EventView {
        EventView {
            id: self.id,
            offset: self.offset,
            time: self.time,
            caller: self.caller@,
            operation: self.operation@,
            details: fields_view(self.details@),
        }
    }
}

/// The values of a list of events, in order.
pub open spec fn events_view(events: Seq<Event>) -> Seq<EventView> {
    events.map_values(|e: Event| e@)
}

impl IndefiniteEvent {
    /// The event an application submits: who calls, which operation, and the
    /// detail fields.
    pub fn new(caller: Identity, operation: String, details: Vec<(String, DetailValue)>) -> (e:
        IndefiniteEvent)
        ensures
            e@ == (IndefiniteEventView {
                caller: caller@,
                operation: operation@,
                details: fields_view(details@),
            }),
    {
        IndefiniteEvent { caller, operation, details }
    }

    /// A deep copy of the event.
    pub fn duplicate(&self) -> (e: IndefiniteEvent)
        ensures
            e@ == self@,
    {
        IndefiniteEvent {
            caller: self.caller.duplicate(),
            operation: self.operation.clone(),
            details: duplicate_fields(&self.details),
        }
    }

    /// The event as stored under `id`, at position `offset`, at `time`.
    pub fn into_event(self, id: u64, offset: u64, time: u64) -> (e: Event)
        ensures
            e@ == self@.stored(id, offset, time),
    {
        Event {
            id,
            offset,
            time,
            caller: self.caller,
            operation: self.operation,
            details: self.details,
        }
    }
}

impl Event {
    /// A deep copy of the event.
    pub fn duplicate(&self) -> (e: Event)
        ensures
            e@ == self@,
    {
        Event {
            id: self.id,
            offset: self.offset,
            time: self.time,
            caller: self.caller.duplicate(),
            operation: self.operation.clone(),
            details: duplicate_fields(&self.details),
        }
    }
}

impl Clone for IndefiniteEvent {
    fn clone(&self) -> (e: IndefiniteEvent)
        ensures
            e@ == self@,
    {
        self.duplicate()
    }
}

impl Clone for Event {
    fn clone(&self) -> (e: Event)
        ensures
            e@ == self@,
    {
        self.duplicate()
    }
}

/// A deep copy of a list of events.
pub fn duplicate_events(events: &Vec<Event>) -> (r: Vec<Event>)
    ensures
        events_view(r@) == events_view(events@),
{
    let mut out: Vec<Event> = Vec::new();
    let mut i: usize = 0;
    while i < events.len()
        invariant
            i <= events.len(),
            out@.len() == i,
            forall|j: int| 0 <= j < i ==> out@[j]@ == events@[j]@,
        decreases events.len() - i,
    {
        out.push(events[i].duplicate());
        i += 1;
    }
    assert(events_view(out@) =~= events_view(events@));
    out
}

/// A source of an [`IndefiniteEvent`]: a value that names an operation and
/// turns itself into detail fields.
pub trait IntoEvent {
    /// The operation being recorded; the empty name unless the source says
    /// otherwise.
    fn operation(&self) -> (r: &'static str)
        default_ensures
            r@ == ""@,
    {
        ""
    }

    /// The detail fields of the event.
    fn details(&self) -> Vec<(String, DetailValue)>;
}

impl IntoEvent for Vec<(String, DetailValue)> {
    fn operation(&self) -> (r: &'static str)
        ensures
            r@ == ""@,
    {
        ""
    }

    fn details(&self) -> (r: Vec<(String, DetailValue)>)
        ensures
            fields_view(r@) == fields_view(self@),
    {
        duplicate_fields(self)
    }
}

/// A stored or a submitted event, read as a submitted one.
pub trait MaybeIndefinite: Sized {
    /// When the event was written, where it was: at no time, unless the event
    /// says otherwise.
    fn time(&self) -> (t: Option<u64>)
        default_ensures
            t is None,
    {
        None
    }

    /// The event without what a bucket assigned to it.
    fn as_indefinite(self) -> IndefiniteEvent;
}

impl MaybeIndefinite for IndefiniteEvent {
    fn time(&self) -> (t: Option<u64>)
        ensures
            t is None,
    {
        None
    }

    fn as_indefinite(self) -> (e: IndefiniteEvent)
        ensures
            e == self,
    {
        self
    }
}

impl MaybeIndefinite for Event {
    fn as_indefinite(self) -> (e: IndefiniteEvent)
        ensures
            e@ == self@.indefinite(),
    {
        IndefiniteEvent { caller: self.caller, operation: self.operation, details: self.details }
    }

    fn time(&self) -> (t: Option<u64>)
        ensures
            t == Some(self.time),
    {
        Some(self.time)
    }
}

/// Whether `fields` are the detail fields of a submitted event that `event`
/// can give when it is read as one.
pub open spec fn decoded_from<E: MaybeIndefinite>(
    event: E,
    fields: Vec<(String, DetailValue)>,
) -> bool {
    exists|submitted: IndefiniteEvent|
        call_ensures(E::as_indefinite, (event,), submitted) && fields == submitted.details
}

/// A value that can be decoded from an event.
pub trait TryFromEvent: Sized {
    type Error;

    /// Decodes the value from a stored or a submitted event.
    fn try_from_event<E: MaybeIndefinite>(event: E) -> Result<Self, Self::Error>;
}

impl TryFromEvent for Vec<(String, DetailValue)> {
    type Error = Infallible;

    /// The detail fields of the event, read as a submitted one: this never
    /// fails.
    fn try_from_event<E: MaybeIndefinite>(event: E) -> (r: Result<Self, Infallible>)
        ensures
            r is Ok,
            decoded_from(event, r->Ok_0),
    {
        Ok(details_of(event.as_indefinite()))
    }
}

/// The detail fields of a submitted event.
pub fn details_of(event: IndefiniteEvent) -> (r: Vec<(String, DetailValue)>)
    ensures
        r == event.details,
{
    event.details
}

/// Whether `event` is what `source` describes, submitted by `caller`: it has
/// the caller, an operation name that the source gives, and detail fields
/// that the source gives.
pub open spec fn described_by<T: IntoEvent>(
    source: &T,
    caller: Identity,
    event: IndefiniteEvent,
) -> bool {
    exists|operation: &'static str, details: Vec<(String, DetailValue)>|
        {
            &&& #[trigger] call_ensures(T::operation, (source,), operation)
            &&& #[trigger] call_ensures(T::details, (source,), details)
            &&& event.caller == caller
            &&& event.operation@ == operation@
            &&& event.details == details
        }
}

/// The event that `source` describes, submitted by `caller`.
pub fn event_from_source<T: IntoEvent>(caller: Identity, source: &T) -> (e: IndefiniteEvent)
    ensures
        e.caller == caller,
        described_by(source, caller, e),
{
    let operation = source.operation();
    let details = source.details();
    build_event(caller, operation, details)
}

/// The event with the given caller, operation name and detail fields.
pub fn build_event(caller: Identity, operation: &str, details: Vec<(String, DetailValue)>) -> (e:
    IndefiniteEvent)
    ensures
        e.caller == caller,
        e.operation@ == operation@,
        e.details == details,
{
    IndefiniteEvent { caller, operation: operation.to_owned(), details }
}

} // verus!
