//! Where events go.
use vstd::prelude::*;

verus! {

/// Who listens to events.
#[derive(Clone, Copy, PartialEq, Eq, Structural, Debug)]
pub enum EventEmitter {
    /// The web view of a desktop application. A broadcaster to web clients and a bus to
    /// consumers in the process may be registered with it.
    Tauri { broadcaster: bool, bus: bool },
    /// Web clients and consumers in the process.
    WebOnly,
    /// No one.
    Noop,
}

/// An event of a connection, with its number.
#[derive(Debug)]
pub struct EventEnvelope<P> {
    pub seq: u64,
    pub connection_id: String,
    pub payload: P,
}

/// The model of an [`EventEnvelope`].
pub struct EnvelopeView<P> {
    pub seq: nat,
    pub connection_id: Seq<char>,
    pub payload: P,
}

impl<P> View for EventEnvelope<P> {
    type V = EnvelopeView<P>;

    open spec fn view(&self) -> EnvelopeView<P> {
        EnvelopeView {
            seq: self.seq as nat,
            connection_id: self.connection_id@,
            payload: self.payload,
        }
    }
}

/// Where an event of the application goes.
#[derive(Clone, Copy, PartialEq, Eq, Structural, Debug)]
pub struct EventRoute {
    pub web_view: bool,
    pub web_clients: bool,
}

/// A place that an event can go to.
#[derive(Clone, Copy, PartialEq, Eq, Structural, Debug)]
pub enum Destination {
    /// The state of the connection, which the event is applied to.
    State,
    /// The latest events of the connection.
    Recent,
    /// The stream of the connection.
    Stream,
    /// The web view of the desktop application.
    WebView,
    /// The bus to consumers in the process.
    Bus,
    /// The broadcaster to all web clients.
    WebClients,
}

impl EventEmitter {
    /// Web clients and consumers in the process.
    pub fn web_only() -> (r: EventEmitter)
        ensures
            r == EventEmitter::WebOnly,
    {
        EventEmitter::WebOnly
    }

    /// There is a bus to consumers in the process.
    pub open spec fn has_bus(self) -> bool {
        match self {
            EventEmitter::Tauri { bus, .. } => bus,
            EventEmitter::WebOnly => true,
            EventEmitter::Noop => false,
        }
    }

    /// Whether there is a bus to consumers in the process.
    pub fn acp_event_bus(self) -> (r: bool)
        ensures
            r == self.has_bus(),
    {
        match self {
            EventEmitter::Tauri { bus, .. } => bus,
            EventEmitter::WebOnly => true,
            EventEmitter::Noop => false,
        }
    }

    /// Whether there are counters, which come with the bus.
    pub fn metrics(self) -> (r: bool)
        ensures
            r == self.has_bus(),
    {
        self.acp_event_bus()
    }
}

/// Whether a message goes out to web clients: only if it could be written down and
/// someone listens.
pub fn should_broadcast(serialized: bool, receivers: usize) -> (r: bool)
    ensures
        r == (serialized && receivers > 0),
{
    serialized && receivers > 0
}

/// Where an event of the application goes. One that cannot be written down goes nowhere.
pub open spec fn event_route(emitter: EventEmitter, serialized: bool, receivers: nat) -> EventRoute {
    match emitter {
        EventEmitter::Tauri { broadcaster, .. } => EventRoute {
            web_view: serialized,
            web_clients: serialized && broadcaster && receivers > 0,
        },
        EventEmitter::WebOnly => EventRoute {
            web_view: false,
            web_clients: serialized && receivers > 0,
        },
        EventEmitter::Noop => EventRoute { web_view: false, web_clients: false },
    }
}

/// Where an event of the application goes. `serialized` tells whether it could be written
/// down, and `receivers` how many web clients listen.
pub fn emit_event(emitter: EventEmitter, serialized: bool, receivers: usize) -> (r: EventRoute)
    ensures
        r == event_route(emitter, serialized, receivers as nat),
{
    match emitter {
        EventEmitter::Tauri { broadcaster, .. } => EventRoute {
            web_view: serialized,
            web_clients: broadcaster && should_broadcast(serialized, receivers),
        },
        EventEmitter::WebOnly => EventRoute {
            web_view: false,
            web_clients: should_broadcast(serialized, receivers),
        },
        EventEmitter::Noop => EventRoute { web_view: false, web_clients: false },
    }
}

/// Where an event of a connection goes, in order. Web clients have it from the stream
/// of the connection, not from the broadcaster.
pub open spec fn destinations(emitter: EventEmitter) -> Seq<Destination> {
    let own = seq![Destination::State, Destination::Recent, Destination::Stream];
    let shown = if emitter is Tauri {
        own.push(Destination::WebView)
    } else {
        own
    };
    if emitter.has_bus() {
        shown.push(Destination::Bus)
    } else {
        shown
    }
}

/// How many events that had to make room among the latest ones are to be counted: the
/// counters come with the bus.
pub fn counted_evictions(emitter: EventEmitter, evicted: u64) -> (r: u64)
    ensures
        r == if emitter.has_bus() {
            evicted
        } else {
            0
        },
{
    if emitter.metrics() {
        evicted
    } else {
        0
    }
}

/// The envelope of the next event of a connection, of which `event_seq` is the number of
/// the last.
pub open spec fn next_envelope<P>(
    event_seq: nat,
    connection_id: Seq<char>,
    payload: P,
) -> EnvelopeView<P> {
    EnvelopeView { seq: event_seq + 1, connection_id, payload }
}

/// Gives an event of a connection its number, and tells where it goes, in order.
pub fn emit_with_state<P>(
    event_seq: &mut u64,
    connection_id: &str,
    payload: P,
    emitter: EventEmitter,
) -> (r: (EventEnvelope<P>, Vec<Destination>))
    requires
        *old(event_seq) < u64::MAX,
    ensures
        *final(event_seq) == *old(event_seq) + 1,
        r.0@ == next_envelope(*old(event_seq) as nat, connection_id@, payload),
        r.1@ == destinations(emitter),
{
    *event_seq = *event_seq + 1;
    let mut to: Vec<Destination> = Vec::new();
    to.push(Destination::State);
    to.push(Destination::Recent);
    to.push(Destination::Stream);
    match emitter {
        EventEmitter::Tauri { .. } => to.push(Destination::WebView),
        _ => {},
    }
    if emitter.acp_event_bus() {
        to.push(Destination::Bus);
    }
    assert(to@ =~= destinations(emitter));
    (EventEnvelope { seq: *event_seq, connection_id: connection_id.to_owned(), payload }, to)
}

/// The envelopes of several events of a connection, one after the other.
pub open spec fn next_envelopes<P>(
    event_seq: nat,
    connection_id: Seq<char>,
    payloads: Seq<P>,
) -> Seq<EnvelopeView<P>>
    decreases payloads.len(),
{
    if payloads.len() == 0 {
        Seq::empty()
    } else {
        let before = next_envelopes(event_seq, connection_id, payloads.drop_last());
        let last = if before.len() == 0 {
            event_seq
        } else {
            before.last().seq
        };
        before.push(next_envelope(last, connection_id, payloads.last()))
    }
}

/// The events of a connection are numbered without a gap: each has the number of the one
/// before and one more, and carries what was sent, in the order in which it was sent.
pub proof fn law_events_are_numbered_without_gap<P>(
    event_seq: nat,
    connection_id: Seq<char>,
    payloads: Seq<P>,
)
    ensures
        next_envelopes(event_seq, connection_id, payloads).len() == payloads.len(),
        forall|i: int|
            0 <= i < payloads.len() ==> #[trigger] next_envelopes(
                event_seq,
                connection_id,
                payloads,
            )[i] == (EnvelopeView {
                seq: (event_seq + i + 1) as nat,
                connection_id,
                payload: payloads[i],
            }),
    decreases payloads.len(),
{
    if payloads.len() > 0 {
        law_events_are_numbered_without_gap(event_seq, connection_id, payloads.drop_last());
        let before = next_envelopes(event_seq, connection_id, payloads.drop_last());
        if before.len() > 0 {
            assert(before[before.len() - 1].seq == event_seq + before.len());
        }
    }
}

/// An event of a connection is delivered once to each place that it goes to: to the
/// state, the latest events and the stream of its connection always, to the web view in
/// the desktop application, to the bus where there is one, and never to the broadcaster.
pub proof fn law_event_is_delivered_once(emitter: EventEmitter)
    ensures
        destinations(emitter).no_duplicates(),
        destinations(emitter).contains(Destination::State),
        destinations(emitter).contains(Destination::Recent),
        destinations(emitter).contains(Destination::Stream),
        destinations(emitter).contains(Destination::WebView) <==> emitter is Tauri,
        destinations(emitter).contains(Destination::Bus) <==> emitter.has_bus(),
        !destinations(emitter).contains(Destination::WebClients),
{
    let to = destinations(emitter);
    assert(to[0] == Destination::State);
    assert(to[1] == Destination::Recent);
    assert(to[2] == Destination::Stream);
    if emitter is Tauri {
        assert(to[3] == Destination::WebView);
    }
    if emitter.has_bus() {
        assert(to[to.len() - 1] == Destination::Bus);
    }
}

/// Where no one listens, an event of the application goes nowhere, and one of a
/// connection stays with the connection.
pub proof fn law_silent_emitter_tells_no_one(serialized: bool, receivers: nat)
    ensures
        event_route(EventEmitter::Noop, serialized, receivers) == (EventRoute {
            web_view: false,
            web_clients: false,
        }),
        destinations(EventEmitter::Noop) == seq![
            Destination::State,
            Destination::Recent,
            Destination::Stream,
        ],
{
}

/// An event that could be written goes to the web view of a desktop application, and to the
/// web clients if any listens and, on the desktop, a broadcaster is there. One that could
/// not be written goes nowhere.
pub proof fn law_application_event_goes_to_whoever_listens(
    broadcaster: bool,
    bus: bool,
    receivers: nat,
    emitter: EventEmitter,
)
    ensures
        event_route(EventEmitter::Tauri { broadcaster, bus }, true, receivers).web_view,
        event_route(EventEmitter::Tauri { broadcaster, bus }, true, receivers).web_clients
            <==> broadcaster && receivers > 0,
        !event_route(EventEmitter::WebOnly, true, receivers).web_view,
        event_route(EventEmitter::WebOnly, true, receivers).web_clients <==> receivers > 0,
        !event_route(emitter, false, receivers).web_view,
        !event_route(emitter, false, receivers).web_clients,
{
}

/// A bus is there where a desktop application registered one, and always where there are
/// only web clients; the silent emitter has none.
pub proof fn law_who_has_a_bus(broadcaster: bool, bus: bool)
    ensures
        (EventEmitter::Tauri { broadcaster, bus }).has_bus() == bus,
        EventEmitter::WebOnly.has_bus(),
        !EventEmitter::Noop.has_bus(),
{
}

/// Where the event of a connection goes, in order: its state, its latest events and its
/// stream, and from there to the web view of the desktop and to the bus, where there are
/// any.
pub proof fn law_connection_event_goes_in_order(broadcaster: bool)
    ensures
        destinations(EventEmitter::Tauri { broadcaster, bus: true }) == seq![
            Destination::State,
            Destination::Recent,
            Destination::Stream,
            Destination::WebView,
            Destination::Bus,
        ],
        destinations(EventEmitter::Tauri { broadcaster, bus: false }) == seq![
            Destination::State,
            Destination::Recent,
            Destination::Stream,
            Destination::WebView,
        ],
        destinations(EventEmitter::WebOnly) == seq![
            Destination::State,
            Destination::Recent,
            Destination::Stream,
            Destination::Bus,
        ],
{
}


} // verus!
