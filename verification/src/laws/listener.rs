//! What holds of a listener from its start until it returns.

use vstd::prelude::*;

use crate::server::{
    ConnectionEvent, ConnectionState, GatewayConfig, InvalidLimit, Phase, ServeAction, ServeEvent,
    ServeState,
};

verus! {

/// Whether `events` can happen to a listener one after the other.
pub open spec fn can_happen(state: ServeState, events: Seq<ServeEvent>) -> bool
    decreases events.len(),
{
    events.len() > 0 ==> can_happen(state, events.drop_last()) && after(
        state,
        events.drop_last(),
    ).allows(events.last())
}

/// The listener after `events`.
pub open spec fn after(state: ServeState, events: Seq<ServeEvent>) -> ServeState
    decreases events.len(),
{
    if events.len() == 0 {
        state
    } else {
        after(state, events.drop_last()).step(events.last()).0
    }
}

/// Limits are usable exactly when at least one connection, at least 8192 bytes of
/// request head and some time for it are allowed; otherwise the first limit that
/// is not is at fault.
pub proof fn law_usable_limits(config: GatewayConfig)
    ensures
        config.is_valid() <==> config.max_connections > 0 && config.max_request_head_bytes >= 8192
            && (config.header_read_timeout.secs > 0 || config.header_read_timeout.nanos > 0),
        config.fault() == Some(InvalidLimit::MaxConnections) <==> config.max_connections == 0,
        config.fault() == Some(InvalidLimit::MaxRequestHeadBytes) <==> config.max_connections > 0
            && config.max_request_head_bytes < 8192,
        config.fault() == Some(InvalidLimit::HeaderReadTimeout) <==> config.max_connections > 0
            && config.max_request_head_bytes >= 8192 && config.header_read_timeout.secs == 0
            && config.header_read_timeout.nanos == 0,
        config.fault() is None <==> config.is_valid(),
        config.header_read_timeout.spec_is_zero() <==> config.header_read_timeout.secs == 0
            && config.header_read_timeout.nanos == 0,
{
}

/// What an unusable limit says.
pub proof fn law_unusable_limits_say(limit: InvalidLimit)
    ensures
        limit is MaxConnections ==> limit.text() == "max_connections must be greater than zero"@,
        limit is MaxRequestHeadBytes ==> limit.text()
            == "max_request_head_bytes must be at least 8192"@,
        limit is HeaderReadTimeout ==> limit.text()
            == "header_read_timeout must be greater than zero"@,
{
}

/// Every connection is served and set up with the limits that the listener was
/// given, whatever they are.
pub proof fn law_connections_get_the_configured_limits(state: ServeState, event: ServeEvent)
    ensures
        state.step(event).1 matches ServeAction::Spawn {
            header_read_timeout,
            max_request_head_bytes,
        } ==> header_read_timeout == state.config.header_read_timeout && max_request_head_bytes
            == state.config.max_request_head_bytes,
        state.step(event).1 matches ServeAction::Configure { tcp_nodelay } ==> tcp_nodelay
            == state.config.tcp_nodelay,
        state.step(event).0.config == state.config,
{
}

/// After any events, a connection is served with the limits that the listener
/// started with.
pub proof fn law_limits_last(state: ServeState, events: Seq<ServeEvent>, event: ServeEvent)
    ensures
        after(state, events).step(event).1 matches ServeAction::Spawn {
            header_read_timeout,
            max_request_head_bytes,
        } ==> header_read_timeout == state.config.header_read_timeout && max_request_head_bytes
            == state.config.max_request_head_bytes,
        after(state, events).step(event).1 matches ServeAction::Configure { tcp_nodelay }
            ==> tcp_nodelay == state.config.tcp_nodelay,
{
    lemma_same_config(state, events);
}

proof fn lemma_same_config(state: ServeState, events: Seq<ServeEvent>)
    ensures
        after(state, events).config == state.config,
    decreases events.len(),
{
    if events.len() > 0 {
        lemma_same_config(state, events.drop_last());
    }
}

/// Which events can happen when: a listener that accepts is shut down, fails or
/// gets a connection; a socket that is set up succeeds or fails; connections end
/// while there are any, but not while a socket is set up; and only a listener
/// that drains runs out of time.
pub proof fn law_events_of_each_phase(state: ServeState, permit: bool, ok: bool)
    ensures
        state.allows(ServeEvent::ShutdownRequested) <==> state.phase == Phase::Accepting,
        state.allows(ServeEvent::AcceptFailed) <==> state.phase == Phase::Accepting,
        state.allows(ServeEvent::Accepted { permit }) <==> state.phase == Phase::Accepting,
        state.allows(ServeEvent::Configured { ok }) <==> state.phase == Phase::Configuring,
        state.allows(ServeEvent::Joined) <==> state.running > 0 && (state.phase == Phase::Accepting
            || state.phase == Phase::Draining || state.phase == Phase::Aborting),
        state.allows(ServeEvent::GraceElapsed) <==> state.phase == Phase::Draining,
        state.is_valid() <==> state.config.is_valid() && (state.phase == Phase::Draining
            || state.phase == Phase::Aborting ==> state.running > 0),
{
}

/// What a listener does, and when: each action comes for exactly these reasons.
pub proof fn law_actions_have_their_reasons(state: ServeState, event: ServeEvent)
    requires
        state.is_valid(),
        state.allows(event),
    ensures
        state.step(event).1 is Spawn <==> event == (ServeEvent::Configured { ok: true }),
        state.step(event).1 is Discard <==> event == (ServeEvent::Configured { ok: false }),
        state.step(event).1 is Configure <==> event == (ServeEvent::Accepted { permit: true }),
        state.step(event).1 is Reject <==> event == (ServeEvent::Accepted { permit: false }),
        state.step(event).1 is Fail <==> event == ServeEvent::AcceptFailed,
        state.step(event).1 is Drain <==> event == ServeEvent::ShutdownRequested && state.running
            > 0,
        state.step(event).1 is AbortAll <==> event == ServeEvent::GraceElapsed,
        state.step(event).1 is Finish <==> (event == ServeEvent::ShutdownRequested && state.running
            == 0) || (event == ServeEvent::Joined && state.phase != Phase::Accepting
            && state.running == 1),
        state.step(event).1 is Listen <==> event == ServeEvent::Joined && (state.phase
            == Phase::Accepting || state.running > 1),
{
}

/// Where each action leaves the listener.
pub proof fn law_actions_lead_on(state: ServeState, event: ServeEvent)
    requires
        state.is_valid(),
        state.allows(event),
    ensures
        state.step(event).1 is Spawn || state.step(event).1 is Discard || state.step(event).1
            is Reject ==> state.step(event).0.phase == Phase::Accepting,
        state.step(event).1 is Configure ==> state.step(event).0.phase == Phase::Configuring,
        state.step(event).1 is Drain ==> state.step(event).0.phase == Phase::Draining,
        state.step(event).1 is AbortAll ==> state.step(event).0.phase == Phase::Aborting,
        state.step(event).1 is Finish || state.step(event).1 is Fail ==> state.step(event).0.phase
            == Phase::Stopped,
        state.step(event).1 is Listen ==> state.step(event).0.phase == state.phase,
{
}

/// A connection that is served counts from then on, and one that is joined no
/// longer does; nothing else changes the count.
pub proof fn law_connections_are_counted(state: ServeState, event: ServeEvent)
    requires
        state.allows(event),
    ensures
        event == (ServeEvent::Configured { ok: true }) ==> state.step(event).0.running
            == state.running + 1,
        event == ServeEvent::Joined ==> state.step(event).0.running == state.running - 1,
        event != (ServeEvent::Configured { ok: true }) && event != ServeEvent::Joined
            ==> state.step(event).0.running == state.running,
{
}

/// A connection can carry data exactly as long as it speaks HTTP or has a tunnel;
/// upgrades add tunnels, and only an end takes anything away.
pub proof fn law_connections_and_tunnels(state: ConnectionState)
    ensures
        state.is_open() <==> state.serving || state.tunnels > 0,
        state.allows(ConnectionEvent::Upgraded) <==> state.serving,
        state.allows(ConnectionEvent::ServingEnded) <==> state.serving,
        state.allows(ConnectionEvent::TunnelEnded) <==> state.tunnels > 0,
        state.step(ConnectionEvent::Upgraded).serving == state.serving,
        state.step(ConnectionEvent::Upgraded).tunnels == state.tunnels + 1,
        !state.step(ConnectionEvent::ServingEnded).serving,
        state.step(ConnectionEvent::ServingEnded).tunnels == state.tunnels,
        state.step(ConnectionEvent::TunnelEnded).serving == state.serving,
        state.tunnels > 0 ==> state.step(ConnectionEvent::TunnelEnded).tunnels == state.tunnels
            - 1,
{
}

/// Every event that can happen to a listener in a valid state leads to a valid
/// state, with the same limits.
pub proof fn law_listeners_stay_valid(state: ServeState, events: Seq<ServeEvent>)
    requires
        state.is_valid(),
        can_happen(state, events),
    ensures
        after(state, events).is_valid(),
        after(state, events).config == state.config,
    decreases events.len(),
{
    if events.len() > 0 {
        law_listeners_stay_valid(state, events.drop_last());
    }
}

/// Whether a listener takes no more connections.
pub open spec fn is_closing(phase: Phase) -> bool {
    phase is Draining || phase is Aborting || phase is Stopped
}

/// A shutdown, and a failure to accept, close a listener for good: after it no
/// event has it set up or serve a connection, and the number of running
/// connections never grows.
pub proof fn law_closing_is_for_good(
    state: ServeState,
    events: Seq<ServeEvent>,
    event: ServeEvent,
)
    requires
        is_closing(state.phase),
        can_happen(state, events.push(event)),
    ensures
        is_closing(after(state, events).phase),
        after(state, events).running <= state.running,
        !(after(state, events).step(event).1 is Configure),
        !(after(state, events).step(event).1 is Spawn),
    decreases events.len(),
{
    assert(events.push(event).drop_last() =~= events);
    if events.len() > 0 {
        assert(events.drop_last().push(events.last()) =~= events);
        assert(can_happen(state, events));
        law_closing_is_for_good(state, events.drop_last(), events.last());
    }
}

/// The shutdown closes a listener, and so does a failure to accept.
pub proof fn law_shutdown_closes(state: ServeState, event: ServeEvent)
    requires
        event is ShutdownRequested || event is AcceptFailed,
    ensures
        is_closing(state.step(event).0.phase),
{
}

/// Nothing happens to a listener that has returned.
pub proof fn law_stopped_is_final(state: ServeState, event: ServeEvent)
    requires
        state.phase is Stopped,
    ensures
        !state.allows(event),
{
}

/// A listener that waits for its connections returns with success when the last
/// of them has ended, whether or not the grace period ends before.
pub proof fn law_draining_ends(state: ServeState, events: Seq<ServeEvent>)
    requires
        state.is_valid(),
        state.phase is Draining || state.phase is Aborting,
        events.len() == state.running,
        forall|i: int| 0 <= i < events.len() ==> #[trigger] events[i] is Joined,
    ensures
        can_happen(state, events),
        after(state, events).phase is Stopped,
        after(state, events.drop_last()).step(events.last()).1 is Finish,
{
    lemma_joins(state, events.drop_last());
    assert(events.last() == events[events.len() - 1]);
}

/// Fewer ends than there are connections leave the listener waiting.
proof fn lemma_joins(state: ServeState, events: Seq<ServeEvent>)
    requires
        state.is_valid(),
        state.phase is Draining || state.phase is Aborting,
        events.len() < state.running,
        forall|i: int| 0 <= i < events.len() ==> #[trigger] events[i] is Joined,
    ensures
        can_happen(state, events),
        after(state, events).phase == state.phase,
        after(state, events).running == state.running - events.len(),
    decreases events.len(),
{
    if events.len() > 0 {
        lemma_joins(state, events.drop_last());
        assert(events.last() == events[events.len() - 1]);
    }
}

/// What happens around a listener.
pub enum Occurrence {
    /// The listener takes note of an event.
    Event(ServeEvent),
    /// Something happens to one of its connections. A connection that is over
    /// frees its permit, before the listener learns of it.
    Connection(int, ConnectionEvent),
    /// A connection is aborted, and its tunnels with it.
    Aborted(int),
}

/// The number of connections that can still carry data, upgraded ones included.
pub open spec fn open_connections(connections: Seq<ConnectionState>) -> nat
    decreases connections.len(),
{
    if connections.len() == 0 {
        0
    } else {
        open_connections(connections.drop_last()) + if connections.last().is_open() {
            1nat
        } else {
            0
        }
    }
}

/// A listener, and all connections that it has served.
pub ghost struct Occupancy {
    pub state: ServeState,
    pub connections: Seq<ConnectionState>,
}

impl Occupancy {
    /// A listener that has just started.
    pub open spec fn is_fresh(self) -> bool {
        &&& self.state.is_valid()
        &&& self.state.phase is Accepting
        &&& self.state.running == 0
        &&& self.connections.len() == 0
    }

    /// The downstream connections that are open: those that can still carry
    /// data, and the one that is being set up.
    pub open spec fn open(self) -> nat {
        open_connections(self.connections) + if self.state.phase is Configuring {
            1nat
        } else {
            0
        }
    }

    /// Whether this can happen. Each open connection holds one of
    /// `max_connections` permits, so there is a free one exactly when fewer are
    /// open; and a connection is joined only when it is over.
    pub open spec fn allows(self, occurrence: Occurrence) -> bool {
        match occurrence {
            Occurrence::Event(event) => {
                &&& self.state.allows(event)
                &&& event matches ServeEvent::Accepted { permit } ==> permit == (self.open()
                    < self.state.config.max_connections)
                &&& event is Joined ==> open_connections(self.connections) < self.state.running
            },
            Occurrence::Connection(i, event) => 0 <= i < self.connections.len()
                && self.connections[i].allows(event),
            Occurrence::Aborted(i) => 0 <= i < self.connections.len(),
        }
    }

    /// What this leads to.
    pub open spec fn step(self, occurrence: Occurrence) -> Occupancy {
        match occurrence {
            Occurrence::Event(event) => Occupancy {
                state: self.state.step(event).0,
                connections: if self.state.step(event).1 is Spawn {
                    self.connections.push(ConnectionState { serving: true, tunnels: 0 })
                } else {
                    self.connections
                },
            },
            Occurrence::Connection(i, event) => Occupancy {
                connections: self.connections.update(i, self.connections[i].step(event)),
                ..self
            },
            Occurrence::Aborted(i) => Occupancy {
                connections: self.connections.update(
                    i,
                    ConnectionState { serving: false, tunnels: 0 },
                ),
                ..self
            },
        }
    }

    /// Whether `occurrences` can happen one after the other.
    pub open spec fn can_see(self, occurrences: Seq<Occurrence>) -> bool
        decreases occurrences.len(),
    {
        occurrences.len() > 0 ==> self.can_see(occurrences.drop_last()) && self.past(
            occurrences.drop_last(),
        ).allows(occurrences.last())
    }

    /// The listener and its connections after `occurrences`.
    pub open spec fn past(self, occurrences: Seq<Occurrence>) -> Occupancy
        decreases occurrences.len(),
    {
        if occurrences.len() == 0 {
            self
        } else {
            self.past(occurrences.drop_last()).step(occurrences.last())
        }
    }
}

/// Nothing that happens to a connection opens it again.
pub proof fn law_closed_connections_stay_closed(state: ConnectionState, event: ConnectionEvent)
    requires
        state.allows(event),
    ensures
        state.step(event).is_open() ==> state.is_open(),
{
}

/// An upgraded connection is open until it has stopped speaking HTTP and its
/// last tunnel is over.
pub proof fn law_tunnels_keep_a_connection_open(state: ConnectionState, event: ConnectionEvent)
    requires
        state.allows(event),
        !state.step(event).is_open(),
    ensures
        event is ServingEnded || event is TunnelEnded,
        !state.step(event).serving,
        state.step(event).tunnels == 0,
        state.is_open(),
{
}

proof fn lemma_open_connections_update(
    connections: Seq<ConnectionState>,
    i: int,
    next: ConnectionState,
)
    requires
        0 <= i < connections.len(),
        next.is_open() ==> connections[i].is_open(),
    ensures
        open_connections(connections.update(i, next)) <= open_connections(connections),
    decreases connections.len(),
{
    let updated = connections.update(i, next);
    if i < connections.len() - 1 {
        lemma_open_connections_update(connections.drop_last(), i, next);
        assert(updated.drop_last() =~= connections.drop_last().update(i, next));
    } else {
        assert(updated.drop_last() =~= connections.drop_last());
    }
}

proof fn lemma_no_open_connections(connections: Seq<ConnectionState>)
    requires
        open_connections(connections) == 0,
    ensures
        forall|i: int| 0 <= i < connections.len() ==> !(#[trigger] connections[i]).is_open(),
    decreases connections.len(),
{
    if connections.len() > 0 {
        let shorter = connections.drop_last();
        lemma_no_open_connections(shorter);
        assert forall|i: int| 0 <= i < connections.len() implies !(
        #[trigger] connections[i]).is_open() by {
            if i < shorter.len() {
                assert(!shorter[i].is_open());
            }
        }
    }
}

/// At no time are more than `max_connections` downstream connections open,
/// upgraded ones included; and all of them are running, as the listener counts.
pub proof fn law_connections_are_limited(start: Occupancy, occurrences: Seq<Occurrence>)
    requires
        start.is_fresh(),
        start.can_see(occurrences),
    ensures
        start.past(occurrences).open() <= start.state.config.max_connections,
        open_connections(start.past(occurrences).connections) <= start.past(
            occurrences,
        ).state.running,
        start.past(occurrences).state.config == start.state.config,
    decreases occurrences.len(),
{
    if occurrences.len() > 0 {
        law_connections_are_limited(start, occurrences.drop_last());
        let before = start.past(occurrences.drop_last());
        match occurrences.last() {
            Occurrence::Event(_) => {
                let fresh = ConnectionState { serving: true, tunnels: 0 };
                assert(before.connections.push(fresh).drop_last() =~= before.connections);
            },
            Occurrence::Connection(i, event) => {
                lemma_open_connections_update(
                    before.connections,
                    i,
                    before.connections[i].step(event),
                );
            },
            Occurrence::Aborted(i) => {
                let gone = ConnectionState { serving: false, tunnels: 0 };
                lemma_open_connections_update(before.connections, i, gone);
            },
        }
    }
}

/// A connection is turned away exactly when the limit is reached.
pub proof fn law_connections_are_rejected_at_the_limit(now: Occupancy, permit: bool)
    requires
        now.allows(Occurrence::Event(ServeEvent::Accepted { permit })),
    ensures
        now.state.step(ServeEvent::Accepted { permit }).1 is Reject <==> now.open()
            >= now.state.config.max_connections,
{
}

/// When a listener returns with success, every connection that it served is
/// over: none speaks HTTP, and none carries the data of a tunnel.
pub proof fn law_success_means_drained(
    start: Occupancy,
    occurrences: Seq<Occurrence>,
    event: ServeEvent,
)
    requires
        start.is_fresh(),
        start.can_see(occurrences.push(Occurrence::Event(event))),
        start.past(occurrences).state.step(event).1 is Finish,
    ensures
        start.past(occurrences.push(Occurrence::Event(event))).state.phase is Stopped,
        start.past(occurrences.push(Occurrence::Event(event))).state.running == 0,
        forall|i: int|
            #![trigger start.past(occurrences.push(Occurrence::Event(event))).connections[i]]
            0 <= i < start.past(occurrences.push(Occurrence::Event(event))).connections.len() ==> {
                let connection = start.past(
                    occurrences.push(Occurrence::Event(event)),
                ).connections[i];
                !connection.serving && connection.tunnels == 0
            },
{
    let all = occurrences.push(Occurrence::Event(event));
    assert(all.drop_last() =~= occurrences);
    law_connections_are_limited(start, all);
    lemma_no_open_connections(start.past(all).connections);
}

} // verus!
