//! The listener: its limits, and how it admits, drains and aborts connections.

use vstd::prelude::*;

verus! {

/// The smallest read buffer that HTTP/1 connections work with.
pub const MIN_HTTP1_BUFFER_SIZE: usize = 8 * 1024;

/// A span of time.
#[derive(Clone, Copy, Debug, PartialEq, Eq, Structural)]
pub struct Timeout {
    pub secs: u64,
    pub nanos: u32,
}

impl Timeout {
    /// Whether this is no time at all.
    pub open spec fn spec_is_zero(self) -> bool {
        self.secs == 0 && self.nanos == 0
    }

    /// Whether this is no time at all.
    pub fn is_zero(self) -> (zero: bool)
        ensures
            zero == self.spec_is_zero(),
    {
        self.secs == 0 && self.nanos == 0
    }
}

/// Runtime limits and socket policy for a gateway listener.
///
/// The gateway streams request and response bodies, so these limits deliberately
/// protect connection and request-head resources without imposing a body-size or
/// whole-request timeout on uploads, downloads, or upgraded connections.
#[derive(Clone, Copy, Debug, PartialEq, Eq, Structural)]
pub struct GatewayConfig {
    /// Maximum simultaneously accepted downstream TCP connections.
    pub max_connections: usize,
    /// Maximum HTTP/1 read buffer size, including a request head.
    pub max_request_head_bytes: usize,
    /// Maximum time allowed to receive one HTTP request head.
    pub header_read_timeout: Timeout,
    /// Whether to enable `TCP_NODELAY` on each accepted socket.
    pub tcp_nodelay: bool,
}

impl Default for GatewayConfig {
    fn default() -> (config: GatewayConfig)
        ensures
            config.max_connections == 65_536,
            config.max_request_head_bytes == 32_768,
            config.header_read_timeout == (Timeout { secs: 15, nanos: 0 }),
            config.tcp_nodelay,
            config.is_valid(),
    {
        GatewayConfig {
            max_connections: 65_536,
            max_request_head_bytes: 32 * 1024,
            header_read_timeout: Timeout { secs: 15, nanos: 0 },
            tcp_nodelay: true,
        }
    }
}

/// A limit that a listener cannot work with.
#[derive(Clone, Copy, Debug, PartialEq, Eq, Structural)]
pub enum InvalidLimit {
    MaxConnections,
    MaxRequestHeadBytes,
    HeaderReadTimeout,
}

impl InvalidLimit {
    /// What the error says.
    pub open spec fn text(self) -> Seq<char> {
        match self {
            InvalidLimit::MaxConnections => "max_connections must be greater than zero"@,
            InvalidLimit::MaxRequestHeadBytes => "max_request_head_bytes must be at least 8192"@,
            InvalidLimit::HeaderReadTimeout => "header_read_timeout must be greater than zero"@,
        }
    }

    /// The error as a message for people.
    pub fn message(self) -> (message: &'static str)
        ensures
            message@ == self.text(),
    {
        match self {
            InvalidLimit::MaxConnections => "max_connections must be greater than zero",
            InvalidLimit::MaxRequestHeadBytes => "max_request_head_bytes must be at least 8192",
            InvalidLimit::HeaderReadTimeout => "header_read_timeout must be greater than zero",
        }
    }
}

impl GatewayConfig {
    /// The first limit that a listener cannot work with.
    pub open spec fn fault(self) -> Option<InvalidLimit> {
        if self.max_connections == 0 {
            Some(InvalidLimit::MaxConnections)
        } else if self.max_request_head_bytes < MIN_HTTP1_BUFFER_SIZE {
            Some(InvalidLimit::MaxRequestHeadBytes)
        } else if self.header_read_timeout.spec_is_zero() {
            Some(InvalidLimit::HeaderReadTimeout)
        } else {
            None
        }
    }

    /// Whether a listener can work with these limits.
    pub open spec fn is_valid(self) -> bool {
        self.fault() is None
    }

    /// Checks that a listener can work with these limits.
    pub fn validate(self) -> (result: Result<(), InvalidLimit>)
        ensures
            match result {
                Ok(_) => self.is_valid(),
                Err(limit) => self.fault() == Some(limit),
            },
    {
        if self.max_connections == 0 {
            return Err(InvalidLimit::MaxConnections);
        }
        if self.max_request_head_bytes < MIN_HTTP1_BUFFER_SIZE {
            return Err(InvalidLimit::MaxRequestHeadBytes);
        }
        if self.header_read_timeout.is_zero() {
            return Err(InvalidLimit::HeaderReadTimeout);
        }
        Ok(())
    }
}

/// What a listener is doing.
#[derive(Clone, Copy, Debug, PartialEq, Eq, Structural)]
pub enum Phase {
    /// It waits for connections, for tasks to end, and for the shutdown.
    Accepting,
    /// It has admitted a connection and sets its socket up.
    Configuring,
    /// It was shut down and waits for the running connections.
    Draining,
    /// The grace period is over; the running connections were aborted.
    Aborting,
    /// It has returned.
    Stopped,
}

/// What happened to a listener.
#[derive(Clone, Copy, Debug, PartialEq, Eq, Structural)]
pub enum ServeEvent {
    /// The shutdown was asked for.
    ShutdownRequested,
    /// Accepting a connection failed.
    AcceptFailed,
    /// A connection came in, and there was or was not a free permit for it.
    Accepted { permit: bool },
    /// Setting up the socket of the admitted connection succeeded or failed.
    Configured { ok: bool },
    /// The task of a running connection ended. It does so when the connection is
    /// over or was aborted; the tunnel of an upgraded connection is part of it.
    Joined,
    /// The grace period ended.
    GraceElapsed,
}

/// What a listener does next.
#[derive(Clone, Copy, Debug, PartialEq, Eq, Structural)]
pub enum ServeAction {
    /// Wait for the next event.
    Listen,
    /// Close the connection that came in, then wait.
    Reject,
    /// Set up the socket of the connection that came in.
    Configure { tcp_nodelay: bool },
    /// Serve the connection in a task of its own, with these limits, then wait.
    Spawn { header_read_timeout: Timeout, max_request_head_bytes: usize },
    /// Close the admitted connection and free its permit, then wait.
    Discard,
    /// Wait for the running connections, for no longer than the grace period.
    Drain,
    /// Abort the running connections and wait for them to end.
    AbortAll,
    /// Return with success.
    Finish,
    /// Return the error of accepting.
    Fail,
}

/// What happened to a connection.
#[derive(Clone, Copy, Debug, PartialEq, Eq, Structural)]
pub enum ConnectionEvent {
    /// An upgrade was agreed on: a tunnel will take the connection over.
    Upgraded,
    /// The last HTTP exchange on the connection is over.
    ServingEnded,
    /// A tunnel on the connection is over.
    TunnelEnded,
}

/// What the task of a connection does next.
#[derive(Clone, Copy, Debug, PartialEq, Eq, Structural)]
pub enum ConnectionAction {
    /// Keep the connection and its permit.
    Keep,
    /// Free the permit and end.
    Release,
}

/// The state of a connection: whether it speaks HTTP, and how many tunnels it has
/// that are not over.
pub ghost struct ConnectionState {
    pub serving: bool,
    pub tunnels: nat,
}

impl ConnectionState {
    /// Whether the connection can still carry data.
    pub open spec fn is_open(self) -> bool {
        self.serving || self.tunnels > 0
    }

    /// Whether an event can happen in this state.
    pub open spec fn allows(self, event: ConnectionEvent) -> bool {
        match event {
            ConnectionEvent::Upgraded => self.serving,
            ConnectionEvent::ServingEnded => self.serving,
            ConnectionEvent::TunnelEnded => self.tunnels > 0,
        }
    }

    /// What an event leads to.
    pub open spec fn step(self, event: ConnectionEvent) -> ConnectionState {
        match event {
            ConnectionEvent::Upgraded => ConnectionState { tunnels: self.tunnels + 1, ..self },
            ConnectionEvent::ServingEnded => ConnectionState { serving: false, ..self },
            ConnectionEvent::TunnelEnded => ConnectionState {
                tunnels: (self.tunnels - 1) as nat,
                ..self
            },
        }
    }
}

/// A connection, from its admission until it is over.
#[derive(Debug)]
pub struct Connection {
    serving: bool,
    tunnels: usize,
}

impl View for Connection {
    type V = ConnectionState;

    closed spec fn view(&self) -> ConnectionState {
        ConnectionState { serving: self.serving, tunnels: self.tunnels as nat }
    }
}

impl Connection {
    /// A connection that speaks HTTP.
    pub fn new() -> (connection: Connection)
        ensures
            connection@ == (ConnectionState { serving: true, tunnels: 0 }),
    {
        Connection { serving: true, tunnels: 0 }
    }

    /// The number of tunnels that are not over.
    pub fn tunnels(&self) -> (tunnels: usize)
        ensures
            tunnels == self@.tunnels,
    {
        self.tunnels
    }

    /// Takes note of an event and says what to do: the connection is kept, with
    /// its permit, as long as it can carry data. The tunnels are counted in a
    /// `usize`.
    pub fn step(&mut self, event: ConnectionEvent) -> (action: ConnectionAction)
        requires
            old(self)@.allows(event),
            event is Upgraded ==> old(self)@.tunnels < usize::MAX,
        ensures
            final(self)@ == old(self)@.step(event),
            action == if final(self)@.is_open() {
                ConnectionAction::Keep
            } else {
                ConnectionAction::Release
            },
    {
        match event {
            ConnectionEvent::Upgraded => {
                self.tunnels = self.tunnels + 1;
            },
            ConnectionEvent::ServingEnded => {
                self.serving = false;
            },
            ConnectionEvent::TunnelEnded => {
                self.tunnels = self.tunnels - 1;
            },
        }
        if self.serving || self.tunnels > 0 {
            ConnectionAction::Keep
        } else {
            ConnectionAction::Release
        }
    }
}

/// The state of a listener: `running` connections were spawned and not joined.
pub ghost struct ServeState {
    pub config: GatewayConfig,
    pub phase: Phase,
    pub running: nat,
}

impl ServeState {
    /// While it waits for connections to end, there are some.
    pub open spec fn is_valid(self) -> bool {
        &&& self.config.is_valid()
        &&& (self.phase is Draining || self.phase is Aborting) ==> self.running > 0
    }

    /// Whether an event can happen in this state.
    pub open spec fn allows(self, event: ServeEvent) -> bool {
        match event {
            ServeEvent::ShutdownRequested => self.phase is Accepting,
            ServeEvent::AcceptFailed => self.phase is Accepting,
            ServeEvent::Accepted { .. } => self.phase is Accepting,
            ServeEvent::Configured { .. } => self.phase is Configuring,
            ServeEvent::Joined => self.running > 0 && (self.phase is Accepting
                || self.phase is Draining || self.phase is Aborting),
            ServeEvent::GraceElapsed => self.phase is Draining,
        }
    }

    /// What an event leads to and what the listener does then.
    pub open spec fn step(self, event: ServeEvent) -> (ServeState, ServeAction) {
        match event {
            ServeEvent::ShutdownRequested => if self.running == 0 {
                (ServeState { phase: Phase::Stopped, ..self }, ServeAction::Finish)
            } else {
                (ServeState { phase: Phase::Draining, ..self }, ServeAction::Drain)
            },
            ServeEvent::AcceptFailed => (
                ServeState { phase: Phase::Stopped, ..self },
                ServeAction::Fail,
            ),
            ServeEvent::Accepted { permit } => if permit {
                (
                    ServeState { phase: Phase::Configuring, ..self },
                    ServeAction::Configure { tcp_nodelay: self.config.tcp_nodelay },
                )
            } else {
                (self, ServeAction::Reject)
            },
            ServeEvent::Configured { ok } => if ok {
                (
                    ServeState { phase: Phase::Accepting, running: self.running + 1, ..self },
                    ServeAction::Spawn {
                        header_read_timeout: self.config.header_read_timeout,
                        max_request_head_bytes: self.config.max_request_head_bytes,
                    },
                )
            } else {
                (ServeState { phase: Phase::Accepting, ..self }, ServeAction::Discard)
            },
            ServeEvent::Joined => {
                let fewer = ServeState { running: (self.running - 1) as nat, ..self };
                if self.phase is Accepting {
                    (fewer, ServeAction::Listen)
                } else if fewer.running == 0 {
                    (ServeState { phase: Phase::Stopped, ..fewer }, ServeAction::Finish)
                } else {
                    (fewer, ServeAction::Listen)
                }
            },
            ServeEvent::GraceElapsed => (
                ServeState { phase: Phase::Aborting, ..self },
                ServeAction::AbortAll,
            ),
        }
    }
}

/// A gateway listener, from its start until it returns.
#[derive(Debug)]
pub struct Server {
    config: GatewayConfig,
    phase: Phase,
    running: usize,
}

impl View for Server {
    type V = ServeState;

    closed spec fn view(&self) -> ServeState {
        ServeState { config: self.config, phase: self.phase, running: self.running as nat }
    }
}

impl Server {
    /// A listener with the given limits that is waiting for connections.
    pub fn new(config: GatewayConfig) -> (result: Result<Server, InvalidLimit>)
        ensures
            match result {
                Ok(server) => {
                    &&& server@ == ServeState { config, phase: Phase::Accepting, running: 0 }
                    &&& server@.is_valid()
                },
                Err(limit) => config.fault() == Some(limit),
            },
    {
        match config.validate() {
            Ok(_) => Ok(Server { config, phase: Phase::Accepting, running: 0 }),
            Err(limit) => Err(limit),
        }
    }

    /// The listener's limits.
    pub fn config(&self) -> (config: GatewayConfig)
        ensures
            config == self@.config,
    {
        self.config
    }

    /// What the listener is doing.
    pub fn phase(&self) -> (phase: Phase)
        ensures
            phase == self@.phase,
    {
        self.phase
    }

    /// The number of connections whose tasks have not been joined, those that
    /// were upgraded among them.
    pub fn running(&self) -> (running: usize)
        ensures
            running == self@.running,
    {
        self.running
    }

    /// Takes note of an event and says what to do. The running connections are
    /// counted in a `usize`.
    pub fn step(&mut self, event: ServeEvent) -> (action: ServeAction)
        requires
            old(self)@.is_valid(),
            old(self)@.allows(event),
            event == (ServeEvent::Configured { ok: true }) ==> old(self)@.running < usize::MAX,
        ensures
            (final(self)@, action) == old(self)@.step(event),
            final(self)@.is_valid(),
            final(self)@.config == old(self)@.config,
            action matches ServeAction::Spawn { header_read_timeout, max_request_head_bytes }
                ==> header_read_timeout == old(self)@.config.header_read_timeout
                && max_request_head_bytes == old(self)@.config.max_request_head_bytes,
            action matches ServeAction::Configure { tcp_nodelay } ==> tcp_nodelay == old(
                self,
            )@.config.tcp_nodelay,
    {
        match event {
            ServeEvent::ShutdownRequested => if self.running == 0 {
                self.phase = Phase::Stopped;
                ServeAction::Finish
            } else {
                self.phase = Phase::Draining;
                ServeAction::Drain
            },
            ServeEvent::AcceptFailed => {
                self.phase = Phase::Stopped;
                ServeAction::Fail
            },
            ServeEvent::Accepted { permit } => if permit {
                self.phase = Phase::Configuring;
                ServeAction::Configure { tcp_nodelay: self.config.tcp_nodelay }
            } else {
                ServeAction::Reject
            },
            ServeEvent::Configured { ok } => {
                self.phase = Phase::Accepting;
                if ok {
                    self.running = self.running + 1;
                    ServeAction::Spawn {
                        header_read_timeout: self.config.header_read_timeout,
                        max_request_head_bytes: self.config.max_request_head_bytes,
                    }
                } else {
                    ServeAction::Discard
                }
            },
            ServeEvent::Joined => {
                self.running = self.running - 1;
                if self.phase == Phase::Accepting || self.running > 0 {
                    ServeAction::Listen
                } else {
                    self.phase = Phase::Stopped;
                    ServeAction::Finish
                }
            },
            ServeEvent::GraceElapsed => {
                self.phase = Phase::Aborting;
                ServeAction::AbortAll
            },
        }
    }
}

} // verus!
