use brz_http_gateway::server::{MIN_HTTP1_BUFFER_SIZE, Phase};
use brz_http_gateway::{
    Connection, ConnectionAction, ConnectionEvent, GatewayConfig, InvalidLimit, ServeAction,
    ServeEvent, Server, Timeout,
};

fn listener() -> Server {
    Server::new(GatewayConfig::default()).unwrap()
}

fn open(server: &mut Server) {
    let configure = server.step(ServeEvent::Accepted { permit: true });
    assert_eq!(configure, ServeAction::Configure { tcp_nodelay: true });
    assert_eq!(server.phase(), Phase::Configuring);
    let spawn = server.step(ServeEvent::Configured { ok: true });
    let expected = ServeAction::Spawn {
        header_read_timeout: Timeout { secs: 15, nanos: 0 },
        max_request_head_bytes: 32 * 1024,
    };
    assert_eq!(spawn, expected);
    assert_eq!(server.phase(), Phase::Accepting);
}

#[test]
fn defaults_are_bounded() {
    let config = GatewayConfig::default();
    assert_eq!(config.max_connections, 65_536);
    assert_eq!(config.max_request_head_bytes, 32 * 1024);
    assert_eq!(config.header_read_timeout, Timeout { secs: 15, nanos: 0 });
    assert!(config.tcp_nodelay);
    assert!(config.validate().is_ok());
    assert_eq!(listener().config(), config);
}

#[test]
fn limits_are_checked_in_order() {
    let good = GatewayConfig::default();
    let mut config = GatewayConfig {
        max_connections: 0,
        max_request_head_bytes: 0,
        header_read_timeout: Timeout { secs: 0, nanos: 0 },
        tcp_nodelay: false,
    };
    assert_eq!(config.validate(), Err(InvalidLimit::MaxConnections));
    assert_eq!(Server::new(config).err(), Some(InvalidLimit::MaxConnections));
    config.max_connections = 1;
    assert_eq!(config.validate(), Err(InvalidLimit::MaxRequestHeadBytes));
    config.max_request_head_bytes = MIN_HTTP1_BUFFER_SIZE - 1;
    assert_eq!(config.validate(), Err(InvalidLimit::MaxRequestHeadBytes));
    config.max_request_head_bytes = 8192;
    assert_eq!(config.validate(), Err(InvalidLimit::HeaderReadTimeout));
    config.header_read_timeout = Timeout { secs: 0, nanos: 1 };
    assert_eq!(config.validate(), Ok(()));
    config.header_read_timeout = good.header_read_timeout;
    assert_eq!(config.validate(), Ok(()));
}

#[test]
fn invalid_limits_are_described() {
    assert_eq!(
        InvalidLimit::MaxConnections.message(),
        "max_connections must be greater than zero"
    );
    assert_eq!(
        InvalidLimit::MaxRequestHeadBytes.message(),
        "max_request_head_bytes must be at least 8192"
    );
    assert_eq!(
        InvalidLimit::HeaderReadTimeout.message(),
        "header_read_timeout must be greater than zero"
    );
}

#[test]
fn idle_listeners_stop_at_once() {
    let mut server = listener();
    assert_eq!(server.step(ServeEvent::ShutdownRequested), ServeAction::Finish);
    assert_eq!(server.phase(), Phase::Stopped);
    assert_eq!(server.running(), 0);
}

#[test]
fn connections_are_drained() {
    let mut server = listener();
    open(&mut server);
    open(&mut server);
    open(&mut server);
    assert_eq!(server.step(ServeEvent::Joined), ServeAction::Listen);
    assert_eq!(server.running(), 2);
    assert_eq!(server.step(ServeEvent::ShutdownRequested), ServeAction::Drain);
    assert_eq!(server.phase(), Phase::Draining);
    assert_eq!(server.step(ServeEvent::Joined), ServeAction::Listen);
    assert_eq!(server.phase(), Phase::Draining);
    assert_eq!(server.step(ServeEvent::Joined), ServeAction::Finish);
    assert_eq!(server.phase(), Phase::Stopped);
    assert_eq!(server.running(), 0);
}

#[test]
fn connections_are_aborted_after_the_grace_period() {
    let mut server = listener();
    open(&mut server);
    open(&mut server);
    assert_eq!(server.step(ServeEvent::ShutdownRequested), ServeAction::Drain);
    assert_eq!(server.step(ServeEvent::GraceElapsed), ServeAction::AbortAll);
    assert_eq!(server.phase(), Phase::Aborting);
    assert_eq!(server.step(ServeEvent::Joined), ServeAction::Listen);
    assert_eq!(server.step(ServeEvent::Joined), ServeAction::Finish);
    assert_eq!(server.phase(), Phase::Stopped);
}

#[test]
fn connections_beyond_the_limit_are_rejected() {
    let mut server = listener();
    open(&mut server);
    assert_eq!(server.step(ServeEvent::Accepted { permit: false }), ServeAction::Reject);
    assert_eq!(server.phase(), Phase::Accepting);
    assert_eq!(server.running(), 1);
}

#[test]
fn sockets_that_cannot_be_set_up_are_discarded() {
    let config = GatewayConfig { tcp_nodelay: false, ..GatewayConfig::default() };
    let mut server = Server::new(config).unwrap();
    let configure = server.step(ServeEvent::Accepted { permit: true });
    assert_eq!(configure, ServeAction::Configure { tcp_nodelay: false });
    assert_eq!(server.step(ServeEvent::Configured { ok: false }), ServeAction::Discard);
    assert_eq!(server.phase(), Phase::Accepting);
    assert_eq!(server.running(), 0);
}

#[test]
fn accept_errors_end_the_listener() {
    let mut server = listener();
    open(&mut server);
    assert_eq!(server.step(ServeEvent::AcceptFailed), ServeAction::Fail);
    assert_eq!(server.phase(), Phase::Stopped);
}

#[test]
fn joined_connections_leave_the_listener_accepting() {
    let mut server = listener();
    open(&mut server);
    assert_eq!(server.step(ServeEvent::Joined), ServeAction::Listen);
    assert_eq!(server.phase(), Phase::Accepting);
    open(&mut server);
    assert_eq!(server.running(), 1);
}

#[test]
fn only_no_time_at_all_is_zero() {
    assert!(Timeout { secs: 0, nanos: 0 }.is_zero());
    assert!(!Timeout { secs: 0, nanos: 1 }.is_zero());
    assert!(!Timeout { secs: 1, nanos: 0 }.is_zero());
}

#[test]
fn plain_connections_are_released_after_serving() {
    let mut connection = Connection::new();
    assert_eq!(connection.tunnels(), 0);
    assert_eq!(connection.step(ConnectionEvent::ServingEnded), ConnectionAction::Release);
}

#[test]
fn upgraded_connections_are_kept_until_their_tunnel_is_over() {
    let mut connection = Connection::new();
    assert_eq!(connection.step(ConnectionEvent::Upgraded), ConnectionAction::Keep);
    assert_eq!(connection.step(ConnectionEvent::Upgraded), ConnectionAction::Keep);
    assert_eq!(connection.step(ConnectionEvent::ServingEnded), ConnectionAction::Keep);
    assert_eq!(connection.tunnels(), 2);
    assert_eq!(connection.step(ConnectionEvent::TunnelEnded), ConnectionAction::Keep);
    assert_eq!(connection.step(ConnectionEvent::TunnelEnded), ConnectionAction::Release);
    assert_eq!(connection.tunnels(), 0);
}

#[test]
fn connections_that_still_serve_are_kept() {
    let mut connection = Connection::new();
    connection.step(ConnectionEvent::Upgraded);
    assert_eq!(connection.step(ConnectionEvent::TunnelEnded), ConnectionAction::Keep);
    assert_eq!(connection.step(ConnectionEvent::ServingEnded), ConnectionAction::Release);
}
