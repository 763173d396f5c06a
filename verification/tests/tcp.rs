use designkit::tcp::{ConnState, ConnectionContext, TcpConnection};
use designkit::tcp_states::{self, SharedData, State};

#[test]
fn connect_timeout_three_times_errors() {
    let mut ctx = ConnectionContext::new();
    let (s, m) = ConnState::Disconnected.handle_event("connect", &mut ctx, 0);
    assert_eq!(s, ConnState::Connecting);
    assert_eq!(m, "Initiating connection...");
    let (s, m) = s.handle_event("timeout", &mut ctx, 0);
    assert_eq!((s, m.as_str()), (ConnState::Connecting, "Retrying... attempt 1"));
    let (s, m) = s.handle_event("timeout", &mut ctx, 0);
    assert_eq!((s, m.as_str()), (ConnState::Connecting, "Retrying... attempt 2"));
    let (s, m) = s.handle_event("timeout", &mut ctx, 0);
    assert_eq!((s, m.as_str()), (ConnState::Error, "Max retries exceeded"));
    let (s, m) = s.handle_event("reset", &mut ctx, 0);
    assert_eq!((s, m.as_str()), (ConnState::Disconnected, "Reset to disconnected"));
    assert_eq!(ctx.retry_count, 0);
}

#[test]
fn session_and_data() {
    let mut ctx = ConnectionContext::new();
    let (s, _) = ConnState::Disconnected.handle_event("connect", &mut ctx, 0);
    let (s, m) = s.handle_event("connected", &mut ctx, 42);
    assert_eq!(s, ConnState::Connected);
    assert_eq!(ctx.session_id.as_deref(), Some("sess_42"));
    assert_eq!(m, "Connected with session Some(\"sess_42\")");
    let (s, m) = s.handle_event("data", &mut ctx, 0);
    assert_eq!(m, "Data received, buffer size: 13");
    assert_eq!(ctx.buffer, b"received data".to_vec());
    let (s, m) = s.handle_event("bogus", &mut ctx, 0);
    assert_eq!(m, "Ignoring event bogus in connected state");
    let (s, m) = s.handle_event("disconnect", &mut ctx, 0);
    assert_eq!((s, m.as_str()), (ConnState::Disconnected, "Disconnected"));
    assert!(ctx.buffer.is_empty());
    assert!(ctx.session_id.is_none());
}

#[test]
fn connection_facade() {
    let mut c = TcpConnection::new();
    assert_eq!(c.current(), ConnState::Disconnected);
    c.handle_event("connect");
    c.handle_event("connected");
    assert_eq!(c.current(), ConnState::Connected);
    assert!(c.session_id().unwrap().starts_with("sess_"));
    c.handle_event("data");
    c.handle_event("data");
    assert_eq!(c.buffered(), 26);
    c.handle_event("error");
    assert_eq!(c.current(), ConnState::Error);
    c.handle_event("connect");
    assert_eq!(c.current(), ConnState::Error);
    c.handle_event("reset");
    assert_eq!(c.current(), ConnState::Disconnected);
    assert!(c.session_id().is_none());
}

#[test]
fn states_with_own_retry_count() {
    let mut shared = SharedData { buffer: Vec::new(), session_id: None };
    let (s, _) = State::Disconnected.handle_event("connect", &mut shared, 0);
    assert_eq!(s, State::Connecting { retry_count: 0 });
    assert_eq!(s.name(), "connecting");
    let (s, m) = s.handle_event("timeout", &mut shared, 0);
    assert_eq!(s, State::Connecting { retry_count: 1 });
    assert_eq!(m, "Retrying... attempt 1");
    let (s, _) = s.handle_event("timeout", &mut shared, 0);
    let (s, m) = s.handle_event("timeout", &mut shared, 0);
    assert_eq!(s, State::Error);
    assert_eq!(m, "Max retries exceeded");
    let (s, m) = s.handle_event("data", &mut shared, 0);
    assert_eq!(m, "Ignoring event data in error state");
    assert_eq!(s.name(), "error");
}

#[test]
fn states_facade_names() {
    let mut c = tcp_states::TcpConnection::new();
    assert_eq!(c.state_name(), "disconnected");
    c.handle_event("connect");
    assert_eq!(c.state_name(), "connecting");
    c.handle_event("connected");
    assert_eq!(c.state_name(), "connected");
    c.handle_event("disconnect");
    assert_eq!(c.state_name(), "disconnected");
}
