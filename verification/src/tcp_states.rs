//! A TCP-like connection whose states carry their own data: the retry count
//! lives in the connecting state, and only the buffer and the session id are
//! shared between states.
use vstd::prelude::*;
use crate::text::{debug_quote, decimal, owned, push_decimal, push_str, quoted, str_eq};
use crate::tcp::{data_bytes, ignoring_text, random_u32, session_name};
use crate::sys::write_stdout_line;
use vstd::string::StrSliceExecFns;

verus! {

/// The data that travels with the connection whatever its state.
#[derive(Debug, Clone)]
pub struct SharedData {
    pub buffer: Vec<u8>,
    pub session_id: Option<String>,
}

/// The shared data as plain values: buffer and session id.
pub open spec fn shared_view(s: SharedData) -> (Seq<u8>, Option<Seq<char>>) {
    (s.buffer@, match s.session_id {
        Some(x) => Some(x@),
        None => None,
    })
}

/// The states; a connection attempt counts its retries.
#[derive(Debug, Clone, Copy, PartialEq, Eq, Structural)]
pub enum State {
    Disconnected,
    Connecting { retry_count: u32 },
    Connected,
    Error,
}

pub open spec fn state_label(s: State) -> Seq<char> {
    match s {
        State::Disconnected => "disconnected"@,
        State::Connecting { .. } => "connecting"@,
        State::Connected => "connected"@,
        State::Error => "error"@,
    }
}

/// What an event does: the next state, the next shared data and the line
/// announced. `n` is the random number a new session is named after.
pub open spec fn step(state: State, shared: (Seq<u8>, Option<Seq<char>>), event: Seq<char>, n: u32) -> (
    State,
    (Seq<u8>, Option<Seq<char>>),
    Seq<char>,
) {
    let (buffer, session) = shared;
    match state {
        State::Disconnected => if event == "connect"@ {
            (State::Connecting { retry_count: 0 }, shared, "Initiating connection..."@)
        } else {
            (state, shared, ignoring_text(event, "disconnected"@))
        },
        State::Connecting { retry_count } => if event == "connected"@ {
            (
                State::Connected,
                (buffer, Some(session_name(n))),
                "Connected with session Some("@ + quoted(session_name(n)) + ")"@,
            )
        } else if event == "timeout"@ {
            if retry_count + 1 >= 3 {
                (State::Error, shared, "Max retries exceeded"@)
            } else {
                (
                    State::Connecting { retry_count: (retry_count + 1) as u32 },
                    shared,
                    "Retrying... attempt "@ + decimal((retry_count + 1) as nat),
                )
            }
        } else {
            (state, shared, ignoring_text(event, "connecting"@))
        },
        State::Connected => if event == "data"@ {
            (
                state,
                (buffer + data_bytes(), session),
                "Data received, buffer size: "@ + decimal((buffer + data_bytes()).len()),
            )
        } else if event == "disconnect"@ {
            (State::Disconnected, (Seq::empty(), None), "Disconnected"@)
        } else if event == "error"@ {
            (State::Error, shared, "Connection error"@)
        } else {
            (state, shared, ignoring_text(event, "connected"@))
        },
        State::Error => if event == "reset"@ {
            (State::Disconnected, (Seq::empty(), None), "Reset to disconnected"@)
        } else {
            (state, shared, ignoring_text(event, "error"@))
        },
    }
}

/// Retry counts stay below the limit.
pub open spec fn state_ok(s: State) -> bool {
    s matches State::Connecting { retry_count } ==> retry_count < 3
}

/// Every event keeps retry counts below the limit.
pub proof fn lemma_step_keeps_retries_low(state: State, shared: (Seq<u8>, Option<Seq<char>>), event: Seq<char>, n: u32)
    requires
        state_ok(state),
    ensures
        state_ok(step(state, shared, event, n).0),
{
}

/// The connection law, event by event, whatever the shared data and the
/// session number: `connect` starts connecting from disconnected;
/// `connected` connects a connecting socket and names a session; `timeout`
/// retries until the third, which fails; while connected, `data` keeps the
/// state and appends the received bytes to the buffer, `disconnect` drops the buffer and session,
/// and `error` fails the connection; a failed connection waits for `reset`,
/// which brings it back to disconnected with nothing kept.
pub proof fn lemma_connection_events(shared: (Seq<u8>, Option<Seq<char>>), n: u32, retries: u32)
    ensures
        step(State::Disconnected, shared, "connect"@, n).0 == (State::Connecting { retry_count: 0 }),
        step(State::Connecting { retry_count: retries }, shared, "connected"@, n).0 == State::Connected,
        step(State::Connecting { retry_count: retries }, shared, "connected"@, n).1.1 is Some,
        retries + 1 >= 3 ==> step(State::Connecting { retry_count: retries }, shared, "timeout"@, n).0 == State::Error,
        retries + 1 < 3 ==> step(State::Connecting { retry_count: retries }, shared, "timeout"@, n).0
            == (State::Connecting { retry_count: (retries + 1) as u32 }),
        step(State::Connected, shared, "data"@, n).0 == State::Connected,
        step(State::Connected, shared, "data"@, n).1 == (shared.0 + data_bytes(), shared.1),
        step(State::Connected, shared, "disconnect"@, n).0 == State::Disconnected,
        step(State::Connected, shared, "disconnect"@, n).1 == (Seq::<u8>::empty(), None::<Seq<char>>),
        step(State::Connected, shared, "error"@, n).0 == State::Error,
        step(State::Error, shared, "reset"@, n).0 == State::Disconnected,
        step(State::Error, shared, "reset"@, n).1 == (Seq::<u8>::empty(), None::<Seq<char>>),
{
    reveal_strlit("connect");
    reveal_strlit("connected");
    reveal_strlit("timeout");
    reveal_strlit("data");
    reveal_strlit("disconnect");
    reveal_strlit("error");
    reveal_strlit("reset");
    assert("connected"@.len() != "timeout"@.len());
    assert("data"@.len() != "disconnect"@.len() && "data"@.len() != "error"@.len());
    assert("disconnect"@.len() != "error"@.len());
}

/// An event the current state does not know leaves the state and the shared
/// data as they are.
pub proof fn lemma_unknown_event_ignored(state: State, shared: (Seq<u8>, Option<Seq<char>>), event: Seq<char>, n: u32)
    requires
        event != "connect"@,
        event != "connected"@,
        event != "timeout"@,
        event != "data"@,
        event != "disconnect"@,
        event != "error"@,
        event != "reset"@,
    ensures
        step(state, shared, event, n).0 == state,
        step(state, shared, event, n).1 == shared,
{
}

impl State {
    /// The state's name.
    pub fn name(&self) -> (r: &'static str)
        ensures
            r@ == state_label(*self),
    {
        match self {
            State::Disconnected => "disconnected",
            State::Connecting { .. } => "connecting",
            State::Connected => "connected",
            State::Error => "error",
        }
    }

    /// Moves on `event`, changing the shared data, and gives the line to
    /// announce, as `step` says; `n` names a new session.
    pub fn handle_event(self, event: &str, shared: &mut SharedData, n: u32) -> (r: (State, String))
        requires
            state_ok(self),
        ensures
            r.0 == step(self, shared_view(*old(shared)), event@, n).0,
            shared_view(*final(shared)) == step(self, shared_view(*old(shared)), event@, n).1,
            r.1@ == step(self, shared_view(*old(shared)), event@, n).2,
    {
        match self {
            State::Disconnected => {
                if str_eq(event, "connect") {
                    (State::Connecting { retry_count: 0 }, owned("Initiating connection..."))
                } else {
                    (self, ignoring(event, "disconnected"))
                }
            },
            State::Connecting { retry_count } => {
                if str_eq(event, "connected") {
                    let mut id = String::new();
                    push_str(&mut id, "sess_");
                    push_decimal(&mut id, n as u64);
                    let mut m = String::new();
                    push_str(&mut m, "Connected with session Some(");
                    let q = debug_quote(id.as_str());
                    push_str(&mut m, q.as_str());
                    push_str(&mut m, ")");
                    shared.session_id = Some(id);
                    (State::Connected, m)
                } else if str_eq(event, "timeout") {
                    let new_count = retry_count + 1;
                    if new_count >= 3 {
                        (State::Error, owned("Max retries exceeded"))
                    } else {
                        let mut m = String::new();
                        push_str(&mut m, "Retrying... attempt ");
                        push_decimal(&mut m, new_count as u64);
                        (State::Connecting { retry_count: new_count }, m)
                    }
                } else {
                    (self, ignoring(event, "connecting"))
                }
            },
            State::Connected => {
                if str_eq(event, "data") {
                    let bytes = "received data".as_bytes_vec();
                    let ghost b0 = shared.buffer@;
                    let ghost s0 = shared.session_id;
                    let mut i: usize = 0;
                    while i < bytes.len()
                        invariant
                            shared.session_id == s0,
                            0 <= i <= bytes@.len(),
                            bytes@ == data_bytes(),
                            shared.buffer@ == b0 + bytes@.take(i as int),
                        decreases bytes@.len() - i,
                    {
                        shared.buffer.push(bytes[i]);
                        proof {
                            assert(bytes@.take(i + 1) == bytes@.take(i as int).push(bytes@[i as int]));
                        }
                        i = i + 1;
                    }
                    proof {
                        assert(bytes@.take(i as int) == bytes@);
                    }
                    let mut m = String::new();
                    push_str(&mut m, "Data received, buffer size: ");
                    push_decimal(&mut m, shared.buffer.len() as u64);
                    (State::Connected, m)
                } else if str_eq(event, "disconnect") {
                    shared.buffer.clear();
                    shared.session_id = None;
                    (State::Disconnected, owned("Disconnected"))
                } else if str_eq(event, "error") {
                    (State::Error, owned("Connection error"))
                } else {
                    (self, ignoring(event, "connected"))
                }
            },
            State::Error => {
                if str_eq(event, "reset") {
                    shared.buffer.clear();
                    shared.session_id = None;
                    (State::Disconnected, owned("Reset to disconnected"))
                } else {
                    (self, ignoring(event, "error"))
                }
            },
        }
    }
}

/// `Ignoring event <event> in <state> state`.
fn ignoring(event: &str, state: &str) -> (r: String)
    ensures
        r@ == ignoring_text(event@, state@),
{
    let mut m = String::new();
    push_str(&mut m, "Ignoring event ");
    push_str(&mut m, event);
    push_str(&mut m, " in ");
    push_str(&mut m, state);
    push_str(&mut m, " state");
    m
}

/// A connection: its state and the data its states share.
#[derive(Debug)]
pub struct TcpConnection {
    state: State,
    shared: SharedData,
}

impl TcpConnection {
    pub closed spec fn state(&self) -> State {
        self.state
    }

    pub closed spec fn shared(&self) -> (Seq<u8>, Option<Seq<char>>) {
        shared_view(self.shared)
    }

    pub fn new() -> (r: Self)
        ensures
            r.state() == State::Disconnected,
            r.shared() == (Seq::<u8>::empty(), None::<Seq<char>>),
    {
        TcpConnection { state: State::Disconnected, shared: SharedData { buffer: Vec::new(), session_id: None } }
    }

    /// Handles `event` and prints the line it announces; a new session is
    /// named after a random number.
    pub fn handle_event(&mut self, event: &str)
        requires
            state_ok(old(self).state()),
        ensures
            state_ok(final(self).state()),
            exists|n: u32| final(self).state() == (#[trigger] step(old(self).state(), old(self).shared(), event@, n)).0
                && final(self).shared() == step(old(self).state(), old(self).shared(), event@, n).1,
    {
        let n = if (self.state matches State::Connecting { .. }) && str_eq(event, "connected") {
            random_u32()
        } else {
            0
        };
        let (next, line) = self.state.handle_event(event, &mut self.shared, n);
        proof {
            lemma_step_keeps_retries_low(old(self).state(), old(self).shared(), event@, n);
        }
        self.state = next;
        let _ = write_stdout_line(line.as_str());
    }

    /// The name of the current state.
    pub fn state_name(&self) -> (r: &'static str)
        ensures
            r@ == state_label(self.state()),
    {
        self.state.name()
    }
}

} // verus!
