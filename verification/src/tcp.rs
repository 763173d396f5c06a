//! A TCP-like connection as a state machine: four states, events by name,
//! and a context the states share (a receive buffer, a retry count and the
//! session id). Each event moves the machine and announces what it did.
use vstd::prelude::*;
use vstd::string::StrSliceExecFns;
use vstd::utf8::encode_utf8;
use crate::text::{debug_quote, decimal, owned, push_decimal, push_str, quoted, str_eq};
use crate::sys::write_stdout_line;

verus! {

/// A random `u32` (`rand::random`). Nothing is promised of it: it is chance.
#[verifier::external_body]
pub(crate) fn random_u32() -> u32 {
    rand::random::<u32>()
}

/// What every state can read and change.
#[derive(Debug, Clone)]
pub struct ConnectionContext {
    pub buffer: Vec<u8>,
    pub retry_count: u32,
    pub session_id: Option<String>,
}

impl ConnectionContext {
    pub fn new() -> (r: Self)
        ensures
            r.buffer@ == Seq::<u8>::empty(),
            r.retry_count == 0,
            r.session_id is None,
    {
        ConnectionContext { buffer: Vec::new(), retry_count: 0, session_id: None }
    }

    /// Back to the state of a new context.
    pub fn reset(&mut self)
        ensures
            final(self).buffer@ == Seq::<u8>::empty(),
            final(self).retry_count == 0,
            final(self).session_id is None,
    {
        self.buffer.clear();
        self.session_id = None;
        self.retry_count = 0;
    }
}

/// The states of a connection.
#[derive(Debug, Clone, Copy, PartialEq, Eq, Structural)]
pub enum ConnState {
    Disconnected,
    Connecting,
    Connected,
    Error,
}

/// The bytes a `data` event adds to the buffer.
pub open spec fn data_bytes() -> Seq<u8> {
    encode_utf8("received data"@)
}

/// The session id made of a random number.
pub open spec fn session_name(n: u32) -> Seq<char> {
    "sess_"@ + decimal(n as nat)
}

/// The context as plain values: buffer, retry count, session id.
pub open spec fn ctx_view(c: ConnectionContext) -> (Seq<u8>, u32, Option<Seq<char>>) {
    (c.buffer@, c.retry_count, match c.session_id {
        Some(s) => Some(s@),
        None => None,
    })
}

/// `Ignoring event <event> in <state> state`.
pub open spec fn ignoring_text(event: Seq<char>, state: Seq<char>) -> Seq<char> {
    "Ignoring event "@ + event + " in "@ + state + " state"@
}

/// What an event does: the next state, the next context and the line
/// announced. `n` is the random number a new session is named after.
pub open spec fn transition(
    state: ConnState,
    ctx: (Seq<u8>, u32, Option<Seq<char>>),
    event: Seq<char>,
    n: u32,
) -> (ConnState, (Seq<u8>, u32, Option<Seq<char>>), Seq<char>) {
    let (buffer, retries, session) = ctx;
    match state {
        ConnState::Disconnected => if event == "connect"@ {
            (ConnState::Connecting, (buffer, 0, session), "Initiating connection..."@)
        } else {
            (state, ctx, ignoring_text(event, "disconnected"@))
        },
        ConnState::Connecting => if event == "connected"@ {
            (
                ConnState::Connected,
                (buffer, retries, Some(session_name(n))),
                "Connected with session Some("@ + quoted(session_name(n)) + ")"@,
            )
        } else if event == "timeout"@ {
            if retries + 1 >= 3 {
                (ConnState::Error, (buffer, (retries + 1) as u32, session), "Max retries exceeded"@)
            } else {
                (
                    ConnState::Connecting,
                    (buffer, (retries + 1) as u32, session),
                    "Retrying... attempt "@ + decimal((retries + 1) as nat),
                )
            }
        } else {
            (state, ctx, ignoring_text(event, "connecting"@))
        },
        ConnState::Connected => if event == "data"@ {
            (
                state,
                (buffer + data_bytes(), retries, session),
                "Data received, buffer size: "@ + decimal((buffer + data_bytes()).len()),
            )
        } else if event == "disconnect"@ {
            (ConnState::Disconnected, (Seq::empty(), retries, None), "Disconnected"@)
        } else if event == "error"@ {
            (ConnState::Error, ctx, "Connection error"@)
        } else {
            (state, ctx, ignoring_text(event, "connected"@))
        },
        ConnState::Error => if event == "reset"@ {
            (ConnState::Disconnected, (Seq::empty(), 0, None), "Reset to disconnected"@)
        } else {
            (state, ctx, ignoring_text(event, "error"@))
        },
    }
}

/// The invariant of a connection: a retry count below the limit while
/// connecting, a session while connected, and nothing buffered and no
/// session while disconnected or connecting.
pub open spec fn consistent(state: ConnState, ctx: (Seq<u8>, u32, Option<Seq<char>>)) -> bool {
    &&& state == ConnState::Connecting ==> ctx.1 < 3
    &&& state == ConnState::Connected ==> ctx.2 is Some
    &&& (state == ConnState::Disconnected || state == ConnState::Connecting) ==> ctx.0.len() == 0 && ctx.2 is None
}

/// Every event keeps a connection consistent.
pub proof fn lemma_transition_consistent(
    state: ConnState,
    ctx: (Seq<u8>, u32, Option<Seq<char>>),
    event: Seq<char>,
    n: u32,
)
    requires
        consistent(state, ctx),
    ensures
        consistent(transition(state, ctx, event, n).0, transition(state, ctx, event, n).1),
{
}

/// The connection law, event by event, whatever the context and the session
/// number: `connect` starts connecting from disconnected with no retries;
/// `connected` connects and names a session; while connected, `data`
/// appends the received bytes, `disconnect` drops the buffer and session,
/// and `error` fails the connection; a failed connection waits for `reset`,
/// which brings it back to disconnected with nothing kept.
pub proof fn lemma_connection_events(ctx: (Seq<u8>, u32, Option<Seq<char>>), n: u32)
    ensures
        transition(ConnState::Disconnected, ctx, "connect"@, n).0 == ConnState::Connecting,
        transition(ConnState::Disconnected, ctx, "connect"@, n).1.1 == 0,
        transition(ConnState::Connecting, ctx, "connected"@, n).0 == ConnState::Connected,
        transition(ConnState::Connecting, ctx, "connected"@, n).1.2 == Some(session_name(n)),
        transition(ConnState::Connected, ctx, "data"@, n).0 == ConnState::Connected,
        transition(ConnState::Connected, ctx, "data"@, n).1 == (ctx.0 + data_bytes(), ctx.1, ctx.2),
        transition(ConnState::Connected, ctx, "disconnect"@, n).0 == ConnState::Disconnected,
        transition(ConnState::Connected, ctx, "disconnect"@, n).1.0 == Seq::<u8>::empty(),
        transition(ConnState::Connected, ctx, "disconnect"@, n).1.2 is None,
        transition(ConnState::Connected, ctx, "error"@, n).0 == ConnState::Error,
        transition(ConnState::Error, ctx, "reset"@, n).0 == ConnState::Disconnected,
        transition(ConnState::Error, ctx, "reset"@, n).1 == (Seq::<u8>::empty(), 0u32, None::<Seq<char>>),
{
    reveal_strlit("connect");
    reveal_strlit("connected");
    reveal_strlit("timeout");
    reveal_strlit("data");
    reveal_strlit("disconnect");
    reveal_strlit("error");
    reveal_strlit("reset");
    assert("connected"@.len() != "timeout"@.len());
    assert("data"@.len() != "disconnect"@.len() && "data"@.len() != "error"@.len());
    assert("disconnect"@.len() != "error"@.len());
}

/// An event the current state does not know leaves the state and the
/// context as they are.
pub proof fn lemma_unknown_event_ignored(state: ConnState, ctx: (Seq<u8>, u32, Option<Seq<char>>), event: Seq<char>, n: u32)
    requires
        event != "connect"@,
        event != "connected"@,
        event != "timeout"@,
        event != "data"@,
        event != "disconnect"@,
        event != "error"@,
        event != "reset"@,
    ensures
        transition(state, ctx, event, n).0 == state,
        transition(state, ctx, event, n).1 == ctx,
{
}

/// From a fresh attempt, the third timeout in a row gives up.
pub proof fn lemma_three_timeouts_give_up(ctx: (Seq<u8>, u32, Option<Seq<char>>), n: u32)
    requires
        ctx.1 == 0,
    ensures
        ({
            let t1 = transition(ConnState::Connecting, ctx, "timeout"@, n);
            let t2 = transition(t1.0, t1.1, "timeout"@, n);
            let t3 = transition(t2.0, t2.1, "timeout"@, n);
            &&& t1.0 == ConnState::Connecting
            &&& t2.0 == ConnState::Connecting
            &&& t3.0 == ConnState::Error
            &&& t3.2 == "Max retries exceeded"@
        }),
{
    reveal_strlit("timeout");
    reveal_strlit("connected");
}

impl ConnState {
    /// Moves on `event`, changing the context, and gives the line to
    /// announce, as `transition` says; `n` names a new session.
    pub fn handle_event(self, event: &str, ctx: &mut ConnectionContext, n: u32) -> (r: (ConnState, String))
        requires
            consistent(self, ctx_view(*old(ctx))),
        ensures
            r.0 == transition(self, ctx_view(*old(ctx)), event@, n).0,
            ctx_view(*final(ctx)) == transition(self, ctx_view(*old(ctx)), event@, n).1,
            r.1@ == transition(self, ctx_view(*old(ctx)), event@, n).2,
    {
        match self {
            ConnState::Disconnected => {
                if str_eq(event, "connect") {
                    ctx.retry_count = 0;
                    (ConnState::Connecting, owned("Initiating connection..."))
                } else {
                    (self, ignoring(event, "disconnected"))
                }
            },
            ConnState::Connecting => {
                if str_eq(event, "connected") {
                    let mut id = String::new();
                    push_str(&mut id, "sess_");
                    push_decimal(&mut id, n as u64);
                    let mut m = String::new();
                    push_str(&mut m, "Connected with session Some(");
                    let q = debug_quote(id.as_str());
                    push_str(&mut m, q.as_str());
                    push_str(&mut m, ")");
                    ctx.session_id = Some(id);
                    (ConnState::Connected, m)
                } else if str_eq(event, "timeout") {
                    ctx.retry_count = ctx.retry_count + 1;
                    if ctx.retry_count >= 3 {
                        (ConnState::Error, owned("Max retries exceeded"))
                    } else {
                        let mut m = String::new();
                        push_str(&mut m, "Retrying... attempt ");
                        push_decimal(&mut m, ctx.retry_count as u64);
                        (ConnState::Connecting, m)
                    }
                } else {
                    (self, ignoring(event, "connecting"))
                }
            },
            ConnState::Connected => {
                if str_eq(event, "data") {
                    let bytes = "received data".as_bytes_vec();
                    let ghost b0 = ctx.buffer@;
                    let ghost r0 = ctx.retry_count;
                    let ghost s0 = ctx.session_id;
                    let mut i: usize = 0;
                    while i < bytes.len()
                        invariant
                            ctx.retry_count == r0,
                            ctx.session_id == s0,
                            0 <= i <= bytes@.len(),
                            bytes@ == data_bytes(),
                            ctx.buffer@ == b0 + bytes@.take(i as int),
                        decreases bytes@.len() - i,
                    {
                        ctx.buffer.push(bytes[i]);
                        proof {
                            assert(bytes@.take(i + 1) == bytes@.take(i as int).push(bytes@[i as int]));
                        }
                        i = i + 1;
                    }
                    proof {
                        assert(bytes@.take(i as int) == bytes@);
                    }
                    let mut m = String::new();
                    push_str(&mut m, "Data received, buffer size: ");
                    push_decimal(&mut m, ctx.buffer.len() as u64);
                    (ConnState::Connected, m)
                } else if str_eq(event, "disconnect") {
                    ctx.buffer.clear();
                    ctx.session_id = None;
                    (ConnState::Disconnected, owned("Disconnected"))
                } else if str_eq(event, "error") {
                    (ConnState::Error, owned("Connection error"))
                } else {
                    (self, ignoring(event, "connected"))
                }
            },
            ConnState::Error => {
                if str_eq(event, "reset") {
                    ctx.reset();
                    (ConnState::Disconnected, owned("Reset to disconnected"))
                } else {
                    (self, ignoring(event, "error"))
                }
            },
        }
    }
}

/// `Ignoring event <event> in <state> state`.
fn ignoring(event: &str, state: &str) -> (r: String)
    ensures
        r@ == ignoring_text(event@, state@),
{
    let mut m = String::new();
    push_str(&mut m, "Ignoring event ");
    push_str(&mut m, event);
    push_str(&mut m, " in ");
    push_str(&mut m, state);
    push_str(&mut m, " state");
    m
}

/// A connection: its state and the context the states share.
#[derive(Debug)]
pub struct TcpConnection {
    state: ConnState,
    ctx: ConnectionContext,
}

impl TcpConnection {
    pub closed spec fn state(&self) -> ConnState {
        self.state
    }

    pub closed spec fn context(&self) -> (Seq<u8>, u32, Option<Seq<char>>) {
        ctx_view(self.ctx)
    }

    pub fn new() -> (r: Self)
        ensures
            r.state() == ConnState::Disconnected,
            r.context() == (Seq::<u8>::empty(), 0u32, None::<Seq<char>>),
            consistent(r.state(), r.context()),
    {
        TcpConnection { state: ConnState::Disconnected, ctx: ConnectionContext::new() }
    }

    /// Handles `event` and prints the line it announces; a new session is
    /// named after a random number.
    pub fn handle_event(&mut self, event: &str)
        requires
            consistent(old(self).state(), old(self).context()),
        ensures
            consistent(final(self).state(), final(self).context()),
            exists|n: u32| final(self).state() == (#[trigger] transition(old(self).state(), old(self).context(), event@, n)).0
                && final(self).context() == transition(old(self).state(), old(self).context(), event@, n).1,
    {
        let n = if self.state == ConnState::Connecting && str_eq(event, "connected") {
            random_u32()
        } else {
            0
        };
        let (next, line) = self.state.handle_event(event, &mut self.ctx, n);
        proof {
            lemma_transition_consistent(old(self).state(), old(self).context(), event@, n);
        }
        self.state = next;
        let _ = write_stdout_line(line.as_str());
    }

    /// The current state.
    pub fn current(&self) -> (r: ConnState)
        ensures
            r == self.state(),
    {
        self.state
    }

    /// The session id, if there is one.
    pub fn session_id(&self) -> (r: Option<&String>)
        ensures
            match r {
                Some(s) => self.context().2 == Some(s@),
                None => self.context().2 is None,
            },
    {
        self.ctx.session_id.as_ref()
    }

    /// The number of bytes received.
    pub fn buffered(&self) -> (r: usize)
        ensures
            r == self.context().0.len(),
    {
        self.ctx.buffer.len()
    }
}

} // verus!
