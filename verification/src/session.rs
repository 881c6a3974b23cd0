//! The live-session bridge to Roblox Studio, as the editor sees it: whether
//! the server is stopped, listening or connected, the log shown to the
//! user, the request ids handed out, and the queue of messages waiting to
//! go to the Studio plugin.
//!
//! The server itself (the socket, its thread, the JSON codec) runs outside;
//! it reports connections and messages here as events, and takes the queued
//! messages from here.

use vstd::prelude::*;
use vstd::string::*;

verus! {

/// Default port the companion plugin connects back to.
pub const DEFAULT_PORT: u16 = 41742;

/// State of the bridge.
#[derive(PartialEq, Eq, Structural, Debug, Clone, Copy)]
pub enum SessionStatus {
    Stopped,
    Listening,
    Connected,
}

/// A message exchanged with the Studio plugin; `params` is its JSON
/// parameters, as text.
pub struct RpcMessage {
    pub id: Option<u64>,
    pub method: String,
    pub params: String,
}

/// Something the server reports.
pub enum SessionEvent {
    /// The plugin connected from `peer`.
    Connected { peer: String },
    /// The plugin at `peer` disconnected.
    Disconnected { peer: String },
    /// A message arrived from the plugin.
    Message(RpcMessage),
    /// The server failed.
    ServerError(String),
}

/// What starting the bridge asks of the platform.
#[derive(PartialEq, Eq, Debug, Clone, Copy)]
pub enum StartRequest {
    /// Start a server thread listening on `port`, then report with
    /// `server_spawned`.
    Spawn { port: u16 },
    /// The bridge is already running; nothing to do.
    AlreadyRunning,
}

/// Everything the editor shows about the live session.
pub struct LiveSessionState {
    pub status: SessionStatus,
    pub port: u16,
    /// Lines shown to the user, oldest first.
    pub log: Vec<String>,
    /// The id the next request will get.
    pub next_id: u64,
    /// Messages waiting to be sent to the plugin, oldest first.
    pub outbox: Vec<RpcMessage>,
    /// The server has been asked to stop.
    pub shutdown_requested: bool,
}

// ---------------------------------------------------------------------------
// Decimal numbers
// ---------------------------------------------------------------------------

/// The character of decimal digit `d`.
pub open spec fn digit_char(d: nat) -> char {
    ((d + 48) as u32) as char
}

/// The decimal text of `n`, without leading zeros.
pub open spec fn decimal(n: nat) -> Seq<char>
    decreases n,
{
    if n < 10 {
        seq![digit_char(n)]
    } else {
        decimal(n / 10) + seq![digit_char(n % 10)]
    }
}

/// The decimal text of `n`.
pub fn decimal_string(n: u64) -> (r: String)
    ensures
        r@ == decimal(n as nat),
    decreases n,
{
    let digits = "0123456789";
    proof {
        reveal_strlit("0123456789");
    }
    let d = (n % 10) as usize;
    let one = digits.substring_char(d, d + 1);
    assert(one@ =~= seq![digit_char(d as nat)]);
    if n < 10 {
        String::from_str(one)
    } else {
        let mut s = decimal_string(n / 10);
        s.append(one);
        s
    }
}

// ---------------------------------------------------------------------------
// Log lines
// ---------------------------------------------------------------------------

/// The log line an event adds.
pub open spec fn event_line(e: SessionEvent) -> Seq<char> {
    match e {
        SessionEvent::Connected { peer } => "Studio connected from "@ + peer@,
        SessionEvent::Disconnected { peer } => "Studio disconnected ("@ + peer@ + ")"@,
        SessionEvent::Message(m) => "\u{2190} "@ + m.method@ + " "@ + m.params@,
        SessionEvent::ServerError(e) => "server error: "@ + e@,
    }
}

/// The status after an event.
pub open spec fn event_status(s: SessionStatus, e: SessionEvent) -> SessionStatus {
    match e {
        SessionEvent::Connected { .. } => SessionStatus::Connected,
        SessionEvent::Disconnected { .. } => SessionStatus::Listening,
        _ => s,
    }
}

/// The status after a run of events.
pub open spec fn status_after(s: SessionStatus, es: Seq<SessionEvent>) -> SessionStatus
    decreases es.len(),
{
    if es.len() == 0 {
        s
    } else {
        event_status(status_after(s, es.drop_last()), es.last())
    }
}

/// The texts of a list of strings.
pub open spec fn texts(v: Seq<String>) -> Seq<Seq<char>> {
    v.map_values(|s: String| s@)
}

/// The log line of `e`.
fn event_log_line(e: &SessionEvent) -> (r: String)
    ensures
        r@ == event_line(*e),
{
    match e {
        SessionEvent::Connected { peer } => {
            let mut s = String::from_str("Studio connected from ");
            s.append(peer.as_str());
            s
        },
        SessionEvent::Disconnected { peer } => {
            let mut s = String::from_str("Studio disconnected (");
            s.append(peer.as_str());
            s.append(")");
            s
        },
        SessionEvent::Message(m) => {
            let mut s = String::from_str("\u{2190} ");
            s.append(m.method.as_str());
            s.append(" ");
            s.append(m.params.as_str());
            s
        },
        SessionEvent::ServerError(err) => {
            let mut s = String::from_str("server error: ");
            s.append(err.as_str());
            s
        },
    }
}

/// The line logged when the server starts listening on `port`.
pub open spec fn listening_line(port: u16) -> Seq<char> {
    "Listening on ws://127.0.0.1:"@ + decimal(port as nat)
        + " \u{2014} install the companion plugin in Studio to connect."@
}

/// The first log line of a fresh bridge.
pub open spec fn default_port_line() -> Seq<char> {
    "Live session bridge default port: "@ + decimal(DEFAULT_PORT as nat)
}

/// The lower-case hexadecimal digit of `n` (0 to 15).
pub open spec fn hex_digit(n: int) -> char {
    if n < 10 {
        (48 + n) as char
    } else {
        (87 + n) as char
    }
}

/// How JSON writes one character inside a string: `"` and `\` behind a
/// backslash, backspace, form feed, line feed, carriage return and tab as
/// `\b \f \n \r \t`, the other control characters below U+0020 as
/// `\u00` and two lower-case hexadecimal digits, everything else as itself.
pub open spec fn json_escape_char(c: char) -> Seq<char> {
    if c == '"' {
        seq!['\\', '"']
    } else if c == '\\' {
        seq!['\\', '\\']
    } else if c == '\u{8}' {
        seq!['\\', 'b']
    } else if c == '\u{c}' {
        seq!['\\', 'f']
    } else if c == '\n' {
        seq!['\\', 'n']
    } else if c == '\r' {
        seq!['\\', 'r']
    } else if c == '\t' {
        seq!['\\', 't']
    } else if (c as u32) < 0x20 {
        seq!['\\', 'u', '0', '0', hex_digit((c as u32) as int / 16), hex_digit((c as u32) as int % 16)]
    } else {
        seq![c]
    }
}

/// The characters of `s`, each written as JSON writes it in a string.
pub open spec fn json_escaped(s: Seq<char>) -> Seq<char>
    decreases s.len(),
{
    if s.len() == 0 {
        Seq::empty()
    } else {
        json_escaped(s.drop_last()) + json_escape_char(s.last())
    }
}

/// `s` as a JSON string: in double quotes, with its characters escaped.
pub open spec fn json_quoted(s: Seq<char>) -> Seq<char> {
    seq!['"'] + json_escaped(s) + seq!['"']
}

/// Writes `s` as a JSON string with `serde_json::to_string`, which quotes it
/// and escapes its characters as `json_quoted` states (serde_json's compact
/// formatter: `"` and `\`, the five short escapes, `\u00XX` with
/// lower-case hexadecimal for the other control characters below U+0020,
/// nothing else). Serializing a string slice does not fail; the error arm is
/// never taken.
#[verifier::external_body]
fn json_string(s: &str) -> (r: String)
    ensures
        r@ == json_quoted(s@),
{
    match serde_json::to_string(s) {
        Ok(t) => t,
        Err(_) => String::new(),
    }
}

/// The parameters of a `run_command` request for `source`: a JSON object
/// with the single member `source`.
pub open spec fn run_command_params(source: Seq<char>) -> Seq<char> {
    "{\"source\":"@ + json_quoted(source) + "}"@
}

impl LiveSessionState {
    /// A stopped bridge on the default port, with one log line naming it.
    pub fn new() -> (s: Self)
        ensures
            s.status == SessionStatus::Stopped,
            s.port == DEFAULT_PORT,
            texts(s.log@) == seq![default_port_line()],
            s.next_id == 1,
            s.outbox@.len() == 0,
            !s.shutdown_requested,
    {
        let mut line = String::from_str("Live session bridge default port: ");
        let p = decimal_string(DEFAULT_PORT as u64);
        line.append(p.as_str());
        let mut log: Vec<String> = Vec::new();
        log.push(line);
        assert(texts(log@) =~= seq![default_port_line()]);
        LiveSessionState {
            status: SessionStatus::Stopped,
            port: DEFAULT_PORT,
            log,
            next_id: 1,
            outbox: Vec::new(),
            shutdown_requested: false,
        }
    }

    /// Asks to start listening: a stopped bridge asks for a server on its
    /// port, a running one asks for nothing.
    pub fn start(&self) -> (r: StartRequest)
        ensures
            r == (if self.status == SessionStatus::Stopped {
                StartRequest::Spawn { port: self.port }
            } else {
                StartRequest::AlreadyRunning
            }),
    {
        if self.status == SessionStatus::Stopped {
            StartRequest::Spawn { port: self.port }
        } else {
            StartRequest::AlreadyRunning
        }
    }

    /// Records whether the server thread could be started.
    pub fn server_spawned(&mut self, ok: bool)
        ensures
            final(self).port == old(self).port,
            final(self).next_id == old(self).next_id,
            final(self).outbox@ == old(self).outbox@,
            ok ==> final(self).status == SessionStatus::Listening && !final(self).shutdown_requested
                && texts(final(self).log@) == texts(old(self).log@).push(listening_line(old(self).port)),
            !ok ==> final(self).status == old(self).status && final(self).shutdown_requested
                == old(self).shutdown_requested && texts(final(self).log@) == texts(
                old(self).log@,
            ).push("Failed to spawn live-session thread"@),
    {
        if !ok {
            self.log.push(String::from_str("Failed to spawn live-session thread"));
            assert(texts(self.log@) =~= texts(old(self).log@).push(
                "Failed to spawn live-session thread"@,
            ));
            return;
        }
        self.shutdown_requested = false;
        self.status = SessionStatus::Listening;
        let mut line = String::from_str("Listening on ws://127.0.0.1:");
        let p = decimal_string(self.port as u64);
        line.append(p.as_str());
        line.append(" \u{2014} install the companion plugin in Studio to connect.");
        self.log.push(line);
        assert(texts(self.log@) =~= texts(old(self).log@).push(listening_line(old(self).port)));
    }

    /// Asks the server to stop.
    pub fn stop(&mut self)
        ensures
            final(self).status == SessionStatus::Stopped,
            final(self).shutdown_requested,
            final(self).port == old(self).port,
            final(self).next_id == old(self).next_id,
            final(self).outbox@ == old(self).outbox@,
            texts(final(self).log@) == texts(old(self).log@).push("Live session stopped."@),
    {
        self.shutdown_requested = true;
        self.status = SessionStatus::Stopped;
        self.log.push(String::from_str("Live session stopped."));
        assert(texts(self.log@) =~= texts(old(self).log@).push("Live session stopped."@));
    }

    /// Takes in the events the server reported since the last frame
    /// (`disconnected`: the server's channel has closed): a closed channel
    /// stops the bridge, a connection makes it connected, a disconnection
    /// makes it listen again, and each event adds a log line. Returns the
    /// events.
    pub fn poll_events(&mut self, events: Vec<SessionEvent>, disconnected: bool) -> (r: Vec<
        SessionEvent,
    >)
        ensures
            r@ == events@,
            final(self).status == status_after(
                if disconnected {
                    SessionStatus::Stopped
                } else {
                    old(self).status
                },
                events@,
            ),
            texts(final(self).log@) == texts(old(self).log@) + events@.map_values(
                |e: SessionEvent| event_line(e),
            ),
            final(self).port == old(self).port,
            final(self).next_id == old(self).next_id,
            final(self).outbox@ == old(self).outbox@,
            final(self).shutdown_requested == old(self).shutdown_requested,
    {
        if disconnected {
            self.status = SessionStatus::Stopped;
        }
        let ghost s0 = self.status;
        let n = events.len();
        let mut i: usize = 0;
        while i < n
            invariant
                n == events@.len(),
                i <= n,
                self.status == status_after(s0, events@.take(i as int)),
                texts(self.log@) == texts(old(self).log@) + events@.take(i as int).map_values(
                    |e: SessionEvent| event_line(e),
                ),
                self.port == old(self).port,
                self.next_id == old(self).next_id,
                self.outbox@ == old(self).outbox@,
                self.shutdown_requested == old(self).shutdown_requested,
            decreases n - i,
        {
            let ev = &events[i];
            proof {
                assert(events@.take(i + 1).drop_last() =~= events@.take(i as int));
            }
            match ev {
                SessionEvent::Connected { .. } => {
                    self.status = SessionStatus::Connected;
                },
                SessionEvent::Disconnected { .. } => {
                    self.status = SessionStatus::Listening;
                },
                _ => {},
            }
            let line = event_log_line(ev);
            let ghost before = self.log@;
            self.log.push(line);
            proof {
                let f = |e: SessionEvent| event_line(e);
                assert(*ev == events@[i as int]);
                assert(texts(self.log@) =~= texts(before).push(event_line(events@[i as int])));
                assert(events@.take(i + 1).map_values(f) =~= events@.take(i as int).map_values(
                    f,
                ).push(event_line(events@[i as int])));
                assert(texts(self.log@) =~= texts(old(self).log@) + events@.take(i + 1).map_values(
                    f,
                ));
            }
            i = i + 1;
        }
        assert(events@.take(n as int) =~= events@);
        events
    }

    /// Queues a request to the plugin and returns the id it was given.
    pub fn send(&mut self, method: &str, params: String) -> (id: u64)
        requires
            old(self).next_id < u64::MAX,
        ensures
            id == old(self).next_id,
            final(self).next_id == old(self).next_id + 1,
            final(self).outbox@.len() == old(self).outbox@.len() + 1,
            final(self).outbox@.take(old(self).outbox@.len() as int) == old(self).outbox@,
            final(self).outbox@.last().id == Some(id),
            final(self).outbox@.last().method@ == method@,
            final(self).outbox@.last().params@ == params@,
            final(self).status == old(self).status,
            final(self).port == old(self).port,
            final(self).log@ == old(self).log@,
            final(self).shutdown_requested == old(self).shutdown_requested,
    {
        let id = self.next_id;
        self.next_id = self.next_id + 1;
        self.outbox.push(RpcMessage { id: Some(id), method: String::from_str(method), params });
        assert(self.outbox@.take(old(self).outbox@.len() as int) =~= old(self).outbox@);
        id
    }

    /// Asks the connected Studio to run a Luau snippet.
    pub fn run_in_studio(&mut self, source: &str)
        requires
            old(self).next_id < u64::MAX,
        ensures
            final(self).next_id == old(self).next_id + 1,
            final(self).outbox@.len() == old(self).outbox@.len() + 1,
            final(self).outbox@.take(old(self).outbox@.len() as int) == old(self).outbox@,
            final(self).outbox@.last().id == Some(old(self).next_id),
            final(self).outbox@.last().method@ == "run_command"@,
            final(self).outbox@.last().params@ == run_command_params(source@),
            texts(final(self).log@) == texts(old(self).log@).push(
                "\u{2192} sent run_command to Studio"@,
            ),
            final(self).status == old(self).status,
            final(self).port == old(self).port,
            final(self).shutdown_requested == old(self).shutdown_requested,
    {
        let mut params = String::from_str("{\"source\":");
        let quoted = json_string(source);
        params.append(quoted.as_str());
        params.append("}");
        self.send("run_command", params);
        self.log.push(String::from_str("\u{2192} sent run_command to Studio"));
        assert(texts(self.log@) =~= texts(old(self).log@).push(
            "\u{2192} sent run_command to Studio"@,
        ));
    }

    /// Hands the queued messages to the server, oldest first, and empties
    /// the queue.
    pub fn take_outbox(&mut self) -> (out: Vec<RpcMessage>)
        ensures
            out@ == old(self).outbox@,
            final(self).outbox@.len() == 0,
            final(self).status == old(self).status,
            final(self).port == old(self).port,
            final(self).next_id == old(self).next_id,
            final(self).log@ == old(self).log@,
            final(self).shutdown_requested == old(self).shutdown_requested,
    {
        let mut out: Vec<RpcMessage> = Vec::new();
        std::mem::swap(&mut out, &mut self.outbox);
        out
    }
}

} // verus!
