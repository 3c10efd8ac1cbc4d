//! The agent: one long-lived session, many multiplexed local requests.
//!
//! ```text
//!   edge ──ServerFrame::Open──▶ agent ──HTTP──▶ localhost:3000
//!   edge ◀──ResponseHead/Data── agent ◀─HTTP──  localhost:3000
//! ```
//!
//! Everything below is driven by a single read loop. Per-request work happens on
//! the side, so that one slow local handler cannot stall the session.

use bytes::Bytes;
use http::HeaderMap;
use std::collections::HashMap;
use vstd::prelude::*;
use vstd::string::*;
use vstd::utf8::*;

use crate::client::config::reconnect_delay;
use crate::client::config;
use crate::fields;
use crate::payload;
use crate::proto::{
    ClientFrame, ClientPayload, ClientView, Header, HeaderView, Hello, HelloView, HttpRequestHead,
    HttpResponseHead, HttpSpecView, HttpTunnelSpec, OpenTunnel, OpenTunnelView, OpenView, Pong,
    RequestHeadView, ResetCode, ServerFrame, ServerPayload, ServerView, SpecView,
    StatusView, StreamData, StreamEnd, StreamOpen, StreamReset, TunnelSpec, TunnelStatus,
    WindowUpdate, PROTOCOL_VERSION,
};
use crate::proto;
use crate::server::control;
use crate::server::session::{MAX_CHUNK, MAX_CREDIT};
use crate::server::session;
use crate::text;

verus! {

/// What the agent is asked to publish.
#[derive(Debug)]
pub struct AgentOptions {
    /// Endpoint of the edge.
    pub server: String,
    /// Bearer token.
    pub token: String,
    /// `host:port` the agent forwards to.
    pub forward_addr: String,
    /// Requested subdomain, if any.
    pub subdomain: Option<String>,
    /// Requested custom domain, if any.
    pub domain: Option<String>,
    /// Rewrite `Host` to the forward target.
    pub rewrite_host: bool,
    /// Reconnect attempts before giving up. Zero means never.
    pub max_retries: u32,
}

impl Clone for AgentOptions {
    fn clone(&self) -> (r: Self)
        ensures
            r.server@ == self.server@,
            r.token@ == self.token@,
            r.forward_addr@ == self.forward_addr@,
            text::optional(r.subdomain) == text::optional(self.subdomain),
            text::optional(r.domain) == text::optional(self.domain),
            r.rewrite_host == self.rewrite_host,
            r.max_retries == self.max_retries,
    {
        AgentOptions {
            server: self.server.clone(),
            token: self.token.clone(),
            forward_addr: self.forward_addr.clone(),
            subdomain: text::copy_optional(&self.subdomain),
            domain: text::copy_optional(&self.domain),
            rewrite_host: self.rewrite_host,
            max_retries: self.max_retries,
        }
    }
}

/// Lifecycle events, so that callers can react without parsing log output.
#[derive(Debug)]
pub enum AgentEvent {
    /// The handshake completed.
    Connected { session_id: String, node_id: String },
    /// A tunnel is live and serving.
    TunnelReady(TunnelStatus),
    /// The edge refused a tunnel. Carries the reason.
    TunnelRejected(String),
    /// The session ended; the agent reconnects unless retries ran out.
    Disconnected(String),
}

/// An event by its text.
#[verifier::ext_equal]
pub enum EventView {
    Connected { session_id: Seq<char>, node_id: Seq<char> },
    TunnelReady(StatusView),
    TunnelRejected(Seq<char>),
    Disconnected(Seq<char>),
}

impl View for AgentEvent {
    type V = EventView;

    open spec fn view(&self) -> EventView {
        match self {
            AgentEvent::Connected { session_id, node_id } => EventView::Connected {
                session_id: session_id@,
                node_id: node_id@,
            },
            AgentEvent::TunnelReady(status) => EventView::TunnelReady(status@),
            AgentEvent::TunnelRejected(reason) => EventView::TunnelRejected(reason@),
            AgentEvent::Disconnected(reason) => EventView::Disconnected(reason@),
        }
    }
}

impl Clone for AgentEvent {
    fn clone(&self) -> (r: Self)
        ensures
            r@ == self@,
    {
        match self {
            AgentEvent::Connected { session_id, node_id } => AgentEvent::Connected {
                session_id: session_id.clone(),
                node_id: node_id.clone(),
            },
            AgentEvent::TunnelReady(status) => AgentEvent::TunnelReady(status.clone()),
            AgentEvent::TunnelRejected(reason) => AgentEvent::TunnelRejected(reason.clone()),
            AgentEvent::Disconnected(reason) => AgentEvent::Disconnected(reason.clone()),
        }
    }
}

/// Distinguishes "retry" from "stop and tell the human".
#[derive(Debug)]
pub enum SessionError {
    /// Reconnecting might help.
    Transient(String),
    /// Reconnecting will not help: bad credentials, or a protocol mismatch.
    Fatal(String),
}

/// How the edge's refusal of a call is classified.
#[derive(Debug, Clone, Copy, PartialEq, Eq, Structural)]
pub enum RpcCode {
    Unauthenticated,
    PermissionDenied,
    FailedPrecondition,
    /// Any other code.
    Other,
}

/// The error for an edge that could not be reached.
pub fn connect_failed(options: &AgentOptions, cause: &str) -> (r: SessionError)
    ensures
        r matches SessionError::Transient(m) && m@ == "connect to "@ + options.server@ + ": "@
            + cause@,
{
    let head = text::join3("connect to ", options.server.as_str(), ": ");
    SessionError::Transient(text::join2(head.as_str(), cause))
}

/// The error for a call that the edge refused. `message` is the edge's, `status`
/// is the refusal as a whole.
///
/// Some refusals mean that the agent itself is wrong; retrying would only fill
/// logs.
pub fn call_refused(code: RpcCode, message: &str, status: &str) -> (r: SessionError)
    ensures
        match code {
            RpcCode::Unauthenticated => r matches SessionError::Fatal(m) && m@
                == "authentication failed: "@ + message@,
            RpcCode::PermissionDenied => r matches SessionError::Fatal(m) && m@
                == "authentication failed: "@ + message@,
            RpcCode::FailedPrecondition => r matches SessionError::Fatal(m) && m@
                == "edge refused the session: "@ + message@,
            RpcCode::Other => r matches SessionError::Transient(m) && m@ == "session RPC failed: "@
                + status@,
        },
{
    match code {
        RpcCode::Unauthenticated => SessionError::Fatal(
            text::join2("authentication failed: ", message),
        ),
        RpcCode::PermissionDenied => SessionError::Fatal(
            text::join2("authentication failed: ", message),
        ),
        RpcCode::FailedPrecondition => SessionError::Fatal(
            text::join2("edge refused the session: ", message),
        ),
        RpcCode::Other => SessionError::Transient(text::join2("session RPC failed: ", status)),
    }
}

/// What the answer to a trial session says of the edge's protocol: why it is not
/// known to be compatible, if it is not.
///
/// An edge looks at the protocol version before it looks at the token, so one that
/// refuses the token speaks a compatible version.
pub fn probe_verdict(refusal: Option<RpcCode>, message: &str) -> (r: Result<(), String>)
    ensures
        match refusal {
            Some(RpcCode::FailedPrecondition) => r matches Err(m) && m@
                == "edge speaks another protocol: "@ + message@,
            Some(RpcCode::Other) => r matches Err(m) && m@ == "protocol check failed: "@ + message@,
            _ => r is Ok,
        },
{
    match refusal {
        Some(RpcCode::FailedPrecondition) => Err(
            text::join2("edge speaks another protocol: ", message),
        ),
        Some(RpcCode::Other) => Err(text::join2("protocol check failed: ", message)),
        _ => Ok(()),
    }
}

/// The error for a session that broke.
pub fn stream_failed(status: &str) -> (r: SessionError)
    ensures
        r matches SessionError::Transient(m) && m@ == "stream error: "@ + status@,
{
    SessionError::Transient(text::join2("stream error: ", status))
}

/// How a session ended, by its text.
#[verifier::ext_equal]
pub enum EndView {
    Clean,
    Transient(Seq<char>),
    Fatal(Seq<char>),
}

/// How a session ended, by its text.
pub open spec fn end_view(end: Result<(), SessionError>) -> EndView {
    match end {
        Ok(_) => EndView::Clean,
        Err(SessionError::Transient(m)) => EndView::Transient(m@),
        Err(SessionError::Fatal(m)) => EndView::Fatal(m@),
    }
}

/// What the agent does after a session has ended.
#[derive(Debug)]
pub enum Next {
    /// Stop, as it was asked to.
    Stop,
    /// Stop with this error.
    Fail(String),
    /// Wait this many milliseconds, then reconnect.
    Reconnect(u64),
}

/// What the agent does next, by its text.
#[verifier::ext_equal]
pub enum NextView {
    Stop,
    Fail(Seq<char>),
    Reconnect(u64),
}

impl View for Next {
    type V = NextView;

    open spec fn view(&self) -> NextView {
        match self {
            Next::Stop => NextView::Stop,
            Next::Fail(reason) => NextView::Fail(reason@),
            Next::Reconnect(delay_ms) => NextView::Reconnect(*delay_ms),
        }
    }
}

/// The course of reconnects.
#[derive(Debug, Clone, Copy, PartialEq, Eq, Structural)]
pub struct Attempts {
    /// Reconnects since the edge was last healthy.
    pub count: u32,
}

/// Reconnects so far, once a session has ended: a clean end shows a healthy edge.
pub open spec fn attempts_at(count: u32, end: EndView) -> u32 {
    if end is Clean {
        0
    } else {
        count
    }
}

/// Whether no reconnect is left. Zero retries mean that there is always one.
pub open spec fn exhausted(count: u32, max_retries: u32) -> bool {
    max_retries > 0 && count >= max_retries
}

/// What follows the end of a session: a fatal error stops the agent, a request to
/// stop is honoured, exhausted retries give up, and anything else reconnects
/// after a growing wait.
pub open spec fn next_step(count: u32, max_retries: u32, end: EndView, stopping: bool) -> NextView {
    let count = attempts_at(count, end);
    if end is Fatal {
        NextView::Fail(end->Fatal_0)
    } else if stopping {
        NextView::Stop
    } else if exhausted(count, max_retries) {
        NextView::Fail(
            "giving up after "@ + text::decimal(max_retries as nat) + " reconnect attempts"@,
        )
    } else {
        NextView::Reconnect(config::backoff(count as nat) as u64)
    }
}

/// Reconnects so far, once it has been decided what follows the end of a session.
pub open spec fn next_count(count: u32, max_retries: u32, end: EndView, stopping: bool) -> u32 {
    let count = attempts_at(count, end);
    if end is Fatal || stopping || exhausted(count, max_retries) || count == u32::MAX {
        count
    } else {
        (count + 1) as u32
    }
}

impl Attempts {
    /// No reconnect yet.
    #[must_use]
    pub fn new() -> (r: Self)
        ensures
            r.count == 0,
    {
        Attempts { count: 0 }
    }

    /// Decides what follows the end of a session. The event, if any, tells of a
    /// broken one.
    pub fn after_session(
        &mut self,
        max_retries: u32,
        end: Result<(), SessionError>,
        stopping: bool,
    ) -> (r: (Option<AgentEvent>, Next))
        ensures
            match end_view(end) {
                EndView::Transient(m) => r.0 matches Some(event) && event@
                    == EventView::Disconnected(m),
                _ => r.0 is None,
            },
            r.1@ == next_step(old(self).count, max_retries, end_view(end), stopping),
            final(self).count == next_count(
                old(self).count,
                max_retries,
                end_view(end),
                stopping,
            ),
    {
        let mut event: Option<AgentEvent> = None;
        match end {
            Ok(_) => {
                self.count = 0;
            },
            Err(SessionError::Fatal(m)) => {
                return (None, Next::Fail(m));
            },
            Err(SessionError::Transient(m)) => {
                event = Some(AgentEvent::Disconnected(m));
            },
        }
        if stopping {
            return (event, Next::Stop);
        }
        if max_retries > 0 && self.count >= max_retries {
            let reason = text::join3(
                "giving up after ",
                text::to_decimal(max_retries as u64).as_str(),
                " reconnect attempts",
            );
            return (event, Next::Fail(reason));
        }
        let delay: u64 = reconnect_delay(self.count);
        self.count = self.count.saturating_add(1);
        (event, Next::Reconnect(delay))
    }
}

/// Reconnects after a series of broken sessions in a row.
pub open spec fn attempts_after(max_retries: u32, failures: Seq<Seq<char>>) -> u32
    decreases failures.len(),
{
    if failures.len() == 0 {
        0
    } else {
        next_count(
            attempts_after(max_retries, failures.drop_last()),
            max_retries,
            EndView::Transient(failures.last()),
            false,
        )
    }
}

/// With a limit on retries, the agent reconnects after that many broken sessions
/// in a row and no more, each time after the wait that is due; without one, it
/// never gives up.
pub proof fn retries_run_out(max_retries: u32, failures: Seq<Seq<char>>, next: Seq<char>)
    requires
        failures.len() <= u32::MAX,
        max_retries > 0 ==> failures.len() <= max_retries,
    ensures
        attempts_after(max_retries, failures) == failures.len(),
        next_step(
            attempts_after(max_retries, failures),
            max_retries,
            EndView::Transient(next),
            false,
        ) == if failures.len() == max_retries && max_retries > 0 {
            NextView::Fail(
                "giving up after "@ + text::decimal(max_retries as nat) + " reconnect attempts"@,
            )
        } else {
            NextView::Reconnect(config::backoff(failures.len()) as u64)
        },
    decreases failures.len(),
{
    if failures.len() > 0 {
        retries_run_out(max_retries, failures.drop_last(), failures.last());
    }
}

/// A fatal error is final, however many retries are left, and a clean end starts
/// the count anew.
pub proof fn fatal_errors_are_final(count: u32, max_retries: u32, reason: Seq<char>, stopping: bool)
    ensures
        next_step(count, max_retries, EndView::Fatal(reason), stopping) == NextView::Fail(reason),
        next_step(count, max_retries, EndView::Clean, false) == NextView::Reconnect(250),
{
}

/// The labels that an agent reports about its machine: the operating system, the
/// architecture, and the host name, under whichever variable gives it.
pub fn agent_metadata(
    os: &str,
    arch: &str,
    hostname: Option<String>,
    computername: Option<String>,
) -> (r: Vec<(String, String)>)
    ensures
        proto::label_views(r@) == seq![
            ("os"@, os@),
            ("arch"@, arch@),
            (
                "hostname"@,
                match hostname {
                    Some(name) => name@,
                    None => match computername {
                        Some(name) => name@,
                        None => "unknown"@,
                    },
                },
            ),
        ],
{
    let host = match hostname {
        Some(name) => name,
        None => match computername {
            Some(name) => name,
            None => "unknown".to_owned(),
        },
    };
    let mut out: Vec<(String, String)> = Vec::new();
    out.push(("os".to_owned(), os.to_owned()));
    out.push(("arch".to_owned(), arch.to_owned()));
    out.push(("hostname".to_owned(), host));
    out
}

/// Builds the first frame of a session.
pub fn hello(options: &AgentOptions, version: &str, metadata: Vec<(String, String)>) -> (r:
    ClientFrame)
    ensures
        r@ == ClientView::Hello(
            HelloView {
                token: options.token@,
                agent_version: version@,
                protocol_version: PROTOCOL_VERSION,
                metadata: proto::label_views(metadata@),
            },
        ),
{
    ClientFrame {
        payload: Some(
            ClientPayload::Hello(
                Hello {
                    token: options.token.clone(),
                    agent_version: version.to_owned(),
                    protocol_version: PROTOCOL_VERSION,
                    metadata,
                },
            ),
        ),
    }
}

/// A whole number in decimal notation, with a sign where it is negative.
pub open spec fn signed_decimal(n: i64) -> Seq<char> {
    if n < 0 {
        "-"@ + text::decimal((-n) as nat)
    } else {
        text::decimal(n as nat)
    }
}

/// Writes a whole number in decimal notation.
fn show_signed(n: i64) -> (r: String)
    ensures
        r@ == signed_decimal(n),
{
    if n >= 0 {
        return text::to_decimal(n as u64);
    }
    let magnitude: u64 = if n == i64::MIN {
        9_223_372_036_854_775_808
    } else {
        (-n) as u64
    };
    text::join2("-", text::to_decimal(magnitude).as_str())
}

/// What an agent asks the edge for.
pub open spec fn tunnel_request(options: AgentOptions, now_ms: i64) -> OpenTunnelView {
    OpenTunnelView {
        request_id: "req_"@ + signed_decimal(now_ms),
        spec: Some(
            SpecView::Http(
                HttpSpecView {
                    subdomain: match options.subdomain {
                        Some(s) => s@,
                        None => Seq::empty(),
                    },
                    custom_domain: match options.domain {
                        Some(s) => s@,
                        None => Seq::empty(),
                    },
                    forward_to: options.forward_addr@,
                    rewrite_host_header: options.rewrite_host,
                },
            ),
        ),
    }
}

/// Builds the registration request. An empty subdomain leaves the choice to the
/// edge.
pub fn build_open_tunnel(options: &AgentOptions, now_ms: i64) -> (r: OpenTunnel)
    ensures
        r@ == tunnel_request(*options, now_ms),
{
    let subdomain = match &options.subdomain {
        Some(s) => s.clone(),
        None => String::new(),
    };
    let custom_domain = match &options.domain {
        Some(s) => s.clone(),
        None => String::new(),
    };
    let spec = HttpTunnelSpec {
        subdomain,
        custom_domain,
        forward_to: options.forward_addr.clone(),
        rewrite_host_header: options.rewrite_host,
    };
    let open = OpenTunnel {
        request_id: text::join2("req_", show_signed(now_ms).as_str()),
        spec: Some(TunnelSpec::Http(spec)),
    };
    assert(spec@ =~= tunnel_request(*options, now_ms).spec->Some_0->Http_0);
    open
}

/// Agent-side state of one multiplexed stream.
#[derive(Debug, Clone, Copy, PartialEq, Eq, Structural)]
pub struct AgentStream {
    /// Whether more of the request body may come.
    pub body_open: bool,
    /// Bytes that may still be sent to the edge before it grants more.
    pub credit: u64,
}

/// The live streams of a session, and what is published over it.
pub struct SessionCtx {
    streams: HashMap<u64, AgentStream>,
    options: AgentOptions,
}

impl View for SessionCtx {
    type V = Map<u64, AgentStream>;

    /// The live streams by id.
    closed spec fn view(&self) -> Map<u64, AgentStream> {
        self.streams@
    }
}

/// What the agent is to do about a frame of the edge.
#[derive(Debug)]
pub enum Reaction {
    /// Nothing.
    Nothing,
    /// Tell of an event, then send the frame, if any.
    Announce(AgentEvent, Option<ClientFrame>),
    /// Send a frame.
    Send(ClientFrame),
    /// Serve a public request on the side.
    Serve(StreamOpen),
    /// Hand bytes to the request's body, then call [`SessionCtx::after_delivery`].
    Deliver { stream_id: u64, payload: Bytes },
    /// End the request's body.
    EndBody { stream_id: u64 },
    /// Let go of a stream.
    Closed { stream_id: u64 },
    /// Wake a writer that waits for credit.
    Wake { stream_id: u64 },
}

/// A reaction by its text and bytes.
#[verifier::ext_equal]
pub enum ReactionView {
    Nothing,
    Announce(EventView, Option<ClientView>),
    Send(ClientView),
    Serve(OpenView),
    Deliver { stream_id: u64, payload: Seq<u8> },
    EndBody { stream_id: u64 },
    Closed { stream_id: u64 },
    Wake { stream_id: u64 },
}

impl View for Reaction {
    type V = ReactionView;

    open spec fn view(&self) -> ReactionView {
        match self {
            Reaction::Nothing => ReactionView::Nothing,
            Reaction::Announce(event, frame) => ReactionView::Announce(
                event@,
                match frame {
                    Some(f) => Some(f@),
                    None => None,
                },
            ),
            Reaction::Send(frame) => ReactionView::Send(frame@),
            Reaction::Serve(open) => ReactionView::Serve(open@),
            Reaction::Deliver { stream_id, payload } => ReactionView::Deliver {
                stream_id: *stream_id,
                payload: payload::bytes_of(*payload),
            },
            Reaction::EndBody { stream_id } => ReactionView::EndBody { stream_id: *stream_id },
            Reaction::Closed { stream_id } => ReactionView::Closed { stream_id: *stream_id },
            Reaction::Wake { stream_id } => ReactionView::Wake { stream_id: *stream_id },
        }
    }
}

/// What the agent is to do about a frame of the edge.
pub open spec fn reaction(
    streams: Map<u64, AgentStream>,
    options: AgentOptions,
    frame: ServerView,
    now_ms: i64,
) -> ReactionView {
    match frame {
        ServerView::Welcome(welcome) => ReactionView::Announce(
            EventView::Connected { session_id: welcome.session_id, node_id: welcome.node_id },
            Some(ClientView::OpenTunnel(tunnel_request(options, now_ms))),
        ),
        ServerView::TunnelStatus(status) => if status.accepted {
            ReactionView::Announce(EventView::TunnelReady(status), None)
        } else {
            ReactionView::Announce(EventView::TunnelRejected(status.error), None)
        },
        ServerView::Open(open) => ReactionView::Serve(open),
        ServerView::Data { stream_id, payload } => if !streams.dom().contains(stream_id) {
            ReactionView::Nothing
        } else if streams[stream_id].body_open {
            ReactionView::Deliver { stream_id, payload }
        } else {
            ReactionView::Closed { stream_id }
        },
        ServerView::End { stream_id, .. } => if streams.dom().contains(stream_id) {
            ReactionView::EndBody { stream_id }
        } else {
            ReactionView::Nothing
        },
        ServerView::Reset { stream_id, .. } => if streams.dom().contains(stream_id) {
            ReactionView::Closed { stream_id }
        } else {
            ReactionView::Nothing
        },
        ServerView::WindowUpdate(update) => ReactionView::Wake { stream_id: update.stream_id },
        ServerView::Ping(ping) => ReactionView::Send(
            ClientView::Pong(Pong { nonce: ping.nonce, client_time_ms: now_ms }),
        ),
        ServerView::Shutdown { .. } => ReactionView::Nothing,
        ServerView::ResponseHead(_) => ReactionView::Nothing,
        ServerView::Empty => ReactionView::Nothing,
    }
}

/// The live streams after a frame of the edge.
pub open spec fn after_reaction(
    streams: Map<u64, AgentStream>,
    frame: ServerView,
) -> Map<u64, AgentStream> {
    match frame {
        ServerView::Open(open) => streams.insert(
            open.stream_id,
            AgentStream { body_open: true, credit: open.initial_window as u64 },
        ),
        ServerView::Data { stream_id, .. } => if streams.dom().contains(stream_id)
            && !streams[stream_id].body_open {
            streams.remove(stream_id)
        } else {
            streams
        },
        ServerView::End { stream_id, .. } => if streams.dom().contains(stream_id) {
            streams.insert(stream_id, AgentStream { body_open: false, ..streams[stream_id] })
        } else {
            streams
        },
        ServerView::Reset { stream_id, .. } => streams.remove(stream_id),
        ServerView::WindowUpdate(update) => if streams.dom().contains(update.stream_id) {
            streams.insert(
                update.stream_id,
                AgentStream {
                    credit: (streams[update.stream_id].credit + update.increment) as u64,
                    ..streams[update.stream_id]
                },
            )
        } else {
            streams
        },
        _ => streams,
    }
}

/// Whether a frame can be taken: a window update must not exceed what a
/// semaphore counts.
pub open spec fn takes_frame(streams: Map<u64, AgentStream>, frame: ServerView) -> bool {
    match frame {
        ServerView::WindowUpdate(update) => streams.dom().contains(update.stream_id)
            ==> streams[update.stream_id].credit + update.increment <= MAX_CREDIT,
        _ => true,
    }
}

impl SessionCtx {
    /// No stream has more credit than a semaphore counts.
    pub closed spec fn wf(&self) -> bool {
        forall|id: u64| #[trigger]
            self@.dom().contains(id) ==> self@[id].credit <= MAX_CREDIT
    }

    /// What is published over the session.
    pub closed spec fn published(&self) -> AgentOptions {
        self.options
    }

    /// A session without streams.
    pub fn new(options: AgentOptions) -> (r: Self)
        ensures
            r.wf(),
            r@ == Map::<u64, AgentStream>::empty(),
            r.published() == options,
    {
        SessionCtx { streams: HashMap::new(), options }
    }

    /// The state of a stream.
    fn find(&self, stream_id: u64) -> (r: Option<AgentStream>)
        ensures
            match r {
                Some(stream) => self@.dom().contains(stream_id) && stream == self@[stream_id],
                None => !self@.dom().contains(stream_id),
            },
    {
        match self.streams.get(&stream_id) {
            Some(stream) => Some(*stream),
            None => None,
        }
    }

    /// Puts a stream's state in place.
    fn put(&mut self, stream_id: u64, stream: AgentStream)
        requires
            old(self).wf(),
            stream.credit <= MAX_CREDIT,
        ensures
            final(self).wf(),
            final(self)@ == old(self)@.insert(stream_id, stream),
            final(self).published() == old(self).published(),
    {
        let _ = self.streams.insert(stream_id, stream);
        assert forall|id: u64| #[trigger] self@.dom().contains(id) implies self@[id].credit
            <= MAX_CREDIT by {
            if id != stream_id {
                assert(old(self)@.dom().contains(id));
            }
        }
    }

    /// Removes a stream, and tells whether it was there. A writer parked on its
    /// window is then told that the stream is gone.
    pub fn drop_stream(&mut self, stream_id: u64) -> (r: bool)
        requires
            old(self).wf(),
        ensures
            final(self).wf(),
            final(self)@ == old(self)@.remove(stream_id),
            r == old(self)@.dom().contains(stream_id),
            final(self).published() == old(self).published(),
    {
        match self.streams.remove(&stream_id) {
            Some(_) => true,
            None => {
                assert(self@ =~= old(self)@.remove(stream_id));
                false
            },
        }
    }

    /// Whether a frame can be taken.
    pub fn accepts(&self, frame: &ServerFrame) -> (r: bool)
        requires
            self.wf(),
        ensures
            r == takes_frame(self@, frame@),
    {
        match &frame.payload {
            Some(ServerPayload::WindowUpdate(update)) => match self.find(update.stream_id) {
                Some(stream) => stream.credit + update.increment as u64 <= MAX_CREDIT,
                None => true,
            },
            _ => true,
        }
    }

    /// Marks the request body of a stream complete. The stream itself stays: its
    /// response is very likely still in flight.
    pub fn close_request_body(&mut self, stream_id: u64) -> (r: bool)
        requires
            old(self).wf(),
        ensures
            final(self).wf(),
            r == old(self)@.dom().contains(stream_id),
            final(self)@ == if r {
                old(self)@.insert(
                    stream_id,
                    AgentStream { body_open: false, ..old(self)@[stream_id] },
                )
            } else {
                old(self)@
            },
            final(self).published() == old(self).published(),
    {
        match self.find(stream_id) {
            Some(stream) => {
                self.put(stream_id, AgentStream { body_open: false, credit: stream.credit });
                true
            },
            None => false,
        }
    }

    /// Takes a frame of the edge.
    ///
    /// An opened stream is registered here, on the read loop, before it is served:
    /// bytes and the end of its body can be the very next frames, and would be
    /// dropped if the stream were not known yet.
    pub fn handle_server_frame(&mut self, frame: ServerFrame, now_ms: i64) -> (r: Reaction)
        requires
            old(self).wf(),
            takes_frame(old(self)@, frame@),
        ensures
            final(self).wf(),
            final(self)@ == after_reaction(old(self)@, frame@),
            final(self).published() == old(self).published(),
            r@ == reaction(old(self)@, old(self).published(), frame@, now_ms),
    {
        let payload = match frame.payload {
            Some(payload) => payload,
            None => return Reaction::Nothing,
        };
        match payload {
            ServerPayload::Welcome(welcome) => {
                let open = build_open_tunnel(&self.options, now_ms);
                Reaction::Announce(
                    AgentEvent::Connected {
                        session_id: welcome.session_id,
                        node_id: welcome.node_id,
                    },
                    Some(ClientFrame { payload: Some(ClientPayload::OpenTunnel(open)) }),
                )
            },
            ServerPayload::TunnelStatus(status) => {
                if status.accepted {
                    Reaction::Announce(AgentEvent::TunnelReady(status), None)
                } else {
                    Reaction::Announce(AgentEvent::TunnelRejected(status.error), None)
                }
            },
            ServerPayload::Open(open) => {
                self.put(
                    open.stream_id,
                    AgentStream { body_open: true, credit: open.initial_window as u64 },
                );
                Reaction::Serve(open)
            },
            ServerPayload::Data(data) => {
                let stream_id: u64 = data.stream_id;
                match self.find(stream_id) {
                    Some(stream) => {
                        if stream.body_open {
                            Reaction::Deliver { stream_id, payload: data.payload }
                        } else {
                            let _ = self.drop_stream(stream_id);
                            Reaction::Closed { stream_id }
                        }
                    },
                    None => Reaction::Nothing,
                }
            },
            ServerPayload::End(end) => {
                if self.close_request_body(end.stream_id) {
                    Reaction::EndBody { stream_id: end.stream_id }
                } else {
                    Reaction::Nothing
                }
            },
            ServerPayload::Reset(reset) => {
                if self.drop_stream(reset.stream_id) {
                    Reaction::Closed { stream_id: reset.stream_id }
                } else {
                    Reaction::Nothing
                }
            },
            ServerPayload::WindowUpdate(update) => {
                match self.find(update.stream_id) {
                    Some(stream) => {
                        self.put(
                            update.stream_id,
                            AgentStream {
                                body_open: stream.body_open,
                                credit: stream.credit + update.increment as u64,
                            },
                        );
                    },
                    None => {},
                }
                Reaction::Wake { stream_id: update.stream_id }
            },
            ServerPayload::Ping(ping) => Reaction::Send(
                ClientFrame {
                    payload: Some(
                        ClientPayload::Pong(Pong { nonce: ping.nonce, client_time_ms: now_ms }),
                    ),
                },
            ),
            ServerPayload::Shutdown(_) => Reaction::Nothing,
            ServerPayload::ResponseHead(_) => Reaction::Nothing,
        }
    }

    /// Records whether bytes were buffered for the local service. The frame, if
    /// any, returns credit for them; a request that no longer takes them loses
    /// its stream.
    pub fn after_delivery(&mut self, stream_id: u64, len: usize, delivered: bool) -> (r: Option<
        ClientFrame,
    >)
        requires
            old(self).wf(),
        ensures
            final(self).wf(),
            final(self).published() == old(self).published(),
            if delivered {
                &&& r matches Some(frame)
                &&& frame@ == ClientView::WindowUpdate(
                    WindowUpdate { stream_id, increment: control::credit_for(len) },
                )
                &&& final(self)@ == old(self)@
            } else {
                &&& r is None
                &&& final(self)@ == old(self)@.remove(stream_id)
            },
    {
        if delivered {
            let increment: u32 = if len <= u32::MAX as usize {
                len as u32
            } else {
                u32::MAX
            };
            Some(
                ClientFrame {
                    payload: Some(
                        ClientPayload::WindowUpdate(WindowUpdate { stream_id, increment }),
                    ),
                },
            )
        } else {
            let _ = self.drop_stream(stream_id);
            None
        }
    }
}

/// Bytes that follow an opening at once are not lost: the stream is known as
/// soon as the opening has been read.
pub proof fn opened_streams_take_data_at_once(
    streams: Map<u64, AgentStream>,
    options: AgentOptions,
    open: OpenView,
    payload: Seq<u8>,
    now_ms: i64,
)
    ensures
        ({
            let after = after_reaction(streams, ServerView::Open(open));
            reaction(
                after,
                options,
                ServerView::Data { stream_id: open.stream_id, payload },
                now_ms,
            ) == (ReactionView::Deliver { stream_id: open.stream_id, payload })
        }),
{
}

/// The end of a request's body leaves its stream in place, with its credit, so
/// that the response can still be sent.
pub proof fn the_response_outlives_the_request_body(
    streams: Map<u64, AgentStream>,
    id: u64,
    trailers: Seq<HeaderView>,
)
    requires
        streams.dom().contains(id),
    ensures
        after_reaction(streams, ServerView::End { stream_id: id, trailers }).dom().contains(id),
        after_reaction(streams, ServerView::End { stream_id: id, trailers })[id].credit
            == streams[id].credit,
{
}

/// The pieces in which a response body is sent; none for no bytes.
pub open spec fn pieces(payload: Seq<u8>) -> Seq<Seq<u8>> {
    if payload.len() == 0 {
        Seq::empty()
    } else {
        session::chunked(payload)
    }
}

/// Response bytes on their way to the edge, piece by piece, as credit allows.
#[derive(Debug)]
pub struct AgentWriter {
    stream_id: u64,
    rest: Bytes,
}

/// A writer by what it has left to send.
#[verifier::ext_equal]
pub struct AgentWriterView {
    pub stream_id: u64,
    pub rest: Seq<u8>,
}

impl View for AgentWriter {
    type V = AgentWriterView;

    closed spec fn view(&self) -> AgentWriterView {
        AgentWriterView { stream_id: self.stream_id, rest: payload::bytes_of(self.rest) }
    }
}

/// What a writer is to do next.
#[derive(Debug)]
pub enum AgentStep {
    /// Send this frame, then ask again.
    Frame(ClientFrame),
    /// Wait until the edge grants credit or the stream is closed, then ask again.
    Blocked,
    /// The stream went away before everything was sent.
    Gone,
    /// Everything was sent.
    Done,
}

/// A step by its frame.
#[verifier::ext_equal]
pub enum AgentStepView {
    Frame(ClientView),
    Blocked,
    Gone,
    Done,
}

impl View for AgentStep {
    type V = AgentStepView;

    open spec fn view(&self) -> AgentStepView {
        match self {
            AgentStep::Frame(frame) => AgentStepView::Frame(frame@),
            AgentStep::Blocked => AgentStepView::Blocked,
            AgentStep::Gone => AgentStepView::Gone,
            AgentStep::Done => AgentStepView::Done,
        }
    }
}

impl AgentWriterView {
    /// How much the next frame carries.
    pub open spec fn next_len(self) -> nat {
        if self.rest.len() <= MAX_CHUNK {
            self.rest.len()
        } else {
            MAX_CHUNK as nat
        }
    }

    /// What this writer is to do next.
    pub open spec fn step(self, streams: Map<u64, AgentStream>) -> AgentStepView {
        if self.rest.len() == 0 {
            AgentStepView::Done
        } else if !streams.dom().contains(self.stream_id) {
            AgentStepView::Gone
        } else if streams[self.stream_id].credit < self.next_len() {
            AgentStepView::Blocked
        } else {
            AgentStepView::Frame(
                ClientView::Data {
                    stream_id: self.stream_id,
                    payload: self.rest.take(self.next_len() as int),
                },
            )
        }
    }

    /// The writer after its next step.
    pub open spec fn stepped(self, streams: Map<u64, AgentStream>) -> AgentWriterView {
        if self.step(streams) is Frame {
            AgentWriterView { rest: self.rest.skip(self.next_len() as int), ..self }
        } else {
            self
        }
    }

    /// The streams after the writer's next step: a frame costs as much credit as
    /// it has bytes.
    pub open spec fn charged(self, streams: Map<u64, AgentStream>) -> Map<u64, AgentStream> {
        if self.step(streams) is Frame {
            let stream = streams[self.stream_id];
            streams.insert(
                self.stream_id,
                AgentStream { credit: (stream.credit - self.next_len()) as u64, ..stream },
            )
        } else {
            streams
        }
    }
}

/// Starts sending response bytes upstream.
pub fn send_payload(stream_id: u64, payload: Bytes) -> (r: AgentWriter)
    ensures
        r@ == (AgentWriterView { stream_id, rest: payload::bytes_of(payload) }),
{
    AgentWriter { stream_id, rest: payload }
}

impl AgentWriter {
    /// Sends the next piece, where the edge has advertised room for it.
    pub fn step(&mut self, ctx: &mut SessionCtx) -> (r: AgentStep)
        requires
            old(ctx).wf(),
        ensures
            final(ctx).wf(),
            final(ctx).published() == old(ctx).published(),
            r@ == old(self)@.step(old(ctx)@),
            final(self)@ == old(self)@.stepped(old(ctx)@),
            final(ctx)@ == old(self)@.charged(old(ctx)@),
    {
        let len: usize = payload::length(&self.rest);
        if len == 0 {
            return AgentStep::Done;
        }
        let take: usize = if len <= MAX_CHUNK {
            len
        } else {
            MAX_CHUNK
        };
        match ctx.find(self.stream_id) {
            None => AgentStep::Gone,
            Some(stream) => {
                if stream.credit < take as u64 {
                    return AgentStep::Blocked;
                }
                let chunk = payload::split_to(&mut self.rest, take);
                ctx.put(
                    self.stream_id,
                    AgentStream { body_open: stream.body_open, credit: stream.credit - take as u64 },
                );
                AgentStep::Frame(
                    ClientFrame {
                        payload: Some(
                            ClientPayload::Data(
                                StreamData { stream_id: self.stream_id, payload: chunk },
                            ),
                        ),
                    },
                )
            },
        }
    }
}

/// A writer's frames are the pieces of its payload, in order: each step sends the
/// first piece of what is left and leaves the others.
pub proof fn writers_send_the_pieces_in_order(
    writer: AgentWriterView,
    streams: Map<u64, AgentStream>,
)
    requires
        writer.step(streams) is Frame,
    ensures
        writer.step(streams) == AgentStepView::Frame(
            ClientView::Data { stream_id: writer.stream_id, payload: pieces(writer.rest)[0] },
        ),
        pieces(writer.stepped(streams).rest) == pieces(writer.rest).skip(1),
{
    let rest = writer.rest;
    if rest.len() <= MAX_CHUNK {
        assert(rest.take(rest.len() as int) =~= rest);
        assert(pieces(rest).skip(1) =~= Seq::empty());
    } else {
        assert(pieces(rest).skip(1) =~= session::chunked(rest.skip(MAX_CHUNK as int)));
    }
}

/// What is done to the sending side of a stream: the edge grants credit, or a
/// writer takes its next step.
pub enum SendOp {
    Grant(u32),
    Step(AgentWriterView),
}

/// The frame that grants credit for a stream.
pub open spec fn grant(id: u64, increment: u32) -> ServerView {
    ServerView::WindowUpdate(WindowUpdate { stream_id: id, increment })
}

/// The streams after a series of operations on one of them.
pub open spec fn after_ops(streams: Map<u64, AgentStream>, id: u64, ops: Seq<SendOp>) -> Map<
    u64,
    AgentStream,
>
    decreases ops.len(),
{
    if ops.len() == 0 {
        streams
    } else {
        let before = after_ops(streams, id, ops.drop_last());
        match ops.last() {
            SendOp::Grant(increment) => after_reaction(before, grant(id, increment)),
            SendOp::Step(writer) => writer.charged(before),
        }
    }
}

/// Whether a series of operations can happen to a stream: its writers write to
/// it, and no grant exceeds what its semaphore counts.
pub open spec fn possible_ops(streams: Map<u64, AgentStream>, id: u64, ops: Seq<SendOp>) -> bool
    decreases ops.len(),
{
    ops.len() == 0 || {
        &&& possible_ops(streams, id, ops.drop_last())
        &&& match ops.last() {
            SendOp::Grant(increment) => takes_frame(
                after_ops(streams, id, ops.drop_last()),
                grant(id, increment),
            ),
            SendOp::Step(writer) => writer.stream_id == id,
        }
    }
}

/// Body bytes that leave for the edge in a series of operations.
pub open spec fn sent_by(streams: Map<u64, AgentStream>, id: u64, ops: Seq<SendOp>) -> nat
    decreases ops.len(),
{
    if ops.len() == 0 {
        0
    } else {
        let before = after_ops(streams, id, ops.drop_last());
        sent_by(streams, id, ops.drop_last()) + match ops.last() {
            SendOp::Grant(_) => 0,
            SendOp::Step(writer) => if writer.step(before) is Frame {
                writer.next_len()
            } else {
                0
            },
        }
    }
}

/// Credit that the edge grants in a series of operations.
pub open spec fn granted_by(ops: Seq<SendOp>) -> nat
    decreases ops.len(),
{
    if ops.len() == 0 {
        0
    } else {
        granted_by(ops.drop_last()) + match ops.last() {
            SendOp::Grant(increment) => increment as nat,
            SendOp::Step(_) => 0,
        }
    }
}

/// Whatever happens to a stream, no more bytes leave for the edge than its window
/// and its grants allow, and what is left of them is the credit.
pub proof fn responses_stay_within_the_window(
    streams: Map<u64, AgentStream>,
    id: u64,
    ops: Seq<SendOp>,
)
    requires
        streams.dom().contains(id),
        streams[id].credit <= MAX_CREDIT,
        possible_ops(streams, id, ops),
    ensures
        after_ops(streams, id, ops).dom().contains(id),
        after_ops(streams, id, ops)[id].credit <= MAX_CREDIT,
        sent_by(streams, id, ops) + after_ops(streams, id, ops)[id].credit == streams[id].credit
            + granted_by(ops),
        sent_by(streams, id, ops) <= streams[id].credit + granted_by(ops),
    decreases ops.len(),
{
    if ops.len() > 0 {
        responses_stay_within_the_window(streams, id, ops.drop_last());
    }
}

/// Closing a stream unparks its writer.
pub proof fn a_dropped_stream_unparks_its_writer(
    writer: AgentWriterView,
    streams: Map<u64, AgentStream>,
)
    requires
        writer.rest.len() > 0,
    ensures
        writer.step(streams.remove(writer.stream_id)) is Gone,
{
}

/// Whether a character brackets an address literal.
pub open spec fn is_bracket(c: char) -> bool {
    c == '[' || c == ']'
}

/// A text without leading brackets.
pub open spec fn without_leading_brackets(s: Seq<char>) -> Seq<char>
    decreases s.len(),
{
    if s.len() > 0 && is_bracket(s[0]) {
        without_leading_brackets(s.skip(1))
    } else {
        s
    }
}

/// A text without trailing brackets.
pub open spec fn without_trailing_brackets(s: Seq<char>) -> Seq<char>
    decreases s.len(),
{
    if s.len() > 0 && is_bracket(s.last()) {
        without_trailing_brackets(s.drop_last())
    } else {
        s
    }
}

/// The address of a public client, without its port and without brackets.
pub open spec fn client_ip(remote_addr: Seq<char>) -> Option<Seq<char>> {
    let colon = text::last_position(remote_addr, ':');
    if colon < 0 {
        None
    } else {
        Some(without_trailing_brackets(without_leading_brackets(remote_addr.take(colon))))
    }
}

/// Reads the address of a public client.
fn read_client_ip(remote_addr: &str) -> (r: Option<String>)
    ensures
        text::optional(r) == client_ip(remote_addr@),
{
    let chars = text::chars_of(remote_addr);
    let colon: usize = match text::find_last(&chars, ':') {
        Some(colon) => colon,
        None => return None,
    };
    let ghost host = remote_addr@.take(colon as int);
    let mut i: usize = 0;
    assert(host.skip(0) =~= host);
    while i < colon && (chars[i] == '[' || chars[i] == ']')
        invariant
            i <= colon < chars@.len(),
            chars@ == remote_addr@,
            host == remote_addr@.take(colon as int),
            without_leading_brackets(host) == without_leading_brackets(host.skip(i as int)),
        decreases colon - i,
    {
        assert(host.skip(i as int).skip(1) =~= host.skip(i as int + 1));
        i = i + 1;
    }
    let ghost led = host.skip(i as int);
    let mut j: usize = colon;
    assert(remote_addr@.subrange(i as int, j as int) =~= led);
    while i < j && (chars[j - 1] == '[' || chars[j - 1] == ']')
        invariant
            i <= j <= colon < chars@.len(),
            chars@ == remote_addr@,
            without_trailing_brackets(led) == without_trailing_brackets(
                remote_addr@.subrange(i as int, j as int),
            ),
        decreases j,
    {
        assert(remote_addr@.subrange(i as int, j as int).drop_last() =~= remote_addr@.subrange(
            i as int,
            j - 1,
        ));
        j = j - 1;
    }
    Some(remote_addr.substring_char(i, j).to_owned())
}

/// Whether a public header goes to the local service: well formed, and not the
/// host where that is rewritten.
pub open spec fn goes_local(h: HeaderView, rewrite_host: bool) -> bool {
    &&& fields::is_field_name(h.name)
    &&& fields::is_field_value(h.value)
    &&& !(rewrite_host && text::lower(h.name) == "host"@)
}

/// The fields that the headers of a public request make up for the local
/// service.
pub open spec fn forwarded(headers: Seq<HeaderView>, rewrite_host: bool) -> Map<
    Seq<char>,
    Seq<Seq<u8>>,
>
    decreases headers.len(),
{
    if headers.len() == 0 {
        fields::nothing()
    } else if goes_local(headers.last(), rewrite_host) {
        fields::with_appended(
            forwarded(headers.drop_last(), rewrite_host),
            text::lower(headers.last().name),
            headers.last().value,
        )
    } else {
        forwarded(headers.drop_last(), rewrite_host)
    }
}

/// The target of a request at the local service.
pub open spec fn local_uri(options: AgentOptions, head: RequestHeadView) -> Seq<char> {
    "http://"@ + options.forward_addr@ + head.path
}

/// The headers that tell the local service who made a request, and the rewritten
/// host, on top of the forwarded ones.
pub open spec fn local_fields(
    options: AgentOptions,
    head: RequestHeadView,
    remote_addr: Seq<char>,
) -> Map<Seq<char>, Seq<Seq<u8>>> {
    let base = forwarded(head.headers, options.rewrite_host);
    let hosted = if options.rewrite_host {
        fields::with_appended(base, "host"@, encode_utf8(options.forward_addr@))
    } else {
        base
    };
    let traced = match client_ip(remote_addr) {
        Some(ip) => fields::with_appended(hosted, "x-forwarded-for"@, encode_utf8(ip)),
        None => hosted,
    };
    fields::with_appended(
        fields::with_appended(traced, "x-forwarded-host"@, encode_utf8(head.authority)),
        "x-forwarded-proto"@,
        encode_utf8("https"@),
    )
}

/// Why a public request cannot be made locally, given what is wrong with its
/// target; `None` where it can.
pub open spec fn request_fault(
    options: AgentOptions,
    head: RequestHeadView,
    remote_addr: Seq<char>,
    uri_fault: Option<Seq<char>>,
) -> Option<Seq<char>> {
    if !fields::is_token(head.method) {
        Some("invalid HTTP method"@)
    } else if uri_fault is Some {
        uri_fault
    } else if (options.rewrite_host && !fields::is_field_value(encode_utf8(options.forward_addr@)))
        || (client_ip(remote_addr) matches Some(ip) && !fields::is_field_value(encode_utf8(ip)))
        || !fields::is_field_value(encode_utf8(head.authority)) {
        Some("failed to parse header value"@)
    } else {
        None
    }
}

/// A request to the local service. Its body is streamed separately.
#[derive(Debug)]
pub struct LocalRequest {
    pub method: String,
    pub uri: String,
    pub headers: HeaderMap,
}

/// Whether a local request came out as described. With more names than a header
/// map takes for certain, it may also fail for want of room.
pub open spec fn built(
    r: Result<LocalRequest, String>,
    options: AgentOptions,
    head: RequestHeadView,
    remote_addr: Seq<char>,
    uri_fault: Option<Seq<char>>,
) -> bool {
    let fault = request_fault(options, head, remote_addr, uri_fault);
    let roomy = fields::fits(local_fields(options, head, remote_addr));
    match r {
        Ok(request) => {
            &&& fault is None
            &&& request.method@ == head.method
            &&& request.uri@ == local_uri(options, head)
            &&& fields::fields_of(request.headers) == local_fields(options, head, remote_addr)
        },
        Err(m) => fault == Some(m@) || (!roomy && m@ == "max size reached"@),
    }
}

/// Whether a text is a token.
fn token(s: &str) -> (r: bool)
    ensures
        r == fields::is_token(s@),
{
    let chars = text::chars_of(s);
    let mut i: usize = 0;
    while i < chars.len()
        invariant
            i <= chars@.len(),
            chars@ == s@,
            forall|k: int| 0 <= k < i ==> fields::token_char(#[trigger] s@[k]),
        decreases chars@.len() - i,
    {
        let c = chars[i];
        let ok = ('a' <= c && c <= 'z') || ('A' <= c && c <= 'Z') || ('0' <= c && c <= '9') || c == '!'
            || c == '#' || c == '$' || c == '%' || c == '&' || c == '\'' || c == '*' || c == '+' || c
            == '-' || c == '.' || c == '^' || c == '_' || c == '`' || c == '|' || c == '~';
        if !ok {
            assert(!fields::token_char(s@[i as int]));
            return false;
        }
        i = i + 1;
    }
    chars.len() > 0
}

/// Adds a field of the agent's own. Returns what went wrong, if anything.
fn add_field(map: &mut HeaderMap, name: &str, value: &str) -> (r: Option<String>)
    requires
        fields::is_stored_name(name@),
    ensures
        match r {
            None => fields::is_field_value(encode_utf8(value@)) && fields::fields_of(*final(map))
                == fields::with_appended(
                fields::fields_of(*old(map)),
                name@,
                encode_utf8(value@),
            ),
            Some(m) => if fields::is_field_value(encode_utf8(value@)) {
                m@ == "max size reached"@ && !fields::roomy(*old(map))
            } else {
                m@ == "failed to parse header value"@
            },
        },
{
    if fields::append(map, name, value.as_bytes()) {
        return None;
    }
    let mut probe = fields::no_fields();
    if fields::append(&mut probe, name, value.as_bytes()) {
        Some("max size reached".to_owned())
    } else {
        Some("failed to parse header value".to_owned())
    }
}

/// The fields that a list of headers makes up are no more than the headers.
proof fn lemma_forwarded_size(headers: Seq<HeaderView>, rewrite_host: bool)
    ensures
        forwarded(headers, rewrite_host).dom().finite(),
        forwarded(headers, rewrite_host).dom().len() <= headers.len(),
    decreases headers.len(),
{
    if headers.len() > 0 {
        lemma_forwarded_size(headers.drop_last(), rewrite_host);
    }
}

/// A request with few enough headers never fails for want of room.
pub proof fn few_headers_fit(
    options: AgentOptions,
    head: RequestHeadView,
    remote_addr: Seq<char>,
)
    requires
        head.headers.len() + 4 <= fields::SAFE_FIELDS,
    ensures
        fields::fits(local_fields(options, head, remote_addr)),
{
    lemma_forwarded_size(head.headers, options.rewrite_host);
}

/// More headers never make up fewer names.
proof fn lemma_forwarded_grows(headers: Seq<HeaderView>, rewrite_host: bool, k: int)
    requires
        0 <= k <= headers.len(),
    ensures
        forwarded(headers.take(k), rewrite_host).dom().subset_of(
            forwarded(headers, rewrite_host).dom(),
        ),
    decreases headers.len(),
{
    if k == headers.len() {
        assert(headers.take(k) =~= headers);
    } else {
        lemma_forwarded_grows(headers.drop_last(), rewrite_host, k);
        assert(headers.drop_last().take(k) =~= headers.take(k));
    }
}

/// Collects the headers that go to the local service. `None` means that there is
/// no room for them.
fn forward_headers(headers: &Vec<Header>, rewrite_host: bool) -> (r: Option<HeaderMap>)
    ensures
        fields::fits(forwarded(proto::header_views(headers@), rewrite_host)) ==> r is Some,
        r matches Some(map) ==> fields::fields_of(map) == forwarded(
            proto::header_views(headers@),
            rewrite_host,
        ),
{
    let ghost views = proto::header_views(headers@);
    let mut map = fields::no_fields();
    let mut i: usize = 0;
    assert(views.take(0) =~= Seq::<HeaderView>::empty());
    while i < headers.len()
        invariant
            i <= headers@.len(),
            views == proto::header_views(headers@),
            fields::fields_of(map) == forwarded(views.take(i as int), rewrite_host),
        decreases headers@.len() - i,
    {
        let header = &headers[i];
        proof {
            lemma_forwarded_grows(views, rewrite_host, i as int);
            if fields::fits(forwarded(views, rewrite_host)) {
                fields::lemma_fits_with_fewer(
                    fields::fields_of(map),
                    forwarded(views, rewrite_host),
                );
            }
            assert(views.take(i as int + 1).drop_last() =~= views.take(i as int));
            assert(views.take(i as int + 1).last() == header@);
        }
        let lower = text::to_lower(header.name.as_str());
        if !(rewrite_host && text::same(lower.as_str(), "host")) {
            let value = payload::slice(&header.value);
            if !fields::append(&mut map, header.name.as_str(), value) {
                let mut probe = fields::no_fields();
                if fields::append(&mut probe, header.name.as_str(), value) {
                    return None;
                }
            }
        }
        i = i + 1;
    }
    assert(views.take(headers@.len() as int) =~= views);
    Some(map)
}

/// The names of the agent's own fields are valid.
proof fn lemma_own_names()
    ensures
        fields::is_stored_name("host"@),
        fields::is_stored_name("x-forwarded-for"@),
        fields::is_stored_name("x-forwarded-host"@),
        fields::is_stored_name("x-forwarded-proto"@),
        fields::is_field_value(encode_utf8("https"@)),
{
    reveal_strlit("host");
    reveal_strlit("x-forwarded-for");
    reveal_strlit("x-forwarded-host");
    reveal_strlit("x-forwarded-proto");
    reveal_strlit("https");
    assert(text::lower("host"@) =~= "host"@);
    assert(text::lower("x-forwarded-for"@) =~= "x-forwarded-for"@);
    assert(text::lower("x-forwarded-host"@) =~= "x-forwarded-host"@);
    assert(text::lower("x-forwarded-proto"@) =~= "x-forwarded-proto"@);
    fields::lemma_printable_value("https"@);
}

/// Builds the request to the local service, given what is wrong with its target,
/// if anything.
pub fn local_request(
    options: &AgentOptions,
    head: &HttpRequestHead,
    remote_addr: &str,
    uri_fault: Option<String>,
) -> (r: Result<LocalRequest, String>)
    ensures
        built(r, *options, head@, remote_addr@, text::optional(uri_fault)),
{
    if !token(head.method.as_str()) {
        return Err("invalid HTTP method".to_owned());
    }
    if let Some(fault) = uri_fault {
        return Err(fault);
    }
    proof {
        lemma_own_names();
        let all = local_fields(*options, head@, remote_addr@);
        if fields::fits(all) {
            assert forall|fewer: Map<Seq<char>, Seq<Seq<u8>>>|
                #[trigger] fields::fits(fewer) || !fewer.dom().subset_of(all.dom()) by {
                if fewer.dom().subset_of(all.dom()) {
                    fields::lemma_fits_with_fewer(fewer, all);
                }
            }
        }
    }
    let mut headers = match forward_headers(&head.headers, options.rewrite_host) {
        Some(headers) => headers,
        None => return Err("max size reached".to_owned()),
    };
    if options.rewrite_host {
        if let Some(fault) = add_field(&mut headers, "host", options.forward_addr.as_str()) {
            return Err(fault);
        }
    }
    // Tell the local service who actually made the request.
    if let Some(ip) = read_client_ip(remote_addr) {
        if let Some(fault) = add_field(&mut headers, "x-forwarded-for", ip.as_str()) {
            return Err(fault);
        }
    }
    if let Some(fault) = add_field(&mut headers, "x-forwarded-host", head.authority.as_str()) {
        return Err(fault);
    }
    if let Some(fault) = add_field(&mut headers, "x-forwarded-proto", "https") {
        return Err(fault);
    }
    Ok(
        LocalRequest {
            method: head.method.clone(),
            uri: text::join3("http://", options.forward_addr.as_str(), head.path.as_str()),
            headers,
        },
    )
}

/// The frame that aborts a stream.
pub fn reset(stream_id: u64, code: ResetCode, message: &str) -> (r: ClientFrame)
    ensures
        r@ == (ClientView::Reset { stream_id, code: Some(code), message: message@ }),
{
    ClientFrame {
        payload: Some(
            ClientPayload::Reset(
                StreamReset { stream_id, code: Some(code), message: message.to_owned() },
            ),
        ),
    }
}

impl SessionCtx {
    /// What is published over the session.
    pub fn options(&self) -> (r: &AgentOptions)
        ensures
            *r == self.published(),
    {
        &self.options
    }

    /// Aborts a stream. The frame tells the edge.
    pub fn abort_stream(&mut self, stream_id: u64, code: ResetCode, message: &str) -> (r:
        ClientFrame)
        requires
            old(self).wf(),
        ensures
            final(self).wf(),
            final(self)@ == old(self)@.remove(stream_id),
            final(self).published() == old(self).published(),
            r@ == (ClientView::Reset { stream_id, code: Some(code), message: message@ }),
    {
        let _ = self.drop_stream(stream_id);
        reset(stream_id, code, message)
    }

    /// Begins to serve a public request: the request to make at the local service,
    /// or the frame that tells the edge why it cannot be made.
    pub fn serve_stream(&mut self, open: &StreamOpen) -> (r: Result<LocalRequest, ClientFrame>)
        requires
            old(self).wf(),
        ensures
            final(self).wf(),
            final(self).published() == old(self).published(),
            served(
                r,
                old(self).published(),
                open@,
                match open@.http {
                    Some(head) => fields::uri_fault(local_uri(old(self).published(), head)),
                    None => None,
                },
            ),
            final(self)@ == if r is Ok {
                old(self)@
            } else {
                old(self)@.remove(open@.stream_id)
            },
    {
        let fault = match &open.http {
            Some(head) => {
                let uri = text::join3(
                    "http://",
                    self.options.forward_addr.as_str(),
                    head.path.as_str(),
                );
                fields::check_uri(uri.as_str())
            },
            None => None,
        };
        self.serve_checked(open, fault)
    }

    /// Begins to serve a public request, given what is wrong with its target, if
    /// anything.
    pub fn serve_checked(&mut self, open: &StreamOpen, uri_fault: Option<String>) -> (r: Result<
        LocalRequest,
        ClientFrame,
    >)
        requires
            old(self).wf(),
        ensures
            final(self).wf(),
            final(self).published() == old(self).published(),
            served(r, old(self).published(), open@, text::optional(uri_fault)),
            final(self)@ == if r is Ok {
                old(self)@
            } else {
                old(self)@.remove(open@.stream_id)
            },
    {
        let stream_id: u64 = open.stream_id;
        let head = match &open.http {
            Some(head) => head,
            None => {
                return Err(
                    self.abort_stream(
                        stream_id,
                        ResetCode::ProtocolError,
                        "Open frame without an HTTP head",
                    ),
                );
            },
        };
        let attempt = local_request(&self.options, head, open.remote_addr.as_str(), uri_fault);
        match attempt {
            Ok(request) => {
                assert(built(
                    Ok(request),
                    old(self).published(),
                    head@,
                    open@.remote_addr,
                    text::optional(uri_fault),
                ));
                Ok(request)
            },
            Err(fault) => {
                let message = text::join2("bad request: ", fault.as_str());
                let frame = self.abort_stream(
                    stream_id,
                    ResetCode::ProtocolError,
                    message.as_str(),
                );
                assert(built(
                    Err(fault),
                    old(self).published(),
                    head@,
                    open@.remote_addr,
                    text::optional(uri_fault),
                ));
                assert(turned_down(
                    frame@,
                    old(self).published(),
                    open@,
                    head@,
                    text::optional(uri_fault),
                ));
                Err(frame)
            },
        }
    }

    /// Gives a stream up whose local service could not be reached. The frame tells
    /// the edge.
    pub fn local_unreachable(&mut self, stream_id: u64, cause: &str) -> (r: ClientFrame)
        requires
            old(self).wf(),
        ensures
            final(self).wf(),
            final(self)@ == old(self)@.remove(stream_id),
            final(self).published() == old(self).published(),
            r@ == (ClientView::Reset {
                stream_id,
                code: Some(ResetCode::LocalUnreachable),
                message: "cannot reach "@ + old(self).published().forward_addr@ + ": "@ + cause@,
            }),
    {
        let mut message = text::join3("cannot reach ", self.options.forward_addr.as_str(), ": ");
        message.append(cause);
        self.abort_stream(stream_id, ResetCode::LocalUnreachable, message.as_str())
    }
}

/// Whether serving began as described: with the request to make, or with a reset
/// that says why there is none.
pub open spec fn served(
    r: Result<LocalRequest, ClientFrame>,
    options: AgentOptions,
    open: OpenView,
    uri_fault: Option<Seq<char>>,
) -> bool {
    match open.http {
        None => r matches Err(frame) && frame@ == (ClientView::Reset {
            stream_id: open.stream_id,
            code: Some(ResetCode::ProtocolError),
            message: "Open frame without an HTTP head"@,
        }),
        Some(head) => match r {
            Ok(request) => built(Ok(request), options, head, open.remote_addr, uri_fault),
            Err(frame) => turned_down(frame@, options, open, head, uri_fault),
        },
    }
}

/// Whether a frame tells the edge why a request cannot be made locally.
pub open spec fn turned_down(
    frame: ClientView,
    options: AgentOptions,
    open: OpenView,
    head: RequestHeadView,
    uri_fault: Option<Seq<char>>,
) -> bool {
    exists|fault: String| #[trigger]
        built(Err(fault), options, head, open.remote_addr, uri_fault) && frame == (
        ClientView::Reset {
            stream_id: open.stream_id,
            code: Some(ResetCode::ProtocolError),
            message: "bad request: "@ + fault@,
        })
}

/// The frame that carries the head of the local service's response.
pub fn response_head(stream_id: u64, status: u16, headers: &HeaderMap) -> (r: ClientFrame)
    ensures
        r@ matches ClientView::ResponseHead(head) && head.stream_id == stream_id && head.status
            == status && head.headers == fields::listing_of(*headers) && (forall|name: Seq<char>|
            #[trigger] fields::values_for(head.headers, name) == fields::values_under(
                fields::fields_of(*headers),
                name,
            )),
{
    ClientFrame {
        payload: Some(
            ClientPayload::ResponseHead(
                HttpResponseHead { stream_id, status: status as u32, headers: fields::all(headers) },
            ),
        ),
    }
}

/// What the body of the local service's response gives next.
#[derive(Debug)]
pub enum LocalBody {
    /// Bytes.
    Data(Bytes),
    /// Trailers.
    Trailers(HeaderMap),
    /// The local service failed.
    Failed(String),
    /// The end.
    End,
}

/// What to do about it.
#[derive(Debug)]
pub enum ServeStep {
    /// Send these bytes as the window allows, then go on.
    Write(AgentWriter),
    /// Go on.
    Continue,
    /// Send this frame; the stream is done.
    Last(ClientFrame),
}

/// A response that is being sent upstream.
#[derive(Debug)]
pub struct Responder {
    pub stream_id: u64,
    /// Trailers seen so far, sent with the end.
    pub trailers: Vec<Header>,
}

impl Responder {
    /// A response of which only the head has been sent.
    pub fn new(stream_id: u64) -> (r: Self)
        ensures
            r.stream_id == stream_id,
            r.trailers@.len() == 0,
    {
        Responder { stream_id, trailers: Vec::new() }
    }

    /// Takes what the body of the local service's response gives next.
    pub fn on_body(&mut self, ctx: &mut SessionCtx, event: LocalBody) -> (r: ServeStep)
        requires
            old(ctx).wf(),
        ensures
            final(ctx).wf(),
            final(ctx).published() == old(ctx).published(),
            final(self).stream_id == old(self).stream_id,
            match event {
                LocalBody::Data(bytes) => {
                    &&& r matches ServeStep::Write(writer)
                    &&& writer@ == (AgentWriterView {
                        stream_id: old(self).stream_id,
                        rest: payload::bytes_of(bytes),
                    })
                    &&& final(ctx)@ == old(ctx)@
                    &&& final(self).trailers@ == old(self).trailers@
                },
                LocalBody::Trailers(map) => {
                    &&& r is Continue
                    &&& final(ctx)@ == old(ctx)@
                    &&& proto::header_views(final(self).trailers@) == fields::listing_of(map)
                    &&& forall|name: Seq<char>| #[trigger]
                        fields::values_for(proto::header_views(final(self).trailers@), name)
                            == fields::values_under(fields::fields_of(map), name)
                },
                LocalBody::Failed(cause) => {
                    &&& r matches ServeStep::Last(frame)
                    &&& frame@ == (ClientView::Reset {
                        stream_id: old(self).stream_id,
                        code: Some(ResetCode::Internal),
                        message: "local body error: "@ + cause@,
                    })
                    &&& final(ctx)@ == old(ctx)@.remove(old(self).stream_id)
                },
                LocalBody::End => {
                    &&& r matches ServeStep::Last(frame)
                    &&& frame@ == (ClientView::End {
                        stream_id: old(self).stream_id,
                        trailers: proto::header_views(old(self).trailers@),
                    })
                    &&& final(ctx)@ == old(ctx)@.remove(old(self).stream_id)
                },
            },
    {
        match event {
            LocalBody::Data(bytes) => ServeStep::Write(send_payload(self.stream_id, bytes)),
            LocalBody::Trailers(map) => {
                self.trailers = fields::all(&map);
                ServeStep::Continue
            },
            LocalBody::Failed(cause) => {
                let message = text::join2("local body error: ", cause.as_str());
                ServeStep::Last(
                    ctx.abort_stream(self.stream_id, ResetCode::Internal, message.as_str()),
                )
            },
            LocalBody::End => {
                let mut trailers: Vec<Header> = Vec::new();
                std::mem::swap(&mut trailers, &mut self.trailers);
                let _ = ctx.drop_stream(self.stream_id);
                ServeStep::Last(
                    ClientFrame {
                        payload: Some(
                            ClientPayload::End(StreamEnd { stream_id: self.stream_id, trailers }),
                        ),
                    },
                )
            },
        }
    }
}

/// A clean end starts the count of reconnects anew; a broken session adds one, as
/// long as the agent goes on. It goes on unless it was told to stop, the error was
/// fatal, or as many reconnects as allowed have been made; zero allows any number.
pub proof fn agents_reconnect_until_their_retries_run_out(
    count: u32,
    max_retries: u32,
    reason: Seq<char>,
    stopping: bool,
)
    ensures
        ({
            let broken = EndView::Transient(reason);
            let next = next_step(count, max_retries, broken, stopping);
            let spent = max_retries != 0 && max_retries <= count;
            &&& stopping ==> next is Stop && next_count(count, max_retries, broken, stopping)
                == count
            &&& !stopping && spent ==> next == NextView::Fail(
                "giving up after "@ + text::decimal(max_retries as nat) + " reconnect attempts"@,
            ) && next_count(count, max_retries, broken, stopping) == count
            &&& !stopping && !spent ==> next == NextView::Reconnect(
                config::backoff(count as nat) as u64,
            )
            &&& !stopping && !spent && count < u32::MAX ==> next_count(
                count,
                max_retries,
                broken,
                stopping,
            ) == count + 1
        }),
        next_step(count, max_retries, EndView::Clean, false) == NextView::Reconnect(250),
        next_step(count, max_retries, EndView::Clean, true) is Stop,
        next_count(count, max_retries, EndView::Clean, false) == 1,
        next_step(count, max_retries, EndView::Fatal(reason), stopping) == NextView::Fail(reason),
{
}

/// The end of a session is read as what it is.
pub proof fn ends_are_read_as_they_are(end: Result<(), SessionError>)
    ensures
        end is Ok ==> end_view(end) is Clean,
        end matches Err(SessionError::Transient(m)) ==> end_view(end) == EndView::Transient(m@),
        end matches Err(SessionError::Fatal(m)) ==> end_view(end) == EndView::Fatal(m@),
{
}

/// An agent asks for what its options say: the subdomain and the custom domain, each
/// empty where none was given, the address that it forwards to, and whether the host
/// is rewritten.
pub proof fn agents_ask_for_what_they_were_told(options: AgentOptions, now_ms: i64)
    ensures
        ({
            let request = tunnel_request(options, now_ms);
            &&& now_ms >= 0 ==> request.request_id == "req_"@ + text::decimal(now_ms as nat)
            &&& now_ms < 0 ==> request.request_id == "req_"@ + ("-"@ + text::decimal(
                (-now_ms) as nat,
            ))
            &&& request.spec matches Some(SpecView::Http(spec))
            &&& options.subdomain matches Some(s) ==> spec.subdomain == s@
            &&& options.subdomain is None ==> spec.subdomain.len() == 0
            &&& options.domain matches Some(s) ==> spec.custom_domain == s@
            &&& options.domain is None ==> spec.custom_domain.len() == 0
            &&& spec.forward_to == options.forward_addr@
            &&& spec.rewrite_host_header == options.rewrite_host
        }),
{
}

/// A frame of the edge is answered by what it is: a welcome by the request for the
/// tunnel, a status by an event, an opening by serving it, a probe by its own number
/// with the agent's time, and what is for a stream by that stream, where it is known.
pub proof fn frames_are_answered_by_what_they_are(
    streams: Map<u64, AgentStream>,
    options: AgentOptions,
    frame: ServerView,
    now_ms: i64,
)
    ensures
        ({
            let answer = reaction(streams, options, frame, now_ms);
            &&& frame matches ServerView::Welcome(welcome) ==> {
                &&& answer matches ReactionView::Announce(event, reply)
                &&& event == (EventView::Connected {
                    session_id: welcome.session_id,
                    node_id: welcome.node_id,
                })
                &&& reply == Some(ClientView::OpenTunnel(tunnel_request(options, now_ms)))
            }
            &&& frame matches ServerView::TunnelStatus(status) ==> {
                &&& answer matches ReactionView::Announce(event, reply)
                &&& reply is None
                &&& status.accepted ==> event == EventView::TunnelReady(status)
                &&& !status.accepted ==> event == EventView::TunnelRejected(status.error)
            }
            &&& frame matches ServerView::Open(open) ==> answer == ReactionView::Serve(open)
            &&& frame matches ServerView::Ping(ping) ==> answer == ReactionView::Send(
                ClientView::Pong(Pong { nonce: ping.nonce, client_time_ms: now_ms }),
            )
            &&& frame matches ServerView::Data { stream_id, payload } ==> {
                let known = streams.dom().contains(stream_id);
                &&& !known ==> answer is Nothing
                &&& known && streams[stream_id].body_open ==> answer == (ReactionView::Deliver {
                    stream_id,
                    payload,
                })
                &&& known && !streams[stream_id].body_open ==> answer == (ReactionView::Closed {
                    stream_id,
                })
            }
            &&& frame matches ServerView::End { stream_id, .. } ==> if streams.dom().contains(
                stream_id,
            ) {
                answer == (ReactionView::EndBody { stream_id })
            } else {
                answer is Nothing
            }
            &&& frame matches ServerView::Reset { stream_id, .. } ==> if streams.dom().contains(
                stream_id,
            ) {
                answer == (ReactionView::Closed { stream_id })
            } else {
                answer is Nothing
            }
            &&& frame matches ServerView::WindowUpdate(update) ==> answer == (ReactionView::Wake {
                stream_id: update.stream_id,
            })
            &&& frame is Shutdown || frame is ResponseHead || frame is Empty ==> answer is Nothing
        }),
{
}

/// A frame of the edge changes only the stream that it is about: an opening makes it
/// known, with its window; a reset, or bytes behind the end of its body, make it
/// unknown; the end of its body closes that; and a grant adds up.
pub proof fn frames_of_the_edge_change_only_their_stream(
    streams: Map<u64, AgentStream>,
    frame: ServerView,
    id: u64,
)
    requires
        takes_frame(streams, frame),
    ensures
        ({
            let after = after_reaction(streams, frame);
            let known = streams.dom().contains(id);
            let opened = frame matches ServerView::Open(open) && open.stream_id == id;
            let dropped = (frame matches ServerView::Reset { stream_id, .. } && stream_id == id) || (
            frame matches ServerView::Data { stream_id, .. } && stream_id == id && known
                && !streams[id].body_open);
            let ended = frame matches ServerView::End { stream_id, .. } && stream_id == id;
            let granted: int = match frame {
                ServerView::WindowUpdate(update) => if update.stream_id == id {
                    update.increment as int
                } else {
                    0
                },
                _ => 0,
            };
            &&& after.dom().contains(id) <==> (known && !dropped) || opened
            &&& opened ==> after[id].body_open && after[id].credit == frame->Open_0.initial_window
            &&& known && !dropped && !opened ==> {
                &&& after[id].credit == streams[id].credit + granted
                &&& after[id].body_open <==> streams[id].body_open && !ended
            }
        }),
{
}

/// Only a grant that would give a known stream more credit than a semaphore counts is
/// not taken.
pub proof fn only_excessive_grants_of_the_edge_are_not_taken(
    streams: Map<u64, AgentStream>,
    frame: ServerView,
)
    ensures
        frame is WindowUpdate ==> {
            let update = frame->WindowUpdate_0;
            takes_frame(streams, frame) <==> (streams.dom().contains(update.stream_id)
                ==> streams[update.stream_id].credit + update.increment
                <= 2_305_843_009_213_693_951)
        },
        !(frame is WindowUpdate) ==> takes_frame(streams, frame),
{
}

/// A response writer sends the next piece, of at most 65536 bytes and as much as there
/// is, exactly where its stream is known and has credit for all of it. That costs as
/// much credit as the piece has bytes and touches nothing else. Otherwise nothing
/// changes.
pub proof fn response_writers_send_what_the_credit_allows(
    writer: AgentWriterView,
    streams: Map<u64, AgentStream>,
    other: u64,
)
    ensures
        ({
            let len: int = if writer.rest.len() <= 65536 {
                writer.rest.len() as int
            } else {
                65536
            };
            let known = streams.dom().contains(writer.stream_id);
            let stream = streams[writer.stream_id];
            let goes = len > 0 && known && len <= stream.credit;
            let after = writer.charged(streams);
            &&& len == 0 ==> writer.step(streams) is Done
            &&& len > 0 && !known ==> writer.step(streams) is Gone
            &&& len > 0 && known && !goes ==> writer.step(streams) is Blocked
            &&& goes ==> {
                &&& writer.step(streams) == AgentStepView::Frame(
                    ClientView::Data {
                        stream_id: writer.stream_id,
                        payload: writer.rest.take(len),
                    },
                )
                &&& writer.stepped(streams).stream_id == writer.stream_id
                &&& writer.rest == writer.rest.take(len) + writer.stepped(streams).rest
                &&& after.dom() =~= streams.dom()
                &&& after[writer.stream_id].credit == stream.credit - len
                &&& after[writer.stream_id].body_open == stream.body_open
                &&& other != writer.stream_id && streams.dom().contains(other) ==> after[other]
                    == streams[other]
            }
            &&& !goes ==> writer.stepped(streams) == writer && after == streams
        }),
{
    let len: int = if writer.rest.len() <= 65536 {
        writer.rest.len() as int
    } else {
        65536
    };
    assert(writer.rest =~= writer.rest.take(len) + writer.rest.skip(len));
}

/// The address of a client is what stands before the last colon, without the brackets
/// around it.
pub proof fn clients_are_named_without_port_and_brackets(
    host: Seq<char>,
    port: Seq<char>,
    before: Seq<char>,
    after: Seq<char>,
)
    requires
        !port.contains(':'),
        host.len() > 0 ==> host[0] != '[' && host[0] != ']' && host.last() != '[' && host.last()
            != ']',
        forall|i: int| 0 <= i < before.len() ==> #[trigger] before[i] == '[' || before[i] == ']',
        forall|i: int| 0 <= i < after.len() ==> #[trigger] after[i] == '[' || after[i] == ']',
    ensures
        client_ip(before + host + after + seq![':'] + port) == Some(host),
        client_ip(port) is None,
{
    let inner = before + host + after;
    let addr = inner + seq![':'] + port;
    let colon = text::last_position(addr, ':');
    text::lemma_last_position(addr, ':');
    assert(addr[inner.len() as int] == ':');
    if colon > inner.len() {
        assert(addr[colon] == port[colon - inner.len() - 1]);
        assert(port.contains(port[colon - inner.len() - 1]));
    }
    assert(addr.take(colon) =~= inner);
    text::lemma_last_position(port, ':');
    if text::last_position(port, ':') >= 0 {
        assert(port.contains(port[text::last_position(port, ':')]));
    }
    lemma_leading_brackets(before, host + after);
    assert(inner =~= before + (host + after));
    if host.len() > 0 {
        assert((host + after)[0] == host[0]);
        assert(without_leading_brackets(inner) == host + after);
        lemma_trailing_brackets(host, after);
    } else {
        assert(host + after =~= after);
        lemma_leading_brackets(after, host);
        assert(after + host =~= after);
        assert(without_leading_brackets(host) =~= host);
        lemma_trailing_brackets(host, host);
        assert(host + host =~= host);
    }
}

/// Leading brackets are passed over.
proof fn lemma_leading_brackets(brackets: Seq<char>, rest: Seq<char>)
    requires
        forall|i: int| 0 <= i < brackets.len() ==> #[trigger] brackets[i] == '[' || brackets[i] == ']',
    ensures
        without_leading_brackets(brackets + rest) == without_leading_brackets(rest),
    decreases brackets.len(),
{
    if brackets.len() == 0 {
        assert(brackets + rest =~= rest);
    } else {
        let fewer = brackets.skip(1);
        assert(is_bracket(brackets[0]));
        assert((brackets + rest)[0] == brackets[0]);
        assert((brackets + rest).skip(1) =~= fewer + rest);
        assert forall|i: int| 0 <= i < fewer.len() implies #[trigger] fewer[i] == '[' || fewer[i]
            == ']' by {
            assert(fewer[i] == brackets[i + 1]);
        }
        lemma_leading_brackets(fewer, rest);
    }
}

/// Trailing brackets are passed over.
proof fn lemma_trailing_brackets(rest: Seq<char>, brackets: Seq<char>)
    requires
        rest.len() > 0 ==> rest.last() != '[' && rest.last() != ']',
        forall|i: int| 0 <= i < brackets.len() ==> #[trigger] brackets[i] == '[' || brackets[i] == ']',
    ensures
        without_trailing_brackets(rest + brackets) == rest,
    decreases brackets.len(),
{
    if brackets.len() == 0 {
        assert(rest + brackets =~= rest);
    } else {
        let fewer = brackets.drop_last();
        assert(is_bracket(brackets[brackets.len() - 1]));
        assert((rest + brackets).last() == brackets.last());
        assert((rest + brackets).drop_last() =~= rest + fewer);
        assert forall|i: int| 0 <= i < fewer.len() implies #[trigger] fewer[i] == '[' || fewer[i]
            == ']' by {
            assert(fewer[i] == brackets[i]);
        }
        lemma_trailing_brackets(rest, fewer);
    }
}

/// A header of a public request goes to the local service, behind the values that its
/// name already has, exactly where its name and value are well formed and it is not a
/// host that is being rewritten.
pub proof fn public_headers_go_to_the_local_service(
    headers: Seq<HeaderView>,
    h: HeaderView,
    rewrite_host: bool,
)
    ensures
        forwarded(Seq::empty(), rewrite_host).dom().is_empty(),
        ({
            let name = text::lower(h.name);
            let kept = fields::is_field_name(h.name) && fields::is_field_value(h.value) && !(
            rewrite_host && name == "host"@);
            &&& kept ==> forwarded(headers.push(h), rewrite_host) == fields::with_appended(
                forwarded(headers, rewrite_host),
                name,
                h.value,
            )
            &&& !kept ==> forwarded(headers.push(h), rewrite_host) == forwarded(
                headers,
                rewrite_host,
            )
        }),
{
    assert(headers.push(h).drop_last() =~= headers);
}

/// The request to the local service goes to the address that is forwarded to, with the
/// public request's path. It carries the forwarded headers, the rewritten host where
/// that is asked for, and who made the request, for which host and how.
pub proof fn local_requests_tell_where_they_come_from(
    options: AgentOptions,
    head: RequestHeadView,
    remote_addr: Seq<char>,
    name: Seq<char>,
)
    ensures
        local_uri(options, head) == "http://"@ + options.forward_addr@ + head.path,
        ({
            let base = forwarded(head.headers, options.rewrite_host);
            let sent = local_fields(options, head, remote_addr);
            let before = fields::values_under(base, name);
            let after = fields::values_under(sent, name);
            &&& name == "x-forwarded-host"@ ==> after == before.push(encode_utf8(head.authority))
            &&& name == "x-forwarded-proto"@ ==> after == before.push(encode_utf8("https"@))
            &&& name == "x-forwarded-for"@ ==> if client_ip(remote_addr) is Some {
                after == before.push(encode_utf8(client_ip(remote_addr)->0))
            } else {
                after == before
            }
            &&& name == "host"@ ==> if options.rewrite_host {
                after == before.push(encode_utf8(options.forward_addr@))
            } else {
                after == before
            }
            &&& name != "x-forwarded-host"@ && name != "x-forwarded-proto"@ && name
                != "x-forwarded-for"@ && name != "host"@ ==> after == before && (
            sent.dom().contains(name) <==> base.dom().contains(name))
        }),
{
    reveal_strlit("x-forwarded-host");
    reveal_strlit("x-forwarded-proto");
    reveal_strlit("x-forwarded-for");
    reveal_strlit("host");
    assert("host"@.len() == 4 && "x-forwarded-for"@.len() == 15 && "x-forwarded-host"@.len() == 16
        && "x-forwarded-proto"@.len() == 17);
    let base = forwarded(head.headers, options.rewrite_host);
    let hosted = if options.rewrite_host {
        fields::with_appended(base, "host"@, encode_utf8(options.forward_addr@))
    } else {
        base
    };
    let traced = match client_ip(remote_addr) {
        Some(ip) => fields::with_appended(hosted, "x-forwarded-for"@, encode_utf8(ip)),
        None => hosted,
    };
    let named = fields::with_appended(traced, "x-forwarded-host"@, encode_utf8(head.authority));
    lemma_appended(base, "host"@, encode_utf8(options.forward_addr@), name);
    if client_ip(remote_addr) is Some {
        lemma_appended(hosted, "x-forwarded-for"@, encode_utf8(client_ip(remote_addr)->0), name);
    }
    lemma_appended(traced, "x-forwarded-host"@, encode_utf8(head.authority), name);
    lemma_appended(named, "x-forwarded-proto"@, encode_utf8("https"@), name);
}

/// A value that is added comes behind those its name already has.
proof fn lemma_appended(
    fields: Map<Seq<char>, Seq<Seq<u8>>>,
    name: Seq<char>,
    value: Seq<u8>,
    other: Seq<char>,
)
    ensures
        ({
            let after = fields::with_appended(fields, name, value);
            &&& other == name ==> fields::values_under(after, other) == fields::values_under(
                fields,
                other,
            ).push(value)
            &&& other != name ==> fields::values_under(after, other) == fields::values_under(
                fields,
                other,
            ) && (after.dom().contains(other) <==> fields.dom().contains(other))
        }),
{
    let another = if other == name {
        name.push('x')
    } else {
        other
    };
    assert(name.push('x').len() == name.len() + 1);
    fields::added_values_come_last(fields, name, value, another);
}

/// A request can be made locally exactly where its method is a token, its target is a
/// URI, and what the agent adds to its headers can stand there.
pub proof fn only_requests_that_cannot_be_made_fail(
    r: Result<LocalRequest, String>,
    options: AgentOptions,
    head: RequestHeadView,
    remote_addr: Seq<char>,
    uri_fault: Option<Seq<char>>,
)
    requires
        built(r, options, head, remote_addr, uri_fault),
        fields::fits(local_fields(options, head, remote_addr)),
    ensures
        ({
            let valid = |s: Seq<char>| fields::is_field_value(encode_utf8(s));
            let token = fields::is_token(head.method);
            let named = (options.rewrite_host ==> valid(options.forward_addr@)) && (client_ip(
                remote_addr,
            ) is Some ==> valid(client_ip(remote_addr)->0)) && valid(head.authority);
            &&& r is Ok <==> token && uri_fault is None && named
            &&& r matches Ok(request) ==> {
                &&& request.method@ == head.method
                &&& request.uri@ == "http://"@ + options.forward_addr@ + head.path
                &&& fields::fields_of(request.headers) == local_fields(options, head, remote_addr)
            }
            &&& r matches Err(m) ==> {
                &&& !token ==> m@ == "invalid HTTP method"@
                &&& token && uri_fault is Some ==> m@ == uri_fault->0
                &&& token && uri_fault is None ==> m@ == "failed to parse header value"@
            }
        }),
{
}

/// An opened stream is served with the request that its head demands, or turned down
/// with a reset that says why; an opening without a head is always turned down.
pub proof fn openings_are_served_or_turned_down(
    r: Result<LocalRequest, ClientFrame>,
    options: AgentOptions,
    open: OpenView,
    uri_fault: Option<Seq<char>>,
)
    requires
        served(r, options, open, uri_fault),
    ensures
        r matches Err(frame) ==> (frame@ matches ClientView::Reset { stream_id, code, .. }
            && stream_id == open.stream_id && code == Some(ResetCode::ProtocolError)),
        open.http is None ==> (r matches Err(frame) && frame@ == (ClientView::Reset {
            stream_id: open.stream_id,
            code: Some(ResetCode::ProtocolError),
            message: "Open frame without an HTTP head"@,
        })),
        open.http matches Some(head) ==> (r matches Ok(request) ==> built(
            Ok(request),
            options,
            head,
            open.remote_addr,
            uri_fault,
        )),
        open.http matches Some(head) ==> (r matches Err(frame) ==> exists|fault: String| #[trigger]
            built(Err(fault), options, head, open.remote_addr, uri_fault) && frame@ == (
            ClientView::Reset {
                stream_id: open.stream_id,
                code: Some(ResetCode::ProtocolError),
                message: "bad request: "@ + fault@,
            })),
{
}

/// Events, decisions, reactions and steps are read as they are.
pub proof fn agent_values_are_read_as_they_are(
    event: AgentEvent,
    next: Next,
    reaction: Reaction,
    step: AgentStep,
)
    ensures
        event matches AgentEvent::Connected { session_id, node_id } ==> event@ == (
        EventView::Connected { session_id: session_id@, node_id: node_id@ }),
        event matches AgentEvent::TunnelReady(status) ==> event@ == EventView::TunnelReady(status@),
        event matches AgentEvent::TunnelRejected(reason) ==> event@ == EventView::TunnelRejected(
            reason@,
        ),
        event matches AgentEvent::Disconnected(reason) ==> event@ == EventView::Disconnected(
            reason@,
        ),
        next is Stop <==> next@ is Stop,
        next matches Next::Fail(reason) ==> next@ == NextView::Fail(reason@),
        next matches Next::Reconnect(delay_ms) ==> next@ == NextView::Reconnect(delay_ms),
        reaction is Nothing <==> reaction@ is Nothing,
        reaction matches Reaction::Announce(e, None) ==> reaction@ == ReactionView::Announce(
            e@,
            None,
        ),
        reaction matches Reaction::Announce(e, Some(f)) ==> reaction@ == ReactionView::Announce(
            e@,
            Some(f@),
        ),
        reaction matches Reaction::Send(frame) ==> reaction@ == ReactionView::Send(frame@),
        reaction matches Reaction::Serve(open) ==> reaction@ == ReactionView::Serve(open@),
        reaction matches Reaction::Deliver { stream_id, payload } ==> reaction@ == (
        ReactionView::Deliver { stream_id, payload: payload::bytes_of(payload) }),
        reaction matches Reaction::EndBody { stream_id } ==> reaction@ == (ReactionView::EndBody {
            stream_id,
        }),
        reaction matches Reaction::Closed { stream_id } ==> reaction@ == (ReactionView::Closed {
            stream_id,
        }),
        reaction matches Reaction::Wake { stream_id } ==> reaction@ == (ReactionView::Wake {
            stream_id,
        }),
        step matches AgentStep::Frame(frame) ==> step@ == AgentStepView::Frame(frame@),
        step is Blocked <==> step@ is Blocked,
        step is Gone <==> step@ is Gone,
        step is Done <==> step@ is Done,
{
}

/// A response body is sent in pieces that together are the body: none where it is
/// empty, and else each of 65536 bytes but the last, which is not empty.
pub proof fn response_bodies_are_sent_whole(payload: Seq<u8>, i: int)
    ensures
        payload.len() == 0 <==> pieces(payload).len() == 0,
        session::joined(pieces(payload)) == payload,
        0 <= i < pieces(payload).len() ==> 0 < pieces(payload)[i].len() <= 65536,
        0 <= i < pieces(payload).len() - 1 ==> pieces(payload)[i].len() == 65536,
{
    session::chunking_keeps_every_byte(payload);
    assert(session::joined(Seq::<Seq<u8>>::empty()) =~= Seq::empty());
}

/// No stream of a session has more credit than a semaphore counts.
pub proof fn credit_is_bounded(ctx: SessionCtx, id: u64)
    ensures
        ctx.wf() && ctx@.dom().contains(id) ==> ctx@[id].credit <= 2_305_843_009_213_693_951,
        (forall|k: u64| #[trigger]
            ctx@.dom().contains(k) ==> ctx@[k].credit <= 2_305_843_009_213_693_951) ==> ctx.wf(),
{
}

/// A request with more headers than a map takes for certain is made like any other,
/// fails like any other, or fails for want of room.
pub proof fn crowded_requests_may_fail_for_want_of_room(
    r: Result<LocalRequest, String>,
    options: AgentOptions,
    head: RequestHeadView,
    remote_addr: Seq<char>,
    uri_fault: Option<Seq<char>>,
)
    requires
        built(r, options, head, remote_addr, uri_fault),
        !fields::fits(local_fields(options, head, remote_addr)),
    ensures
        ({
            let fault = request_fault(options, head, remote_addr, uri_fault);
            &&& r matches Ok(request) ==> {
                &&& fault is None
                &&& request.method@ == head.method
                &&& request.uri@ == "http://"@ + options.forward_addr@ + head.path
                &&& fields::fields_of(request.headers) == local_fields(options, head, remote_addr)
            }
            &&& r matches Err(m) ==> Some(m@) == fault || m@ == "max size reached"@
        }),
{
}

} // verus!
