//! The frames that travel between the edge and an agent.
//!
//! Each message is a plain value with a view over the text and bytes it carries;
//! how it is laid out on the wire is not decided here.

use bytes::Bytes;
use vstd::prelude::*;

use crate::payload;

verus! {

/// Wire protocol version spoken by this build.
///
/// The server refuses a `Hello` that carries another version, so that the frame
/// set can evolve without breaking old agents.
pub const PROTOCOL_VERSION: u32 = 1;

/// Default per-stream flow-control window (256 KiB).
///
/// Large enough that a fast response does not stall on window updates, small
/// enough that ten thousand idle streams cannot pin gigabytes of memory.
pub const DEFAULT_WINDOW: u32 = 262_144;

/// A header. Its value is bytes, so that one that is not UTF-8 can be carried.
#[derive(Debug, PartialEq, Eq)]
pub struct Header {
    pub name: String,
    pub value: Bytes,
}

/// A header by its text and bytes.
#[verifier::ext_equal]
pub struct HeaderView {
    pub name: Seq<char>,
    pub value: Seq<u8>,
}

impl View for Header {
    type V = HeaderView;

    open spec fn view(&self) -> HeaderView {
        HeaderView { name: self.name@, value: payload::bytes_of(self.value) }
    }
}

impl Clone for Header {
    fn clone(&self) -> (r: Self)
        ensures
            r@ == self@,
    {
        Header { name: self.name.clone(), value: payload::copy(&self.value) }
    }
}

/// Headers by their text and bytes.
pub open spec fn header_views(v: Seq<Header>) -> Seq<HeaderView> {
    Seq::new(v.len(), |i: int| v[i]@)
}

/// What a stream carries.
#[derive(Debug, Clone, Copy, PartialEq, Eq, Structural)]
pub enum StreamKind {
    Unspecified,
    Http,
    Tcp,
}

/// Why a stream was aborted.
#[derive(Debug, Clone, Copy, PartialEq, Eq, Structural)]
pub enum ResetCode {
    Unspecified,
    ProtocolError,
    LocalUnreachable,
    Timeout,
    PeerClosed,
    Internal,
}

impl ResetCode {
    /// The name of the code.
    pub open spec fn label(self) -> Seq<char> {
        match self {
            ResetCode::Unspecified => "Unspecified"@,
            ResetCode::ProtocolError => "ProtocolError"@,
            ResetCode::LocalUnreachable => "LocalUnreachable"@,
            ResetCode::Timeout => "Timeout"@,
            ResetCode::PeerClosed => "PeerClosed"@,
            ResetCode::Internal => "Internal"@,
        }
    }

    /// The name of the code, as shown in errors.
    #[must_use]
    pub fn name(self) -> (r: &'static str)
        ensures
            r@ == self.label(),
    {
        match self {
            ResetCode::Unspecified => "Unspecified",
            ResetCode::ProtocolError => "ProtocolError",
            ResetCode::LocalUnreachable => "LocalUnreachable",
            ResetCode::Timeout => "Timeout",
            ResetCode::PeerClosed => "PeerClosed",
            ResetCode::Internal => "Internal",
        }
    }
}

/// The head of a public request.
#[derive(Debug, PartialEq, Eq)]
pub struct HttpRequestHead {
    pub method: String,
    /// Path and query.
    pub path: String,
    pub authority: String,
    pub headers: Vec<Header>,
    pub version: String,
    /// Value of the `Upgrade` header, if any.
    pub upgrade: String,
}

/// A request head by its text and bytes.
#[verifier::ext_equal]
pub struct RequestHeadView {
    pub method: Seq<char>,
    pub path: Seq<char>,
    pub authority: Seq<char>,
    pub headers: Seq<HeaderView>,
    pub version: Seq<char>,
    pub upgrade: Seq<char>,
}

impl View for HttpRequestHead {
    type V = RequestHeadView;

    open spec fn view(&self) -> RequestHeadView {
        RequestHeadView {
            method: self.method@,
            path: self.path@,
            authority: self.authority@,
            headers: header_views(self.headers@),
            version: self.version@,
            upgrade: self.upgrade@,
        }
    }
}

/// The head of an agent's response.
#[derive(Debug, PartialEq, Eq)]
pub struct HttpResponseHead {
    pub stream_id: u64,
    pub status: u32,
    pub headers: Vec<Header>,
}

/// A response head by its text and bytes.
#[verifier::ext_equal]
pub struct ResponseHeadView {
    pub stream_id: u64,
    pub status: u32,
    pub headers: Seq<HeaderView>,
}

impl View for HttpResponseHead {
    type V = ResponseHeadView;

    open spec fn view(&self) -> ResponseHeadView {
        ResponseHeadView {
            stream_id: self.stream_id,
            status: self.status,
            headers: header_views(self.headers@),
        }
    }
}

/// Opens a stream towards the agent.
#[derive(Debug, PartialEq, Eq)]
pub struct StreamOpen {
    pub stream_id: u64,
    pub tunnel_id: String,
    pub kind: StreamKind,
    pub http: Option<HttpRequestHead>,
    pub remote_addr: String,
    /// Bytes the agent may send before it has to wait for credit.
    pub initial_window: u32,
}

/// A stream opening by its text and bytes.
#[verifier::ext_equal]
pub struct OpenView {
    pub stream_id: u64,
    pub tunnel_id: Seq<char>,
    pub kind: StreamKind,
    pub http: Option<RequestHeadView>,
    pub remote_addr: Seq<char>,
    pub initial_window: u32,
}

impl View for StreamOpen {
    type V = OpenView;

    open spec fn view(&self) -> OpenView {
        OpenView {
            stream_id: self.stream_id,
            tunnel_id: self.tunnel_id@,
            kind: self.kind,
            http: match self.http {
                Some(head) => Some(head@),
                None => None,
            },
            remote_addr: self.remote_addr@,
            initial_window: self.initial_window,
        }
    }
}

/// Body bytes of a stream.
#[derive(Debug, PartialEq, Eq)]
pub struct StreamData {
    pub stream_id: u64,
    pub payload: Bytes,
}

/// Clean end of a stream's body in one direction.
#[derive(Debug, PartialEq, Eq)]
pub struct StreamEnd {
    pub stream_id: u64,
    pub trailers: Vec<Header>,
}

/// Abortive end of a stream.
#[derive(Debug, PartialEq, Eq)]
pub struct StreamReset {
    pub stream_id: u64,
    /// `None` where the sender used a code that this build does not know.
    pub code: Option<ResetCode>,
    pub message: String,
}

/// Credit for more body bytes of a stream.
#[derive(Debug, Clone, Copy, PartialEq, Eq, Structural)]
pub struct WindowUpdate {
    pub stream_id: u64,
    pub increment: u32,
}

/// Liveness probe from the edge.
#[derive(Debug, Clone, Copy, PartialEq, Eq, Structural)]
pub struct Ping {
    pub nonce: u64,
    pub server_time_ms: i64,
}

/// Answer to a [`Ping`].
#[derive(Debug, Clone, Copy, PartialEq, Eq, Structural)]
pub struct Pong {
    pub nonce: u64,
    pub client_time_ms: i64,
}

/// First frame of an agent.
#[derive(Debug, PartialEq, Eq)]
pub struct Hello {
    pub token: String,
    pub agent_version: String,
    pub protocol_version: u32,
    /// Labels surfaced in the edge's logs.
    pub metadata: Vec<(String, String)>,
}

/// Ceilings as told to an agent.
#[derive(Debug, Clone, Copy, PartialEq, Eq, Structural)]
pub struct LimitsNotice {
    pub max_tunnels: u32,
    pub max_concurrent_streams: u32,
    pub max_bytes_per_second: u64,
}

/// First frame of the edge.
#[derive(Debug, PartialEq, Eq)]
pub struct Welcome {
    pub session_id: String,
    pub server_version: String,
    pub node_id: String,
    pub heartbeat_interval_ms: u32,
    pub initial_window: u32,
    pub limits: Option<LimitsNotice>,
}

/// An HTTP tunnel as asked for.
#[derive(Debug, PartialEq, Eq)]
pub struct HttpTunnelSpec {
    /// Empty means that the edge picks one.
    pub subdomain: String,
    pub custom_domain: String,
    pub forward_to: String,
    pub rewrite_host_header: bool,
}

/// A TCP tunnel as asked for.
#[derive(Debug, Clone, Copy, PartialEq, Eq, Structural)]
pub struct TcpTunnelSpec {
    pub remote_port: u32,
}

/// What kind of tunnel is asked for.
#[derive(Debug, PartialEq, Eq)]
pub enum TunnelSpec {
    Http(HttpTunnelSpec),
    Tcp(TcpTunnelSpec),
}

/// Asks for a tunnel.
#[derive(Debug, PartialEq, Eq)]
pub struct OpenTunnel {
    pub request_id: String,
    pub spec: Option<TunnelSpec>,
}

/// Gives a tunnel up.
#[derive(Debug, PartialEq, Eq)]
pub struct CloseTunnel {
    pub tunnel_id: String,
}

/// What became of a tunnel.
#[derive(Debug, PartialEq, Eq)]
pub struct TunnelStatus {
    pub request_id: String,
    pub tunnel_id: String,
    pub accepted: bool,
    pub error: String,
    pub public_url: String,
    pub routing_key: String,
}

/// Tells an agent that its session is being drained.
#[derive(Debug, PartialEq, Eq)]
pub struct Shutdown {
    pub reason: String,
    pub reconnect_to: String,
}

/// Health of an edge node.
#[derive(Debug, PartialEq, Eq)]
pub struct HealthResponse {
    pub ok: bool,
    pub node_id: String,
    pub server_version: String,
    pub active_sessions: u64,
    pub active_tunnels: u64,
}

/// A welcome by its text.
#[verifier::ext_equal]
pub struct WelcomeView {
    pub session_id: Seq<char>,
    pub server_version: Seq<char>,
    pub node_id: Seq<char>,
    pub heartbeat_interval_ms: u32,
    pub initial_window: u32,
    pub limits: Option<LimitsNotice>,
}

impl View for Welcome {
    type V = WelcomeView;

    open spec fn view(&self) -> WelcomeView {
        WelcomeView {
            session_id: self.session_id@,
            server_version: self.server_version@,
            node_id: self.node_id@,
            heartbeat_interval_ms: self.heartbeat_interval_ms,
            initial_window: self.initial_window,
            limits: self.limits,
        }
    }
}

/// A hello by its text.
#[verifier::ext_equal]
pub struct HelloView {
    pub token: Seq<char>,
    pub agent_version: Seq<char>,
    pub protocol_version: u32,
    pub metadata: Seq<(Seq<char>, Seq<char>)>,
}

/// Labels by their text.
pub open spec fn label_views(v: Seq<(String, String)>) -> Seq<(Seq<char>, Seq<char>)> {
    Seq::new(v.len(), |i: int| (v[i].0@, v[i].1@))
}

impl View for Hello {
    type V = HelloView;

    open spec fn view(&self) -> HelloView {
        HelloView {
            token: self.token@,
            agent_version: self.agent_version@,
            protocol_version: self.protocol_version,
            metadata: label_views(self.metadata@),
        }
    }
}

/// An HTTP tunnel request by its text.
#[verifier::ext_equal]
pub struct HttpSpecView {
    pub subdomain: Seq<char>,
    pub custom_domain: Seq<char>,
    pub forward_to: Seq<char>,
    pub rewrite_host_header: bool,
}

impl View for HttpTunnelSpec {
    type V = HttpSpecView;

    open spec fn view(&self) -> HttpSpecView {
        HttpSpecView {
            subdomain: self.subdomain@,
            custom_domain: self.custom_domain@,
            forward_to: self.forward_to@,
            rewrite_host_header: self.rewrite_host_header,
        }
    }
}

/// A tunnel request's kind by its text.
#[verifier::ext_equal]
pub enum SpecView {
    Http(HttpSpecView),
    Tcp(TcpTunnelSpec),
}

/// A tunnel request by its text.
#[verifier::ext_equal]
pub struct OpenTunnelView {
    pub request_id: Seq<char>,
    pub spec: Option<SpecView>,
}

impl View for OpenTunnel {
    type V = OpenTunnelView;

    open spec fn view(&self) -> OpenTunnelView {
        OpenTunnelView {
            request_id: self.request_id@,
            spec: match self.spec {
                Some(TunnelSpec::Http(spec)) => Some(SpecView::Http(spec@)),
                Some(TunnelSpec::Tcp(spec)) => Some(SpecView::Tcp(spec)),
                None => None,
            },
        }
    }
}

/// A tunnel status by its text.
#[verifier::ext_equal]
pub struct StatusView {
    pub request_id: Seq<char>,
    pub tunnel_id: Seq<char>,
    pub accepted: bool,
    pub error: Seq<char>,
    pub public_url: Seq<char>,
    pub routing_key: Seq<char>,
}

impl View for TunnelStatus {
    type V = StatusView;

    open spec fn view(&self) -> StatusView {
        StatusView {
            request_id: self.request_id@,
            tunnel_id: self.tunnel_id@,
            accepted: self.accepted,
            error: self.error@,
            public_url: self.public_url@,
            routing_key: self.routing_key@,
        }
    }
}

impl Clone for TunnelStatus {
    fn clone(&self) -> (r: Self)
        ensures
            r@ == self@,
    {
        TunnelStatus {
            request_id: self.request_id.clone(),
            tunnel_id: self.tunnel_id.clone(),
            accepted: self.accepted,
            error: self.error.clone(),
            public_url: self.public_url.clone(),
            routing_key: self.routing_key.clone(),
        }
    }
}

/// What a frame of the edge carries.
#[derive(Debug, PartialEq, Eq)]
pub enum ServerPayload {
    Welcome(Welcome),
    TunnelStatus(TunnelStatus),
    Open(StreamOpen),
    ResponseHead(HttpResponseHead),
    Data(StreamData),
    End(StreamEnd),
    Reset(StreamReset),
    WindowUpdate(WindowUpdate),
    Ping(Ping),
    Shutdown(Shutdown),
}

/// A frame from the edge to an agent.
#[derive(Debug, PartialEq, Eq)]
pub struct ServerFrame {
    pub payload: Option<ServerPayload>,
}

/// A frame of the edge by its text and bytes.
#[verifier::ext_equal]
pub enum ServerView {
    Empty,
    Welcome(WelcomeView),
    TunnelStatus(StatusView),
    Open(OpenView),
    ResponseHead(ResponseHeadView),
    Data { stream_id: u64, payload: Seq<u8> },
    End { stream_id: u64, trailers: Seq<HeaderView> },
    Reset { stream_id: u64, code: Option<ResetCode>, message: Seq<char> },
    WindowUpdate(WindowUpdate),
    Ping(Ping),
    Shutdown { reason: Seq<char>, reconnect_to: Seq<char> },
}

impl View for ServerPayload {
    type V = ServerView;

    open spec fn view(&self) -> ServerView {
        match self {
            ServerPayload::Welcome(m) => ServerView::Welcome(m@),
            ServerPayload::TunnelStatus(m) => ServerView::TunnelStatus(m@),
            ServerPayload::Open(m) => ServerView::Open(m@),
            ServerPayload::ResponseHead(m) => ServerView::ResponseHead(m@),
            ServerPayload::Data(m) => ServerView::Data {
                stream_id: m.stream_id,
                payload: payload::bytes_of(m.payload),
            },
            ServerPayload::End(m) => ServerView::End {
                stream_id: m.stream_id,
                trailers: header_views(m.trailers@),
            },
            ServerPayload::Reset(m) => ServerView::Reset {
                stream_id: m.stream_id,
                code: m.code,
                message: m.message@,
            },
            ServerPayload::WindowUpdate(m) => ServerView::WindowUpdate(*m),
            ServerPayload::Ping(m) => ServerView::Ping(*m),
            ServerPayload::Shutdown(m) => ServerView::Shutdown {
                reason: m.reason@,
                reconnect_to: m.reconnect_to@,
            },
        }
    }
}

impl View for ServerFrame {
    type V = ServerView;

    open spec fn view(&self) -> ServerView {
        match self.payload {
            Some(payload) => payload@,
            None => ServerView::Empty,
        }
    }
}

/// What a frame of an agent carries.
#[derive(Debug, PartialEq, Eq)]
pub enum ClientPayload {
    Hello(Hello),
    OpenTunnel(OpenTunnel),
    CloseTunnel(CloseTunnel),
    ResponseHead(HttpResponseHead),
    Data(StreamData),
    End(StreamEnd),
    Reset(StreamReset),
    WindowUpdate(WindowUpdate),
    Pong(Pong),
}

/// A frame from an agent to the edge.
#[derive(Debug, PartialEq, Eq)]
pub struct ClientFrame {
    pub payload: Option<ClientPayload>,
}

/// A frame of an agent by its text and bytes.
#[verifier::ext_equal]
pub enum ClientView {
    Empty,
    Hello(HelloView),
    OpenTunnel(OpenTunnelView),
    CloseTunnel { tunnel_id: Seq<char> },
    ResponseHead(ResponseHeadView),
    Data { stream_id: u64, payload: Seq<u8> },
    End { stream_id: u64, trailers: Seq<HeaderView> },
    Reset { stream_id: u64, code: Option<ResetCode>, message: Seq<char> },
    WindowUpdate(WindowUpdate),
    Pong(Pong),
}

impl View for ClientPayload {
    type V = ClientView;

    open spec fn view(&self) -> ClientView {
        match self {
            ClientPayload::Hello(m) => ClientView::Hello(m@),
            ClientPayload::OpenTunnel(m) => ClientView::OpenTunnel(m@),
            ClientPayload::CloseTunnel(m) => ClientView::CloseTunnel { tunnel_id: m.tunnel_id@ },
            ClientPayload::ResponseHead(m) => ClientView::ResponseHead(m@),
            ClientPayload::Data(m) => ClientView::Data {
                stream_id: m.stream_id,
                payload: payload::bytes_of(m.payload),
            },
            ClientPayload::End(m) => ClientView::End {
                stream_id: m.stream_id,
                trailers: header_views(m.trailers@),
            },
            ClientPayload::Reset(m) => ClientView::Reset {
                stream_id: m.stream_id,
                code: m.code,
                message: m.message@,
            },
            ClientPayload::WindowUpdate(m) => ClientView::WindowUpdate(*m),
            ClientPayload::Pong(m) => ClientView::Pong(*m),
        }
    }
}

impl View for ClientFrame {
    type V = ClientView;

    open spec fn view(&self) -> ClientView {
        match self.payload {
            Some(payload) => payload@,
            None => ClientView::Empty,
        }
    }
}

/// Every reset code is shown under its own name.
pub proof fn reset_codes_are_shown_by_name()
    ensures
        ResetCode::Unspecified.label() == "Unspecified"@,
        ResetCode::ProtocolError.label() == "ProtocolError"@,
        ResetCode::LocalUnreachable.label() == "LocalUnreachable"@,
        ResetCode::Timeout.label() == "Timeout"@,
        ResetCode::PeerClosed.label() == "PeerClosed"@,
        ResetCode::Internal.label() == "Internal"@,
{
}

/// Lists of headers and of labels are read item by item.
pub proof fn lists_are_read_item_by_item(
    headers: Seq<Header>,
    labels: Seq<(String, String)>,
    i: int,
)
    ensures
        header_views(headers).len() == headers.len(),
        0 <= i < headers.len() ==> header_views(headers)[i].name == headers[i].name@
            && header_views(headers)[i].value == payload::bytes_of(headers[i].value),
        label_views(labels).len() == labels.len(),
        0 <= i < labels.len() ==> label_views(labels)[i] == (labels[i].0@, labels[i].1@),
{
}

/// A header is read as it is, and so are the heads that hold it.
pub proof fn heads_are_read_as_they_are(
    header: Header,
    request: HttpRequestHead,
    response: HttpResponseHead,
)
    ensures
        header@.name == header.name@,
        header@.value == payload::bytes_of(header.value),
        request@.method == request.method@,
        request@.path == request.path@,
        request@.authority == request.authority@,
        request@.headers == header_views(request.headers@),
        request@.version == request.version@,
        request@.upgrade == request.upgrade@,
        response@.stream_id == response.stream_id,
        response@.status == response.status,
        response@.headers == header_views(response.headers@),
{
}

/// A stream's opening is read as it is.
pub proof fn openings_are_read_as_they_are(open: StreamOpen)
    ensures
        open@.stream_id == open.stream_id,
        open@.tunnel_id == open.tunnel_id@,
        open@.kind == open.kind,
        open.http is None <==> open@.http is None,
        open.http matches Some(head) ==> open@.http == Some(head@),
        open@.remote_addr == open.remote_addr@,
        open@.initial_window == open.initial_window,
{
}

/// What is said about sessions and tunnels is read as it is.
pub proof fn messages_are_read_as_they_are(
    welcome: Welcome,
    hello: Hello,
    spec: HttpTunnelSpec,
    request: OpenTunnel,
    status: TunnelStatus,
)
    ensures
        welcome@.session_id == welcome.session_id@,
        welcome@.server_version == welcome.server_version@,
        welcome@.node_id == welcome.node_id@,
        welcome@.heartbeat_interval_ms == welcome.heartbeat_interval_ms,
        welcome@.initial_window == welcome.initial_window,
        welcome@.limits == welcome.limits,
        hello@.token == hello.token@,
        hello@.agent_version == hello.agent_version@,
        hello@.protocol_version == hello.protocol_version,
        hello@.metadata == label_views(hello.metadata@),
        spec@.subdomain == spec.subdomain@,
        spec@.custom_domain == spec.custom_domain@,
        spec@.forward_to == spec.forward_to@,
        spec@.rewrite_host_header == spec.rewrite_host_header,
        request@.request_id == request.request_id@,
        request.spec is None <==> request@.spec is None,
        request.spec matches Some(TunnelSpec::Http(http)) ==> request@.spec == Some(
            SpecView::Http(http@),
        ),
        request.spec matches Some(TunnelSpec::Tcp(tcp)) ==> request@.spec == Some(
            SpecView::Tcp(tcp),
        ),
        status@.request_id == status.request_id@,
        status@.tunnel_id == status.tunnel_id@,
        status@.accepted == status.accepted,
        status@.error == status.error@,
        status@.public_url == status.public_url@,
        status@.routing_key == status.routing_key@,
{
}

/// A frame of the edge is read as what it carries.
pub proof fn frames_of_the_edge_are_read_as_they_are(frame: ServerFrame)
    ensures
        frame.payload is None ==> frame@ is Empty,
        frame.payload matches Some(payload) ==> {
            &&& payload matches ServerPayload::Welcome(m) ==> frame@ == ServerView::Welcome(m@)
            &&& payload matches ServerPayload::TunnelStatus(m) ==> frame@
                == ServerView::TunnelStatus(m@)
            &&& payload matches ServerPayload::Open(m) ==> frame@ == ServerView::Open(m@)
            &&& payload matches ServerPayload::ResponseHead(m) ==> frame@
                == ServerView::ResponseHead(m@)
            &&& payload matches ServerPayload::Data(m) ==> frame@ == (ServerView::Data {
                stream_id: m.stream_id,
                payload: payload::bytes_of(m.payload),
            })
            &&& payload matches ServerPayload::End(m) ==> frame@ == (ServerView::End {
                stream_id: m.stream_id,
                trailers: header_views(m.trailers@),
            })
            &&& payload matches ServerPayload::Reset(m) ==> frame@ == (ServerView::Reset {
                stream_id: m.stream_id,
                code: m.code,
                message: m.message@,
            })
            &&& payload matches ServerPayload::WindowUpdate(m) ==> frame@
                == ServerView::WindowUpdate(m)
            &&& payload matches ServerPayload::Ping(m) ==> frame@ == ServerView::Ping(m)
            &&& payload matches ServerPayload::Shutdown(m) ==> frame@ == (ServerView::Shutdown {
                reason: m.reason@,
                reconnect_to: m.reconnect_to@,
            })
        },
{
}

/// A frame of an agent is read as what it carries.
pub proof fn frames_of_an_agent_are_read_as_they_are(frame: ClientFrame)
    ensures
        frame.payload is None ==> frame@ is Empty,
        frame.payload matches Some(payload) ==> {
            &&& payload matches ClientPayload::Hello(m) ==> frame@ == ClientView::Hello(m@)
            &&& payload matches ClientPayload::OpenTunnel(m) ==> frame@ == ClientView::OpenTunnel(
                m@,
            )
            &&& payload matches ClientPayload::CloseTunnel(m) ==> frame@ == (
            ClientView::CloseTunnel { tunnel_id: m.tunnel_id@ })
            &&& payload matches ClientPayload::ResponseHead(m) ==> frame@
                == ClientView::ResponseHead(m@)
            &&& payload matches ClientPayload::Data(m) ==> frame@ == (ClientView::Data {
                stream_id: m.stream_id,
                payload: payload::bytes_of(m.payload),
            })
            &&& payload matches ClientPayload::End(m) ==> frame@ == (ClientView::End {
                stream_id: m.stream_id,
                trailers: header_views(m.trailers@),
            })
            &&& payload matches ClientPayload::Reset(m) ==> frame@ == (ClientView::Reset {
                stream_id: m.stream_id,
                code: m.code,
                message: m.message@,
            })
            &&& payload matches ClientPayload::WindowUpdate(m) ==> frame@
                == ClientView::WindowUpdate(m)
            &&& payload matches ClientPayload::Pong(m) ==> frame@ == ClientView::Pong(m)
        },
{
}

} // verus!
