//! A whole edge and a whole agent, joined frame by frame: from the public
//! request through the routing table, the session and the local service, and
//! back again.

use std::collections::HashMap;
use std::collections::VecDeque;

use bytes::Bytes;
use http::{HeaderMap, HeaderValue};
use norupo::auth::StaticTokenAuth;
use norupo::client::agent::{
    agent_metadata, hello, response_head, AgentEvent, AgentOptions, AgentStep, AgentWriter,
    LocalBody, LocalRequest, Reaction, Responder, ServeStep, SessionCtx,
};
use norupo::proto::{ClientFrame, ServerFrame, ServerPayload, TunnelStatus};
use norupo::registry::{MemoryRegistry, Registry};
use norupo::server::config::ServerConfig;
use norupo::server::control;
use norupo::server::control::Action;
use norupo::server::ingress;
use norupo::server::ingress::{BodyEvent, BodyFrame, Handled, HeadOutcome, PumpStep, RequestHead, Role};
use norupo::server::peer::PeerClient;
use norupo::server::session::{Session, SessionManager, StreamWriter, WriteStep};
use norupo::server::state::{assemble, AppState};

/// What the local service answers.
struct Answer {
    status: u16,
    headers: Vec<(&'static str, String)>,
    body: Vec<u8>,
}

/// A local service like the ones people tunnel to.
fn local_app(request: &LocalRequest, body: &[u8]) -> Answer {
    let plain = |status: u16, body: &[u8]| Answer { status, headers: vec![], body: body.to_vec() };
    let path = request.uri.strip_prefix("http://127.0.0.1:3000").expect("the forward address");
    match path {
        "/" => Answer {
            status: 200,
            headers: vec![("x-app", "local".into())],
            body: b"hello from local".to_vec(),
        },
        "/echo" => plain(200, body),
        "/teapot" => plain(418, b""),
        "/headers" => Answer {
            status: 200,
            headers: vec![
                ("set-cookie", "a=1".into()),
                ("set-cookie", "b=2".into()),
                (
                    "x-forwarded-seen",
                    request.headers.get("x-forwarded-host").unwrap().to_str().unwrap().into(),
                ),
            ],
            body: vec![],
        },
        _ => match path.strip_prefix("/big/") {
            Some(size) => plain(200, &vec![b'x'; size.parse().unwrap()]),
            None => plain(404, b"local: not found"),
        },
    }
}

/// One request in flight, on the agent's side.
struct Serving {
    request: LocalRequest,
    body: Vec<u8>,
    body_ended: bool,
    outgoing: Option<(Responder, AgentWriter)>,
}

/// An agent and the edge-side session it is connected to, joined by two queues.
struct Link {
    session: Session,
    ctx: SessionCtx,
    to_agent: VecDeque<ServerFrame>,
    to_edge: VecDeque<ClientFrame>,
    serving: HashMap<u64, Serving>,
    status: Option<TunnelStatus>,
    rejection: Option<String>,
    dead: bool,
}

/// The response to a public client.
#[derive(Default)]
struct Public {
    status: u16,
    headers: HeaderMap,
    body: Vec<u8>,
    ended: bool,
    failed: Option<String>,
}

fn node(node_id: &str) -> AppState {
    let cfg = ServerConfig {
        public_scheme: "http".into(),
        heartbeat_ms: 1_000,
        response_timeout_ms: 5_000,
        ..Default::default()
    };
    assemble(cfg, node_id.into(), "127.0.0.1:7100")
}

/// Connects an agent to a node and registers its tunnel.
fn start_agent(
    node: &AppState,
    registry: &mut MemoryRegistry,
    subdomain: Option<&str>,
) -> Result<Link, String> {
    let options = AgentOptions {
        server: "http://127.0.0.1:7000".into(),
        token: "".into(),
        forward_addr: "127.0.0.1:3000".into(),
        subdomain: subdomain.map(str::to_string),
        domain: None,
        rewrite_host: false,
        max_retries: 0,
    };
    let first = hello(&options, "0.1.0", agent_metadata("linux", "x86_64", None, None));
    let auth = StaticTokenAuth::allow_anonymous();
    let (session, welcome) = control::session(node, &auth, Some(first)).expect("a session");
    let mut link = Link {
        session,
        ctx: SessionCtx::new(options),
        to_agent: VecDeque::from([welcome]),
        to_edge: VecDeque::new(),
        serving: HashMap::new(),
        status: None,
        rejection: None,
        dead: false,
    };
    link.settle(node, registry, &mut HashMap::new());
    match (&link.status, link.rejection.take()) {
        (Some(_), None) => Ok(link),
        (_, Some(reason)) => Err(reason),
        _ => panic!("no status"),
    }
}

impl Link {
    fn host(&self) -> String {
        self.status.as_ref().unwrap().routing_key.clone()
    }

    /// Exchanges frames until nothing more can happen without a new event.
    fn settle(
        &mut self,
        node: &AppState,
        registry: &mut MemoryRegistry,
        public: &mut HashMap<u64, Public>,
    ) {
        loop {
            let mut moved = false;
            while let Some(frame) = self.to_agent.pop_front() {
                self.agent_takes(frame);
                moved = true;
            }
            moved |= self.agent_writes();
            while let Some(frame) = self.to_edge.pop_front() {
                self.edge_takes(frame, node, registry, public);
                moved = true;
            }
            if !moved {
                return;
            }
        }
    }

    fn agent_takes(&mut self, frame: ServerFrame) {
        assert!(self.ctx.accepts(&frame));
        match self.ctx.handle_server_frame(frame, 1) {
            Reaction::Nothing | Reaction::Wake { .. } => {}
            Reaction::Announce(event, reply) => {
                match event {
                    AgentEvent::TunnelReady(status) => self.status = Some(status),
                    AgentEvent::TunnelRejected(reason) => self.rejection = Some(reason),
                    _ => {}
                }
                self.to_edge.extend(reply);
            }
            Reaction::Send(frame) => self.to_edge.push_back(frame),
            Reaction::Serve(open) => {
                let id = open.stream_id;
                if self.dead {
                    let frame = self.ctx.local_unreachable(id, "connection refused");
                    self.to_edge.push_back(frame);
                    return;
                }
                match self.ctx.serve_stream(&open) {
                    Ok(request) => {
                        let serving =
                            Serving { request, body: vec![], body_ended: false, outgoing: None };
                        self.serving.insert(id, serving);
                    }
                    Err(frame) => self.to_edge.push_back(frame),
                }
            }
            Reaction::Deliver { stream_id, payload } => {
                let len = payload.len();
                let taken = match self.serving.get_mut(&stream_id) {
                    Some(s) => {
                        s.body.extend_from_slice(&payload);
                        true
                    }
                    None => false,
                };
                self.to_edge.extend(self.ctx.after_delivery(stream_id, len, taken));
            }
            Reaction::EndBody { stream_id } => {
                if let Some(s) = self.serving.get_mut(&stream_id) {
                    s.body_ended = true;
                }
            }
            Reaction::Closed { stream_id } => {
                self.serving.remove(&stream_id);
            }
        }
    }

    /// Lets the local service answer, and sends what the windows allow.
    fn agent_writes(&mut self) -> bool {
        let mut moved = false;
        let mut ids: Vec<u64> = self.serving.keys().copied().collect();
        ids.sort();
        for id in ids {
            let serving = self.serving.get_mut(&id).unwrap();
            if serving.outgoing.is_none() {
                if !serving.body_ended {
                    continue;
                }
                let answer = local_app(&serving.request, &serving.body);
                let mut headers = HeaderMap::new();
                for (name, value) in &answer.headers {
                    headers.append(*name, HeaderValue::from_str(value).unwrap());
                }
                self.to_edge.push_back(response_head(id, answer.status, &headers));
                let mut responder = Responder::new(id);
                match responder.on_body(&mut self.ctx, LocalBody::Data(Bytes::from(answer.body))) {
                    ServeStep::Write(writer) => serving.outgoing = Some((responder, writer)),
                    other => panic!("expected bytes to write, got {other:?}"),
                }
                moved = true;
            }
            let (responder, writer) = serving.outgoing.as_mut().unwrap();
            match writer.step(&mut self.ctx) {
                AgentStep::Frame(frame) => {
                    self.to_edge.push_back(frame);
                    moved = true;
                }
                AgentStep::Blocked => {}
                AgentStep::Gone => {
                    self.serving.remove(&id);
                }
                AgentStep::Done => {
                    match responder.on_body(&mut self.ctx, LocalBody::End) {
                        ServeStep::Last(frame) => self.to_edge.push_back(frame),
                        other => panic!("expected the end, got {other:?}"),
                    }
                    self.serving.remove(&id);
                    moved = true;
                }
            }
        }
        moved
    }

    fn edge_takes(
        &mut self,
        frame: ClientFrame,
        node: &AppState,
        registry: &mut MemoryRegistry,
        public: &mut HashMap<u64, Public>,
    ) {
        assert!(control::accepts(&self.session, &frame));
        match control::handle_client_frame(&mut self.session, frame) {
            Action::Nothing | Action::Wake { .. } => {}
            Action::Register(open) => {
                let status = control::register_tunnel(node, registry, &mut self.session, open);
                self.to_agent
                    .push_back(ServerFrame { payload: Some(ServerPayload::TunnelStatus(status)) });
            }
            Action::Release(tunnel) => {
                registry.release(&tunnel.routing_key, self.session.id()).unwrap();
            }
            Action::Head(head) => {
                let id = head.stream_id;
                let outcome = HeadOutcome::Head(head);
                let head = ingress::on_head_outcome(node, &mut self.session, id, outcome)
                    .ok()
                    .expect("a head");
                let response = ingress::build_response(id, &head).unwrap();
                let p = public.entry(id).or_default();
                p.status = response.status;
                p.headers = response.headers;
            }
            Action::Body { stream_id, len, chunk } => {
                if let Some(BodyFrame::Data(bytes)) = ingress::body_frame(chunk) {
                    public.entry(stream_id).or_default().body.extend_from_slice(&bytes);
                }
                self.to_agent
                    .extend(control::after_delivery(&mut self.session, stream_id, len, true));
            }
            Action::Last { stream_id, chunk } => {
                let p = public.entry(stream_id).or_default();
                p.ended = true;
                if let Some(BodyFrame::Failed(reason)) = ingress::body_frame(chunk) {
                    p.failed = Some(reason);
                }
            }
        }
    }

    /// Opens a stream for a request and pumps its body.
    fn forward(
        &mut self,
        node: &AppState,
        registry: &mut MemoryRegistry,
        public: &mut HashMap<u64, Public>,
        req: &RequestHead,
        body: &[u8],
    ) -> u64 {
        let record = registry.lookup(&self.host()).unwrap().unwrap();
        let opened =
            ingress::forward_local(&mut self.session, &record, req, "1.2.3.4:5678".into()).unwrap();
        let id = opened.stream_id;
        self.to_agent.push_back(opened.frame);
        let event = BodyEvent::Data(Bytes::from(body.to_vec()));
        if let PumpStep::Write(mut writer) = ingress::pump(&mut self.session, id, event) {
            self.drive(&mut writer, node, registry, public);
        }
        match ingress::pump(&mut self.session, id, BodyEvent::End) {
            PumpStep::Last(frame) => self.to_agent.push_back(frame),
            other => panic!("expected the end, got {other:?}"),
        }
        id
    }

    fn drive(
        &mut self,
        writer: &mut StreamWriter,
        node: &AppState,
        registry: &mut MemoryRegistry,
        public: &mut HashMap<u64, Public>,
    ) {
        let mut parked = false;
        loop {
            match writer.step(&mut self.session) {
                WriteStep::Frame(frame) => {
                    parked = false;
                    self.to_agent.push_back(frame);
                }
                WriteStep::Blocked => {
                    assert!(!parked, "credit never came");
                    parked = true;
                    self.settle(node, registry, public);
                }
                WriteStep::Gone => panic!("the stream went away"),
                WriteStep::Done => return,
            }
        }
    }
}

fn request(host: &str, method: &str, path: &str) -> RequestHead {
    let mut headers = HeaderMap::new();
    headers.insert("host", HeaderValue::from_str(host).unwrap());
    RequestHead {
        method: method.into(),
        authority: None,
        path: path.split('?').next().unwrap().into(),
        target: Some(path.into()),
        version: "HTTP/1.1".into(),
        headers,
    }
}

/// The sessions of a node whose only agent is this one.
fn sessions_with(node: &AppState, link: &Link) -> SessionManager {
    let mut sessions = SessionManager::new();
    sessions.insert(Session::new(
        link.session.id().to_string(),
        node.node_id.clone(),
        link.session.principal().clone(),
        8,
    ));
    sessions
}

/// Sends a request to a node that does not hold the agent's session, and from
/// there to the one that does.
fn request_by_way_of(
    other: &AppState,
    owner: &AppState,
    registry: &mut MemoryRegistry,
    link: &mut Link,
    method: &str,
    path: &str,
    body: &[u8],
) -> Public {
    let host = link.host();
    let req = request(&host, method, path);
    let record = match ingress::handle(other, Role::Public, &req, registry, &SessionManager::new()) {
        Handled::HandOff(record) => record,
        other => panic!("expected a hand-off, got {other:?}"),
    };
    assert_eq!(record.node_id, owner.node_id);
    let peers = PeerClient::new(other.node_id.clone());
    let hand_off = peers.forward(&record, req).unwrap().unwrap();
    assert_eq!(hand_off.uri, format!("http://127.0.0.1:7100{path}"));
    assert_eq!(hand_off.headers.get("x-norupo-hop").unwrap(), other.node_id.as_str());
    let arrived = RequestHead {
        method: method.into(),
        authority: None,
        path: path.into(),
        target: Some(path.into()),
        version: "HTTP/1.1".into(),
        headers: hand_off.headers,
    };
    serve(owner, Role::Peer, registry, link, arrived, body)
}

/// Sends a request through an edge whose only agent is this one.
fn public_request(
    node: &AppState,
    registry: &mut MemoryRegistry,
    link: &mut Link,
    host: &str,
    method: &str,
    path: &str,
    body: &[u8],
) -> Public {
    serve(node, Role::Public, registry, link, request(host, method, path), body)
}

/// Serves a request on the node that holds the agent's session.
fn serve(
    node: &AppState,
    role: Role,
    registry: &mut MemoryRegistry,
    link: &mut Link,
    req: RequestHead,
    body: &[u8],
) -> Public {
    let sessions = sessions_with(node, link);
    match ingress::handle(node, role, &req, registry, &sessions) {
        Handled::Local(record) => assert_eq!(record.session_id, link.session.id()),
        other => panic!("expected a local route, got {other:?}"),
    }
    let mut public = HashMap::new();
    let stream_id = link.forward(node, registry, &mut public, &req, body);
    link.settle(node, registry, &mut public);
    let answer = public.remove(&stream_id).expect("an answer");
    assert!(answer.ended);
    // Nothing is left behind on either side.
    assert_eq!(link.session.open_stream_count(), 0);
    assert!(link.serving.is_empty());
    answer
}

#[test]
fn a_public_get_reaches_the_local_service() {
    let (edge, mut registry) = (node("node_a"), MemoryRegistry::new());
    let mut agent = start_agent(&edge, &mut registry, Some("my-app")).expect("tunnel");
    assert_eq!(agent.status.as_ref().unwrap().public_url, "http://my-app.localhost");

    let host = agent.host();
    let response = public_request(&edge, &mut registry, &mut agent, &host, "GET", "/", b"");
    assert_eq!(response.status, 200);
    assert_eq!(response.body, b"hello from local");
    // The local service's own headers must survive the round trip.
    assert_eq!(response.headers.get("x-app").unwrap(), "local");
}

#[test]
fn request_and_response_bodies_survive_the_round_trip() {
    let (edge, mut registry) = (node("node_a"), MemoryRegistry::new());
    let mut agent = start_agent(&edge, &mut registry, Some("echo-app")).expect("tunnel");
    let payload = b"the quick brown fox jumps over the lazy dog";
    let host = agent.host();
    let response = public_request(&edge, &mut registry, &mut agent, &host, "POST", "/echo", payload);
    assert_eq!(response.status, 200);
    assert_eq!(response.body, payload);
}

#[test]
fn payloads_larger_than_the_flow_control_window_transfer_intact() {
    // 1 MiB each way, against a 256 KiB window: this only passes if window
    // updates are actually flowing in both directions.
    const SIZE: usize = 1024 * 1024;
    let (edge, mut registry) = (node("node_a"), MemoryRegistry::new());
    let mut agent = start_agent(&edge, &mut registry, Some("big-app")).expect("tunnel");
    let host = agent.host();

    // Response direction (agent -> edge -> public client).
    let path = format!("/big/{SIZE}");
    let download = public_request(&edge, &mut registry, &mut agent, &host, "GET", &path, b"");
    assert_eq!(download.status, 200);
    assert_eq!(download.body.len(), SIZE, "downloaded body was truncated");
    assert!(download.body.iter().all(|&b| b == b'x'), "downloaded body was corrupted");

    // Request direction (public client -> edge -> agent).
    let payload = vec![7u8; SIZE];
    let upload = public_request(&edge, &mut registry, &mut agent, &host, "POST", "/echo", &payload);
    assert_eq!(upload.status, 200);
    assert_eq!(upload.body.len(), SIZE, "uploaded body was truncated");
    assert_eq!(upload.body, payload, "uploaded body was corrupted");
}

#[test]
fn status_codes_and_repeated_headers_are_preserved() {
    let (edge, mut registry) = (node("node_a"), MemoryRegistry::new());
    let mut agent = start_agent(&edge, &mut registry, Some("hdr-app")).expect("tunnel");
    let host = agent.host();

    let teapot = public_request(&edge, &mut registry, &mut agent, &host, "GET", "/teapot", b"");
    assert_eq!(teapot.status, 418);

    let answer = public_request(&edge, &mut registry, &mut agent, &host, "GET", "/headers", b"");
    assert_eq!(answer.status, 200);
    // Two distinct Set-Cookie headers must not be collapsed into one.
    let cookies: Vec<&str> =
        answer.headers.get_all("set-cookie").iter().map(|v| v.to_str().unwrap()).collect();
    assert_eq!(cookies.len(), 2, "Set-Cookie headers were collapsed: {cookies:?}");
    assert!(cookies.contains(&"a=1") && cookies.contains(&"b=2"));

    // The agent tells the local service the original public hostname.
    assert_eq!(answer.headers.get("x-forwarded-seen").unwrap(), host.as_str());
}

#[test]
fn query_strings_and_paths_arrive_unmangled() {
    let (edge, mut registry) = (node("node_a"), MemoryRegistry::new());
    let mut agent = start_agent(&edge, &mut registry, Some("path-app")).expect("tunnel");
    // The local app 404s anything it does not know, which proves the full path
    // (including the query) reached it rather than being rewritten to `/`.
    let host = agent.host();
    let response =
        public_request(&edge, &mut registry, &mut agent, &host, "GET", "/nope?a=1&b=2", b"");
    assert_eq!(response.status, 404);
    assert_eq!(response.body, b"local: not found");
}

#[test]
fn host_matching_is_case_and_port_insensitive() {
    let (edge, mut registry) = (node("node_a"), MemoryRegistry::new());
    let mut agent = start_agent(&edge, &mut registry, Some("case-app")).expect("tunnel");
    for host in ["CASE-APP.localhost", "case-app.LOCALHOST", "case-app.localhost:8080"] {
        let response = public_request(&edge, &mut registry, &mut agent, host, "GET", "/", b"");
        assert_eq!(response.status, 200, "host {host} failed to route");
    }
}

#[test]
fn concurrent_requests_are_multiplexed_over_one_session() {
    let (edge, mut registry) = (node("node_a"), MemoryRegistry::new());
    let mut agent = start_agent(&edge, &mut registry, Some("mux-app")).expect("tunnel");

    // 50 requests in flight over a single session. If stream ids or the
    // bodies were mixed up, they would come back cross-wired.
    let mut public = HashMap::new();
    let mut sent = Vec::new();
    for i in 0..50u32 {
        let payload = format!("payload-{i}").into_bytes();
        let req = request("mux-app.localhost", "POST", "/echo");
        let id = agent.forward(&edge, &mut registry, &mut public, &req, &payload);
        sent.push((id, payload));
    }
    agent.settle(&edge, &mut registry, &mut public);
    for (id, payload) in sent {
        assert_eq!(public[&id].body, payload, "a multiplexed response came back cross-wired");
    }
}

#[test]
fn a_service_that_is_down_resets_the_stream() {
    let (edge, mut registry) = (node("node_a"), MemoryRegistry::new());
    let mut agent = start_agent(&edge, &mut registry, Some("dead-app")).expect("tunnel");
    agent.dead = true;
    let mut public = HashMap::new();
    let req = request("dead-app.localhost", "GET", "/");
    let id = agent.forward(&edge, &mut registry, &mut public, &req, b"");
    agent.settle(&edge, &mut registry, &mut public);
    assert_eq!(
        public[&id].failed.as_deref(),
        Some("tunnel stream reset: LocalUnreachable: cannot reach 127.0.0.1:3000: connection refused")
    );
    assert_eq!(agent.session.open_stream_count(), 0);
}

#[test]
fn a_subdomain_claimed_on_one_node_is_refused_on_every_other() {
    // The claim is cluster-wide, not per-node.
    let mut registry = MemoryRegistry::new();
    let first = start_agent(&node("node_a"), &mut registry, Some("global-claim"));
    assert!(first.is_ok());
    match start_agent(&node("node_b"), &mut registry, Some("global-claim")) {
        Err(reason) => assert!(
            reason.contains("already claimed"),
            "expected a cluster-wide rejection, got: {reason}"
        ),
        Ok(agent) => panic!("node_b handed out {} which node_a already owns", agent.host()),
    }
}

#[test]
fn releasing_a_tunnel_frees_the_name_for_another_node() {
    let mut registry = MemoryRegistry::new();
    let mut first = start_agent(&node("node_a"), &mut registry, Some("handover")).expect("first");
    let streams = control::teardown(&mut registry, &mut first.session);
    assert!(streams.is_empty());
    let b = node("node_b");
    let mut second = start_agent(&b, &mut registry, Some("handover")).expect("second");
    let response =
        public_request(&b, &mut registry, &mut second, "handover.localhost", "GET", "/", b"");
    assert_eq!(response.status, 200);
}

#[test]
fn bodies_survive_a_cross_node_hand_off() {
    let mut registry = MemoryRegistry::new();
    let (node_a, node_b) = (node("node_a"), node("node_b"));
    let mut agent = start_agent(&node_a, &mut registry, Some("spread-body")).expect("tunnel");

    // Large enough to cross the flow-control window on the far side of the hop.
    let payload = vec![3u8; 512 * 1024];
    let response = request_by_way_of(
        &node_b, &node_a, &mut registry, &mut agent, "POST", "/echo", &payload,
    );
    assert_eq!(response.status, 200);
    assert_eq!(response.body, payload, "body was corrupted crossing nodes");
}

#[test]
fn either_node_can_serve_the_same_tunnel() {
    let mut registry = MemoryRegistry::new();
    let (node_a, node_b) = (node("node_a"), node("node_b"));
    let mut agent = start_agent(&node_a, &mut registry, Some("anycast")).expect("tunnel");
    let host = agent.host();

    // A real load balancer has no affinity, so both paths must work.
    let direct = public_request(&node_a, &mut registry, &mut agent, &host, "GET", "/", b"");
    assert_eq!(direct.status, 200);
    let by_way =
        request_by_way_of(&node_b, &node_a, &mut registry, &mut agent, "GET", "/", b"");
    assert_eq!(by_way.status, 200);
    assert_eq!(by_way.body, b"hello from local");
}
