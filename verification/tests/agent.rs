//! The agent: its command line, its reconnects, and the streams it serves.

use bytes::Bytes;
use http::{HeaderMap, HeaderValue};
use norupo::client::agent::{
    agent_metadata, build_open_tunnel, call_refused, connect_failed, hello, local_request,
    probe_verdict, response_head, send_payload, stream_failed, AgentEvent, AgentOptions, AgentStep, Attempts,
    LocalBody, Next, Reaction, Responder, RpcCode, ServeStep, SessionCtx, SessionError,
};
use norupo::client::config::{parse_forward_target, reconnect_delay, HttpArgs};
use norupo::proto::{
    ClientFrame, ClientPayload, Header, HttpRequestHead, Ping, ResetCode, ServerFrame,
    ServerPayload, Shutdown, StreamData, StreamEnd, StreamKind, StreamOpen, StreamReset,
    TunnelSpec, TunnelStatus, Welcome, WindowUpdate, PROTOCOL_VERSION,
};

fn options() -> AgentOptions {
    AgentOptions {
        server: "http://127.0.0.1:7000".into(),
        token: "tok".into(),
        forward_addr: "127.0.0.1:3000".into(),
        subdomain: Some("my-app".into()),
        domain: None,
        rewrite_host: false,
        max_retries: 0,
    }
}

// -- the command line ------------------------------------------------------

#[test]
fn bare_ports_become_loopback_addresses() {
    assert_eq!(parse_forward_target("3000").unwrap(), "127.0.0.1:3000");
    assert_eq!(parse_forward_target(" 8080 ").unwrap(), "127.0.0.1:8080");
}

#[test]
fn host_port_and_urls_are_both_accepted() {
    assert_eq!(
        parse_forward_target("127.0.0.1:3000").unwrap(),
        "127.0.0.1:3000"
    );
    assert_eq!(
        parse_forward_target("localhost:3000").unwrap(),
        "localhost:3000"
    );
    assert_eq!(
        parse_forward_target("http://localhost:3000").unwrap(),
        "localhost:3000"
    );
    assert_eq!(
        parse_forward_target("http://localhost:3000/ignored").unwrap(),
        "localhost:3000"
    );
}

#[test]
fn nonsense_targets_are_rejected_with_a_useful_message() {
    for bad in [
        "",
        "   ",
        "0",
        "localhost",
        "localhost:notaport",
        ":3000",
        "99999999",
    ] {
        assert!(
            parse_forward_target(bad).is_err(),
            "expected rejection: {bad:?}"
        );
    }
}

#[test]
fn target_rejections_say_why() {
    let cases = [
        ("  ", "forward target must not be empty"),
        ("0", "port 0 is not a valid forward target"),
        ("localhost:0", "port 0 is not a valid forward target"),
        ("http://127.0.0.1:00/x", "port 0 is not a valid forward target"),
        ("localhost:+0", "port 0 is not a valid forward target"),
        ("localhost:-1", "`-1` in `localhost:-1` is not a valid port"),
        ("localhost:65536", "`65536` in `localhost:65536` is not a valid port"),
        ("localhost:", "`` in `localhost:` is not a valid port"),
        (
            "localhost",
            "could not parse `localhost` as a forward target; use a port (3000) or host:port (127.0.0.1:3000)",
        ),
        (":3000", "forward target `:3000` is missing a host"),
        ("https://h:x/y", "`x` in `https://h:x/y` is not a valid port"),
    ];
    for (raw, expected) in cases {
        assert_eq!(parse_forward_target(raw).unwrap_err(), expected);
    }
    assert_eq!(parse_forward_target("https://[::1]:8443/x").unwrap(), "[::1]:8443");
    assert_eq!(parse_forward_target("+80").unwrap(), "127.0.0.1:80");
    assert_eq!(parse_forward_target("localhost:+3000").unwrap(), "localhost:+3000");
    let args = HttpArgs {
        target: "3000".into(),
        subdomain: None,
        domain: None,
        rewrite_host: false,
        max_retries: 0,
    };
    assert_eq!(args.forward_addr().unwrap(), "127.0.0.1:3000");
}

#[test]
fn backoff_grows_then_plateaus() {
    assert_eq!(reconnect_delay(0), 250);
    assert_eq!(reconnect_delay(1), 500);
    assert_eq!(reconnect_delay(2), 1000);
    // Capped, and never overflows however long the outage lasts.
    assert_eq!(reconnect_delay(100), 30_000);
    assert_eq!(reconnect_delay(6), 16_000);
    assert_eq!(reconnect_delay(7), 30_000);
    assert_eq!(reconnect_delay(u32::MAX), 30_000);
}

// -- sessions --------------------------------------------------------------

#[test]
fn open_tunnel_carries_the_requested_subdomain() {
    let open = build_open_tunnel(&options(), 17);
    assert_eq!(open.request_id, "req_17");
    match open.spec {
        Some(TunnelSpec::Http(spec)) => {
            assert_eq!(spec.subdomain, "my-app");
            assert_eq!(spec.custom_domain, "");
            assert_eq!(spec.forward_to, "127.0.0.1:3000");
        }
        other => panic!("expected an HTTP spec, got {other:?}"),
    }
}

#[test]
fn open_tunnel_with_neither_flag_asks_for_a_random_subdomain() {
    // Empty subdomain is the protocol's "you pick" signal.
    let opts = AgentOptions {
        subdomain: None,
        ..options()
    };
    match build_open_tunnel(&opts, 0).spec {
        Some(TunnelSpec::Http(spec)) => assert_eq!(spec.subdomain, ""),
        other => panic!("expected an HTTP spec, got {other:?}"),
    }
}

#[test]
fn custom_domains_take_the_domain_field() {
    let opts = AgentOptions {
        subdomain: None,
        domain: Some("hooks.example.com".into()),
        ..options()
    };
    match build_open_tunnel(&opts, i64::MIN).spec {
        Some(TunnelSpec::Http(spec)) => {
            assert_eq!(spec.custom_domain, "hooks.example.com");
            assert_eq!(spec.subdomain, "");
        }
        other => panic!("expected an HTTP spec, got {other:?}"),
    }
    assert_eq!(build_open_tunnel(&opts, i64::MIN).request_id, format!("req_{}", i64::MIN));
}

#[test]
fn metadata_always_reports_os_and_arch() {
    let find = |meta: &Vec<(String, String)>, key: &str| {
        meta.iter().find(|(k, _)| k == key).map(|(_, v)| v.clone())
    };
    let meta = agent_metadata("linux", "x86_64", None, None);
    assert_eq!(find(&meta, "os").as_deref(), Some("linux"));
    assert_eq!(find(&meta, "arch").as_deref(), Some("x86_64"));
    assert_eq!(find(&meta, "hostname").as_deref(), Some("unknown"));
    let meta = agent_metadata("windows", "x86_64", None, Some("DESK".into()));
    assert_eq!(find(&meta, "hostname").as_deref(), Some("DESK"));
    let meta = agent_metadata("linux", "x86_64", Some("box".into()), Some("DESK".into()));
    assert_eq!(find(&meta, "hostname").as_deref(), Some("box"));
}

#[test]
fn the_first_frame_is_hello() {
    let meta = agent_metadata("linux", "x86_64", None, None);
    match hello(&options(), "0.1.0", meta).payload {
        Some(ClientPayload::Hello(h)) => {
            assert_eq!(h.token, "tok");
            assert_eq!(h.agent_version, "0.1.0");
            assert_eq!(h.protocol_version, PROTOCOL_VERSION);
            assert_eq!(h.metadata.len(), 3);
        }
        other => panic!("expected Hello, got {other:?}"),
    }
}

#[test]
fn a_connection_refusal_is_transient_not_fatal() {
    let opts = AgentOptions {
        server: "http://127.0.0.1:1".into(),
        ..options()
    };
    match connect_failed(&opts, "connection refused") {
        SessionError::Transient(e) => {
            assert_eq!(e, "connect to http://127.0.0.1:1: connection refused")
        }
        SessionError::Fatal(e) => panic!("connect refusal must not be fatal: {e}"),
    }
}

#[test]
fn many_values_of_few_names_go_to_the_local_service() {
    let headers = (0..7000)
        .map(|n| Header { name: "cookie".into(), value: Bytes::from(format!("n={n}")) })
        .collect();
    let head = HttpRequestHead { headers, ..request_head() };
    let request = local_request(&options(), &head, "1.2.3.4:5", None).unwrap();
    assert_eq!(request.headers.get_all("cookie").iter().count(), 7000);
}

#[test]
fn a_trial_session_tells_whether_the_protocol_fits() {
    assert_eq!(probe_verdict(None, ""), Ok(()));
    // The version was accepted before the token was looked at.
    assert_eq!(probe_verdict(Some(RpcCode::Unauthenticated), "bad token"), Ok(()));
    assert_eq!(probe_verdict(Some(RpcCode::PermissionDenied), "no"), Ok(()));
    assert_eq!(
        probe_verdict(Some(RpcCode::FailedPrecondition), "unsupported protocol version 2"),
        Err("edge speaks another protocol: unsupported protocol version 2".to_string())
    );
    assert_eq!(
        probe_verdict(Some(RpcCode::Other), "gone"),
        Err("protocol check failed: gone".to_string())
    );
}

#[test]
fn refusals_are_told_apart() {
    let shown = |e: SessionError| match e {
        SessionError::Fatal(m) => (true, m),
        SessionError::Transient(m) => (false, m),
    };
    assert_eq!(
        shown(call_refused(RpcCode::Unauthenticated, "bad token", "s")),
        (true, "authentication failed: bad token".into())
    );
    assert_eq!(
        shown(call_refused(RpcCode::PermissionDenied, "no", "s")),
        (true, "authentication failed: no".into())
    );
    assert_eq!(
        shown(call_refused(RpcCode::FailedPrecondition, "old", "s")),
        (true, "edge refused the session: old".into())
    );
    assert_eq!(
        shown(call_refused(RpcCode::Other, "m", "status: Unavailable")),
        (false, "session RPC failed: status: Unavailable".into())
    );
    assert_eq!(shown(stream_failed("broken")), (false, "stream error: broken".into()));
}

#[test]
fn run_gives_up_after_max_retries() {
    let mut attempts = Attempts::new();
    let broken = || Err(SessionError::Transient("refused".into()));

    let (event, next) = attempts.after_session(1, broken(), false);
    assert!(matches!(event, Some(AgentEvent::Disconnected(m)) if m == "refused"));
    assert!(matches!(next, Next::Reconnect(250)));

    let (_, next) = attempts.after_session(1, broken(), false);
    match next {
        Next::Fail(err) => {
            assert!(err.contains("giving up"), "unexpected error: {err}");
            assert_eq!(err, "giving up after 1 reconnect attempts");
        }
        other => panic!("should give up, got {other:?}"),
    }
}

#[test]
fn retries_run_out_after_their_number() {
    let mut attempts = Attempts::new();
    for (n, delay) in [250, 500, 1000].into_iter().enumerate() {
        let end = Err(SessionError::Transient("down".into()));
        let (event, next) = attempts.after_session(3, end, false);
        assert!(matches!(event, Some(AgentEvent::Disconnected(m)) if m == "down"));
        assert!(matches!(next, Next::Reconnect(ms) if ms == delay));
        assert_eq!(attempts.count as usize, n + 1);
    }
    let (_, next) = attempts.after_session(3, Err(SessionError::Transient("down".into())), false);
    assert!(matches!(next, Next::Fail(m) if m == "giving up after 3 reconnect attempts"));
    // A fatal error does not wait for that.
    let fatal = Err(SessionError::Fatal("bad token".into()));
    let (event, next) = Attempts::new().after_session(3, fatal, false);
    assert!(event.is_none());
    assert!(matches!(next, Next::Fail(m) if m == "bad token"));
}

#[test]
fn copies_of_options_and_events_are_alike() {
    let copy = options().clone();
    assert_eq!(copy.forward_addr, options().forward_addr);
    assert_eq!(copy.subdomain, options().subdomain);
    let event = AgentEvent::TunnelRejected("taken".into());
    assert!(matches!(event.clone(), AgentEvent::TunnelRejected(m) if m == "taken"));
}

#[test]
fn a_clean_end_starts_the_backoff_anew() {
    let mut attempts = Attempts::new();
    for expected in [250, 500, 1000] {
        let end = Err(SessionError::Transient("x".into()));
        assert!(matches!(attempts.after_session(0, end, false).1, Next::Reconnect(d) if d == expected));
    }
    let (event, next) = attempts.after_session(0, Ok(()), false);
    assert!(event.is_none());
    assert!(matches!(next, Next::Reconnect(250)));
    assert_eq!(attempts.count, 1);
    // A fatal error is final even when the agent is stopping; a stop is honoured.
    let fatal = Err(SessionError::Fatal("bad token".into()));
    assert!(matches!(attempts.after_session(0, fatal, true).1, Next::Fail(m) if m == "bad token"));
    assert!(matches!(attempts.after_session(0, Ok(()), true).1, Next::Stop));
    let mut worn = Attempts { count: u32::MAX };
    let end = Err(SessionError::Transient("x".into()));
    assert!(matches!(worn.after_session(0, end, false).1, Next::Reconnect(30_000)));
    assert_eq!(worn.count, u32::MAX);
}

// -- frames of the edge ----------------------------------------------------

fn frame(payload: ServerPayload) -> ServerFrame {
    ServerFrame { payload: Some(payload) }
}

fn request_head() -> HttpRequestHead {
    HttpRequestHead {
        method: "POST".into(),
        path: "/echo?a=1".into(),
        authority: "my-app.localhost".into(),
        headers: vec![
            Header { name: "Host".into(), value: Bytes::from_static(b"my-app.localhost") },
            Header { name: "accept".into(), value: Bytes::from_static(b"*/*") },
            Header { name: "bad name".into(), value: Bytes::from_static(b"1") },
        ],
        version: "HTTP/1.1".into(),
        upgrade: String::new(),
    }
}

fn open(stream_id: u64, window: u32) -> StreamOpen {
    StreamOpen {
        stream_id,
        tunnel_id: "tun_1".into(),
        kind: StreamKind::Http,
        http: Some(request_head()),
        remote_addr: "[2001:db8::1]:5678".into(),
        initial_window: window,
    }
}

fn serving(window: u32) -> SessionCtx {
    let mut ctx = SessionCtx::new(options());
    assert!(matches!(
        ctx.handle_server_frame(frame(ServerPayload::Open(open(1, window))), 0),
        Reaction::Serve(_)
    ));
    ctx
}

fn data(stream_id: u64) -> ServerFrame {
    frame(ServerPayload::Data(StreamData { stream_id, payload: Bytes::from_static(b"hello") }))
}

#[test]
fn a_welcome_is_answered_with_a_tunnel_request() {
    let mut ctx = SessionCtx::new(options());
    let welcome = Welcome {
        session_id: "sess_1".into(),
        server_version: "0.1.0".into(),
        node_id: "node_a".into(),
        heartbeat_interval_ms: 1000,
        initial_window: 8,
        limits: None,
    };
    match ctx.handle_server_frame(frame(ServerPayload::Welcome(welcome)), 9) {
        Reaction::Announce(
            AgentEvent::Connected { session_id, node_id },
            Some(ClientFrame { payload: Some(ClientPayload::OpenTunnel(open)) }),
        ) => {
            assert_eq!((session_id.as_str(), node_id.as_str()), ("sess_1", "node_a"));
            assert_eq!(open.request_id, "req_9");
        }
        other => panic!("unexpected reaction {other:?}"),
    }
}

#[test]
fn statuses_are_announced() {
    let mut ctx = SessionCtx::new(options());
    let status = |accepted: bool| TunnelStatus {
        request_id: "r".into(),
        tunnel_id: "t".into(),
        accepted,
        error: "why".into(),
        public_url: "u".into(),
        routing_key: "k".into(),
    };
    assert!(matches!(
        ctx.handle_server_frame(frame(ServerPayload::TunnelStatus(status(true))), 0),
        Reaction::Announce(AgentEvent::TunnelReady(s), None) if s.public_url == "u"
    ));
    assert!(matches!(
        ctx.handle_server_frame(frame(ServerPayload::TunnelStatus(status(false))), 0),
        Reaction::Announce(AgentEvent::TunnelRejected(m), None) if m == "why"
    ));
}

#[test]
fn bytes_right_behind_an_opening_are_not_lost() {
    let mut ctx = serving(8);
    assert!(matches!(
        ctx.handle_server_frame(data(1), 0),
        Reaction::Deliver { stream_id: 1, payload } if &payload[..] == b"hello"
    ));
    assert_eq!(
        ctx.after_delivery(1, 5, true).unwrap().payload,
        Some(ClientPayload::WindowUpdate(WindowUpdate { stream_id: 1, increment: 5 }))
    );
    let end = || frame(ServerPayload::End(StreamEnd { stream_id: 1, trailers: vec![] }));
    assert!(matches!(ctx.handle_server_frame(end(), 0), Reaction::EndBody { stream_id: 1 }));
    // The stream stays for its response...
    assert!(matches!(ctx.handle_server_frame(end(), 0), Reaction::EndBody { stream_id: 1 }));
    // ...but takes no more bytes.
    assert!(matches!(ctx.handle_server_frame(data(1), 0), Reaction::Closed { stream_id: 1 }));
    assert!(matches!(ctx.handle_server_frame(data(1), 0), Reaction::Nothing));
    assert!(matches!(ctx.handle_server_frame(end(), 0), Reaction::Nothing));
}

#[test]
fn a_local_request_that_takes_no_bytes_loses_its_stream() {
    let mut ctx = serving(8);
    assert!(ctx.after_delivery(1, 5, false).is_none());
    assert!(!ctx.drop_stream(1));
}

#[test]
fn the_other_frames_of_the_edge() {
    let mut ctx = serving(8);
    let reset = || {
        frame(ServerPayload::Reset(StreamReset {
            stream_id: 1,
            code: Some(ResetCode::Timeout),
            message: "late".into(),
        }))
    };
    assert!(matches!(ctx.handle_server_frame(reset(), 0), Reaction::Closed { stream_id: 1 }));
    assert!(matches!(ctx.handle_server_frame(reset(), 0), Reaction::Nothing));
    let ping = frame(ServerPayload::Ping(Ping { nonce: 7, server_time_ms: 1 }));
    assert!(matches!(
        ctx.handle_server_frame(ping, 99),
        Reaction::Send(ClientFrame { payload: Some(ClientPayload::Pong(p)) })
            if p.nonce == 7 && p.client_time_ms == 99
    ));
    let shutdown =
        frame(ServerPayload::Shutdown(Shutdown { reason: "deploy".into(), reconnect_to: "".into() }));
    assert!(matches!(ctx.handle_server_frame(shutdown, 0), Reaction::Nothing));
    assert!(matches!(ctx.handle_server_frame(ServerFrame { payload: None }, 0), Reaction::Nothing));
}

fn sent(step: AgentStep) -> Vec<u8> {
    match step {
        AgentStep::Frame(ClientFrame { payload: Some(ClientPayload::Data(d)) }) => d.payload.to_vec(),
        other => panic!("expected data, got {other:?}"),
    }
}

#[test]
fn responses_honour_the_edges_window() {
    let mut ctx = serving(4);
    let mut writer = send_payload(1, Bytes::from_static(b"abcdef"));
    assert!(matches!(writer.step(&mut ctx), AgentStep::Blocked));
    let update = frame(ServerPayload::WindowUpdate(WindowUpdate { stream_id: 1, increment: 2 }));
    assert!(ctx.accepts(&update));
    assert!(matches!(ctx.handle_server_frame(update, 0), Reaction::Wake { stream_id: 1 }));
    assert_eq!(sent(writer.step(&mut ctx)), b"abcdef");
    assert!(matches!(writer.step(&mut ctx), AgentStep::Done));
    // No bytes, no frame.
    assert!(matches!(send_payload(1, Bytes::new()).step(&mut ctx), AgentStep::Done));
    let mut parked = send_payload(1, Bytes::from_static(b"x"));
    assert!(matches!(parked.step(&mut ctx), AgentStep::Blocked));
    assert!(ctx.drop_stream(1));
    assert!(matches!(parked.step(&mut ctx), AgentStep::Gone));
}

#[test]
fn long_responses_leave_in_pieces() {
    let mut ctx = serving(u32::MAX);
    let payload: Vec<u8> = (0..64 * 1024 + 1).map(|i| i as u8).collect();
    let mut writer = send_payload(1, Bytes::from(payload.clone()));
    let first = sent(writer.step(&mut ctx));
    let second = sent(writer.step(&mut ctx));
    assert_eq!((first.len(), second.len()), (64 * 1024, 1));
    assert_eq!([first, second].concat(), payload);
    assert!(matches!(writer.step(&mut ctx), AgentStep::Done));
}

// -- requests to the local service -----------------------------------------

#[test]
fn public_requests_are_made_locally() {
    let mut ctx = serving(8);
    let request = ctx.serve_stream(&open(1, 8)).unwrap();
    assert_eq!(request.method, "POST");
    assert_eq!(request.uri, "http://127.0.0.1:3000/echo?a=1");
    assert_eq!(request.headers.get("host").unwrap(), "my-app.localhost");
    assert_eq!(request.headers.get("accept").unwrap(), "*/*");
    assert_eq!(request.headers.get("x-forwarded-for").unwrap(), "2001:db8::1");
    assert_eq!(request.headers.get("x-forwarded-host").unwrap(), "my-app.localhost");
    assert_eq!(request.headers.get("x-forwarded-proto").unwrap(), "https");
    assert_eq!(request.headers.len(), 5);
}

#[test]
fn the_host_is_rewritten_on_request() {
    let opts = AgentOptions { rewrite_host: true, ..options() };
    let request = local_request(&opts, &request_head(), "no-port", None).unwrap();
    let hosts: Vec<&HeaderValue> = request.headers.get_all("host").iter().collect();
    assert_eq!(hosts, vec!["127.0.0.1:3000"]);
    assert!(request.headers.get("x-forwarded-for").is_none());
}

fn reset_of(frame: ClientFrame) -> (ResetCode, String) {
    match frame.payload {
        Some(ClientPayload::Reset(r)) => (r.code.unwrap(), r.message),
        other => panic!("expected a reset, got {other:?}"),
    }
}

#[test]
fn requests_that_cannot_be_made_reset_their_stream() {
    let refused = |change: &dyn Fn(&mut StreamOpen)| {
        let mut ctx = serving(8);
        let mut o = open(1, 8);
        change(&mut o);
        let frame = ctx.serve_stream(&o).err().expect("a reset");
        assert!(!ctx.drop_stream(1), "the stream must be gone");
        reset_of(frame)
    };
    assert_eq!(
        refused(&|o| o.http = None),
        (ResetCode::ProtocolError, "Open frame without an HTTP head".into())
    );
    assert_eq!(
        refused(&|o| o.http.as_mut().unwrap().method = "GE T".into()),
        (ResetCode::ProtocolError, "bad request: invalid HTTP method".into())
    );
    assert_eq!(
        refused(&|o| o.http.as_mut().unwrap().path = " x".into()),
        (ResetCode::ProtocolError, "bad request: invalid uri character".into())
    );
    assert_eq!(
        refused(&|o| o.http.as_mut().unwrap().authority = "a\nb".into()),
        (ResetCode::ProtocolError, "bad request: failed to parse header value".into())
    );
    assert_eq!(
        refused(&|o| o.remote_addr = "a\nb:1".into()),
        (ResetCode::ProtocolError, "bad request: failed to parse header value".into())
    );
}

#[test]
fn an_unreachable_service_resets_its_stream() {
    let mut ctx = serving(8);
    assert_eq!(
        reset_of(ctx.local_unreachable(1, "connection refused")),
        (
            ResetCode::LocalUnreachable,
            "cannot reach 127.0.0.1:3000: connection refused".into()
        )
    );
    assert!(!ctx.drop_stream(1));
}

#[test]
fn response_heads_keep_every_header() {
    let mut headers = HeaderMap::new();
    headers.append("set-cookie", HeaderValue::from_static("a=1"));
    headers.append("set-cookie", HeaderValue::from_static("b=2"));
    match response_head(1, 418, &headers).payload {
        Some(ClientPayload::ResponseHead(head)) => {
            assert_eq!((head.stream_id, head.status), (1, 418));
            let values: Vec<Vec<u8>> = head.headers.iter().map(|h| h.value.to_vec()).collect();
            assert_eq!(values, vec![b"a=1".to_vec(), b"b=2".to_vec()]);
        }
        other => panic!("expected a head, got {other:?}"),
    }
}

#[test]
fn response_bodies_are_sent_event_by_event() {
    let mut ctx = serving(8);
    let mut responder = Responder::new(1);
    match responder.on_body(&mut ctx, LocalBody::Data(Bytes::from_static(b"abc"))) {
        ServeStep::Write(mut writer) => assert_eq!(sent(writer.step(&mut ctx)), b"abc"),
        other => panic!("expected bytes to write, got {other:?}"),
    }
    let mut trailers = HeaderMap::new();
    trailers.insert("x-sum", HeaderValue::from_static("1"));
    assert!(matches!(
        responder.on_body(&mut ctx, LocalBody::Trailers(trailers)),
        ServeStep::Continue
    ));
    match responder.on_body(&mut ctx, LocalBody::End) {
        ServeStep::Last(ClientFrame { payload: Some(ClientPayload::End(end)) }) => {
            assert_eq!(end.stream_id, 1);
            assert_eq!(end.trailers.len(), 1);
            assert_eq!(end.trailers[0].name, "x-sum");
        }
        other => panic!("expected the end, got {other:?}"),
    }
    assert!(!ctx.drop_stream(1));

    let mut ctx = serving(8);
    match Responder::new(1).on_body(&mut ctx, LocalBody::Failed("broken pipe".into())) {
        ServeStep::Last(frame) => assert_eq!(
            reset_of(frame),
            (ResetCode::Internal, "local body error: broken pipe".into())
        ),
        other => panic!("expected a reset, got {other:?}"),
    }
}
