//! The edge: configuration, sessions, the control plane and the ingress.

use bytes::Bytes;
use http::{HeaderMap, HeaderValue};
use norupo::auth::{Limits, Principal, StaticTokenAuth};
use norupo::error::Error;
use norupo::proto::{
    ClientFrame, ClientPayload, CloseTunnel, Header, Hello, HttpRequestHead, HttpResponseHead,
    HttpTunnelSpec, OpenTunnel, ResetCode, ServerFrame, ServerPayload, StreamData, StreamEnd,
    StreamKind, StreamReset, TcpTunnelSpec, TunnelSpec, TunnelStatus, WindowUpdate,
    DEFAULT_WINDOW, PROTOCOL_VERSION,
};
use norupo::registry::{MemoryRegistry, Registry, RouteRecord};
use norupo::server::config::ServerConfig;
use norupo::server::control;
use norupo::server::control::{Action, Beat, RefusalCode, Renewal};
use norupo::server::ingress;
use norupo::server::ingress::{
    BodyEvent, BodyFrame, Handled, HeadOutcome, Internal, PumpStep, RequestHead, Role,
};
use norupo::server::peer::PeerClient;
use norupo::server::session::{
    split_chunks, Chunk, OpenError, Session, SessionManager, StreamWriter, Tunnel, WriteStep,
    MAX_CHUNK,
};
use norupo::server::state::{assemble, build_auth, build_registry, node_identity, AppState};
use norupo::server::state::{AuthChoice, RegistryChoice};
use norupo::server::tokens::{principals, LimitsFile, PrincipalFile};
use norupo::server::web::{
    error_page, html_escape, sanitize_headers, to_header_map, HOP_HEADER,
};

// -- configuration ---------------------------------------------------------

#[test]
fn ttl_is_three_heartbeats() {
    let cfg = ServerConfig {
        heartbeat_ms: 1000,
        ..Default::default()
    };
    assert_eq!(cfg.route_ttl(), 3000);
    assert_eq!(control::default_route_ttl(1000), 3000);
    assert_eq!(cfg.heartbeat(), 1000);
}

#[test]
fn advertise_addr_falls_back_to_the_peer_listener() {
    let cfg = ServerConfig::default();
    assert_eq!(cfg.advertised_peer_addr(), cfg.peer_addr.to_string());

    let cfg = ServerConfig {
        advertise_addr: Some("10.0.0.7:7100".into()),
        ..Default::default()
    };
    assert_eq!(cfg.advertised_peer_addr(), "10.0.0.7:7100");
}

#[test]
fn public_urls_respect_the_configured_scheme() {
    let cfg = ServerConfig {
        public_scheme: "http".into(),
        ..Default::default()
    };
    assert_eq!(cfg.public_url("a.localhost"), "http://a.localhost");
}

#[test]
fn defaults_are_the_documented_ones() {
    let cfg = ServerConfig::default();
    assert_eq!(cfg.control_addr, "0.0.0.0:7000");
    assert_eq!(cfg.http_addr, "0.0.0.0:8080");
    assert_eq!(cfg.peer_addr, "0.0.0.0:7100");
    assert_eq!(cfg.base_domain, "localhost");
    assert_eq!(cfg.public_scheme, "https");
    assert_eq!(cfg.redis_prefix, "norupo:");
    assert_eq!(cfg.heartbeat_ms, 15_000);
    assert_eq!(cfg.response_timeout(), 30_000);
    assert_eq!(ingress::default_response_timeout(), 30_000);
    assert_eq!(cfg.window_bytes, 256 * 1024);
    assert_eq!(DEFAULT_WINDOW, 256 * 1024);
    assert_eq!(ingress::INGRESS_CHUNK_HINT, 64 * 1024);
}

#[test]
fn start_up_choices_follow_the_configuration() {
    let cfg = ServerConfig::default();
    assert!(matches!(build_registry(&cfg), RegistryChoice::Memory));
    assert_eq!(
        build_auth(&cfg).unwrap_err(),
        "no authentication configured: pass --tokens-file, or --allow-anonymous for local development"
    );
    assert!(node_identity(&cfg).starts_with("node_"));

    let cfg = ServerConfig {
        redis_url: Some("redis://127.0.0.1:6379".into()),
        allow_anonymous: true,
        node_id: Some("pod-7".into()),
        ..Default::default()
    };
    match build_registry(&cfg) {
        RegistryChoice::Shared { url, prefix } => {
            assert_eq!(url, "redis://127.0.0.1:6379");
            assert_eq!(prefix, "norupo:");
        }
        RegistryChoice::Memory => panic!("expected the shared table"),
    }
    assert!(matches!(build_auth(&cfg), Ok(AuthChoice::Anonymous)));
    assert_eq!(node_identity(&cfg), "pod-7");

    let cfg = ServerConfig {
        tokens_file: Some("/etc/norupo/tokens.json".into()),
        allow_anonymous: true,
        ..Default::default()
    };
    assert!(matches!(build_auth(&cfg), Ok(AuthChoice::TokensFile(p)) if p == "/etc/norupo/tokens.json"));
}

#[test]
fn the_bound_address_is_advertised_unless_pinned() {
    let node = assemble(ServerConfig::default(), "node_1".into(), "127.0.0.1:41000");
    assert_eq!(node.node_addr, "127.0.0.1:41000");
    assert_eq!(node.version(), "0.1.0");
    let cfg = ServerConfig {
        advertise_addr: Some("10.0.0.7:7100".into()),
        ..Default::default()
    };
    assert_eq!(assemble(cfg, "node_1".into(), "127.0.0.1:41000").node_addr, "10.0.0.7:7100");
}

// -- token files -----------------------------------------------------------

/// Reads the documented JSON shape into the entries of a token file.
fn parse(raw: &str) -> Result<Vec<(String, Principal)>, String> {
    let value: serde_json::Value = serde_json::from_str(raw).map_err(|e| e.to_string())?;
    let object = value.as_object().ok_or("not an object")?;
    let mut entries = Vec::new();
    for (token, entry) in object {
        let text = |key: &str| entry.get(key).and_then(|v| v.as_str()).map(str::to_string);
        let list = |key: &str| -> Vec<String> {
            entry
                .get(key)
                .and_then(|v| v.as_array())
                .map(|a| a.iter().filter_map(|v| v.as_str()).map(str::to_string).collect())
                .unwrap_or_default()
        };
        let number = |l: &serde_json::Value, key: &str| l.get(key).and_then(|v| v.as_u64());
        entries.push((
            token.clone(),
            PrincipalFile {
                account_id: text("account_id").ok_or("missing field `account_id`")?,
                display_name: text("display_name"),
                reserved_subdomains: list("reserved_subdomains"),
                custom_domains: list("custom_domains"),
                limits: entry.get("limits").map(|l| LimitsFile {
                    max_tunnels: number(l, "max_tunnels").map(|n| n as u32),
                    max_concurrent_streams: number(l, "max_concurrent_streams").map(|n| n as u32),
                    max_bytes_per_second: number(l, "max_bytes_per_second"),
                }),
            },
        ));
    }
    Ok(principals(&entries))
}

#[test]
fn minimal_entries_get_sensible_defaults() {
    let parsed = parse(r#"{"tok_a": {"account_id": "acct_a"}}"#).unwrap();
    assert_eq!(parsed[0].0, "tok_a");
    let principal = &parsed[0].1;

    assert_eq!(principal.account_id, "acct_a");
    assert_eq!(principal.display_name, "acct_a");
    assert_eq!(principal.limits, Limits::default());
    assert!(principal.reserved_subdomains.is_empty());
}

#[test]
fn full_entries_are_parsed_and_partial_limits_fall_back() {
    let parsed = parse(
        r#"{
          "tok_b": {
            "account_id": "acct_b",
            "display_name": "Ada",
            "reserved_subdomains": ["ada"],
            "custom_domains": ["*.dev.example.com"],
            "limits": { "max_tunnels": 64 }
          }
        }"#,
    )
    .unwrap();
    let principal = &parsed[0].1;

    assert_eq!(principal.display_name, "Ada");
    assert_eq!(principal.reserved_subdomains, vec!["ada".to_string()]);
    assert_eq!(principal.limits.max_tunnels, 64);
    // Unspecified limits keep their defaults rather than becoming zero.
    assert_eq!(
        principal.limits.max_concurrent_streams,
        Limits::default().max_concurrent_streams
    );
}

// -- headers and pages -----------------------------------------------------

#[test]
fn hop_by_hop_headers_are_stripped() {
    let mut headers = HeaderMap::new();
    headers.insert("host", HeaderValue::from_static("api.tunnel.com"));
    headers.insert("transfer-encoding", HeaderValue::from_static("chunked"));
    headers.insert(
        "connection",
        HeaderValue::from_static("keep-alive, x-custom"),
    );
    headers.insert(
        "x-custom",
        HeaderValue::from_static("nominated-by-connection"),
    );
    headers.insert("accept", HeaderValue::from_static("*/*"));

    let names: Vec<String> = sanitize_headers(&headers)
        .into_iter()
        .map(|h| h.name)
        .collect();

    assert!(names.contains(&"host".to_string()));
    assert!(names.contains(&"accept".to_string()));
    assert!(!names.contains(&"transfer-encoding".to_string()));
    assert!(!names.contains(&"connection".to_string()));
    // Nominated by `Connection`, so hop-by-hop for this hop.
    assert!(!names.contains(&"x-custom".to_string()));
}

#[test]
fn kept_headers_keep_every_value() {
    let mut headers = HeaderMap::new();
    headers.append("cookie", HeaderValue::from_static("a=1"));
    headers.append("connection", HeaderValue::from_static("X-One ,x-two"));
    headers.append("cookie", HeaderValue::from_bytes(&[0xff, 0xfe]).unwrap());
    headers.append("connection", HeaderValue::from_static("x-three"));
    headers.append("x-one", HeaderValue::from_static("1"));
    headers.append("x-three", HeaderValue::from_static("3"));
    headers.append("te", HeaderValue::from_static("trailers"));
    let kept = sanitize_headers(&headers);
    assert_eq!(kept.len(), 2);
    assert!(kept.iter().all(|h| h.name == "cookie"));
    assert_eq!(&kept[0].value[..], b"a=1");
    assert_eq!(&kept[1].value[..], &[0xff, 0xfe]);
}

#[test]
fn kept_headers_keep_their_order() {
    let mut headers = HeaderMap::new();
    for name in ["x-c", "te", "x-a", "x-b", "upgrade", "accept"] {
        headers.append(name, HeaderValue::from_static("1"));
    }
    headers.append("x-c", HeaderValue::from_static("2"));
    let listed: Vec<(String, Vec<u8>)> = headers
        .iter()
        .filter(|(name, _)| name.as_str() != "te" && name.as_str() != "upgrade")
        .map(|(name, value)| (name.as_str().to_string(), value.as_bytes().to_vec()))
        .collect();
    let kept: Vec<(String, Vec<u8>)> =
        sanitize_headers(&headers).into_iter().map(|h| (h.name, h.value.to_vec())).collect();
    assert_eq!(kept, listed);
    assert_eq!(kept.len(), 5);
}

#[test]
fn malformed_agent_headers_are_dropped_not_propagated() {
    let map = to_header_map(&vec![
        Header {
            name: "x-good".into(),
            value: Bytes::from_static(b"1"),
        },
        // Newline in a value would split the response if it got through.
        Header {
            name: "x-bad".into(),
            value: Bytes::from_static(b"a\r\nInjected: yes"),
        },
        // Invalid header name.
        Header {
            name: "bad name".into(),
            value: Bytes::from_static(b"1"),
        },
        // Hop-by-hop from the agent is equally unwelcome.
        Header {
            name: "Transfer-Encoding".into(),
            value: Bytes::from_static(b"chunked"),
        },
    ])
    .unwrap();

    assert_eq!(map.len(), 1);
    assert_eq!(map.get("x-good").unwrap(), "1");
    assert!(map.get("injected").is_none());
    assert!(map.get("transfer-encoding").is_none());
}

#[test]
fn repeated_headers_survive_the_round_trip() {
    // Set-Cookie must not be collapsed; `append` is load-bearing.
    let map = to_header_map(&vec![
        Header {
            name: "set-cookie".into(),
            value: Bytes::from_static(b"a=1"),
        },
        Header {
            name: "set-cookie".into(),
            value: Bytes::from_static(b"b=2"),
        },
    ])
    .unwrap();
    assert_eq!(map.get_all("set-cookie").iter().count(), 2);
    let values: Vec<&HeaderValue> = map.get_all("set-cookie").iter().collect();
    assert_eq!(values[0], "a=1");
    assert_eq!(values[1], "b=2");
}

#[test]
fn headers_an_agent_nominates_for_its_hop_are_dropped() {
    let map = to_header_map(&vec![
        Header { name: "x-before".into(), value: Bytes::from_static(b"1") },
        Header { name: "Connection".into(), value: Bytes::from_static(b"close, X-Before ,x-after") },
        Header { name: "X-After".into(), value: Bytes::from_static(b"2") },
        Header { name: "x-kept".into(), value: Bytes::from_static(b"3") },
    ])
    .unwrap();
    assert_eq!(map.keys_len(), 1);
    assert_eq!(map.get("x-kept").unwrap(), "3");
}

#[test]
fn header_names_are_stored_in_lower_case() {
    let map = to_header_map(&vec![
        Header { name: "X-Mixed".into(), value: Bytes::from_static(b"1") },
        Header { name: "x-mixed".into(), value: Bytes::from_static(b"\t2 \xff") },
        Header { name: "".into(), value: Bytes::from_static(b"1") },
        Header { name: "x-del".into(), value: Bytes::from_static(b"\x7f") },
    ])
    .unwrap();
    assert_eq!(map.keys_len(), 1);
    assert_eq!(map.get_all("x-mixed").iter().count(), 2);
}

#[test]
fn many_headers_fit() {
    let headers: Vec<Header> = (0..6553)
        .map(|i| Header { name: format!("x-{i}"), value: Bytes::from_static(b"1") })
        .collect();
    assert_eq!(to_header_map(&headers).unwrap().keys_len(), 6553);
}

#[test]
fn header_values_may_be_non_utf8() {
    // Header values are `bytes` precisely so that a latin-1 cookie cannot
    // crash the edge. Guard that decision with a test.
    let header = Header {
        name: "x-legacy".into(),
        value: bytes::Bytes::from_static(&[0xff, 0xfe]),
    };
    assert_eq!(header.value.len(), 2);
    assert_eq!(header.clone(), header);
}

#[test]
fn error_pages_escape_interpolated_values() {
    let page = error_page(
        404,
        "Tunnel not found",
        &html_escape("<script>alert(1)</script>"),
    );
    assert_eq!(page.status, 404);
    // The escaping helper is what protects the host name we echo back.
    assert!(!html_escape("<script>").contains('<'));
}

#[test]
fn escaping_covers_the_five_characters() {
    assert_eq!(html_escape(r#"<a href="x">'&'</a>"#), "&lt;a href=&quot;x&quot;&gt;&#x27;&amp;&#x27;&lt;/a&gt;");
    assert_eq!(html_escape("plain text"), "plain text");
}

#[test]
fn error_pages_are_complete() {
    let page = error_page(502, "A <b>", "detail");
    assert_eq!(page.headers.get("content-type").unwrap(), "text/html; charset=utf-8");
    assert_eq!(page.headers.get("cache-control").unwrap(), "no-store");
    assert_eq!(
        page.body,
        "<!doctype html>\n<html><head><meta charset=\"utf-8\"><title>502 A &lt;b&gt;</title><style>body{font:16px/1.6 system-ui,sans-serif;max-width:40rem;margin:6rem auto;padding:0 1.5rem;color:#1a1a1a}h1{font-size:1.4rem;margin:0 0 .5rem}code{background:#f4f4f5;padding:.1rem .3rem;border-radius:.2rem}footer{margin-top:2rem;color:#71717a;font-size:.85rem}</style></head><body><h1>502 &middot; A &lt;b&gt;</h1><p>detail</p><footer>norupo edge</footer></body></html>\n"
    );
}

// -- sessions --------------------------------------------------------------

fn principal(max_streams: u32) -> Principal {
    Principal {
        account_id: "acct_1".into(),
        display_name: "test".into(),
        reserved_subdomains: vec![],
        custom_domains: vec![],
        limits: Limits {
            max_concurrent_streams: max_streams,
            ..Limits::default()
        },
    }
}

fn head() -> HttpRequestHead {
    HttpRequestHead {
        method: "GET".into(),
        path: "/".into(),
        authority: "api.tunnel.com".into(),
        headers: vec![],
        version: "HTTP/1.1".into(),
        upgrade: String::new(),
    }
}

fn session(max_streams: u32, window: u32) -> Session {
    Session::new("sess_1".into(), "node_1".into(), principal(max_streams), window)
}

fn tunnel(id: &str) -> Tunnel {
    Tunnel {
        tunnel_id: id.into(),
        routing_key: "api.tunnel.com".into(),
        public_url: "https://api.tunnel.com".into(),
    }
}

#[test]
fn chunking_splits_on_the_frame_boundary_without_losing_bytes() {
    let payload = Bytes::from(vec![7u8; MAX_CHUNK * 2 + 13]);
    let chunks = split_chunks(payload.clone());

    assert_eq!(chunks.len(), 3);
    assert_eq!(chunks[0].len(), MAX_CHUNK);
    assert_eq!(chunks[1].len(), MAX_CHUNK);
    assert_eq!(chunks[2].len(), 13);
    assert_eq!(chunks.concat(), payload);
}

#[test]
fn small_payloads_are_not_split() {
    assert_eq!(split_chunks(Bytes::from_static(b"hi")).len(), 1);
    // Exactly at the boundary must stay a single frame.
    assert_eq!(split_chunks(Bytes::from(vec![0u8; MAX_CHUNK])).len(), 1);
    assert_eq!(split_chunks(Bytes::new()).len(), 1);
}

#[test]
fn opening_a_stream_emits_an_open_frame_to_the_agent() {
    let mut session = session(0, 65536);

    let opened = session
        .open_http_stream("tun_1", head(), "1.2.3.4:5678".into())
        .expect("open");

    match opened.frame.payload {
        Some(ServerPayload::Open(open)) => {
            assert_eq!(open.stream_id, opened.stream_id);
            assert_eq!(open.tunnel_id, "tun_1");
            assert_eq!(open.kind, StreamKind::Http);
            assert_eq!(open.remote_addr, "1.2.3.4:5678");
            assert_eq!(open.initial_window, 65536);
            assert_eq!(open.http, Some(head()));
        }
        other => panic!("expected Open, got {other:?}"),
    }
    // Ids start at 1 and go up.
    assert_eq!(opened.stream_id, 1);
    let next = session
        .open_http_stream("tun_1", head(), "1.2.3.4:5678".into())
        .expect("open");
    assert_eq!(next.stream_id, 2);
    assert!(!session.ids_exhausted());
}

#[test]
fn concurrent_stream_limits_are_enforced() {
    let mut session = session(1, 65536);

    let first = session
        .open_http_stream("tun_1", head(), "1.2.3.4:1".into())
        .expect("first");
    let err = session
        .open_http_stream("tun_1", head(), "1.2.3.4:2".into())
        .expect_err("second must be refused");

    assert!(matches!(err, OpenError::TooManyStreams(1)));
    assert_eq!(err.to_string(), "session exceeded its concurrent stream limit (1)");
    assert_eq!(session.open_stream_count(), 1);

    // A stream that the agent could not be told of makes room again.
    let gone = session.abandon_stream(first.stream_id);
    assert_eq!(gone.to_string(), "agent session is gone");
    assert_eq!(session.open_stream_count(), 0);
    assert!(session.open_http_stream("tun_1", head(), "1.2.3.4:2".into()).is_ok());
}

#[test]
fn response_head_and_body_reach_the_waiting_ingress_task() {
    let mut session = session(0, 65536);
    let opened = session
        .open_http_stream("tun_1", head(), "1.2.3.4:1".into())
        .expect("open");
    let id = opened.stream_id;

    let answer = |status: u32| HttpResponseHead { stream_id: id, status, headers: vec![] };
    assert_eq!(session.on_response_head(answer(204)).expect("head").status, 204);
    // A head is delivered once.
    assert!(session.on_response_head(answer(200)).is_none());

    match session.on_stream_data(id, Bytes::from_static(b"hello")) {
        Some(Chunk::Data(b)) => assert_eq!(&b[..], b"hello"),
        other => panic!("expected data, got {other:?}"),
    }
    let accepted = session.on_delivered(id, 5, true);
    assert_eq!(accepted, 5);
    assert!(matches!(session.on_stream_end(id, vec![]), Some(Chunk::End(_))));

    // Nothing revives the stream.
    assert!(session.on_stream_data(id, Bytes::from_static(b"late")).is_none());
    assert!(session.on_stream_end(id, vec![]).is_none());
    assert!(session.on_stream_reset(id, ResetCode::Internal, "late".into()).is_none());
    assert_eq!(session.open_stream_count(), 0);
}

fn sent(step: WriteStep) -> Vec<u8> {
    match step {
        WriteStep::Frame(ServerFrame { payload: Some(ServerPayload::Data(d)) }) => d.payload.to_vec(),
        other => panic!("expected data, got {other:?}"),
    }
}

#[test]
fn flow_control_blocks_once_credit_is_exhausted_and_resumes_on_update() {
    // Window of 4 bytes: the first 4 go through, the next send must park
    // until the agent grants more credit.
    let mut session = session(0, 4);
    let id = session
        .open_http_stream("tun_1", head(), "1.2.3.4:1".into())
        .unwrap()
        .stream_id;

    let mut first: StreamWriter = session.send_stream_data(id, Bytes::from_static(b"abcd")).unwrap();
    let mut second = session.send_stream_data(id, Bytes::from_static(b"efgh")).unwrap();

    // First 4 bytes are within the window.
    assert_eq!(sent(first.step(&mut session)), b"abcd");
    assert!(matches!(first.step(&mut session), WriteStep::Done));

    // The second send is parked: nothing more should arrive.
    assert!(
        matches!(second.step(&mut session), WriteStep::Blocked),
        "sender ignored the flow-control window"
    );

    session.on_window_update(id, 4);
    assert_eq!(sent(second.step(&mut session)), b"efgh");
    assert!(matches!(second.step(&mut session), WriteStep::Done));
}

#[test]
fn closing_a_stream_unparks_a_blocked_writer() {
    // Without closing the window, a disconnected agent would leave a
    // writer blocked forever on credit.
    let mut session = session(0, 2);
    let id = session
        .open_http_stream("tun_1", head(), "1.2.3.4:1".into())
        .unwrap()
        .stream_id;

    let mut writer = session.send_stream_data(id, Bytes::from(vec![0u8; 64])).unwrap();
    assert!(matches!(writer.step(&mut session), WriteStep::Blocked));

    assert!(session.close_stream(id));
    assert!(
        matches!(writer.step(&mut session), WriteStep::Gone),
        "a send on a closed stream must report failure"
    );
    assert!(session.send_stream_data(id, Bytes::from_static(b"x")).is_none());
    assert!(!session.close_stream(id));
}

#[test]
fn large_payloads_leave_in_frames_of_bounded_size() {
    let mut session = session(0, u32::MAX);
    let id = session
        .open_http_stream("tun_1", head(), "1.2.3.4:1".into())
        .unwrap()
        .stream_id;
    let payload: Vec<u8> = (0..MAX_CHUNK * 2 + 13).map(|i| i as u8).collect();
    let mut writer = session.send_stream_data(id, Bytes::from(payload.clone())).unwrap();
    let mut received = Vec::new();
    let mut frames = 0;
    while let WriteStep::Frame(frame) = writer.step(&mut session) {
        let bytes = sent(WriteStep::Frame(frame));
        assert!(bytes.len() <= MAX_CHUNK);
        received.extend(bytes);
        frames += 1;
    }
    assert_eq!(frames, 3);
    assert_eq!(received, payload);
}

#[test]
fn credit_has_a_ceiling() {
    let mut session = session(0, u32::MAX);
    let id = session
        .open_http_stream("tun_1", head(), "1.2.3.4:1".into())
        .unwrap()
        .stream_id;
    assert!(session.takes_credit(id, u32::MAX));
    session.on_window_update(id, u32::MAX);
    // Of a stream that is gone, nothing is asked.
    assert!(session.takes_credit(99, u32::MAX));
    session.on_window_update(99, 1);
}

#[test]
fn frames_towards_the_agent_carry_their_stream() {
    let mut session = session(0, 8);
    assert!(matches!(
        session.send_stream_end(7).payload,
        Some(ServerPayload::End(StreamEnd { stream_id: 7, trailers })) if trailers.is_empty()
    ));
    assert!(session.grant_window(7, 0).is_none());
    assert_eq!(
        session.grant_window(7, 9).unwrap().payload,
        Some(ServerPayload::WindowUpdate(WindowUpdate { stream_id: 7, increment: 9 }))
    );
    assert_eq!(
        session.reset_stream(7, ResetCode::Timeout, "late").payload,
        Some(ServerPayload::Reset(StreamReset {
            stream_id: 7,
            code: Some(ResetCode::Timeout),
            message: "late".into(),
        }))
    );
}

#[test]
fn all_streams_go_when_the_agent_does() {
    let mut session = session(0, 8);
    for _ in 0..20 {
        session.open_http_stream("tun_1", head(), "1.2.3.4:1".into()).unwrap();
    }
    session.close_stream(5);
    let mut ids = session.close_all_streams();
    ids.sort();
    assert_eq!(ids, (1..=20).filter(|i| *i != 5).collect::<Vec<u64>>());
    assert_eq!(session.open_stream_count(), 0);
}

#[test]
fn session_manager_tracks_sessions_and_tunnels() {
    let mut manager = SessionManager::new();
    let mut session = session(0, 65536);
    session.insert_tunnel(tunnel("tun_1"));
    manager.insert(session);

    assert_eq!(manager.len(), 1);
    assert_eq!(manager.tunnel_count(), 1);
    assert!(manager.get("sess_1").is_some());
    let info = manager.get("sess_1").unwrap();
    assert_eq!(info.account_id, "acct_1");
    assert_eq!(info.tunnels.len(), 1);
    assert_eq!(info.tunnels[0].public_url, "https://api.tunnel.com");

    manager.remove("sess_1");
    assert!(manager.is_empty());
    assert!(manager.get("sess_1").is_none());
}

#[test]
fn snapshots_hold_every_session() {
    let mut manager = SessionManager::new();
    for i in 0..3u64 {
        let mut s = Session::new(format!("sess_{i}"), "node_1".into(), principal(0), 8);
        for t in 0..i {
            s.insert_tunnel(tunnel(&format!("tun_{t}")));
        }
        s.open_http_stream("tun_0", head(), "1.2.3.4:1".into()).unwrap();
        manager.insert(s);
    }
    assert_eq!(manager.tunnel_count(), 3);
    let mut snapshot = manager.snapshot();
    snapshot.sort_by(|a, b| a.0.cmp(&b.0));
    let seen: Vec<(String, usize, u64)> =
        snapshot.into_iter().map(|(id, s)| (id, s.tunnels.len(), s.open_streams)).collect();
    assert_eq!(
        seen,
        vec![("sess_0".into(), 0, 1), ("sess_1".into(), 1, 1), ("sess_2".into(), 2, 1)]
    );
}

#[test]
fn a_default_manager_is_empty() {
    assert!(SessionManager::default().is_empty());
    assert_eq!(SessionManager::default().tunnel_count(), 0);
}

#[test]
fn the_window_bounds_what_leaves_in_any_order() {
    // A window of 4 and grants of 3 and 2 let 9 bytes out, and not one more.
    let mut session = Session::new("sess_1".into(), "node_1".into(), principal(8), 4);
    let opened = session.open_http_stream("tun_1", head(), "1.2.3.4:1".into()).unwrap();
    match &opened.frame.payload {
        Some(ServerPayload::Open(open)) => assert_eq!(open.initial_window, 4),
        other => panic!("expected Open, got {other:?}"),
    }
    let id = opened.stream_id;
    let other = session.open_http_stream("tun_1", head(), "1.2.3.4:2".into()).unwrap().stream_id;
    let mut sent = 0;
    let mut write = |session: &mut Session, bytes: &'static [u8]| {
        let mut writer = session.send_stream_data(id, Bytes::from_static(bytes)).unwrap();
        let step = writer.step(session);
        if matches!(step, WriteStep::Frame(_)) {
            sent += bytes.len();
        }
        matches!(step, WriteStep::Blocked)
    };
    assert!(!write(&mut session, b"abc"));
    assert!(write(&mut session, b"de"));
    session.on_window_update(id, 3);
    assert!(!write(&mut session, b"defg"));
    session.on_window_update(id, 2);
    assert!(write(&mut session, b"hij"));
    assert!(!write(&mut session, b"hi"));
    assert!(write(&mut session, b"k"));
    assert_eq!(sent, 9);
    // The other stream still has its whole window.
    let mut writer = session.send_stream_data(other, Bytes::from_static(b"wxyz")).unwrap();
    assert!(matches!(writer.step(&mut session), WriteStep::Frame(_)));
}

#[test]
fn tunnels_are_kept_by_id() {
    let mut session = session(0, 8);
    assert_eq!((session.id(), session.node_id()), ("sess_1", "node_1"));
    session.insert_tunnel(tunnel("tun_1"));
    session.insert_tunnel(tunnel("tun_2"));
    assert_eq!(session.tunnel_count(), 2);
    let mut ids: Vec<String> = session.tunnels().into_iter().map(|t| t.tunnel_id).collect();
    ids.sort();
    assert_eq!(ids, vec!["tun_1", "tun_2"]);
    assert_eq!(session.remove_tunnel("tun_1").unwrap().tunnel_id, "tun_1");
    assert!(session.remove_tunnel("tun_1").is_none());
    assert_eq!(session.tunnel_count(), 1);
}

// -- the control plane -----------------------------------------------------

fn node(node_id: &str) -> AppState {
    let cfg = ServerConfig {
        base_domain: "localhost".into(),
        public_scheme: "http".into(),
        heartbeat_ms: 1_000,
        response_timeout_ms: 5_000,
        ..Default::default()
    };
    assemble(cfg, node_id.into(), "10.0.0.1:7100")
}

fn frame(payload: ClientPayload) -> ClientFrame {
    ClientFrame { payload: Some(payload) }
}

fn hello(version: u32, token: &str) -> ClientFrame {
    frame(ClientPayload::Hello(Hello {
        token: token.into(),
        agent_version: "0.1.0".into(),
        protocol_version: version,
        metadata: vec![],
    }))
}

#[test]
fn a_session_opens_with_hello_and_welcome() {
    let auth = StaticTokenAuth::new(vec![("tok".into(), principal(7))]);
    let (session, welcome) =
        control::session(&node("node_a"), &auth, Some(hello(PROTOCOL_VERSION, "tok"))).unwrap();
    assert!(session.id().starts_with("sess_"));
    match welcome.payload {
        Some(ServerPayload::Welcome(w)) => {
            assert_eq!(w.session_id, session.id());
            assert_eq!(w.node_id, "node_a");
            assert_eq!(w.server_version, "0.1.0");
            assert_eq!(w.heartbeat_interval_ms, 1_000);
            assert_eq!(w.initial_window, DEFAULT_WINDOW);
            assert_eq!(w.limits.unwrap().max_concurrent_streams, 7);
        }
        other => panic!("expected Welcome, got {other:?}"),
    }
}

#[test]
fn handshakes_that_break_the_protocol_are_refused() {
    let auth = StaticTokenAuth::new(vec![]);
    let refusal = |first: Option<ClientFrame>| {
        let r = control::session(&node("node_a"), &auth, first).err().expect("refusal");
        (r.code, r.message)
    };
    assert_eq!(
        refusal(None),
        (RefusalCode::FailedPrecondition, "stream closed before Hello".into())
    );
    assert_eq!(
        refusal(Some(ClientFrame { payload: None })),
        (RefusalCode::FailedPrecondition, "first frame must be Hello".into())
    );
    assert_eq!(
        refusal(Some(hello(2, "tok"))),
        (
            RefusalCode::FailedPrecondition,
            "unsupported protocol version 2 (server speaks 1); upgrade the norupo CLI".into()
        )
    );
    assert_eq!(
        refusal(Some(hello(1, "tok"))),
        (RefusalCode::Unauthenticated, "unauthorized: unknown or revoked token".into())
    );
    let gone = control::hung_up();
    assert_eq!(gone.code, RefusalCode::Unavailable);
    assert_eq!(gone.message, "agent hung up during handshake");
}

fn http_spec(subdomain: &str, custom_domain: &str) -> OpenTunnel {
    OpenTunnel {
        request_id: "req_1".into(),
        spec: Some(TunnelSpec::Http(HttpTunnelSpec {
            subdomain: subdomain.into(),
            custom_domain: custom_domain.into(),
            forward_to: "127.0.0.1:3000".into(),
            rewrite_host_header: false,
        })),
    }
}

fn named_session(id: &str) -> Session {
    Session::new(id.into(), "node_a".into(), principal(0), DEFAULT_WINDOW)
}

#[test]
fn a_granted_request_is_registered() {
    let mut registry = MemoryRegistry::new();
    let mut session = named_session("sess_1");
    let status =
        control::register_tunnel(&node("node_a"), &mut registry, &mut session, http_spec("My-App", ""));
    assert!(status.accepted);
    assert_eq!(status.request_id, "req_1");
    assert_eq!(status.error, "");
    assert_eq!(status.public_url, "http://my-app.localhost");
    assert_eq!(status.routing_key, "my-app.localhost");
    assert!(status.tunnel_id.starts_with("tun_"));
    assert_eq!(session.tunnel_count(), 1);
    let found = registry.lookup("my-app.localhost").unwrap().unwrap();
    assert_eq!(found.node_addr, "10.0.0.1:7100");
    assert_eq!(found.session_id, "sess_1");
    assert_eq!(found.account_id, "acct_1");
    assert_eq!(found.tunnel_id, status.tunnel_id);
}

#[test]
fn two_agents_cannot_claim_the_same_subdomain() {
    let mut registry = MemoryRegistry::new();
    let mut first = named_session("sess_1");
    let mut second = named_session("sess_2");
    assert!(control::register_tunnel(&node("node_a"), &mut registry, &mut first, http_spec("contested", "")).accepted);
    let status =
        control::register_tunnel(&node("node_b"), &mut registry, &mut second, http_spec("contested", ""));
    assert!(!status.accepted);
    assert!(status.error.contains("already claimed"));
    assert_eq!(
        status.error,
        "routing key `contested.localhost (held by session sess_1 on node node_a)` is already claimed"
    );
    assert_eq!(second.tunnel_count(), 0);
}

#[test]
fn reserved_subdomains_are_refused() {
    let mut registry = MemoryRegistry::new();
    let mut session = named_session("sess_1");
    let status =
        control::register_tunnel(&node("node_a"), &mut registry, &mut session, http_spec("admin", ""));
    assert!(!status.accepted);
    assert!(status.error.contains("reserved"));
    assert_eq!(status.error, "unauthorized: subdomain `admin` is reserved");

    let mut granted = principal(0);
    granted.reserved_subdomains = vec!["Admin".into()];
    let mut session = Session::new("sess_2".into(), "node_a".into(), granted, 8);
    assert!(control::register_tunnel(&node("node_a"), &mut registry, &mut session, http_spec("admin", "")).accepted);
}

#[test]
fn a_randomly_assigned_subdomain_works_without_being_requested() {
    let mut registry = MemoryRegistry::new();
    let mut session = named_session("sess_1");
    let status =
        control::register_tunnel(&node("node_a"), &mut registry, &mut session, http_spec("", ""));
    assert!(status.accepted);
    assert!(status.routing_key.ends_with(".localhost"));
    assert!(registry.lookup(&status.routing_key).unwrap().is_some());
}

#[test]
fn rejected_requests_say_why() {
    let n = node("node_a");
    let plan = |session: &Session, open: OpenTunnel| {
        control::plan_tunnel(&n, session, open, "abc234", "tun_x".into())
    };
    let error = |open: OpenTunnel| plan(&named_session("s"), open).err().expect("rejection").error;

    assert_eq!(error(OpenTunnel { request_id: "r".into(), spec: None }), "OpenTunnel is missing a spec");
    assert_eq!(
        error(http_spec("", "Evil.example.com:80")),
        "unauthorized: custom domain `evil.example.com` is not verified for this account"
    );
    assert_eq!(
        error(http_spec("", "[::1")),
        "invalid routing target: unterminated IPv6 host: [::1"
    );
    assert_eq!(
        error(http_spec("-bad", "")),
        "invalid routing target: subdomain must not start or end with a hyphen"
    );
    let tcp = |port: u32| OpenTunnel {
        request_id: "r".into(),
        spec: Some(TunnelSpec::Tcp(TcpTunnelSpec { remote_port: port })),
    };
    assert_eq!(error(tcp(70_000)), "invalid routing target: port 70000 is out of range");
    assert_eq!(
        error(tcp(0)),
        "invalid routing target: automatic TCP port assignment is not implemented yet; pass --remote-port"
    );

    let planned = plan(&named_session("s"), tcp(41235)).unwrap();
    assert_eq!(planned.record.routing_key, "tcp:41235");
    assert_eq!(planned.public_url, "tcp://localhost:41235");
    let planned = plan(&named_session("s"), http_spec("", "")).unwrap();
    assert_eq!(planned.record.routing_key, "abc234.localhost");

    let mut limited = principal(0);
    limited.limits.max_tunnels = 1;
    let mut session = Session::new("s".into(), "n".into(), limited, 8);
    session.insert_tunnel(tunnel("tun_1"));
    assert_eq!(
        plan(&session, http_spec("my-app", "")).err().unwrap().error,
        "account is limited to 1 concurrent tunnels"
    );
}

#[test]
fn a_table_that_does_not_answer_rejects_the_request() {
    let mut session = named_session("sess_1");
    let plan =
        control::plan_tunnel(&node("n"), &session, http_spec("my-app", ""), "x", "tun_x".into()).unwrap();
    let status = control::settle_tunnel(
        &mut session,
        plan,
        Err(Error::RegistryUnavailable("redis down".into())),
    );
    assert!(!status.accepted);
    assert_eq!(status.error, "routing table unavailable: redis down");
    assert_eq!(session.tunnel_count(), 0);
}

#[test]
fn verified_custom_domains_are_registered() {
    let mut owner = principal(0);
    owner.custom_domains = vec!["*.dev.example.com".into()];
    let mut session = Session::new("sess_1".into(), "node_a".into(), owner, 8);
    let mut registry = MemoryRegistry::new();
    let status = control::register_tunnel(
        &node("node_a"),
        &mut registry,
        &mut session,
        http_spec("ignored", "A.dev.example.com."),
    );
    assert!(status.accepted);
    assert_eq!(status.routing_key, "a.dev.example.com");
    assert_eq!(status.public_url, "http://a.dev.example.com");
}

#[test]
fn frames_of_an_agent_lead_to_actions() {
    let mut session = named_session("sess_1");
    session.insert_tunnel(tunnel("tun_1"));
    let id = session.open_http_stream("tun_1", head(), "1.2.3.4:1".into()).unwrap().stream_id;
    let mut act = |payload: ClientPayload| {
        let f = frame(payload);
        assert!(control::accepts(&session, &f));
        control::handle_client_frame(&mut session, f)
    };

    assert!(matches!(act(ClientPayload::OpenTunnel(http_spec("a", ""))), Action::Register(_)));
    let close = || ClientPayload::CloseTunnel(CloseTunnel { tunnel_id: "tun_1".into() });
    assert!(matches!(act(close()), Action::Release(t) if t.tunnel_id == "tun_1"));
    assert!(matches!(act(close()), Action::Nothing));
    let answer = HttpResponseHead { stream_id: id, status: 200, headers: vec![] };
    assert!(matches!(act(ClientPayload::ResponseHead(answer)), Action::Head(h) if h.status == 200));
    let data = |stream_id: u64| {
        ClientPayload::Data(StreamData { stream_id, payload: Bytes::from_static(b"hello") })
    };
    assert!(matches!(
        act(data(id)),
        Action::Body { stream_id: 1, len: 5, chunk: Chunk::Data(_) }
    ));
    assert!(matches!(act(data(9)), Action::Nothing));
    let update = WindowUpdate { stream_id: id, increment: 3 };
    assert!(matches!(act(ClientPayload::WindowUpdate(update)), Action::Wake { stream_id: 1 }));
    // A code that is not known counts as unspecified.
    let reset = StreamReset { stream_id: id, code: None, message: "boom".into() };
    match act(ClientPayload::Reset(reset)) {
        Action::Last { stream_id: 1, chunk } => match ingress::body_frame(chunk) {
            Some(BodyFrame::Failed(reason)) => {
                assert_eq!(reason, "tunnel stream reset: Unspecified: boom")
            }
            other => panic!("expected a failure, got {other:?}"),
        },
        other => panic!("expected the last chunk, got {other:?}"),
    }
    let end = ClientPayload::End(StreamEnd { stream_id: id, trailers: vec![] });
    assert!(matches!(act(end), Action::Nothing));
    let Some(again) = hello(1, "t").payload else { panic!("hello") };
    assert!(matches!(act(again), Action::Nothing));
}

#[test]
fn credit_comes_back_only_for_delivered_bytes() {
    let mut session = named_session("sess_1");
    let id = session.open_http_stream("tun_1", head(), "1.2.3.4:1".into()).unwrap().stream_id;
    assert_eq!(
        control::after_delivery(&mut session, id, 5, true).unwrap().payload,
        Some(ServerPayload::WindowUpdate(WindowUpdate { stream_id: id, increment: 5 }))
    );
    assert!(control::after_delivery(&mut session, id, 0, true).is_none());
    assert!(control::after_delivery(&mut session, id, 5, false).is_none());
    assert_eq!(session.open_stream_count(), 0);
}

/// The status in a frame that announces a lost claim.
fn lost_status(frame: ServerFrame) -> TunnelStatus {
    match frame.payload {
        Some(ServerPayload::TunnelStatus(status)) => {
            assert!(!status.accepted);
            assert_eq!(status.error, "routing claim lost; reconnect to re-register");
            status
        }
        other => panic!("expected a status, got {other:?}"),
    }
}

#[test]
fn lost_claims_end_their_session_and_blips_do_not() {
    let mut session = named_session("sess_1");
    session.insert_tunnel(tunnel("tun_1"));
    let t = tunnel("tun_1");
    assert!(matches!(control::on_renewal(&mut session, &t, Ok(true)), Renewal::Kept));
    let blip = Err(Error::RegistryUnavailable("redis down".into()));
    assert!(matches!(control::on_renewal(&mut session, &t, blip), Renewal::Kept));
    assert_eq!(session.tunnel_count(), 1);
    match control::on_renewal(&mut session, &t, Ok(false)) {
        Renewal::Lost(frame) => {
            let status = lost_status(frame);
            assert_eq!(status.tunnel_id, "tun_1");
            assert_eq!(status.routing_key, "api.tunnel.com");
        }
        other => panic!("expected a lost claim, got {other:?}"),
    }
    assert_eq!(session.tunnel_count(), 0);
}

/// A session with two tunnels, of which the second key is not its own any more.
fn robbed_session(n: &AppState, registry: &mut MemoryRegistry) -> Session {
    let mut session = named_session("sess_1");
    assert!(control::register_tunnel(n, registry, &mut session, http_spec("kept", "")).accepted);
    assert!(control::register_tunnel(n, registry, &mut session, http_spec("lost", "")).accepted);
    session.open_http_stream("tun_1", head(), "1.2.3.4:1".into()).unwrap();
    registry.release("lost.localhost", "sess_1").unwrap();
    let mut thief = named_session("sess_2");
    assert!(control::register_tunnel(n, registry, &mut thief, http_spec("lost", "")).accepted);
    session
}

#[test]
fn a_lost_claim_tears_the_session_down() {
    let mut registry = MemoryRegistry::new();
    let n = node("node_a");
    let mut session = robbed_session(&n, &mut registry);
    let ending = control::renew_claims(&n, &mut registry, &mut session).unwrap();
    assert_eq!(lost_status(ending.notice).routing_key, "lost.localhost");
    assert_eq!(ending.streams, vec![1]);
    assert_eq!(session.open_stream_count(), 0);
    // Its other claim is released, and the new owner keeps theirs.
    assert!(registry.lookup("kept.localhost").unwrap().is_none());
    assert_eq!(registry.lookup("lost.localhost").unwrap().unwrap().session_id, "sess_2");
}

#[test]
fn a_round_of_renewals_without_loss_changes_nothing() {
    let mut registry = MemoryRegistry::new();
    let n = node("node_a");
    let mut session = named_session("sess_1");
    assert!(control::register_tunnel(&n, &mut registry, &mut session, http_spec("kept", "")).accepted);
    session.open_http_stream("tun_1", head(), "1.2.3.4:1".into()).unwrap();
    assert!(control::renew_claims(&n, &mut registry, &mut session).is_none());
    assert_eq!(session.tunnel_count(), 1);
    assert_eq!(session.open_stream_count(), 1);
    assert!(registry.lookup("kept.localhost").unwrap().is_some());
}

#[test]
fn an_ended_session_leaves_the_node() {
    let mut registry = MemoryRegistry::new();
    let n = node("node_a");
    let mut sessions = SessionManager::new();
    sessions.insert(robbed_session(&n, &mut registry));
    let mut other = named_session("sess_3");
    assert!(control::register_tunnel(&n, &mut registry, &mut other, http_spec("other", "")).accepted);
    sessions.insert(other);

    assert!(matches!(
        control::heartbeat(&n, &mut registry, &mut sessions, "sess_3"),
        Beat::Kept
    ));
    assert_eq!(sessions.len(), 2);
    match control::heartbeat(&n, &mut registry, &mut sessions, "sess_1") {
        Beat::Ended(ending) => {
            assert_eq!(lost_status(ending.notice).routing_key, "lost.localhost");
            assert_eq!(ending.streams, vec![1]);
        }
        other => panic!("expected the end of the session, got {other:?}"),
    }
    assert!(sessions.get("sess_1").is_none());
    assert_eq!(sessions.len(), 1);
    assert!(matches!(
        control::heartbeat(&n, &mut registry, &mut sessions, "sess_1"),
        Beat::Gone
    ));
}

#[test]
fn a_session_that_ends_lets_go_of_everything() {
    let mut session = named_session("sess_1");
    session.insert_tunnel(tunnel("tun_1"));
    session.open_http_stream("tun_1", head(), "1.2.3.4:1".into()).unwrap();
    let left = control::wind_up(&mut session);
    assert_eq!(left.releases.len(), 1);
    assert_eq!(left.streams, vec![1]);
    assert_eq!(session.open_stream_count(), 0);
}

#[test]
fn teardown_releases_what_the_session_still_owns() {
    let mut registry = MemoryRegistry::new();
    let n = node("node_a");
    let mut first = named_session("sess_1");
    let mut second = named_session("sess_2");
    assert!(control::register_tunnel(&n, &mut registry, &mut first, http_spec("mine", "")).accepted);
    assert!(control::register_tunnel(&n, &mut registry, &mut first, http_spec("taken", "")).accepted);
    first.open_http_stream("tun_1", head(), "1.2.3.4:1".into()).unwrap();
    // A newer session has taken one of the keys over.
    registry.release("taken.localhost", "sess_1").unwrap();
    assert!(control::register_tunnel(&n, &mut registry, &mut second, http_spec("taken", "")).accepted);

    assert_eq!(control::teardown(&mut registry, &mut first), vec![1]);
    assert_eq!(registry.lookup("mine.localhost").unwrap(), None);
    let kept = registry.lookup("taken.localhost").unwrap().expect("the newer claim");
    assert_eq!(kept.session_id, "sess_2");
}

#[test]
fn registration_claims_for_three_heartbeats_and_stands_in_the_table() {
    let mut registry = MemoryRegistry::new();
    let n = node("node_a");
    let mut session = named_session("sess_1");
    let status = control::register_tunnel(&n, &mut registry, &mut session, http_spec("my-app", ""));
    assert!(status.accepted);
    let found = registry.lookup("my-app.localhost").unwrap().expect("the row");
    assert_eq!(found.tunnel_id, status.tunnel_id);
    assert_eq!(found.node_id, "node_a");
    let later = registry.clock() + u128::from(n.config.heartbeat_ms) * 3 * 1_000_000;
    assert_eq!(registry.lookup_at(later, "my-app.localhost"), None);
}

#[test]
fn a_rejected_request_leaves_no_row() {
    let mut registry = MemoryRegistry::new();
    let n = node("node_a");
    let mut session = named_session("sess_1");
    let status = control::register_tunnel(&n, &mut registry, &mut session, http_spec("admin", ""));
    assert!(!status.accepted);
    assert_eq!(registry.lookup("admin.localhost").unwrap(), None);
    assert_eq!(session.tunnel_count(), 0);
}

#[test]
fn pings_carry_the_time() {
    assert!(matches!(
        control::ping(7, 99).payload,
        Some(ServerPayload::Ping(p)) if p.nonce == 7 && p.server_time_ms == 99
    ));
    assert_eq!(control::now_ms(None), 0);
    assert_eq!(control::now_ms(Some(1234)), 1234);
    assert_eq!(control::now_ms(Some(u128::MAX)), i64::MAX);
}

#[test]
fn health_counts_sessions_and_tunnels() {
    let mut manager = SessionManager::new();
    let mut session = named_session("sess_1");
    session.insert_tunnel(tunnel("tun_1"));
    manager.insert(session);
    let health = control::health(&node("node_a"), &manager);
    assert!(health.ok);
    assert_eq!((health.active_sessions, health.active_tunnels), (1, 1));
    assert_eq!(health.node_id, "node_a");
    assert_eq!(health.server_version, "0.1.0");
}

// -- the ingress -----------------------------------------------------------

fn request(host: Option<&str>) -> RequestHead {
    let mut headers = HeaderMap::new();
    if let Some(host) = host {
        headers.insert("host", HeaderValue::from_str(host).unwrap());
    }
    RequestHead {
        method: "GET".into(),
        authority: None,
        path: "/hello".into(),
        target: Some("/hello?a=1".into()),
        version: "HTTP/1.1".into(),
        headers,
    }
}

#[test]
fn host_comes_from_the_header_on_http1() {
    assert_eq!(
        ingress::request_host(&request(Some("api.tunnel.com"))).as_deref(),
        Some("api.tunnel.com")
    );
    assert_eq!(ingress::request_host(&request(None)), None);
}

#[test]
fn host_prefers_the_authority_on_http2() {
    // HTTP/2 carries the host in `:authority`, which lands in the URI.
    let mut req = request(Some("ignored.tunnel.com"));
    req.authority = Some("h2.tunnel.com".into());
    assert_eq!(ingress::request_host(&req).as_deref(), Some("h2.tunnel.com"));
}

#[test]
fn hosts_that_are_no_text_are_missing() {
    let mut req = request(None);
    req.headers.insert("host", HeaderValue::from_bytes(&[0xff]).unwrap());
    assert_eq!(ingress::request_host(&req), None);
}

#[test]
fn not_found_pages_are_labelled_for_clients() {
    let response = ingress::tunnel_not_found("api.tunnel.com");
    assert_eq!(response.status, 404);
    assert_eq!(
        response.headers.get("x-norupo-error").unwrap(),
        "tunnel_not_found"
    );
    assert!(response.body.contains(
        "No agent is serving <code>api.tunnel.com</code>. Start one with <code>norupo http 3000 --subdomain &lt;name&gt;</code>."
    ));
    assert!(ingress::tunnel_not_found("<x>").body.contains("<code>&lt;x&gt;</code>"));
}

fn route_record(node_id: &str, session_id: &str) -> RouteRecord {
    RouteRecord {
        routing_key: "my-app.localhost".into(),
        node_id: node_id.into(),
        node_addr: "10.0.0.2:7100".into(),
        session_id: session_id.into(),
        tunnel_id: "tun_1".into(),
        account_id: "acct_1".into(),
    }
}

fn responded(handled: Handled) -> (u16, String) {
    match handled {
        Handled::Respond(response) => (response.status, response.body),
        other => panic!("expected an answer, got {other:?}"),
    }
}

#[test]
fn requests_find_their_session() {
    let n = node("node_a");
    let mut registry = MemoryRegistry::new();
    let mut sessions = SessionManager::new();
    sessions.insert(named_session("sess_1"));
    registry.claim(&route_record("node_a", "sess_1"), 30_000).unwrap();
    for host in ["my-app.localhost", "MY-APP.localhost", "my-app.LOCALHOST", "my-app.localhost:8080"] {
        let handled =
            ingress::handle(&n, Role::Public, &request(Some(host)), &mut registry, &sessions);
        assert!(matches!(handled, Handled::Local(r) if r.session_id == "sess_1"), "host {host}");
    }
}

#[test]
fn an_unclaimed_host_gets_the_edges_own_404() {
    let mut registry = MemoryRegistry::new();
    let sessions = SessionManager::new();
    let handled = ingress::handle(
        &node("node_a"),
        Role::Public,
        &request(Some("nobody-is-here.localhost")),
        &mut registry,
        &sessions,
    );
    match handled {
        Handled::Respond(response) => {
            assert_eq!(response.status, 404);
            // Distinguishable from the user app's own 404s.
            assert_eq!(response.headers.get("x-norupo-error").unwrap(), "tunnel_not_found");
        }
        other => panic!("expected an answer, got {other:?}"),
    }
}

#[test]
fn requests_without_a_usable_host_are_bad() {
    let mut registry = MemoryRegistry::new();
    let sessions = SessionManager::new();
    let n = node("node_a");
    let (status, body) =
        responded(ingress::handle(&n, Role::Public, &request(None), &mut registry, &sessions));
    assert_eq!(status, 400);
    assert!(body.contains("400 &middot; Missing host"));
    let (status, body) = responded(ingress::handle(
        &n,
        Role::Public,
        &request(Some("a:<b>")),
        &mut registry,
        &sessions,
    ));
    assert_eq!(status, 400);
    assert!(body.contains("invalid routing target: invalid port in host: a:&lt;b&gt;"));
}

#[test]
fn a_stale_claim_of_this_node_is_cleaned_up() {
    let mut registry = MemoryRegistry::new();
    let sessions = SessionManager::new();
    registry.claim(&route_record("node_a", "sess_gone"), 30_000).unwrap();
    let (status, _) = responded(ingress::handle(
        &node("node_a"),
        Role::Public,
        &request(Some("my-app.localhost")),
        &mut registry,
        &sessions,
    ));
    assert_eq!(status, 404);
    assert_eq!(registry.lookup("my-app.localhost").unwrap(), None);
}

#[test]
fn a_request_landing_on_the_wrong_node_is_handed_to_the_right_one() {
    let mut registry = MemoryRegistry::new();
    let sessions = SessionManager::new();
    registry.claim(&route_record("node_a", "sess_1"), 30_000).unwrap();
    let b = node("node_b");
    let req = request(Some("my-app.localhost"));
    let record = match ingress::handle(&b, Role::Public, &req, &mut registry, &sessions) {
        Handled::HandOff(record) => record,
        other => panic!("expected a hand-off, got {other:?}"),
    };
    let peers = PeerClient::new("node_b".into());
    let hand_off = peers.forward(&record, req).unwrap().unwrap();
    assert_eq!(hand_off.uri, "http://10.0.0.2:7100/hello?a=1");
    assert_eq!(hand_off.headers.get(HOP_HEADER).unwrap(), "node_b");
    assert_eq!(hand_off.headers.get("host").unwrap(), "my-app.localhost");

    // A second hop is refused, whichever listener it comes in on.
    let mut marked = request(None);
    marked.headers = hand_off.headers;
    for role in [Role::Public, Role::Peer] {
        let (status, body) =
            responded(ingress::handle(&b, role, &marked, &mut registry, &sessions));
        assert_eq!(status, 508);
        assert!(body.contains("Routing loop"));
    }
}

#[test]
fn a_table_that_does_not_answer_is_a_bad_gateway() {
    let answer = Err(Error::RegistryUnavailable("redis down".into()));
    let routed = ingress::route(
        &node("node_a"),
        Role::Public,
        &request(Some("a.localhost")),
        "a.localhost",
        answer,
        &SessionManager::new(),
    );
    assert!(matches!(routed, ingress::Route::Respond(r) if r.status == 502));
}

#[test]
fn peer_client_builds_without_a_network() {
    let client = PeerClient::new("node_a".into());
    assert_eq!(client.node_id, "node_a");
    let page = client.unreachable();
    assert_eq!(page.status, 502);
    assert!(page.body.contains("Edge node unreachable"));
}

#[test]
fn an_unusable_peer_address_produces_a_502_not_a_panic() {
    let client = PeerClient::new("node_a".into());
    let record = RouteRecord {
        routing_key: "api.tunnel.com".into(),
        node_id: "node_b".into(),
        // Spaces are not legal in an authority, so URI parsing fails.
        node_addr: "not a valid authority".into(),
        session_id: "sess_1".into(),
        tunnel_id: "tun_1".into(),
        account_id: "acct_1".into(),
    };
    let page = client.forward(&record, request(Some("api.tunnel.com"))).unwrap().err().expect("a page");
    assert_eq!(page.status, 502);
    assert!(page.body.contains("Bad peer address"));
}

#[test]
fn a_node_id_that_cannot_stand_in_a_header_is_unknown() {
    let client = PeerClient::new("node\n1".into());
    let hand_off = client.forward(&route_record("node_b", "s"), request(None)).unwrap().unwrap();
    assert_eq!(hand_off.headers.get(HOP_HEADER).unwrap(), "unknown");
}

#[test]
fn a_hand_off_keeps_the_host_and_is_the_last() {
    let mut registry = MemoryRegistry::new();
    registry.claim(&route_record("node_c", "sess_1"), 30_000).unwrap();
    let req = request(Some("MY-APP.localhost:443"));
    let before = match ingress::enter(&req) {
        ingress::Entry::Lookup(key) => key,
        other => panic!("expected a lookup, got {other:?}"),
    };
    let hand_off =
        PeerClient::new("node_a".into()).forward(&route_record("node_b", "s"), req).unwrap().unwrap();
    let arrived = RequestHead { headers: hand_off.headers, ..request(None) };
    assert!(matches!(ingress::enter(&arrived), ingress::Entry::Lookup(key) if key == before));
    // Even on a public listener, the mark stops a second hop.
    let handled =
        ingress::handle(&node("node_b"), Role::Public, &arrived, &mut registry, &SessionManager::new());
    match handled {
        Handled::Respond(page) => assert_eq!(page.status, 508),
        other => panic!("expected a loop page, got {other:?}"),
    }
}

#[test]
fn a_hand_off_turns_the_authority_into_a_host() {
    let mut req = request(Some("other.localhost"));
    req.authority = Some("MY-APP.localhost:443".into());
    assert!(matches!(
        ingress::enter(&req),
        ingress::Entry::Lookup(key) if key == "my-app.localhost"
    ));
    let hand_off =
        PeerClient::new("node_a".into()).forward(&route_record("node_b", "s"), req).unwrap().unwrap();
    assert_eq!(hand_off.headers.get("host").unwrap(), "MY-APP.localhost:443");
    assert_eq!(hand_off.headers.get_all("host").iter().count(), 1);
    assert_eq!(hand_off.headers.get(HOP_HEADER).unwrap(), "node_a");
    let arrived = RequestHead { headers: hand_off.headers, ..request(None) };
    assert!(matches!(
        ingress::enter(&arrived),
        ingress::Entry::Lookup(key) if key == "my-app.localhost"
    ));
}

#[test]
fn many_values_of_few_names_are_kept() {
    let cookies: Vec<Header> = (0..7000)
        .map(|n| Header { name: "set-cookie".into(), value: Bytes::from(format!("n={n}")) })
        .collect();
    let map = to_header_map(&cookies).unwrap();
    assert_eq!(map.get_all("set-cookie").iter().count(), 7000);
    let head = HttpResponseHead { stream_id: 1, status: 200, headers: cookies };
    let response = ingress::build_response(1, &head).unwrap();
    assert_eq!(response.headers.get_all("set-cookie").iter().count(), 7000);
    assert!(matches!(
        ingress::body_frame(Chunk::End(head.headers)),
        Some(BodyFrame::Trailers(map)) if map.get_all("set-cookie").iter().count() == 7000
    ));
}

#[test]
fn the_public_health_endpoint_answers_without_a_tunnel() {
    let n = node("node_a");
    let sessions = SessionManager::new();
    let mut registry = MemoryRegistry::new();
    let mut req = request(Some("anything.localhost"));
    req.path = "/__norupo/healthz".into();
    assert!(matches!(
        ingress::handle(&n, Role::Public, &req, &mut registry, &sessions),
        Handled::Internal
    ));
    match ingress::internal_endpoint(&n, Role::Public, "/__norupo/healthz", &sessions) {
        Internal::Respond(response) => {
            assert_eq!(response.status, 200);
            assert_eq!(response.body, "ok\n");
            assert_eq!(response.headers.get("content-type").unwrap(), "text/plain; charset=utf-8");
        }
        other => panic!("expected an answer, got {other:?}"),
    }
}

#[test]
fn only_the_peer_listener_reveals_topology() {
    let n = node("node_a");
    let mut sessions = SessionManager::new();
    let mut session = named_session("sess_1");
    session.insert_tunnel(tunnel("tun_1"));
    sessions.insert(session);
    assert!(matches!(
        ingress::internal_endpoint(&n, Role::Peer, "/__norupo/healthz//", &sessions),
        Internal::Health { sessions: 1, tunnels: 1, .. }
    ));
    assert!(matches!(
        ingress::internal_endpoint(&n, Role::Peer, "/__norupo/tunnels", &sessions),
        Internal::Tunnels(list) if list.len() == 1 && list[0].0 == "sess_1"
    ));
    for (role, path) in [(Role::Public, "/__norupo/tunnels"), (Role::Peer, "/__norupo/other")] {
        assert!(matches!(
            ingress::internal_endpoint(&n, role, path, &sessions),
            Internal::Respond(r) if r.status == 404 && r.body.contains("Unknown edge endpoint.")
        ));
    }
}

#[test]
fn request_heads_travel_without_what_is_for_one_hop() {
    let mut req = request(Some("my-app.localhost"));
    req.headers.insert("upgrade", HeaderValue::from_static("websocket"));
    req.headers.insert("accept", HeaderValue::from_static("*/*"));
    let head = ingress::tunnel_head(&req);
    assert_eq!(head.method, "GET");
    assert_eq!(head.path, "/hello?a=1");
    assert_eq!(head.authority, "my-app.localhost");
    assert_eq!(head.version, "HTTP/1.1");
    assert_eq!(head.upgrade, "websocket");
    let mut names: Vec<String> = head.headers.into_iter().map(|h| h.name).collect();
    names.sort();
    assert_eq!(names, vec!["accept", "host"]);

    let mut bare = request(None);
    bare.target = None;
    let head = ingress::tunnel_head(&bare);
    assert_eq!((head.path.as_str(), head.authority.as_str(), head.upgrade.as_str()), ("/", "", ""));
}

#[test]
fn requests_beyond_the_ceiling_are_turned_away() {
    let mut session = session(1, 8);
    let record = route_record("node_a", "sess_1");
    let req = request(Some("my-app.localhost"));
    let opened =
        ingress::forward_local(&mut session, &record, &req, "1.2.3.4:5".into()).unwrap();
    assert!(matches!(
        opened.frame.payload,
        Some(ServerPayload::Open(o)) if o.tunnel_id == "tun_1" && o.http.is_some()
    ));
    let page = ingress::forward_local(&mut session, &record, &req, "1.2.3.4:5".into()).unwrap_err();
    assert_eq!(page.status, 503);
    assert!(page.body.contains("This tunnel is limited to 1 concurrent requests."));
    let page = ingress::open_refused(&record, OpenError::SessionGone);
    assert_eq!(page.status, 404);
}

#[test]
fn request_bodies_are_pumped_event_by_event() {
    let mut session = session(0, 8);
    let id = session.open_http_stream("tun_1", head(), "1.2.3.4:1".into()).unwrap().stream_id;
    assert!(matches!(
        ingress::pump(&mut session, id, BodyEvent::Data(Bytes::new())),
        PumpStep::Skip
    ));
    assert!(matches!(ingress::pump(&mut session, id, BodyEvent::Other), PumpStep::Skip));
    match ingress::pump(&mut session, id, BodyEvent::Data(Bytes::from_static(b"abc"))) {
        PumpStep::Write(mut writer) => assert_eq!(sent(writer.step(&mut session)), b"abc"),
        other => panic!("expected bytes to write, got {other:?}"),
    }
    assert!(matches!(
        ingress::pump(&mut session, id, BodyEvent::End),
        PumpStep::Last(ServerFrame { payload: Some(ServerPayload::End(_)) })
    ));
    match ingress::pump(&mut session, id, BodyEvent::Failed) {
        PumpStep::Last(ServerFrame { payload: Some(ServerPayload::Reset(r)) }) => {
            assert_eq!(r.code, Some(ResetCode::PeerClosed));
            assert_eq!(r.message, "client body error");
        }
        other => panic!("expected a reset, got {other:?}"),
    }
    assert!(matches!(
        ingress::pump(&mut session, id, BodyEvent::Data(Bytes::from_static(b"abc"))),
        PumpStep::Stop
    ));
}

#[test]
fn a_dead_local_service_produces_a_502_not_a_hang() {
    let n = node("node_a");
    let mut session = session(0, 8);
    let id = session.open_http_stream("tun_1", head(), "1.2.3.4:1".into()).unwrap().stream_id;
    let failure =
        ingress::on_head_outcome(&n, &mut session, id, HeadOutcome::Dropped).err().unwrap();
    assert_eq!(failure.response.status, 502);
    assert!(failure.response.body.contains("Local service unreachable"));
    assert!(failure.frame.is_none());
    assert_eq!(session.open_stream_count(), 0);
}

#[test]
fn a_slow_local_service_times_out() {
    let n = node("node_a");
    let mut session = session(0, 8);
    let id = session.open_http_stream("tun_1", head(), "1.2.3.4:1".into()).unwrap().stream_id;
    let failure =
        ingress::on_head_outcome(&n, &mut session, id, HeadOutcome::TimedOut).err().unwrap();
    assert_eq!(failure.response.status, 504);
    assert!(failure.response.body.contains("The local service did not respond within 5s."));
    match failure.frame.unwrap().payload {
        Some(ServerPayload::Reset(r)) => {
            assert_eq!(r.code, Some(ResetCode::Timeout));
            assert_eq!(r.message, "edge response timeout");
        }
        other => panic!("expected a reset, got {other:?}"),
    }
}

#[test]
fn times_are_shown_as_durations_are() {
    for ms in [0, 1, 100, 999, 1000, 1005, 1050, 1500, 30_000, 61_234, u64::MAX] {
        assert_eq!(
            ingress::show_time(ms),
            format!("{:?}", std::time::Duration::from_millis(ms)),
            "{ms}"
        );
    }
}

#[test]
fn responses_are_built_from_the_agents_head() {
    let answer = |status: u32| HttpResponseHead {
        stream_id: 42,
        status,
        headers: vec![
            Header { name: "set-cookie".into(), value: Bytes::from_static(b"a=1") },
            Header { name: "set-cookie".into(), value: Bytes::from_static(b"b=2") },
            Header { name: "connection".into(), value: Bytes::from_static(b"close") },
            Header { name: "x-norupo-stream".into(), value: Bytes::from_static(b"forged") },
        ],
    };
    let response = ingress::build_response(42, &answer(418)).unwrap();
    assert_eq!(response.status, 418);
    assert_eq!(response.headers.get_all("set-cookie").iter().count(), 2);
    assert!(response.headers.get("connection").is_none());
    let numbers: Vec<&HeaderValue> = response.headers.get_all("x-norupo-stream").iter().collect();
    assert_eq!(numbers, vec!["42"]);
    for nonsense in [0, 99, 1000, 70_000, u32::MAX] {
        assert_eq!(ingress::build_response(42, &answer(nonsense)).unwrap().status, 502);
    }
}

#[test]
fn chunks_become_body_frames() {
    assert!(matches!(
        ingress::body_frame(Chunk::Data(Bytes::from_static(b"x"))),
        Some(BodyFrame::Data(b)) if &b[..] == b"x"
    ));
    let trailers =
        vec![Header { name: "x-sum".into(), value: Bytes::from_static(b"1") }];
    assert!(matches!(
        ingress::body_frame(Chunk::End(trailers)),
        Some(BodyFrame::Trailers(map)) if map.get("x-sum").unwrap() == "1"
    ));
    let codes = [
        (ResetCode::Unspecified, "Unspecified"),
        (ResetCode::ProtocolError, "ProtocolError"),
        (ResetCode::LocalUnreachable, "LocalUnreachable"),
        (ResetCode::Timeout, "Timeout"),
        (ResetCode::PeerClosed, "PeerClosed"),
        (ResetCode::Internal, "Internal"),
    ];
    for (code, name) in codes {
        assert_eq!(code.name(), name);
        match ingress::body_frame(Chunk::Reset(code, "why".into())) {
            Some(BodyFrame::Failed(reason)) => {
                assert_eq!(reason, format!("tunnel stream reset: {name}: why"))
            }
            other => panic!("expected a failure, got {other:?}"),
        }
    }
}

#[test]
fn a_client_that_hangs_up_releases_its_stream() {
    let mut session = session(0, 8);
    let id = session.open_http_stream("tun_1", head(), "1.2.3.4:1".into()).unwrap().stream_id;
    let frame = ingress::on_response_dropped(&mut session, id);
    assert_eq!(
        frame.payload,
        Some(ServerPayload::Reset(StreamReset {
            stream_id: id,
            code: Some(ResetCode::PeerClosed),
            message: "public client finished".into(),
        }))
    );
    assert_eq!(session.open_stream_count(), 0);
}
