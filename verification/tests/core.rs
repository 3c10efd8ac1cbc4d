//! Routing keys, errors, ids, authentication and the routing table.

use norupo::auth::{AuthProvider, Limits, Principal, StaticTokenAuth};
use norupo::error::{redact, Error};
use norupo::ids::{id_from_draws, node_id, session_id, tunnel_id};
use norupo::registry::{
    claim_reply, lookup_reply, renew_reply, storage_name, storage_ttl, unavailable, Claim,
    MemoryRegistry, Registry, RouteRecord,
};
use norupo::routing::{
    is_reserved_subdomain, normalize_host, public_host, random_subdomain, subdomain_from_draws,
    subdomain_of, validate_subdomain, validate_subdomain_syntax, RoutingKey,
};

fn reason(r: Result<String, Error>) -> String {
    match r {
        Ok(s) => panic!("expected a refusal, got {s}"),
        Err(e) => e.to_string(),
    }
}

// -- errors ----------------------------------------------------------------

#[test]
fn retryable_classification_matches_reconnect_policy() {
    assert!(Error::RegistryUnavailable("redis down".into()).is_retryable());
    assert!(!Error::Unauthorized("bad token".into()).is_retryable());
    assert!(!Error::RouteTaken("api.tunnel.com".into()).is_retryable());
}

#[test]
fn redact_never_prints_the_whole_secret() {
    let out = redact("supersecrettoken").to_string();
    assert!(!out.contains("supersecrettoken"));
    assert!(out.starts_with("supe"));
}

#[test]
fn redacted_secrets_show_a_proper_prefix_and_the_length() {
    assert_eq!(redact("supersecrettoken"), "supe***(16 chars)");
    assert_eq!(redact("abcde"), "abcd***(5 chars)");
    // A short secret is not shown whole either.
    assert_eq!(redact("abcd"), "abc***(4 chars)");
    assert_eq!(redact("abc"), "ab***(3 chars)");
    assert!(!redact("abc").contains("abc"));
    assert_eq!(redact("x"), "***(1 chars)");
    assert_eq!(redact(""), "***(0 chars)");
    // The length is that of the bytes.
    assert_eq!(redact("éééééé"), "éééé***(12 chars)");
    assert_eq!(redact("supeXXXXXXXXXXXX"), redact("supersecrettoken"));
}

#[test]
fn every_error_has_its_code_and_sentence() {
    let cases = [
        (Error::RouteTaken("k".into()), "route_taken", "routing key `k` is already claimed", false),
        (Error::InvalidRoute("k".into()), "invalid_route", "invalid routing target: k", false),
        (Error::Unauthorized("k".into()), "unauthorized", "unauthorized: k", false),
        (Error::LimitExceeded("k".into()), "limit_exceeded", "limit exceeded: k", false),
        (
            Error::RegistryUnavailable("k".into()),
            "registry_unavailable",
            "routing table unavailable: k",
            true,
        ),
        (Error::Internal("k".into()), "internal", "k", true),
    ];
    for (error, code, sentence, retryable) in cases {
        assert_eq!(error.code(), code);
        assert_eq!(error.to_string(), sentence);
        assert_eq!(error.is_retryable(), retryable);
    }
}

// -- ids -------------------------------------------------------------------

#[test]
fn ids_are_prefixed_and_unique() {
    assert!(session_id().starts_with("sess_"));
    assert!(tunnel_id().starts_with("tun_"));
    assert!(node_id().starts_with("node_"));

    let a: std::collections::HashSet<_> = (0..1000).map(|_| session_id()).collect();
    assert_eq!(a.len(), 1000, "session ids collided");
}

#[test]
fn ids_are_url_safe() {
    let id = tunnel_id();
    assert!(id.bytes().all(|b| b.is_ascii_alphanumeric() || b == b'_'));
    assert_eq!(id.len(), "tun_".len() + 16);
}

#[test]
fn ids_are_put_together_from_their_draws() {
    assert_eq!(id_from_draws("tun_", &vec![0, 9, 10, 35]), "tun_09az");
}

// -- routing ---------------------------------------------------------------

/// A host of this many characters, in four labels.
fn long_host(len: usize) -> String {
    let label = "a".repeat(63);
    format!("{label}.{label}.{label}.{}", "b".repeat(len - 192))
}

#[test]
fn host_normalization_collapses_equivalent_forms() {
    // All five of these must produce the same routing key, or a request
    // silently fails to find a tunnel that is demonstrably connected.
    for raw in [
        "api.tunnel.com",
        "API.Tunnel.Com",
        "api.tunnel.com:8080",
        "api.tunnel.com.",
        "  api.tunnel.com  ",
    ] {
        assert_eq!(normalize_host(raw).unwrap(), "api.tunnel.com", "raw={raw}");
    }
}

#[test]
fn all_the_equivalent_forms_at_once() {
    assert_eq!(normalize_host("\t API.tunnel.COM..:443 \u{2003}").unwrap(), "api.tunnel.com");
    // An empty port counts as none.
    assert_eq!(normalize_host("api.tunnel.com:").unwrap(), "api.tunnel.com");
    // The key of a key is the key itself.
    assert_eq!(normalize_host("api.tunnel.com").unwrap(), "api.tunnel.com");
    assert_eq!(normalize_host("[::1]").unwrap(), "[::1]");
}

#[test]
fn every_kind_of_white_space_is_trimmed() {
    for c in ['\t', '\n', '\u{b}', '\u{c}', '\r', ' ', '\u{85}', '\u{a0}', '\u{1680}', '\u{2000}',
        '\u{200a}', '\u{2028}', '\u{2029}', '\u{202f}', '\u{205f}', '\u{3000}']
    {
        assert_eq!(normalize_host(&format!("{c}a.com{c}")).unwrap(), "a.com");
    }
    // Neither of these is white space.
    assert!(normalize_host("\u{200b}a.com").is_err());
    assert!(normalize_host("\u{feff}a.com").is_err());
}

#[test]
fn copied_keys_stay_what_they_are() {
    assert_eq!(RoutingKey::TcpPort(80).clone(), RoutingKey::TcpPort(80));
    assert_eq!(RoutingKey::Host("a.com".into()).clone(), RoutingKey::Host("a.com".into()));
}

#[test]
fn ipv6_literals_keep_their_colons() {
    assert_eq!(normalize_host("[::1]:8080").unwrap(), "[::1]");
    assert_eq!(normalize_host("[::1]").unwrap(), "[::1]");
}

#[test]
fn literals_are_cut_behind_their_bracket() {
    assert_eq!(normalize_host("  [FE80::1]:junk ").unwrap(), "[fe80::1]");
    assert_eq!(normalize_host("[::1]]").unwrap(), "[::1]");
}

#[test]
fn only_valid_hostnames_become_keys() {
    for good in [
        "localhost",
        "127.0.0.1",
        "a-b.c--d.e",
        "xn--tnnel-kva.com",
        "[::]",
        "[1::]",
        "[1:2:3:4:5:6:7:8]",
        "[1:2:3:4:5:6:7::]",
        "[2001:db8::ff00:42:8329]",
        "[::ffff:192.0.2.128]",
        "[1:2:3:4:5:6:192.0.2.128]",
    ] {
        assert_eq!(normalize_host(good).unwrap(), good);
        match RoutingKey::host(good).unwrap() {
            RoutingKey::Host(host) => assert_eq!(host, good),
            other => panic!("expected a host, got {other:?}"),
        }
    }
    for bad in [
        "foo bar.com",
        "foo .",
        "foo_bar.com",
        "a..b",
        ".a",
        "-a.com",
        "a-.com",
        "a/b",
        "a]",
        "[]",
        "[junk]",
        "[:]",
        "[:::]",
        "[1::2::3]",
        "[1:2:3:4:5:6:7]",
        "[1:2:3:4:5:6:7:8:9]",
        "[1:2:3:4::5:6:7:8]",
        "[12345::]",
        "[::g]",
        "[:1]",
        "[1:]",
        "[192.0.2.1::]",
        "[::256.0.0.1]",
        "[::01.0.0.1]",
        "[::1.2.3]",
        "[fe80::1%eth0]",
    ] {
        assert_eq!(
            reason(normalize_host(bad)),
            format!("invalid routing target: not a valid hostname: {bad}")
        );
        assert!(RoutingKey::host(bad).is_err());
    }
}

#[test]
fn host_normalization_rejects_junk() {
    for raw in ["", "   ", "api.tunnel.com:http", "[::1", "tünnel.com"] {
        assert!(normalize_host(raw).is_err(), "expected rejection: {raw:?}");
    }
    assert!(normalize_host(&format!("{}.com", "a".repeat(260))).is_err());
}

#[test]
fn host_rejections_say_why() {
    let cases = [
        ("", "invalid routing target: empty host"),
        ("...", "invalid routing target: empty host"),
        (":80", "invalid routing target: empty host"),
        ("a:http", "invalid routing target: invalid port in host: a:http"),
        ("[::1", "invalid routing target: unterminated IPv6 host: [::1"),
        (
            "tünnel.com",
            "invalid routing target: non-ASCII host (punycode it first): tünnel.com",
        ),
    ];
    for (raw, expected) in cases {
        assert_eq!(reason(normalize_host(raw)), expected);
    }
    assert_eq!(
        reason(normalize_host(&"a".repeat(254))),
        "invalid routing target: host exceeds 253 characters"
    );
    assert!(normalize_host(&long_host(253)).is_ok());
    // A label has at most 63 characters.
    assert!(normalize_host(&"a".repeat(63)).is_ok());
    assert!(normalize_host(&"a".repeat(64)).is_err());
}

#[test]
fn subdomain_validation_enforces_dns_label_rules() {
    assert_eq!(validate_subdomain("My-App").unwrap(), "my-app");
    assert_eq!(validate_subdomain("a").unwrap(), "a");

    for bad in [
        "",
        "-lead",
        "trail-",
        "has_underscore",
        "has.dot",
        "xn--fancy",
        "api",   // reserved
        "ADMIN", // reserved, case-insensitively
        &"a".repeat(64),
    ] {
        assert!(
            validate_subdomain(bad).is_err(),
            "expected rejection: {bad:?}"
        );
    }
}

#[test]
fn label_rejections_say_why() {
    let cases = [
        (" ".to_string(), "subdomain must not be empty"),
        ("a".repeat(64), "subdomain must be at most 63 characters"),
        ("é".repeat(32), "subdomain must be at most 63 characters"),
        ("has.dot".to_string(), "subdomain may only contain a-z, 0-9 and hyphen"),
        ("trail-".to_string(), "subdomain must not start or end with a hyphen"),
        ("xn--fancy".to_string(), "subdomain must not use the punycode prefix"),
    ];
    for (label, expected) in cases {
        assert_eq!(
            reason(validate_subdomain_syntax(&label)),
            format!("invalid routing target: {expected}")
        );
    }
    assert_eq!(
        reason(validate_subdomain("Billing")),
        "invalid routing target: subdomain `billing` is reserved"
    );
    assert!(validate_subdomain_syntax(&"a".repeat(63)).is_ok());
}

#[test]
fn generated_subdomains_are_valid_and_not_repeated() {
    let mut seen = std::collections::HashSet::new();
    for _ in 0..512 {
        let label = random_subdomain();
        assert!(
            validate_subdomain(&label).is_ok(),
            "generated invalid: {label}"
        );
        assert!(
            seen.insert(label),
            "generator produced a collision in 512 draws"
        );
    }
}

#[test]
fn generated_subdomains_avoid_look_alikes() {
    assert_eq!(
        subdomain_from_draws(&(0..32).collect::<Vec<usize>>()),
        "abcdefghijkmnpqrstuvwxyz23456789"
    );
    let label = random_subdomain();
    assert_eq!(label.len(), 12);
    assert!(!label.contains('l') && !label.contains('o'));
    assert!(!label.contains('0') && !label.contains('1'));
}

#[test]
fn public_host_and_subdomain_of_are_inverses() {
    let host = public_host("my-app", "tunnel.com").unwrap();
    assert_eq!(host, "my-app.tunnel.com");
    assert_eq!(subdomain_of(&host, "tunnel.com").as_deref(), Some("my-app"));

    // Syntax is still enforced...
    assert!(public_host("-bad", "tunnel.com").is_err());
    // ...but a reserved label is the control plane's call, not ours.
    assert_eq!(public_host("api", "tunnel.com").unwrap(), "api.tunnel.com");
}

#[test]
fn registered_hosts_are_their_own_keys() {
    let host = public_host(" My-App ", "Tunnel.COM.:443").unwrap();
    assert_eq!(host, "my-app.tunnel.com");
    assert_eq!(normalize_host(&host).unwrap(), host);
    assert_eq!(
        reason(public_host("a", &long_host(252))),
        "invalid routing target: resulting host is too long"
    );
    assert!(public_host("a", &long_host(251)).is_ok());
}

#[test]
fn subdomain_of_rejects_non_children() {
    // A nested host is not a subdomain of the base, and an unrelated host
    // must not be mistaken for one. The `eviltunnel.com` case matters:
    // a naive `ends_with("tunnel.com")` would match it.
    assert_eq!(subdomain_of("a.b.tunnel.com", "tunnel.com"), None);
    assert_eq!(subdomain_of("tunnel.com", "tunnel.com"), None);
    assert_eq!(subdomain_of("eviltunnel.com", "tunnel.com"), None);
}

#[test]
fn reserved_labels_pass_syntax_but_fail_full_validation() {
    // An account that owns `api` must still be able to register it, so the
    // syntax check and the reserved check have to stay separable.
    assert!(validate_subdomain_syntax("api").is_ok());
    assert!(validate_subdomain("api").is_err());
    assert!(is_reserved_subdomain("API"));
    assert!(!is_reserved_subdomain("my-app"));

    // Syntax failures must fail both ways.
    assert!(validate_subdomain_syntax("-nope").is_err());
}

#[test]
fn routing_key_display_is_stable() {
    assert_eq!(
        RoutingKey::host("API.tunnel.com:443").unwrap().to_string(),
        "api.tunnel.com"
    );
    assert_eq!(RoutingKey::TcpPort(41235).to_string(), "tcp:41235");
    assert_eq!(RoutingKey::TcpPort(41235).as_storage_key(), "tcp:41235");
}

#[test]
fn host_keys_and_port_keys_never_meet() {
    // Read as a host, the key of a port is a host with a port.
    assert_eq!(normalize_host("tcp:41235").unwrap(), "tcp");
}

// -- authentication --------------------------------------------------------

fn principal() -> Principal {
    Principal {
        account_id: "acct_1".into(),
        display_name: "Ada".into(),
        reserved_subdomains: vec!["ada".into()],
        custom_domains: vec!["hooks.example.com".into(), "*.dev.example.com".into()],
        limits: Limits::default(),
    }
}

#[test]
fn static_auth_accepts_known_tokens_and_rejects_others() {
    let auth = StaticTokenAuth::new(vec![("tok_good".to_string(), principal())]);
    assert_eq!(
        auth.authenticate("tok_good").unwrap().account_id,
        "acct_1"
    );

    let err = auth.authenticate("tok_bad").unwrap_err();
    assert_eq!(err.code(), "unauthorized");
    assert!(
        !err.is_retryable(),
        "a bad token must not trigger reconnect loops"
    );
}

#[test]
fn refusals_do_not_tell_tokens_apart() {
    let auth = StaticTokenAuth::new(vec![("tok_good".to_string(), principal())]);
    let unknown = auth.authenticate("tok_bad").unwrap_err().to_string();
    let empty = auth.authenticate("").unwrap_err().to_string();
    let close = auth.authenticate("tok_goo").unwrap_err().to_string();
    assert_eq!(unknown, "unauthorized: unknown or revoked token");
    assert_eq!(unknown, empty);
    assert_eq!(unknown, close);
}

#[test]
fn a_later_entry_replaces_an_earlier_one() {
    let mut newer = principal();
    newer.account_id = "acct_2".into();
    let auth = StaticTokenAuth::new(vec![
        ("tok".to_string(), principal()),
        ("other".to_string(), principal()),
        ("tok".to_string(), newer),
    ]);
    assert_eq!(auth.authenticate("tok").unwrap().account_id, "acct_2");
    assert_eq!(auth.authenticate("other").unwrap(), principal());
}

#[test]
fn defaults_are_empty() {
    assert!(StaticTokenAuth::default().authenticate("").is_err());
    assert_eq!(MemoryRegistry::default().lookup("api.tunnel.com").unwrap(), None);
}

#[test]
fn anonymous_mode_accepts_anything() {
    let auth = StaticTokenAuth::allow_anonymous();
    assert_eq!(auth.authenticate("").unwrap().account_id, "anonymous");
    let nobody = auth.authenticate("whatever").unwrap();
    assert_eq!(nobody.limits.max_tunnels, 8);
    assert_eq!(nobody.limits.max_concurrent_streams, 512);
    assert_eq!(nobody.limits.max_bytes_per_second, 0);
    assert!(nobody.reserved_subdomains.is_empty() && nobody.custom_domains.is_empty());
}

#[test]
fn reserved_subdomain_matching_is_case_insensitive() {
    assert!(principal().may_claim_subdomain("ADA"));
    assert!(!principal().may_claim_subdomain("grace"));
}

#[test]
fn wildcard_domains_do_not_leak_to_siblings() {
    let p = principal();
    assert!(p.may_use_custom_domain("hooks.example.com"));
    assert!(p.may_use_custom_domain("a.dev.example.com"));
    // The bare wildcard parent is not covered...
    assert!(!p.may_use_custom_domain("dev.example.com"));
    // ...and neither is a host that merely ends with the same text.
    assert!(!p.may_use_custom_domain("evildev.example.com"));
    assert!(!p.may_use_custom_domain("other.example.com"));
}

#[test]
fn wildcards_cover_deeper_names_and_need_a_label() {
    let p = principal();
    assert!(p.may_use_custom_domain("a.b.dev.example.com"));
    assert!(!p.may_use_custom_domain(".dev.example.com"));
    assert!(p.may_use_custom_domain("HOOKS.example.com"));
}

// -- the routing table -----------------------------------------------------

fn record(key: &str, session: &str) -> RouteRecord {
    RouteRecord {
        routing_key: key.into(),
        node_id: "node_a".into(),
        node_addr: "10.0.0.1:7100".into(),
        session_id: session.into(),
        tunnel_id: "tun_1".into(),
        account_id: "acct_1".into(),
    }
}

#[test]
fn records_round_trip() {
    let original = record("api.tunnel.com", "sess_1");
    assert_eq!(RouteRecord::decode(&original.encode()).unwrap(), original);
}

#[test]
fn session_id_sits_where_the_lua_scripts_expect_it() {
    // The Redis scripts extract the owner as the 4th tab-separated field
    // without decoding the whole record. If `encode`'s field order ever
    // changes, every compare-and-swap silently starts comparing the wrong
    // column — so pin the layout here.
    let encoded = record("api.tunnel.com", "sess_owner").encode();
    assert_eq!(encoded.split('\t').nth(3), Some("sess_owner"));
}

#[test]
fn records_are_tab_separated() {
    assert_eq!(
        record("api.tunnel.com", "sess_1").encode(),
        "api.tunnel.com\tnode_a\t10.0.0.1:7100\tsess_1\ttun_1\tacct_1"
    );
    // Anything behind the six fields is ignored.
    let raw = format!("{}\textra", record("api.tunnel.com", "sess_1").encode());
    assert_eq!(RouteRecord::decode(&raw).unwrap(), record("api.tunnel.com", "sess_1"));
}

#[test]
fn malformed_records_name_the_missing_field() {
    let fields = ["node_id", "node_addr", "session_id", "tunnel_id", "account_id"];
    for (i, field) in fields.iter().enumerate() {
        let raw = vec!["x"; i + 1].join("\t");
        let error = RouteRecord::decode(&raw).unwrap_err();
        assert_eq!(error.code(), "registry_unavailable");
        assert_eq!(
            error.to_string(),
            format!("routing table unavailable: record missing field `{field}`")
        );
    }
}

const TTL_MS: u128 = 30_000;

#[test]
fn first_claimer_wins_and_the_loser_learns_the_owner() {
    let mut reg = MemoryRegistry::new();
    assert_eq!(
        reg.claim(&record("api.tunnel.com", "sess_1"), TTL_MS).unwrap(),
        Claim::Acquired
    );

    let outcome = reg.claim(&record("api.tunnel.com", "sess_2"), TTL_MS).unwrap();
    match outcome {
        Claim::Taken(owner) => assert_eq!(owner.session_id, "sess_1"),
        Claim::Acquired => panic!("two sessions both won the same routing key"),
    }
}

#[test]
fn reclaiming_your_own_key_is_idempotent() {
    // This is the agent-reconnect path: same session id, same key.
    let mut reg = MemoryRegistry::new();
    let rec = record("api.tunnel.com", "sess_1");

    assert_eq!(reg.claim(&rec, TTL_MS).unwrap(), Claim::Acquired);
    assert_eq!(reg.claim(&rec, TTL_MS).unwrap(), Claim::Acquired);
}

#[test]
fn expired_claims_free_themselves() {
    let mut reg = MemoryRegistry::new();
    reg.claim(&record("api.tunnel.com", "sess_1"), 30).unwrap();

    let started = std::time::Instant::now();
    while started.elapsed() < std::time::Duration::from_millis(60) {}

    assert_eq!(reg.lookup("api.tunnel.com").unwrap(), None);
    // ...and a different session can now take over.
    assert_eq!(
        reg.claim(&record("api.tunnel.com", "sess_2"), TTL_MS).unwrap(),
        Claim::Acquired
    );
}

#[test]
fn claims_die_at_their_exact_moment() {
    let mut reg = MemoryRegistry::new();
    let ms: u128 = 1_000_000;
    reg.claim_at(5 * ms, &record("a", "sess_1"), 30);
    assert!(reg.lookup_at(35 * ms - 1, "a").is_some());
    // Renewal counts from the moment of renewal.
    assert!(reg.renew_at(34 * ms, "a", "sess_1", 30));
    assert!(reg.lookup_at(64 * ms - 1, "a").is_some());
    assert_eq!(reg.lookup_at(64 * ms, "a"), None);
    assert!(!reg.renew_at(64 * ms, "a", "sess_1", 30));
    // Evicting leaves the living.
    reg.claim_at(70 * ms, &record("b", "sess_1"), 10);
    reg.claim_at(70 * ms, &record("c", "sess_1"), 20);
    reg.evict_expired(80 * ms);
    assert_eq!(reg.lookup_at(80 * ms, "b"), None);
    assert_eq!(reg.lookup_at(80 * ms, "c"), Some(record("c", "sess_1")));
}

#[test]
fn the_clock_moves_forward() {
    let reg = MemoryRegistry::new();
    let before = reg.clock();
    let started = std::time::Instant::now();
    while started.elapsed() < std::time::Duration::from_millis(2) {}
    assert!(reg.clock() > before);
}

#[test]
fn renew_requires_ownership() {
    let mut reg = MemoryRegistry::new();
    reg.claim(&record("api.tunnel.com", "sess_1"), TTL_MS).unwrap();

    assert!(reg.renew("api.tunnel.com", "sess_1", TTL_MS).unwrap());
    assert!(!reg.renew("api.tunnel.com", "sess_2", TTL_MS).unwrap());
    assert!(!reg
        .renew("nonexistent.tunnel.com", "sess_1", TTL_MS)
        .unwrap());
}

#[test]
fn a_stale_node_cannot_release_someone_elses_claim() {
    // The partition-recovery scenario: sess_1 lost the key, sess_2 took
    // over, then sess_1 finally runs its cleanup. It must be a no-op.
    let mut reg = MemoryRegistry::new();

    reg.claim(&record("api.tunnel.com", "sess_2"), TTL_MS).unwrap();
    reg.release("api.tunnel.com", "sess_1").unwrap();

    let still_there = reg
        .lookup("api.tunnel.com")
        .unwrap()
        .expect("claim was deleted");
    assert_eq!(still_there.session_id, "sess_2");
}

#[test]
fn release_by_the_owner_frees_the_key() {
    let mut reg = MemoryRegistry::new();
    reg.claim(&record("api.tunnel.com", "sess_1"), TTL_MS).unwrap();
    reg.release("api.tunnel.com", "sess_1").unwrap();
    assert_eq!(reg.lookup("api.tunnel.com").unwrap(), None);
}

#[test]
fn rows_of_other_keys_are_left_alone() {
    let mut reg = MemoryRegistry::new();
    reg.claim(&record("a", "sess_1"), TTL_MS).unwrap();
    reg.claim(&record("b", "sess_2"), TTL_MS).unwrap();
    reg.claim(&record("c", "sess_3"), TTL_MS).unwrap();
    reg.release("a", "sess_1").unwrap();
    assert_eq!(reg.lookup("b").unwrap(), Some(record("b", "sess_2")));
    assert_eq!(reg.lookup("c").unwrap(), Some(record("c", "sess_3")));
}

#[test]
fn shared_table_replies_are_read() {
    assert_eq!(storage_name("norupo:", "api.tunnel.com"), "norupo:route:api.tunnel.com");
    assert_eq!(storage_ttl(45_000), 45_000);
    assert_eq!(storage_ttl(u64::MAX as u128 + 1), u64::MAX);
    assert_eq!(claim_reply("").unwrap(), Claim::Acquired);
    let owner = record("api.tunnel.com", "sess_1");
    assert_eq!(claim_reply(&owner.encode()).unwrap(), Claim::Taken(Box::new(owner.clone())));
    assert_eq!(claim_reply("junk").unwrap_err().code(), "registry_unavailable");
    assert_eq!(lookup_reply(None).unwrap(), None);
    assert_eq!(lookup_reply(Some(owner.encode())).unwrap(), Some(owner));
    assert!(lookup_reply(Some("junk".into())).is_err());
    assert!(renew_reply(1) && !renew_reply(0));
    assert_eq!(
        unavailable("claim", "timed out").to_string(),
        "routing table unavailable: redis claim failed: timed out"
    );
}
