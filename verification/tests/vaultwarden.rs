use surmount_edge::proxy_vaultwarden::handshake::{
    origin_form_uri, parse_reply_head, path_and_query, switching_fields, upgrade_request_head,
};
use surmount_edge::proxy_vaultwarden::{
    build_upstream_uri, env_truthy, filter_request_headers, filter_response_headers, find_header_end,
    is_hop_by_hop_name, is_websocket_header, is_websocket_upgrade, normalize_public_prefix, normalize_upstream_base,
    parse_status_code, path_under_prefix, redact_secrets_in_text, strip_public_prefix, VaultRoute,
    VaultwardenProxyConfig, DEFAULT_BODY_LIMIT_BYTES,
};

fn h(name: &str, value: &str) -> (String, String) {
    (name.to_string(), value.to_string())
}

fn names<V>(v: &[(String, V)]) -> Vec<String> {
    v.iter().map(|(n, _)| n.clone()).collect()
}

#[test]
fn normalize_public_prefix_defaults_and_rejects() {
    assert_eq!(normalize_public_prefix("/vault").unwrap(), "/vault");
    assert_eq!(normalize_public_prefix("/vault/").unwrap(), "/vault");
    assert_eq!(normalize_public_prefix("vault").unwrap(), "/vault");
    assert!(normalize_public_prefix("/").is_err());
    assert!(normalize_public_prefix("").is_err());
    assert!(normalize_public_prefix("http://evil").is_err());
}

#[test]
fn normalize_public_prefix_messages() {
    assert_eq!(normalize_public_prefix(" ").unwrap_err(), "Vaultwarden proxy public prefix must not be empty");
    assert_eq!(
        normalize_public_prefix("/a b").unwrap_err(),
        "Vaultwarden proxy public prefix must be a path (got \"/a b\")"
    );
    assert_eq!(normalize_public_prefix("//").unwrap_err(), "Vaultwarden proxy public prefix must not be '/'");
    assert_eq!(
        normalize_public_prefix("/vä").unwrap_err(),
        "Vaultwarden proxy public prefix has unsafe characters: \"/vä\""
    );
}

#[test]
fn normalize_upstream_base_http_only() {
    assert_eq!(normalize_upstream_base("http://127.0.0.1:8222/").unwrap(), "http://127.0.0.1:8222");
    assert!(normalize_upstream_base("ftp://x").is_err());
    assert!(normalize_upstream_base("").is_err());
}

#[test]
fn normalize_upstream_base_messages() {
    assert_eq!(normalize_upstream_base(" // ").unwrap_err(), "Vaultwarden proxy upstream must not be empty");
    assert_eq!(
        normalize_upstream_base("ftp://x").unwrap_err(),
        "Vaultwarden proxy upstream must be http(s):// (got \"ftp://x\")"
    );
    assert_eq!(
        normalize_upstream_base("http://a b").unwrap_err(),
        "Vaultwarden proxy upstream must not contain whitespace/control"
    );
}

#[test]
fn strip_public_prefix_rewrites() {
    assert_eq!(strip_public_prefix("/vault", "/vault").as_deref(), Some("/"));
    assert_eq!(strip_public_prefix("/vault/", "/vault").as_deref(), Some("/"));
    assert_eq!(strip_public_prefix("/vault/api/identity", "/vault").as_deref(), Some("/api/identity"));
    assert_eq!(strip_public_prefix("/other", "/vault"), None);
    assert_eq!(strip_public_prefix("/vaultwarden", "/vault"), None);
}

#[test]
fn path_under_prefix_agrees_with_strip() {
    for path in ["/vault", "/vault/", "/vault/x", "/vaultx", "/other", "", "/"] {
        assert_eq!(path_under_prefix(path, "/vault/"), strip_public_prefix(path, "/vault/").is_some(), "{path}");
    }
}

#[test]
fn build_upstream_uri_joins_query() {
    let u = build_upstream_uri("http://127.0.0.1:8222", "/api/foo", Some("a=1")).unwrap();
    assert_eq!(u, "http://127.0.0.1:8222/api/foo?a=1");
}

#[test]
fn build_upstream_uri_edges() {
    assert_eq!(build_upstream_uri("http://u/", "", Some("")).unwrap(), "http://u/");
    assert_eq!(
        build_upstream_uri("http://u", "api", None).unwrap_err(),
        "stripped path must start with / (got \"api\")"
    );
}

#[test]
fn is_websocket_upgrade_contract() {
    assert!(!is_websocket_upgrade(None, None));
    assert!(is_websocket_upgrade(Some("websocket"), Some("Upgrade")));
}

#[test]
fn websocket_upgrade_needs_both_headers() {
    assert!(is_websocket_upgrade(Some("WebSocket"), Some("keep-alive, Upgrade")));
    assert!(!is_websocket_upgrade(Some("websocket"), Some("keep-alive")));
    assert!(!is_websocket_upgrade(Some("h2c"), Some("Upgrade")));
    assert!(!is_websocket_upgrade(None, Some("Upgrade")));
}

#[test]
fn filter_request_headers_preserves_upgrade_when_asked() {
    let src = vec![
        h("host", "services.example"),
        h("upgrade", "websocket"),
        h("connection", "Upgrade"),
        h("sec-websocket-key", "dGhlIHNhbXBsZSBub25jZQ=="),
        h("authorization", "Bearer secret-token-xyz"),
    ];
    let kept = filter_request_headers(src.clone(), true);
    let kn = names(&kept);
    assert!(kn.contains(&"upgrade".to_string()));
    assert!(kn.contains(&"connection".to_string()));
    assert!(kn.contains(&"sec-websocket-key".to_string()));
    assert!(kn.contains(&"authorization".to_string()));
    assert!(!kn.contains(&"host".to_string()));
    let dropped = filter_request_headers(src, false);
    assert!(!names(&dropped).contains(&"upgrade".to_string()));
}

#[test]
fn filter_headers_keep_order_and_drop_hop_by_hop() {
    let src = vec![h("a", "1"), h("Content-Length", "3"), h("te", "x"), h("b", "2"), h("Transfer-Encoding", "c")];
    assert_eq!(filter_request_headers(src.clone(), false), vec![h("a", "1"), h("b", "2")]);
    assert_eq!(filter_response_headers(src, false), vec![h("a", "1"), h("b", "2")]);
    let resp = vec![h("upgrade", "websocket"), h("sec-websocket-accept", "x"), h("content-length", "0")];
    assert_eq!(
        filter_response_headers(resp, true),
        vec![h("upgrade", "websocket"), h("sec-websocket-accept", "x")]
    );
    assert!(is_websocket_header("Sec-WebSocket-Protocol"));
    assert!(!is_websocket_header("host"));
    assert!(is_hop_by_hop_name("Keep-Alive"));
    assert!(!is_hop_by_hop_name("authorization"));
}

#[test]
fn redact_secrets_never_echoes_admin_token() {
    let line = "failed ADMIN_TOKEN=super-secret-value path=/vault";
    let red = redact_secrets_in_text(line);
    assert!(!red.contains("super-secret-value"), "{red}");
    assert!(red.contains("<redacted>"), "{red}");
}

#[test]
fn redact_exact_shapes() {
    assert_eq!(redact_secrets_in_text("failed ADMIN_TOKEN=abc"), "failed ADMIN_TOKEN=<redacted>");
    assert_eq!(redact_secrets_in_text("Authorization: Bearer x"), "Authorization:<redacted>");
    assert_eq!(redact_secrets_in_text("cookie: a=b; bearer z"), "cookie:<redacted>");
    assert_eq!(redact_secrets_in_text("nothing secret"), "nothing secret");
}

#[test]
fn proxy_config_from_env_map() {
    let cfg = VaultwardenProxyConfig::from_env_map(|k| match k {
        "SURMOUNT_VAULTWARDEN_PROXY" => Some("1".into()),
        "SURMOUNT_VAULTWARDEN_PROXY_PREFIX" => Some("/vault/".into()),
        "SURMOUNT_VAULTWARDEN_PROXY_UPSTREAM" => Some("http://127.0.0.1:8222/".into()),
        _ => None,
    })
    .unwrap();
    assert!(cfg.enable);
    assert_eq!(cfg.public_prefix, "/vault");
    assert_eq!(cfg.upstream_base, "http://127.0.0.1:8222");
    assert_eq!(cfg.same_origin_href(), "/vault/");
}

#[test]
fn proxy_disabled_by_default() {
    let cfg = VaultwardenProxyConfig::from_env_map(|_| None).unwrap();
    assert!(!cfg.enable);
}

#[test]
fn proxy_config_body_limit_rules() {
    let small = VaultwardenProxyConfig::from_env_values(None, None, None, Some("100".into())).unwrap_err();
    assert_eq!(small, "SURMOUNT_VAULTWARDEN_PROXY_BODY_LIMIT must be >= 1024 bytes");
    let bad = VaultwardenProxyConfig::from_env_values(None, None, None, Some("12x".into())).unwrap_err();
    assert_eq!(bad, "SURMOUNT_VAULTWARDEN_PROXY_BODY_LIMIT invalid: invalid digit found in string");
    let ok = VaultwardenProxyConfig::from_env_values(Some("yes".into()), Some(" ".into()), None, Some(" 2048 ".into())).unwrap();
    assert!(ok.enable);
    assert_eq!(ok.public_prefix, "/vault");
    assert_eq!(ok.body_limit_bytes, 2048);
    let d = VaultwardenProxyConfig::default();
    assert_eq!(d.body_limit_bytes, DEFAULT_BODY_LIMIT_BYTES);
    assert!(d.matches_path("/vault/x"));
    assert!(!d.matches_path("/vaultx"));
}

#[test]
fn env_truthy_words() {
    for v in ["1", " TRUE ", "yes", "On"] {
        assert!(env_truthy(v), "{v}");
    }
    for v in ["0", "", "enabled", "no"] {
        assert!(!env_truthy(v), "{v}");
    }
}

#[test]
fn vault_route_decisions() {
    let mut cfg = VaultwardenProxyConfig::default();
    assert_eq!(cfg.route("/vault/api", None, false), VaultRoute::NotFound);
    cfg.enable = true;
    assert_eq!(cfg.route("/vault", None, false), VaultRoute::Redirect("/vault/".to_string()));
    assert_eq!(cfg.route("/elsewhere", None, false), VaultRoute::NotFound);
    assert_eq!(
        cfg.route("/vault/api/config", Some("x=1"), false),
        VaultRoute::Http("http://127.0.0.1:8222/api/config?x=1".to_string())
    );
    assert_eq!(
        cfg.route("/vault/notifications/hub", None, true),
        VaultRoute::WebSocket("http://127.0.0.1:8222/notifications/hub".to_string())
    );
}

#[test]
fn header_end_and_status_code() {
    assert_eq!(find_header_end(b"HTTP/1.1 101 OK\r\nA: b\r\n\r\nrest"), Some(25));
    assert_eq!(find_header_end(b"HTTP/1.1 101 OK\r\n"), None);
    assert_eq!(parse_status_code("HTTP/1.1 101 Switching Protocols"), Some(101));
    assert_eq!(parse_status_code("  HTTP/1.1   404"), Some(404));
    assert_eq!(parse_status_code("HTTP/1.1"), None);
    assert_eq!(parse_status_code("HTTP/1.1 70000 x"), None);
}

#[test]
fn upgrade_request_head_defaults_and_order() {
    let fields = vec![
        ("sec-websocket-key".to_string(), Some("k==".to_string())),
        ("x-forwarded-proto".to_string(), Some("http".to_string())),
        ("cookie".to_string(), None),
    ];
    let tcp = upgrade_request_head("GET", "/notifications/hub?a=1", "127.0.0.1:8222", None, &fields);
    assert_eq!(
        tcp,
        "GET /notifications/hub?a=1 HTTP/1.1\r\nHost: 127.0.0.1:8222\r\nsec-websocket-key: k==\r\nx-forwarded-proto: http\r\nConnection: Upgrade\r\nUpgrade: websocket\r\n\r\n"
    );
    let unix = upgrade_request_head("GET", "/api/v1/ws", "splora.example.test", Some("https"), &fields);
    assert_eq!(
        unix,
        "GET /api/v1/ws HTTP/1.1\r\nHost: splora.example.test\r\nX-Forwarded-Proto: https\r\nsec-websocket-key: k==\r\nConnection: Upgrade\r\nUpgrade: websocket\r\n\r\n"
    );
    let given = vec![("connection".to_string(), Some("upgrade".to_string())), ("upgrade".to_string(), None)];
    assert_eq!(
        upgrade_request_head("GET", "/", "h", None, &given),
        "GET / HTTP/1.1\r\nHost: h\r\nconnection: upgrade\r\n\r\n"
    );
}

#[test]
fn reply_head_status_and_fields() {
    let (code, fields) = parse_reply_head("HTTP/1.1 101 Switching Protocols\r\nUpgrade:  websocket \r\n\r\nno-colon\r\nSec-WebSocket-Accept: a:b");
    assert_eq!(code, 101);
    assert_eq!(
        fields,
        vec![h("upgrade", "websocket"), h("sec-websocket-accept", "a:b")]
    );
    // Lines the header map refuses are dropped: a bad name, an empty name,
    // a control char in the value.
    let (_, fields) = parse_reply_head("HTTP/1.1 200 OK\r\nBad Name: x\r\n: y\r\nX-Ok: v\u{1}w\r\nX-Fine: \tz");
    assert_eq!(fields, vec![h("x-fine", "z")]);
    let (code, fields) = parse_reply_head("garbage");
    assert_eq!(code, 502);
    assert!(fields.is_empty());
}

#[test]
fn switching_reply_adds_missing_upgrade_fields() {
    assert_eq!(
        switching_fields(vec![h("x", "1")]),
        vec![h("x", "1"), h("upgrade", "websocket"), h("connection", "Upgrade")]
    );
    assert_eq!(
        switching_fields(vec![h("Upgrade", "WebSocket"), h("Connection", "upgrade")]),
        vec![h("Upgrade", "WebSocket"), h("Connection", "upgrade")]
    );
}

#[test]
fn origin_form_targets() {
    assert_eq!(origin_form_uri("", None).unwrap(), "/");
    assert_eq!(origin_form_uri("/a", Some("b=1")).unwrap(), "/a?b=1");
    assert_eq!(origin_form_uri("/a", Some("")).unwrap(), "/a");
    assert_eq!(origin_form_uri("a", None).unwrap_err(), "path must start with / (got \"a\")");
    assert_eq!(path_and_query("/p", Some("q")), "/p?q");
    assert_eq!(path_and_query("/p", None), "/p");
}

#[test]
fn redact_cuts_at_earliest_marker() {
    assert_eq!(redact_secrets_in_text("cookie: s=1 admin_token=x"), "cookie:<redacted>");
    assert_eq!(redact_secrets_in_text("x bearer t Authorization: y"), "x bearer <redacted>");
}

#[test]
fn upstream_base_drops_every_trailing_slash() {
    assert_eq!(normalize_upstream_base("http://a/ /").unwrap(), "http://a");
    assert_eq!(normalize_upstream_base(" https://h:1// \t").unwrap(), "https://h:1");
}

fn body_limit_error(v: &str) -> String {
    let v = v.to_string();
    VaultwardenProxyConfig::from_env_map(move |k| match k {
        "SURMOUNT_VAULTWARDEN_PROXY_BODY_LIMIT" => Some(v.clone()),
        _ => None,
    })
    .unwrap_err()
}

#[test]
fn body_limit_parse_error_texts() {
    assert_eq!(body_limit_error("12x"), "SURMOUNT_VAULTWARDEN_PROXY_BODY_LIMIT invalid: invalid digit found in string");
    assert_eq!(body_limit_error("+"), "SURMOUNT_VAULTWARDEN_PROXY_BODY_LIMIT invalid: invalid digit found in string");
    assert_eq!(
        body_limit_error("99999999999999999999999"),
        "SURMOUNT_VAULTWARDEN_PROXY_BODY_LIMIT invalid: number too large to fit in target type"
    );
}

use surmount_edge::proxy_vaultwarden::handshake::{upgrade_head_step, upgrade_reply, HeadEvent, HeadStep, UpgradeReply, UPGRADE_HEAD_LIMIT};

#[test]
fn upgrade_head_read_steps() {
    let mut buf: Vec<u8> = Vec::new();
    assert_eq!(upgrade_head_step(&mut buf, HeadEvent::Read(b"HTTP/1.1 101 OK\r\n".to_vec())), HeadStep::Continue);
    assert_eq!(upgrade_head_step(&mut buf, HeadEvent::Read(b"\r\nframe".to_vec())), HeadStep::Done { head_end: 19 });
    assert_eq!(buf.len(), 24);
    let mut b2: Vec<u8> = b"HTTP/1.1".to_vec();
    assert_eq!(upgrade_head_step(&mut b2, HeadEvent::Read(Vec::new())), HeadStep::BadGateway);
    assert_eq!(upgrade_head_step(&mut b2, HeadEvent::ReadFailed), HeadStep::BadGateway);
    let mut big = vec![b'a'; UPGRADE_HEAD_LIMIT + 1];
    assert_eq!(upgrade_head_step(&mut big, HeadEvent::Read(b"\r\n\r\n".to_vec())), HeadStep::BadGateway);
    assert_eq!(big.len(), UPGRADE_HEAD_LIMIT + 1);
}

#[test]
fn upgrade_reply_switch_or_pass_through() {
    assert_eq!(upgrade_reply(101), UpgradeReply::Switch);
    assert_eq!(upgrade_reply(403), UpgradeReply::PassThrough { status: 403 });
    assert_eq!(upgrade_reply(1000), UpgradeReply::PassThrough { status: 502 });
    assert_eq!(upgrade_reply(42), UpgradeReply::PassThrough { status: 502 });
}
