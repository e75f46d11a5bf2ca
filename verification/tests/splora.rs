use serde_json::Value;
use surmount_edge::proxy_vaultwarden::splora::{
    forwarded_proto, normalize_host, normalize_queue_path, parse_instances_json, portal_index_html, portal_reply,
    queue_body_has_npub_and_email, queue_host, queue_request, route_splora_public, InstanceFields, InstancesJson,
    PortalReply, QueueReply, SploraAction, SploraInstance, SploraProxyConfig, SploraPublicRoute, DEFAULT_BODY_LIMIT_BYTES,
    DEFAULT_QUEUE_PATH, DEFAULT_QUEUE_SOCKET,
};

const PUBLIC_PATH_HREFS: [&str; 6] = ["/api/", "/testnet/", "/testnet4/", "/signet/", "/mutinynet/", "/liquid/"];

/// The instance map as serde decodes it: each member an object whose
/// `hosts` (array of strings) and `socket` (string) default to empty.
fn member_fields(cfg: &Value) -> Result<InstanceFields, String> {
    let obj = cfg.as_object().ok_or_else(|| "invalid type: expected struct InstanceJson".to_string())?;
    let hosts = match obj.get("hosts") {
        None => Vec::new(),
        Some(Value::Array(items)) => {
            let mut out = Vec::new();
            for it in items {
                out.push(it.as_str().ok_or_else(|| "invalid type: expected a string".to_string())?.to_string());
            }
            out
        }
        Some(_) => return Err("invalid type: expected a sequence".to_string()),
    };
    let socket = match obj.get("socket") {
        None => String::new(),
        Some(Value::String(s)) => s.clone(),
        Some(_) => return Err("invalid type: expected a string".to_string()),
    };
    Ok(InstanceFields { hosts, socket })
}

fn decode(raw: &str) -> InstancesJson {
    match serde_json::from_str::<Value>(raw.trim()) {
        Err(e) => InstancesJson::Invalid(e.to_string()),
        Ok(v) => match v.as_object() {
            None => InstancesJson::NotObject,
            Some(obj) => InstancesJson::Members(obj.iter().map(|(k, c)| (k.clone(), member_fields(c))).collect()),
        },
    }
}

fn from_env(get: impl Fn(&str) -> Option<String>) -> Result<SploraProxyConfig, String> {
    SploraProxyConfig::from_env_map(get, decode)
}

fn four_live_mainnet_off_cfg(portal: &str) -> SploraProxyConfig {
    let inst = |name: &str| SploraInstance {
        name: name.to_string(),
        hosts: vec![],
        http_socket: format!("/run/splora/{name}.http.sock"),
    };
    SploraProxyConfig {
        enable: true,
        instances: vec![inst("testnet3"), inst("testnet4"), inst("mutinynet"), inst("liquid")],
        queue_socket: DEFAULT_QUEUE_SOCKET.to_string(),
        queue_path: DEFAULT_QUEUE_PATH.to_string(),
        body_limit_bytes: DEFAULT_BODY_LIMIT_BYTES,
        portal_host: Some(portal.to_string()),
    }
}

const FOUR_LIVE: &[&str] = &["testnet3", "testnet4", "mutinynet", "liquid"];

fn route_four(path: &str, query: Option<&str>) -> SploraPublicRoute {
    route_splora_public(path, query, DEFAULT_QUEUE_PATH, FOUR_LIVE)
}

fn expect_proxy(route: SploraPublicRoute, socket: &str, backend: &str, query: Option<&str>, websocket: bool) {
    match route {
        SploraPublicRoute::Proxy { socket_name, backend_path, query: got_q, websocket: got_ws } => {
            assert_eq!(socket_name, socket);
            assert_eq!(backend_path, backend);
            assert_eq!(got_q.as_deref(), query);
            assert_eq!(got_ws, websocket);
        }
        other => panic!("expected proxy to {socket} {backend}, got {other:?}"),
    }
}

#[test]
fn electrum_socket_env_fails_closed() {
    let err = from_env(|k| match k {
        "SURMOUNT_SPLORA_ELECTRUM_SOCKET" => Some("/run/splora/mainnet.electrum.sock".into()),
        _ => None,
    })
    .unwrap_err();
    assert!(err.contains("Electrum"), "{err}");
    assert!(err.contains("fail-closed") || err.contains("does not proxy"), "{err}");
}

#[test]
fn electrum_in_instance_socket_fails_closed() {
    let err = parse_instances_json(
        &decode(r#"{"mainnet":{"hosts":["esplora.example.test"],"socket":"/run/splora/mainnet.electrum.sock"}}"#),
        "/run/splora",
    )
    .unwrap_err();
    assert!(err.to_ascii_lowercase().contains("electrum"), "{err}");
}

#[test]
fn unknown_instance_name_fails_closed() {
    let err = parse_instances_json(
        &decode(r#"{"regtest":{"hosts":["x.example.test"],"socket":"/run/splora/regtest.http.sock"}}"#),
        "/run/splora",
    )
    .unwrap_err();
    assert!(err.contains("unknown instance"), "{err}");
}

#[test]
fn proxy_vaultwarden_proxy_disabled_by_default() {
    let cfg = from_env(|_| None).unwrap();
    assert!(!cfg.enable);
    assert!(cfg.instances.is_empty());
}

#[test]
fn enable_without_instances_fails_closed() {
    let err = from_env(|k| match k {
        "SURMOUNT_SPLORA_PROXY" => Some("1".into()),
        _ => None,
    })
    .unwrap_err();
    assert!(err.contains("INSTANCES"), "{err}");
}

#[test]
fn instances_json_maps_hosts_and_default_socket() {
    let cfg = from_env(|k| match k {
        "SURMOUNT_SPLORA_PROXY" => Some("true".into()),
        "SURMOUNT_SPLORA_INSTANCES" => Some(
            r#"{"mainnet":{"hosts":["Esplora.Example.TEST:443"]},"liquid":{"hosts":["liquid.example.test"],"socket":"/run/splora/liquid.http.sock"}}"#
                .into(),
        ),
        _ => None,
    })
    .unwrap();
    assert!(cfg.enable);
    assert_eq!(cfg.instances.len(), 2);
    let main = cfg.instance_for_host("esplora.example.test").unwrap();
    assert_eq!(main.name, "mainnet");
    assert_eq!(main.http_socket, "/run/splora/mainnet.http.sock");
    assert!(cfg.should_bypass_auth("esplora.example.test", "/api/tx/abc"));
    assert!(cfg.should_bypass_auth("services.example.test", "/splora/queue"));
    assert!(!cfg.should_bypass_auth("services.example.test", "/health"));
    assert!(cfg.portal_host.is_none());
}

#[test]
fn splora_public_prefix_forwards_to_named_socket() {
    expect_proxy(route_four("/testnet/api/tx/x", None), "testnet3", "/tx/x", None, false);
    expect_proxy(route_four("/testnet4/api/v1/blocks/tip/height", None), "testnet4", "/v1/blocks/tip/height", None, false);
    expect_proxy(route_four("/signet/api/tx/x", None), "mutinynet", "/tx/x", None, false);
    expect_proxy(route_four("/mutinynet/api/tx/x", None), "mutinynet", "/tx/x", None, false);
    expect_proxy(route_four("/liquid/api/tx/x", None), "liquid", "/tx/x", None, false);
    assert!(matches!(route_four("/api/tx/x", None), SploraPublicRoute::NotFound));
}

#[test]
fn splora_testnet_is_not_testnet3_prefix() {
    assert!(matches!(route_four("/testnet3/api/tx/x", None), SploraPublicRoute::NotFound));
    assert!(matches!(route_four("/testnet3", None), SploraPublicRoute::NotFound));
    assert!(matches!(route_four("/testnet30/api/x", None), SploraPublicRoute::NotFound));
    expect_proxy(route_four("/testnet/api/tx/x", None), "testnet3", "/tx/x", None, false);
    expect_proxy(route_four("/testnet4/api/tx/x", None), "testnet4", "/tx/x", None, false);
}

#[test]
fn splora_signet_and_mutinynet_share_socket_without_redirect() {
    let signet = route_four("/signet/api/v1/blocks/tip/height", Some("n=1"));
    let mutiny = route_four("/mutinynet/api/v1/blocks/tip/height", Some("n=1"));
    expect_proxy(signet.clone(), "mutinynet", "/v1/blocks/tip/height", Some("n=1"), false);
    expect_proxy(mutiny.clone(), "mutinynet", "/v1/blocks/tip/height", Some("n=1"), false);
    assert_eq!(signet, mutiny);
    assert!(!matches!(signet, SploraPublicRoute::NotFound));
}

#[test]
fn splora_query_string_kept_after_prefix_strip() {
    expect_proxy(route_four("/testnet/api/v1/tx/abc", Some("x=1")), "testnet3", "/v1/tx/abc", Some("x=1"), false);
    expect_proxy(route_four("/liquid/api/tx/x", Some("verbose=1&limit=2")), "liquid", "/tx/x", Some("verbose=1&limit=2"), false);
    expect_proxy(
        route_four("/testnet4/api/v1/blocks/tip/height", Some("x=1")),
        "testnet4",
        "/v1/blocks/tip/height",
        Some("x=1"),
        false,
    );
}

#[test]
fn splora_ui_paths_forward_as_paths() {
    expect_proxy(route_four("/testnet4/tx/abc", Some("x=1")), "testnet4", "/tx/abc", Some("x=1"), false);
    expect_proxy(route_four("/liquid", None), "liquid", "/", None, false);
    expect_proxy(route_four("/liquid/", Some("")), "liquid", "/", None, false);
    assert!(matches!(route_four("/tx/abc", None), SploraPublicRoute::NotFound));
    assert!(matches!(route_four("/", None), SploraPublicRoute::Index));
}

#[test]
fn splora_websocket_path_is_upgrade() {
    expect_proxy(route_four("/testnet4/api/v1/ws", Some("x=1")), "testnet4", "/api/v1/ws", Some("x=1"), true);
    expect_proxy(route_four("/signet/api/v1/ws", None), "mutinynet", "/api/v1/ws", None, true);
    expect_proxy(route_four("/mutinynet/api/v1/ws", None), "mutinynet", "/api/v1/ws", None, true);
    expect_proxy(route_four("/testnet4/api/v1/ws/extra", None), "testnet4", "/api/v1/ws/extra", None, false);
    expect_proxy(route_four("/testnet4/api/tx/x", None), "testnet4", "/tx/x", None, false);
    assert!(matches!(route_four("/api/v1/ws", None), SploraPublicRoute::NotFound));
    expect_proxy(route_splora_public("/api/v1/ws", None, DEFAULT_QUEUE_PATH, &["mainnet"]), "mainnet", "/api/v1/ws", None, true);
}

#[test]
fn splora_queue_is_not_a_network_prefix() {
    assert!(matches!(route_four("/splora/queue", None), SploraPublicRoute::Queue));
    assert!(matches!(route_four("/splora/queue/", Some("a=1")), SploraPublicRoute::Queue));
    assert!(matches!(route_four("/splora/queue/api/tx/x", None), SploraPublicRoute::NotFound));
    assert!(!matches!(route_four("/splora/queue", None), SploraPublicRoute::Proxy { .. }));
}

#[test]
fn splora_mainnet_api_is_404_when_indexer_disabled() {
    for path in ["/api", "/api/", "/api/tx/x", "/api/v1/blocks/tip/height", "/api/v1/ws"] {
        assert!(
            matches!(route_four(path, Some("q=1")), SploraPublicRoute::NotFound),
            "{path} must be 404 while mainnet is off"
        );
    }
    expect_proxy(
        route_splora_public("/api/tx/x", Some("q=1"), DEFAULT_QUEUE_PATH, &["mainnet", "testnet4"]),
        "mainnet",
        "/tx/x",
        Some("q=1"),
        false,
    );
    let parsed = parse_instances_json(&decode(r#"{"testnet4":{"hosts":[]},"liquid":{"hosts":[]}}"#), "/run/splora")
        .expect("empty hosts still enable path routing");
    assert!(parsed.iter().all(|inst| inst.hosts.is_empty()));
    assert!(parsed.iter().all(|inst| inst.name != "mainnet"));
}

#[test]
fn splora_root_lists_same_host_paths_without_esplora_host() {
    let cfg = four_live_mainnet_off_cfg("splora.surmount.systems");
    let html = portal_index_html(&cfg);
    for href in PUBLIC_PATH_HREFS {
        assert!(html.contains(&format!("href=\"{href}\"")), "missing {href} in {html}");
    }
    assert!(html.contains("href=\"/testnet4/\""));
    assert!(!html.contains("esplora.surmount.systems"), "{html}");
    assert!(!html.contains("/block"));
    assert!(!html.contains("/tx/"));
    assert!(!html.contains("/address"));
    assert!(cfg.should_bypass_auth("splora.surmount.systems", "/testnet4/api/tx/x"));
    assert!(cfg.instance_for_host("splora.surmount.systems").is_none());
    let extra = cfg.extra_onion_and_redirect_hosts();
    assert_eq!(extra, vec!["splora.surmount.systems".to_string()]);
}

#[test]
fn portal_html_lists_same_host_paths_not_esplora_hosts() {
    let cfg = four_live_mainnet_off_cfg("splora.surmount.systems");
    let html = portal_index_html(&cfg);
    assert!(html.contains("href=\"/testnet4/\""));
    assert!(!html.contains("esplora.surmount.systems"), "{html}");
    assert!(cfg.should_bypass_auth("splora.surmount.systems", "/"));
    assert!(cfg.is_portal_host("Splora.surmount.systems"));
    assert!(cfg.instance_for_host("splora.surmount.systems").is_none());
    let extra = cfg.extra_onion_and_redirect_hosts();
    assert!(extra.iter().any(|h| h == "splora.surmount.systems"));
    assert!(extra.iter().all(|h| !h.contains("esplora.surmount.systems")), "{extra:?}");
}

#[test]
fn portal_host_colliding_with_indexer_fails_closed() {
    let err = from_env(|k| match k {
        "SURMOUNT_SPLORA_PROXY" => Some("1".into()),
        "SURMOUNT_SPLORA_PORTAL_HOST" => Some("testnet3.esplora.surmount.systems".into()),
        "SURMOUNT_SPLORA_INSTANCES" => Some(r#"{"testnet3":{"hosts":["testnet3.esplora.surmount.systems"]}}"#.into()),
        _ => None,
    })
    .unwrap_err();
    assert!(err.contains("PORTAL_HOST"), "{err}");
    assert!(err.contains("fifth indexer") || err.contains("not also"), "{err}");
}

#[test]
fn portal_env_ignored_when_proxy_off() {
    let cfg = from_env(|k| match k {
        "SURMOUNT_SPLORA_PORTAL_HOST" => Some("splora.surmount.systems".into()),
        _ => None,
    })
    .unwrap();
    assert!(!cfg.enable);
    assert!(cfg.portal_host.is_none());
    assert!(!cfg.is_portal_host("splora.surmount.systems"));
}

#[test]
fn instance_map_refusals_name_the_fault() {
    let dir = "/run/splora";
    assert!(parse_instances_json(&decode("[1]"), dir).unwrap_err().contains("must be a JSON object"));
    assert!(parse_instances_json(&decode("{not json"), dir)
        .unwrap_err()
        .starts_with("SURMOUNT_SPLORA_INSTANCES must be a JSON object instance -> hosts/socket: "));
    assert_eq!(
        parse_instances_json(&decode(r#"{"liquid":{"socket":"relative.sock"}}"#), dir).unwrap_err(),
        "SURMOUNT_SPLORA_INSTANCES[liquid].socket must be an absolute path"
    );
    assert_eq!(
        parse_instances_json(&decode(r#"{"liquid":{"hosts":[" "]}}"#), dir).unwrap_err(),
        "SURMOUNT_SPLORA_INSTANCES[liquid] host must not be empty"
    );
    assert_eq!(
        parse_instances_json(&decode(r#"{"liquid":{"hosts":["a.test"]},"mainnet":{"hosts":["A.test:443"]}}"#), dir)
            .unwrap_err(),
        "SURMOUNT_SPLORA_INSTANCES host a.test is mapped to both liquid and mainnet"
    );
    assert!(parse_instances_json(&decode(r#"{"liquid":{"hosts":"x"}}"#), dir)
        .unwrap_err()
        .starts_with("SURMOUNT_SPLORA_INSTANCES[liquid] must be an object with hosts/socket: "));
}

#[test]
fn queue_path_normalization() {
    assert_eq!(normalize_queue_path("splora/queue/").unwrap(), "/splora/queue");
    assert_eq!(normalize_queue_path(" ").unwrap_err(), "splora queue path must not be empty");
    assert_eq!(normalize_queue_path("/").unwrap_err(), "splora queue path must not be '/'");
    assert_eq!(normalize_queue_path("/q?x").unwrap_err(), "splora queue path must be a path (got \"/q?x\")");
}

#[test]
fn host_normalization_and_proto() {
    assert_eq!(normalize_host(" Esplora.Example.TEST:443 "), "esplora.example.test");
    assert_eq!(normalize_host("[2001:db8::1]:80"), "2001:db8::1");
    assert_eq!(forwarded_proto(true), "https");
    assert_eq!(forwarded_proto(false), "http");
}

#[test]
fn middleware_actions() {
    let mut cfg = four_live_mainnet_off_cfg("splora.surmount.systems");
    cfg.instances[3].hosts = vec!["liquid.example.test".to_string()];
    assert_eq!(cfg.action("/splora/queue", None, "anything.test"), SploraAction::Queue);
    assert_eq!(cfg.action("/", None, "Splora.surmount.systems"), SploraAction::Portal);
    assert_eq!(
        cfg.action("/signet/api/tx/x", Some("a=1"), "splora.surmount.systems"),
        SploraAction::Indexer { index: 2, backend_path: "/tx/x".to_string(), websocket: false }
    );
    assert_eq!(cfg.action("/api/tx/x", None, "splora.surmount.systems"), SploraAction::NotFound);
    assert_eq!(
        cfg.action("/api/v1/ws", None, "liquid.example.test:443"),
        SploraAction::Indexer { index: 3, backend_path: "/api/v1/ws".to_string(), websocket: true }
    );
    assert_eq!(cfg.action("/health", None, "services.example.test"), SploraAction::PassThrough);
    cfg.enable = false;
    assert_eq!(cfg.action("/splora/queue", None, "splora.surmount.systems"), SploraAction::PassThrough);
}

#[test]
fn portal_and_queue_replies() {
    assert_eq!(portal_reply(true, "/?x=1"), PortalReply::Index);
    assert_eq!(portal_reply(false, "/"), PortalReply::MethodNotAllowed);
    assert_eq!(portal_reply(true, "/other"), PortalReply::NotFound);
    assert_eq!(queue_request(false, b"{}"), QueueReply::MethodNotAllowed);
    assert_eq!(queue_request(true, br#"{"npub":"npub1x","email":"a@b.test"}"#), QueueReply::Forward);
    assert_eq!(queue_request(true, br#"{"npub":" ","email":"a@b.test"}"#), QueueReply::BadBody);
    assert_eq!(queue_host(Some("Splora.Example:443"), "services.example"), "splora.example");
    assert_eq!(queue_host(Some("  "), "services.example"), "services.example");
    assert_eq!(queue_host(None, "services.example"), "services.example");
}

#[test]
fn queue_body_shapes() {
    assert!(queue_body_has_npub_and_email(br#"{"npub":"npub1abc","email":"x@y.z","extra":1}"#));
    assert!(!queue_body_has_npub_and_email(br#"{"npub":"npub1abc"}"#));
    assert!(!queue_body_has_npub_and_email(br#"{"npub":1,"email":"x@y.z"}"#));
    assert!(!queue_body_has_npub_and_email(br#"["npub","email"]"#));
    assert!(!queue_body_has_npub_and_email(b"not json"));
}
