use surmount_edge::redirect::{
    apex_public_path_is_edge_exception, classify_host_surface, host_for_url_authority, host_is_allowlisted,
    host_surface, host_without_port, https_location, https_port_for_redirect, is_apex_or_www, is_public_static_surface,
    is_services_host, redirect_bind_decision, redirect_http_to_https, redirect_location_authority,
    request_authority_host, should_reject_apex_api, should_reject_public_static_api, should_serve_apex_coming_soon,
    static_vhost_document_root, static_vhost_mapped, HostSurface, HttpToHttps, RedirectBindDecision, RedirectStatus,
    StaticVhosts,
};

fn allow(hosts: &[&str]) -> Vec<String> {
    hosts.iter().map(|s| (*s).to_string()).collect()
}

/// Same-host HTTPS upgrade helper (primary/services unused for authority).
fn upgrade(enabled: bool, host: &str, path: &str, port: Option<u16>, allowed: &[String]) -> HttpToHttps {
    redirect_http_to_https(enabled, host, path, port, allowed, "", "")
}

fn extra_map() -> StaticVhosts {
    let mut map = StaticVhosts::new();
    map.insert("extra.test".to_string(), "/var/lib/surmount/static-sites/extra".to_string());
    map.insert("www.extra.test".to_string(), "/var/lib/surmount/static-sites/extra".to_string());
    map
}

#[test]
fn disabled_is_pass_through() {
    assert_eq!(
        upgrade(false, "services.example.test", "/health", None, &allow(&["services.example.test"])),
        HttpToHttps::PassThrough
    );
}

#[test]
fn default_https_omits_port_443() {
    let a = allow(&["services.example.test"]);
    assert_eq!(
        upgrade(true, "services.example.test", "/health", None, &a),
        HttpToHttps::Redirect { location: "https://services.example.test/health".into() }
    );
    assert_eq!(
        upgrade(true, "services.example.test:80", "/x?y=1", Some(443), &a),
        HttpToHttps::Redirect { location: "https://services.example.test/x?y=1".into() }
    );
}

#[test]
fn nonstandard_https_port_is_included() {
    assert_eq!(
        upgrade(true, "localhost", "/", Some(8443), &allow(&["localhost"])),
        HttpToHttps::Redirect { location: "https://localhost:8443/".into() }
    );
}

#[test]
fn empty_path_becomes_root() {
    assert_eq!(
        upgrade(true, "example.test", "", None, &allow(&["example.test"])),
        HttpToHttps::Redirect { location: "https://example.test/".into() }
    );
}

#[test]
fn empty_host_is_pass_through() {
    assert_eq!(upgrade(true, "", "/a", None, &allow(&["example.test"])), HttpToHttps::PassThrough);
}

#[test]
fn host_not_allowlisted_is_pass_through() {
    assert_eq!(
        upgrade(true, "evil.example", "/", None, &allow(&["services.example.test"])),
        HttpToHttps::PassThrough
    );
}

#[test]
fn empty_allowlist_blocks_redirect() {
    // Open-redirect safe default: no hosts configured => no redirect.
    assert_eq!(upgrade(true, "services.example.test", "/", None, &[]), HttpToHttps::PassThrough);
}

#[test]
fn ipv6_host_header_with_port() {
    let a = allow(&["2001:db8::1"]);
    assert_eq!(host_without_port("[2001:db8::1]:8080"), "[2001:db8::1]");
    assert_eq!(
        upgrade(true, "[2001:db8::1]:80", "/h", None, &a),
        HttpToHttps::Redirect { location: "https://[2001:db8::1]/h".into() }
    );
}

#[test]
fn apex_http_upgrade_is_same_host_not_services() {
    let a = allow(&["example.test", "www.example.test", "services.example.test"]);
    assert_eq!(
        redirect_http_to_https(true, "example.test", "/health", None, &a, "example.test", "services.example.test"),
        HttpToHttps::Redirect { location: "https://example.test/health".into() }
    );
    // Path and query preserved; non-443 primary port included.
    assert_eq!(
        redirect_http_to_https(true, "example.test:80", "/x?y=1", Some(8443), &a, "example.test", "services.example.test"),
        HttpToHttps::Redirect { location: "https://example.test:8443/x?y=1".into() }
    );
}

#[test]
fn www_http_upgrade_is_same_host_not_services() {
    let a = allow(&["www.example.test", "services.example.test", "example.test"]);
    assert_eq!(
        redirect_http_to_https(true, "www.example.test", "/", None, &a, "example.test", "services.example.test"),
        HttpToHttps::Redirect { location: "https://www.example.test/".into() }
    );
    // Case-insensitive allowlist match; Location keeps request Host spelling.
    assert_eq!(
        redirect_http_to_https(true, "WWW.Example.TEST", "/login", None, &a, "example.test", "services.example.test"),
        HttpToHttps::Redirect { location: "https://WWW.Example.TEST/login".into() }
    );
}

#[test]
fn services_host_keeps_same_host_upgrade() {
    let a = allow(&["services.example.test", "example.test"]);
    assert_eq!(
        redirect_http_to_https(true, "services.example.test", "/health", None, &a, "example.test", "services.example.test"),
        HttpToHttps::Redirect { location: "https://services.example.test/health".into() }
    );
}

#[test]
fn apex_not_allowlisted_never_redirects_even_with_services() {
    assert_eq!(
        redirect_http_to_https(
            true,
            "example.test",
            "/",
            None,
            &allow(&["services.example.test"]),
            "example.test",
            "services.example.test",
        ),
        HttpToHttps::PassThrough
    );
}

#[test]
fn host_surface_apex_www_services_and_other() {
    assert_eq!(host_surface("example.test", "example.test", "services.example.test"), HostSurface::ApexPublic);
    assert_eq!(host_surface("www.example.test", "example.test", "services.example.test"), HostSurface::ApexPublic);
    assert_eq!(host_surface("WWW.Example.TEST", "example.test", "services.example.test"), HostSurface::ApexPublic);
    assert_eq!(
        host_surface("services.example.test", "example.test", "services.example.test"),
        HostSurface::ServicesConsole
    );
    // Mis-set: services equal primary => services wins (console not replaced).
    assert_eq!(host_surface("example.test", "example.test", "example.test"), HostSurface::ServicesConsole);
    assert_eq!(host_surface("mail.example.test", "example.test", "services.example.test"), HostSurface::Other);
    assert_eq!(host_surface("evil.example", "example.test", "services.example.test"), HostSurface::Other);
}

#[test]
fn host_surface_static_vhost_not_apex_not_services() {
    let mut map = extra_map();
    assert_eq!(
        classify_host_surface("extra.test", "example.test", "services.example.test", &map),
        HostSurface::StaticVhost
    );
    assert_eq!(
        classify_host_surface("www.extra.test", "example.test", "services.example.test", &map),
        HostSurface::StaticVhost
    );
    assert_eq!(
        classify_host_surface("EXTRA.test:443", "example.test", "services.example.test", &map),
        HostSurface::StaticVhost
    );
    // Apex stays ApexPublic even if someone listed it in the extra map.
    map.insert("example.test".to_string(), "/var/lib/surmount/static-sites/wrong".to_string());
    assert_eq!(
        classify_host_surface("example.test", "example.test", "services.example.test", &map),
        HostSurface::ApexPublic
    );
    assert_eq!(
        classify_host_surface("services.example.test", "example.test", "services.example.test", &map),
        HostSurface::ServicesConsole
    );
    assert_eq!(
        classify_host_surface("unknown.example", "example.test", "services.example.test", &map),
        HostSurface::Other
    );
    assert!(should_reject_public_static_api("extra.test", "example.test", "services.example.test", &map, "/api/v1/domains"));
    assert!(!should_reject_public_static_api(
        "unknown.example",
        "example.test",
        "services.example.test",
        &map,
        "/api/v1/domains"
    ));
}

#[test]
fn apex_coming_soon_and_api_reject_path_rules() {
    let primary = "example.test";
    let services = "services.example.test";
    assert!(should_serve_apex_coming_soon("example.test", primary, services, "/"));
    assert!(should_serve_apex_coming_soon("www.example.test", primary, services, "/domains"));
    assert!(should_serve_apex_coming_soon("example.test", primary, services, "/login"));
    // Health stays for probes.
    assert!(!should_serve_apex_coming_soon("example.test", primary, services, "/health"));
    assert!(!should_serve_apex_coming_soon("example.test", primary, services, "/api/health"));
    // Services never gets COMING SOON gate.
    assert!(!should_serve_apex_coming_soon("services.example.test", primary, services, "/"));
    // API on apex is rejected, not COMING SOON HTML.
    assert!(!should_serve_apex_coming_soon("example.test", primary, services, "/api/v1/domains"));
    assert!(should_reject_apex_api("example.test", primary, services, "/api/v1/domains"));
    assert!(!should_reject_apex_api("services.example.test", primary, services, "/api/v1/domains"));
    assert!(!should_reject_apex_api("example.test", primary, services, "/api/health"));
}

#[test]
fn request_authority_host_falls_back_to_uri_when_host_header_missing() {
    assert_eq!(request_authority_host(None, Some("example.test")), "example.test");
    assert_eq!(request_authority_host(Some(""), Some("www.example.test")), "www.example.test");
    assert_eq!(request_authority_host(Some("example.test"), Some("evil.test")), "example.test");
    assert_eq!(request_authority_host(None, None), "");
    assert!(should_serve_apex_coming_soon(
        &request_authority_host(None, Some("example.test")),
        "example.test",
        "services.example.test",
        "/"
    ));
}

#[test]
fn redirect_status_codes() {
    assert_eq!(RedirectStatus::PermanentRedirect308.as_u16(), 308);
    assert_eq!(RedirectStatus::MovedPermanently301.as_u16(), 301);
}

#[test]
fn bind_decision_skips_when_flag_off() {
    let addr = "0.0.0.0:80".to_string();
    assert_eq!(
        redirect_bind_decision(false, Some(addr), &allow(&["a.test"])),
        RedirectBindDecision::Skip { reason: "redirect_http_to_https off" }
    );
}

#[test]
fn bind_decision_skips_when_listen_unset() {
    assert_eq!(
        redirect_bind_decision::<String>(true, None, &allow(&["a.test"])),
        RedirectBindDecision::Skip { reason: "http_redirect_listen unset" }
    );
}

#[test]
fn bind_decision_fail_closed_empty_allowlist() {
    let addr = "127.0.0.1:8080".to_string();
    match redirect_bind_decision(true, Some(addr), &[]) {
        RedirectBindDecision::FailClosed { reason } => {
            assert!(reason.contains("allowlist"), "{reason}");
        }
        other => panic!("expected FailClosed, got {other:?}"),
    }
}

#[test]
fn bind_decision_bind_when_enabled_listen_and_hosts() {
    let addr = "0.0.0.0:80".to_string();
    assert_eq!(
        redirect_bind_decision(true, Some(addr.clone()), &allow(&["services.example.test"])),
        RedirectBindDecision::Bind { addr }
    );
}

#[test]
fn https_port_for_redirect_omits_443() {
    assert_eq!(https_port_for_redirect(443), None);
    assert_eq!(https_port_for_redirect(8443), Some(8443));
}

#[test]
fn host_without_port_shapes() {
    assert_eq!(host_without_port("  example.test:8080 "), "example.test");
    assert_eq!(host_without_port("[2001:db8::1]"), "[2001:db8::1]");
    assert_eq!(host_without_port("2001:db8::1"), "2001:db8::1");
    assert_eq!(host_without_port("example.test:"), "example.test:");
    assert_eq!(host_without_port("[::1"), "[::1");
    assert_eq!(host_for_url_authority("[2001:db8::1]:443"), "2001:db8::1");
    assert_eq!(redirect_location_authority("WWW.Example.TEST:80", "example.test", "services.example.test"), "WWW.Example.TEST");
}

#[test]
fn allowlist_compares_ips_canonically() {
    let a = allow(&["2001:0db8:0000:0000:0000:0000:0000:0001"]);
    assert!(host_is_allowlisted("[2001:db8::1]:80", &a));
    assert!(host_is_allowlisted("Example.TEST", &allow(&["example.test:443"])));
    assert!(!host_is_allowlisted("example.test", &[]));
    assert!(!host_is_allowlisted("10.0.0.2", &allow(&["10.0.0.1"])));
}

#[test]
fn surface_predicates() {
    assert!(is_apex_or_www("WWW.example.test:80", "example.test"));
    assert!(!is_apex_or_www("example.test", ""));
    assert!(!is_apex_or_www("mail.example.test", "example.test"));
    assert!(is_services_host("SERVICES.example.test", "services.example.test"));
    assert!(!is_services_host("example.test", ""));
    assert!(is_public_static_surface(HostSurface::ApexPublic));
    assert!(is_public_static_surface(HostSurface::StaticVhost));
    assert!(!is_public_static_surface(HostSurface::ServicesConsole));
    assert!(!is_public_static_surface(HostSurface::Other));
}

#[test]
fn static_vhost_lookup() {
    let map = extra_map();
    assert!(static_vhost_mapped("Extra.Test:8443", &map));
    assert!(!static_vhost_mapped("", &map));
    assert!(!static_vhost_mapped("extra.test", &StaticVhosts::new()));
    assert_eq!(
        static_vhost_document_root("WWW.extra.test", &map).as_deref(),
        Some("/var/lib/surmount/static-sites/extra")
    );
    assert_eq!(static_vhost_document_root("other.test", &map), None);
}

#[test]
fn edge_exceptions_and_locations() {
    assert!(apex_public_path_is_edge_exception("/health?x=1"));
    assert!(apex_public_path_is_edge_exception("/.well-known/acme-challenge/t"));
    assert!(!apex_public_path_is_edge_exception("/healthz"));
    assert_eq!(https_location("2001:db8::1", "/p", Some(8443)), "https://[2001:db8::1]:8443/p");
    assert_eq!(https_location("example.test", "/p", Some(443)), "https://example.test/p");
    // A path that is not absolute is never redirected.
    assert_eq!(upgrade(true, "example.test", "p", None, &allow(&["example.test"])), HttpToHttps::PassThrough);
}

#[test]
fn redirect_status_text() {
    assert_eq!(RedirectStatus::PermanentRedirect308.to_string(), "308");
    assert_eq!(RedirectStatus::MovedPermanently301.to_string(), "301");
}
