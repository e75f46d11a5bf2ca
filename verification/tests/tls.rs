use surmount_edge::tls::http3::{h3_alt_svc_for_response, h3_alt_svc_value, require_http3_bind, Http3Config};
use surmount_edge::tls::{
    https_startup_decision, require_owner_only_secret_file, require_tls_private_key_mode, secret_file_mode_status,
    tls_handshake_failure_fields, FileMeta, HttpsStartupDecision, LinkMeta, ListenMode, SecretFileModeStatus,
    TlsPaths, RUSTLS_ACCEPTOR_READY, SHARED_TLS_KEY_GROUP,
};

fn regular() -> FileMeta {
    FileMeta::Found { is_file: true }
}

#[test]
fn default_mode_is_plain_http() {
    let mode = ListenMode::from_parts(None, None, None).unwrap();
    assert_eq!(mode, ListenMode::PlainHttp);
    assert!(!mode.is_https());
}

#[test]
fn https_without_paths_fails() {
    let err = ListenMode::from_parts(Some("https"), None, None).unwrap_err();
    assert!(err.contains("SURMOUNT_TLS_CERT"), "{err}");
}

#[test]
fn https_with_paths_configures_tls() {
    let mode = ListenMode::from_parts(
        Some("HTTPS"),
        Some("/run/surmount-secrets/tls/cert.pem"),
        Some("/run/surmount-secrets/tls/key.pem"),
    )
    .unwrap();
    match mode {
        ListenMode::Https(paths) => {
            assert!(paths.paths_configured());
            assert_eq!(paths.cert_path, "/run/surmount-secrets/tls/cert.pem");
        }
        ListenMode::PlainHttp => panic!("expected https"),
    }
}

#[test]
fn listen_mode_aliases_and_unknown() {
    assert_eq!(ListenMode::from_parts(Some(" Plain "), None, None).unwrap(), ListenMode::PlainHttp);
    let m = ListenMode::from_parts(Some("tls"), Some(" /c.pem "), Some("/k.pem")).unwrap();
    assert_eq!(m, ListenMode::Https(TlsPaths::new("/c.pem", "/k.pem")));
    assert!(m.is_https());
    let err = ListenMode::from_parts(Some("quic"), None, None).unwrap_err();
    assert_eq!(err, "unknown SURMOUNT_LISTEN_MODE \"quic\"; use http or https");
    assert!(ListenMode::from_parts(Some("https"), Some("/c.pem"), Some("  ")).is_err());
}

#[test]
fn require_files_exist_fails_loud_when_missing() {
    let paths = TlsPaths::new(
        "/run/surmount-secrets/tls/does-not-exist-cert.pem",
        "/run/surmount-secrets/tls/does-not-exist-key.pem",
    );
    let err = paths
        .require_files_exist(
            &FileMeta::Error("No such file or directory (os error 2)".to_string()),
            &FileMeta::Error("No such file or directory (os error 2)".to_string()),
            &LinkMeta::NotFound,
            None,
        )
        .unwrap_err();
    assert!(err.contains("missing") || err.contains("unreadable"), "{err}");
    assert_eq!(
        err,
        "TLS certificate missing or unreadable at /run/surmount-secrets/tls/does-not-exist-cert.pem: No such file or directory (os error 2)"
    );
}

#[test]
fn require_files_exist_ok_for_owner_only_key() {
    let paths = TlsPaths::new("/tmp/t/cert.pem", "/tmp/t/key.pem");
    assert!(paths
        .require_files_exist(&regular(), &regular(), &LinkMeta::Regular { mode: 0o100600 }, Some("users"))
        .is_ok());
}

#[test]
fn require_files_exist_rejects_world_readable_key_mode() {
    let paths = TlsPaths::new("/tmp/t/cert.pem", "/tmp/t/key.pem");
    let err = paths
        .require_files_exist(&regular(), &regular(), &LinkMeta::Regular { mode: 0o100644 }, Some("users"))
        .unwrap_err();
    assert!(err.contains("group/world") || err.contains("0o"), "{err}");
}

#[test]
fn require_files_exist_rejects_group_readable_key_mode() {
    let paths = TlsPaths::new("/tmp/t/cert.pem", "/tmp/t/key.pem");
    let err = paths
        .require_files_exist(&regular(), &regular(), &LinkMeta::Regular { mode: 0o640 }, Some("users"))
        .unwrap_err();
    assert!(err.contains("group/world"), "{err}");
    assert!(err.contains("0640"), "{err}");
}

#[test]
fn require_files_exist_allows_0640_key_in_shared_tls_group() {
    let paths = TlsPaths::new("/tmp/t/cert.pem", "/tmp/t/key.pem");
    assert!(paths
        .require_files_exist(&regular(), &regular(), &LinkMeta::Regular { mode: 0o640 }, Some(SHARED_TLS_KEY_GROUP))
        .is_ok());
    assert!(require_tls_private_key_mode("/tmp/t/key.pem", &["users"], &LinkMeta::Regular { mode: 0o440 }, Some("users"))
        .is_ok());
    // World bits are never excused by the group.
    assert!(require_tls_private_key_mode("/tmp/t/key.pem", &["users"], &LinkMeta::Regular { mode: 0o644 }, Some("users"))
        .is_err());
}

#[test]
fn require_files_exist_rejects_directory_and_symlink() {
    let paths = TlsPaths::new("/tmp/t/cert.pem", "/tmp/t/key.pem");
    let err = paths
        .require_files_exist(&FileMeta::Found { is_file: false }, &regular(), &LinkMeta::Regular { mode: 0o600 }, None)
        .unwrap_err();
    assert_eq!(err, "TLS certificate path is not a regular file: /tmp/t/cert.pem");
    let err = paths.require_files_exist(&regular(), &regular(), &LinkMeta::Symlink, None).unwrap_err();
    assert!(err.contains("symlink"), "{err}");
    assert!(!TlsPaths::new("", "/k").paths_configured());
    assert!(TlsPaths::new(" ", "/k").paths_configured());
}

#[test]
fn secret_file_mode_status_cases() {
    assert_eq!(secret_file_mode_status("/s", "ACME account", &LinkMeta::NotFound), SecretFileModeStatus::Missing);
    assert_eq!(
        secret_file_mode_status("/s", "ACME account", &LinkMeta::Regular { mode: 0o600 }),
        SecretFileModeStatus::OwnerOnlyOk
    );
    assert!(matches!(
        secret_file_mode_status("/s", "ACME account", &LinkMeta::NotRegular),
        SecretFileModeStatus::HardFail(_)
    ));
    assert_eq!(
        require_owner_only_secret_file("/s", "ACME account", &LinkMeta::NotFound).unwrap_err(),
        "ACME account missing or unreadable at /s"
    );
}

#[test]
fn https_mode_fail_closed_without_acceptor_or_escape() {
    let mode = ListenMode::Https(TlsPaths::new("/c.pem", "/k.pem"));
    match https_startup_decision(&mode, false, false) {
        HttpsStartupDecision::FailClosed { reason } => {
            assert!(reason.contains("rustls"), "{reason}");
            assert!(reason.contains("unavailable") || reason.contains("acceptor"), "{reason}");
            assert!(!reason.contains("not wired yet"), "{reason}");
        }
        other => panic!("expected FailClosed, got {other:?}"),
    }
}

#[test]
fn https_mode_escape_allows_dangerous_cleartext() {
    let mode = ListenMode::Https(TlsPaths::new("/c.pem", "/k.pem"));
    assert_eq!(https_startup_decision(&mode, false, true), HttpsStartupDecision::DangerousCleartextEscape);
}

#[test]
fn https_mode_acceptor_ready_serves_https() {
    let mode = ListenMode::Https(TlsPaths::new("/c.pem", "/k.pem"));
    assert_eq!(https_startup_decision(&mode, true, false), HttpsStartupDecision::ServeHttps);
    // Escape is emergency override even when acceptor is ready.
    assert_eq!(https_startup_decision(&mode, true, true), HttpsStartupDecision::DangerousCleartextEscape);
}

#[test]
fn product_constant_marks_acceptor_ready() {
    let mode = ListenMode::Https(TlsPaths::new("/c.pem", "/k.pem"));
    assert_eq!(https_startup_decision(&mode, RUSTLS_ACCEPTOR_READY, false), HttpsStartupDecision::ServeHttps);
}

#[test]
fn plain_http_always_serves_plain() {
    assert_eq!(https_startup_decision(&ListenMode::PlainHttp, false, false), HttpsStartupDecision::ServePlainHttp);
}

#[test]
fn plain_mode_serves_plain_for_every_flag() {
    for ready in [false, true] {
        for escape in [false, true] {
            assert_eq!(
                https_startup_decision(&ListenMode::PlainHttp, ready, escape),
                HttpsStartupDecision::ServePlainHttp
            );
        }
    }
}

#[test]
fn tls_handshake_failure_fields_include_peer_sni_and_short_error() {
    let fields = tls_handshake_failure_fields(
        Some("192.0.2.10:44301".to_string()),
        Some("phone.example.test"),
        "peer is incompatible: Tls12NotOffered",
    );
    assert_eq!(fields.peer, "192.0.2.10:44301");
    assert_eq!(fields.sni.as_deref(), Some("phone.example.test"));
    assert_eq!(fields.error_kind, "incompatible");
    assert!(fields.error.contains("Tls12NotOffered"), "{}", fields.error);
    assert!(!fields.error.contains("BEGIN CERTIFICATE") && !fields.error.contains("BEGIN PRIVATE"));
    assert!(fields.error_kind.len() <= 40);
}

#[test]
fn tls_handshake_failure_fields_omit_unknown_sni_and_strip_pem() {
    let pem_blob = format!(
        "invalid peer cert -----BEGIN CERTIFICATE-----\n{}\n-----END CERTIFICATE----- extra",
        "MIIB".repeat(80)
    );
    let fields = tls_handshake_failure_fields(None, None, &pem_blob);
    assert_eq!(fields.peer, "unknown");
    assert!(fields.sni.is_none(), "unknown SNI must be None");
    assert!(!fields.error.contains("BEGIN CERTIFICATE"), "{}", fields.error);
    assert!(!fields.error.contains("MIIB"), "{}", fields.error);
    assert!(fields.error.len() <= 200, "len {}", fields.error.len());
    assert_eq!(fields.error, "invalid peer cert <redacted-pem> extra");
}

#[test]
fn handshake_error_kinds_and_truncation() {
    assert_eq!(tls_handshake_failure_fields(None, None, "handshake timed out").error_kind, "timeout");
    assert_eq!(tls_handshake_failure_fields(None, None, "peer sent bad record mac").error_kind, "decrypt");
    assert_eq!(tls_handshake_failure_fields(None, None, "NoApplicationProtocol").error_kind, "alpn");
    assert_eq!(tls_handshake_failure_fields(None, None, "weird").error_kind, "error");
    let long = "é".repeat(150);
    let f = tls_handshake_failure_fields(None, Some("  "), &long);
    assert!(f.sni.is_none());
    assert_eq!(f.error.len(), 200);
    assert_eq!(f.error, "é".repeat(100));
    let f = tls_handshake_failure_fields(None, Some("-----begin certificate-----"), "x");
    assert!(f.sni.is_none());
}

#[test]
fn alt_svc_absent_when_quic_not_bound() {
    let cfg = Http3Config { enable: true, ..Http3Config::default() };
    assert!(h3_alt_svc_value(&cfg).is_none());
    assert!(h3_alt_svc_for_response(&cfg, true, false, false, 200).is_none());
}

#[test]
fn alt_svc_h3_when_bound_and_merges_with_onion_h2() {
    let mut cfg = Http3Config::default();
    cfg.mark_bound(443);
    assert_eq!(h3_alt_svc_value(&cfg).as_deref(), Some("h3=\":443\"; ma=86400"));
    assert_eq!(h3_alt_svc_for_response(&cfg, true, false, false, 200).as_deref(), Some("h3=\":443\"; ma=86400"));
}

#[test]
fn alt_svc_h3_not_on_onion_host() {
    let mut cfg = Http3Config::default();
    cfg.mark_bound(443);
    assert!(h3_alt_svc_for_response(&cfg, true, false, true, 200).is_none());
}

#[test]
fn alt_svc_only_on_tls_success_replies() {
    let mut cfg = Http3Config::default();
    cfg.mark_bound(8443);
    assert!(h3_alt_svc_for_response(&cfg, false, false, false, 200).is_none());
    assert!(h3_alt_svc_for_response(&cfg, true, true, false, 200).is_none());
    assert!(h3_alt_svc_for_response(&cfg, true, false, false, 404).is_none());
    assert!(h3_alt_svc_for_response(&cfg, true, false, false, 199).is_none());
    assert_eq!(h3_alt_svc_for_response(&cfg, true, false, false, 308).as_deref(), Some("h3=\":8443\"; ma=86400"));
    let mut zero = Http3Config::default();
    zero.mark_bound(0);
    assert!(h3_alt_svc_value(&zero).is_none());
}

#[test]
fn http3_env_defaults_on_with_https_and_refuses_plain() {
    let on = Http3Config::from_env_map(|_| None, true).unwrap();
    assert!(on.enable);
    let off = Http3Config::from_env_map(|_| None, false).unwrap();
    assert!(!off.enable);
    let err = Http3Config::from_env_map(
        |k| match k {
            "SURMOUNT_HTTP3" => Some("1".into()),
            _ => None,
        },
        false,
    )
    .unwrap_err();
    assert!(err.contains("https"), "{err}");
    assert!(require_http3_bind(true, false).is_err());
    assert!(require_http3_bind(false, false).is_ok());
    let explicit_off = Http3Config::from_env_value(Some("0".into()), true).unwrap();
    assert!(!explicit_off.enable);
    assert!(!explicit_off.listener_bound());
}
