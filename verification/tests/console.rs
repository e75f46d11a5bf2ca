use surmount_edge::console::{
    auth_system_detail, directory_system_detail, listen_mode_label, nav_classes, rate_limit_summary, MailConsoleView,
    StalwartChip, AUTH_NOSTR_DETAIL, AUTH_OFF_DETAIL, DIRECTORY_MOCK_DETAIL, DIRECTORY_STALWART_DETAIL,
    DIRECTORY_UNAVAILABLE_DETAIL,
};
use surmount_edge::tls::{ListenMode, TlsPaths};

#[test]
fn only_administrator_manages_people() {
    assert!(MailConsoleView::Administrator.can_manage_people());
    assert!(!MailConsoleView::User { mailbox: Some("hunter@example.com".into()) }.can_manage_people());
    assert!(!MailConsoleView::User { mailbox: None }.can_manage_people());
}

#[test]
fn stalwart_chip_from_probe() {
    assert_eq!(StalwartChip::from_status(true), StalwartChip::Reachable);
    assert_eq!(StalwartChip::from_status(false), StalwartChip::Fail);
}

#[test]
fn stalwart_chip_class_and_label() {
    assert_eq!(StalwartChip::Reachable.class(), "chip chip-ok");
    assert_eq!(StalwartChip::Fail.class(), "chip chip-fail");
    assert_eq!(StalwartChip::Unknown.class(), "chip chip-neutral");
    assert_eq!(StalwartChip::Reachable.label(), "Stalwart OK");
    assert_eq!(StalwartChip::Fail.label(), "Stalwart down");
    assert_eq!(StalwartChip::Unknown.label(), "Stalwart unknown");
}

#[test]
fn listen_mode_labels() {
    assert_eq!(listen_mode_label(&ListenMode::PlainHttp), "http (plain)");
    let https = ListenMode::Https(TlsPaths { cert_path: "/c.pem".into(), key_path: "/k.pem".into() });
    assert_eq!(listen_mode_label(&https), "https (rustls)");
}

#[test]
fn nav_marks_only_current_link_active() {
    let n = nav_classes("/domains");
    assert_eq!(n.domains, "active");
    assert_eq!(n.overview, "");
    assert_eq!(n.accounts, "");
    assert_eq!(n.system, "");
    assert_eq!(n.mail, "");
    let home = nav_classes("/");
    assert_eq!(home.overview, "active");
    assert_eq!(home.mail, "");
}

#[test]
fn nav_unknown_path_marks_nothing() {
    let n = nav_classes("/login");
    for c in [n.overview, n.domains, n.accounts, n.system, n.mail] {
        assert_eq!(c, "");
    }
    // No prefix matching: a subpath is not the link.
    assert_eq!(nav_classes("/mail/").mail, "");
}

#[test]
fn auth_detail_by_mode() {
    assert_eq!(auth_system_detail("nostr"), AUTH_NOSTR_DETAIL);
    assert_eq!(auth_system_detail("off"), AUTH_OFF_DETAIL);
    assert_eq!(auth_system_detail("NOSTR"), AUTH_OFF_DETAIL);
    assert!(AUTH_OFF_DETAIL.contains("Not safe on a public edge"));
    assert!(AUTH_NOSTR_DETAIL.contains("fail-closed"));
}

#[test]
fn directory_detail_by_source() {
    assert_eq!(directory_system_detail("mock"), DIRECTORY_MOCK_DETAIL);
    assert_eq!(directory_system_detail("unavailable"), DIRECTORY_UNAVAILABLE_DETAIL);
    assert_eq!(directory_system_detail("stalwart"), DIRECTORY_STALWART_DETAIL);
    let other = directory_system_detail("ldap");
    assert!(other.starts_with("Directory source: ldap. Create mailbox form is on /mail"));
    assert!(other.ends_with("See docs/OPS.md."));
}

#[test]
fn rate_limit_summary_lines() {
    assert_eq!(rate_limit_summary(0, 60, 10000), "disabled (max=0)");
    assert_eq!(rate_limit_summary(120, 60, 10000), "120 req / 60s (max keys 10000)");
    assert_eq!(rate_limit_summary(1, 0, 0), "1 req / 0s (max keys 0)");
}

use surmount_edge::console::{
    domains_source_line, mail_page_texts, mail_probe_texts, overview_health, overview_needs_attention, roster_cells,
    system_onion_card, system_vault_card, MailboxRosterRow, OnionSurface, DOMAINS_EMPTY_MSG, ONION_NOT_PROVISIONED,
    PROBE_DOWN_GUIDANCE, VAULT_NOT_CONFIGURED,
};

fn onion_ok() -> OnionSurface {
    OnionSurface::Configured { url: "http://example.onion".into() }
}

#[test]
fn overview_attention_only_when_something_needs_it() {
    let ok = onion_ok();
    let off = OnionSurface::NotProvisioned;
    assert!(!overview_needs_attention("nostr", "stalwart", &ok, true, false, StalwartChip::Reachable));
    assert!(!overview_needs_attention("nostr", "stalwart", &ok, false, true, StalwartChip::Reachable));
    assert!(overview_needs_attention("off", "stalwart", &ok, true, false, StalwartChip::Reachable));
    assert!(overview_needs_attention("nostr", "mock", &ok, true, false, StalwartChip::Reachable));
    assert!(overview_needs_attention("nostr", "unavailable", &ok, true, false, StalwartChip::Reachable));
    assert!(overview_needs_attention("nostr", "stalwart", &off, true, false, StalwartChip::Reachable));
    assert!(overview_needs_attention("nostr", "stalwart", &ok, false, false, StalwartChip::Reachable));
    assert!(overview_needs_attention("nostr", "stalwart", &ok, true, false, StalwartChip::Unknown));
    assert!(overview_needs_attention("nostr", "stalwart", &ok, true, false, StalwartChip::Fail));
}

#[test]
fn overview_health_all_residual_counts_five() {
    let h = overview_health("off", "unavailable", &OnionSurface::NotProvisioned, None, false, "", StalwartChip::Unknown);
    assert_eq!(h.attention_count, 5);
    assert_eq!(h.health_line, "Needs attention (5)");
    assert_eq!(h.health_class, "health-line health-warn");
    assert_eq!(h.accounts_detail, "offline");
    assert_eq!(h.accounts_tile_state, "state-neutral");
    assert_eq!((h.onion_tile_state, h.onion_status), ("state-neutral", "Off"));
    assert_eq!((h.vault_tile_state, h.vault_status, h.vault_href.as_str(), h.vault_external), ("state-neutral", "Off", "/system", false));
    assert_eq!((h.mail_tile_state, h.mail_status, h.mail_detail), ("state-neutral", "Unknown", ""));
}

#[test]
fn overview_health_healthy_and_mail_down() {
    let ok = onion_ok();
    let h = overview_health("nostr", "stalwart", &ok, Some("https://vault.example"), false, "", StalwartChip::Reachable);
    assert_eq!(h.attention_count, 0);
    assert_eq!(h.health_line, "All services healthy");
    assert_eq!(h.health_class, "health-line health-ok");
    assert_eq!((h.vault_status, h.vault_href.as_str(), h.vault_external), ("Linked", "https://vault.example", true));
    assert_eq!((h.onion_tile_state, h.onion_status), ("state-ok", "Ready"));
    assert_eq!(h.accounts_detail, "stalwart");
    let down = overview_health("nostr", "stalwart", &ok, None, true, "/vault/", StalwartChip::Fail);
    assert_eq!(down.health_line, "Needs attention (1)");
    assert_eq!(down.mail_chip_class, "chip chip-fail");
    assert_eq!((down.mail_tile_state, down.mail_status, down.mail_detail), ("state-fail", "Down", "Unreachable"));
    assert_eq!((down.vault_href.as_str(), down.vault_external), ("/vault/", false));
    let missing = OnionSurface::HostnameMissing { path: None, hs_state_dir: Some("/var/lib/arti".into()) };
    let m = overview_health("nostr", "stalwart", &missing, None, true, "/vault/", StalwartChip::Reachable);
    assert_eq!(m.onion_chip_class, "chip chip-warn");
    assert_eq!((m.onion_tile_state, m.onion_status), ("state-warn", "Missing"));
}

#[test]
fn system_onion_row_never_invents_an_address() {
    let c = system_onion_card(&onion_ok(), Some("http://example.onion"));
    assert_eq!(c.label, "Onion (operator-published)");
    assert_eq!(c.body, "http://example.onion");
    assert_eq!(c.link.as_deref(), Some("http://example.onion"));
    let n = system_onion_card(&OnionSurface::NotProvisioned, None);
    assert_eq!(n.label, "Onion");
    assert_eq!(n.body, ONION_NOT_PROVISIONED);
    assert!(n.body.contains("Not provisioned"));
    assert!(n.link.is_none());
    let m = system_onion_card(
        &OnionSurface::HostnameMissing { path: Some("/var/lib/arti/hs/hostname".into()), hs_state_dir: Some("/var/lib/arti".into()) },
        None,
    );
    assert!(m.body.starts_with("Hostname material missing at /var/lib/arti/hs/hostname. Enable path"));
    assert!(!m.body.contains("Not provisioned on this host"));
    let d = system_onion_card(&OnionSurface::HostnameMissing { path: None, hs_state_dir: None }, None);
    assert!(d.body.starts_with("Hostname material missing at onionServiceStateDir."));
}

#[test]
fn system_vault_row_by_mode() {
    let p = system_vault_card(true, "/vault/", Some("https://x"));
    assert_eq!(p.label, "Vaultwarden (same-origin path proxy)");
    assert_eq!(p.link.as_deref(), Some("/vault/"));
    assert!(p.proxy_mode);
    assert!(p.open_note.contains("same-origin"));
    let e = system_vault_card(false, "/vault/", Some("https://vault.example"));
    assert_eq!(e.label, "Vaultwarden (operator-published)");
    assert_eq!(e.link.as_deref(), Some("https://vault.example"));
    assert!(e.open_note.contains("external"));
    let n = system_vault_card(false, "", None);
    assert_eq!(n.label, "Vaultwarden");
    assert_eq!(n.body, VAULT_NOT_CONFIGURED);
    assert!(n.link.is_none());
}

#[test]
fn mail_page_texts_by_role() {
    let user = MailConsoleView::User { mailbox: Some("hunter@surmount.systems".into()) };
    let t = mail_page_texts(&user, true, "surmount.systems", "mail.surmount.systems");
    assert_eq!(t.page_title, "Your mailbox");
    assert!(!t.show_people && t.show_wallet && t.mailbox_readonly);
    assert_eq!(t.wallet_status, "Wallet connected");
    assert_eq!(t.default_mailbox, "hunter@surmount.systems");
    assert_eq!(t.help_mailbox, "hunter@surmount.systems");
    assert_eq!(t.help_local, "hunter");
    assert_eq!(t.primary_preview, "local-part@surmount.systems");
    assert_eq!(t.imap_line, "mail.surmount.systems:993");
    assert_eq!(t.smtp_line, "mail.surmount.systems:465");
    let a = mail_page_texts(&MailConsoleView::Administrator, false, "d.test", "m.d.test");
    assert_eq!(a.page_title, "Mail");
    assert!(a.show_people && !a.show_wallet && !a.mailbox_readonly);
    assert_eq!(a.wallet_status, "Not connected");
    assert_eq!(a.default_mailbox, "");
    assert_eq!(a.help_mailbox, "your mailbox address");
    assert_eq!(a.help_local, "the local-part");
    let unbound = mail_page_texts(&MailConsoleView::User { mailbox: Some("  ".into()) }, false, "d", "m");
    assert_eq!(unbound.default_mailbox, "");
    assert_eq!(unbound.help_local, "the local-part");
}

#[test]
fn mail_probe_line() {
    let up = mail_probe_texts(true, Some(200), None);
    assert_eq!((up.state, up.result_class, up.after.as_str()), ("reachable", "chip chip-ok", " · HTTP status 200"));
    let down = mail_probe_texts(false, None, Some("connection refused"));
    assert_eq!((down.state, down.result_class, down.after.as_str()), ("unreachable", "chip chip-fail", " · connection refused"));
    assert_eq!(down.guidance, PROBE_DOWN_GUIDANCE);
    assert_eq!(mail_probe_texts(false, None, None).after, " · no detail");
}

#[test]
fn roster_row_cells() {
    let row = MailboxRosterRow {
        primary: "a@d.test".into(),
        aliases: vec!["b@d.test".into(), "c@d.test".into()],
        npub_attached: true,
        password_set: false,
        role: "ADMINISTRATOR".into(),
    };
    let c = roster_cells(&row);
    assert_eq!((c.primary.as_str(), c.aliases.as_str(), c.npub, c.password, c.role), ("a@d.test", "b@d.test, c@d.test", "yes", "no", "Administrator"));
    let plain = MailboxRosterRow { aliases: vec![], role: "user".into(), ..row };
    let c = roster_cells(&plain);
    assert_eq!((c.aliases.as_str(), c.role), ("none", "User"));
}

#[test]
fn domains_page_lines() {
    assert_eq!(
        domains_source_line("config"),
        "Source: config. Rows mirror deploy/config hostnames, not a live Stalwart directory query."
    );
    assert!(DOMAINS_EMPTY_MSG.starts_with("No domain rows."));
}
