//! Decisions behind the operator console pages: who may manage people on
//! `/mail`, the Stalwart status chip, the listen-mode label, which primary
//! navigation link is active, and the technical detail texts of the System
//! page; the Overview's health strip, chips and tiles; the System page's
//! onion and Vaultwarden rows; the Mail page's texts, probe line and roster
//! cells; and the Domains page's source line. The HTML itself is rendered
//! elsewhere.

use vstd::prelude::*;

use crate::text::{
    chars_of, concat, dec, dec_exec, eq, eq_ignore_case, eq_ignore_case_exec, find_char, find_char_exec, join,
    join_exec, own, slice_of, string_of, trim, trim_vec,
};
use crate::tls::ListenMode;

verus! {

/// Who is looking at `/mail`. Administrator sees create + grant; User does not.
#[derive(Debug, Clone, PartialEq, Eq)]
pub enum MailConsoleView {
    Administrator,
    User { mailbox: Option<String> },
}

impl MailConsoleView {
    /// Only the Administrator may create mailboxes and grant console logins.
    pub fn can_manage_people(&self) -> (r: bool)
        ensures
            r == (*self is Administrator),
    {
        match self {
            MailConsoleView::Administrator => true,
            MailConsoleView::User { .. } => false,
        }
    }
}

/// Stalwart reachability for status chips.
#[derive(Debug, Clone, Copy, PartialEq, Eq, Structural)]
pub enum StalwartChip {
    Reachable,
    Fail,
    /// Not probed (hermetic renders).
    Unknown,
}

pub open spec fn spec_chip_class(c: StalwartChip) -> Seq<char> {
    match c {
        StalwartChip::Reachable => "chip chip-ok"@,
        StalwartChip::Fail => "chip chip-fail"@,
        StalwartChip::Unknown => "chip chip-neutral"@,
    }
}

pub open spec fn spec_chip_label(c: StalwartChip) -> Seq<char> {
    match c {
        StalwartChip::Reachable => "Stalwart OK"@,
        StalwartChip::Fail => "Stalwart down"@,
        StalwartChip::Unknown => "Stalwart unknown"@,
    }
}

impl StalwartChip {
    /// A probe that reached Stalwart gives `Reachable`, any other gives `Fail`;
    /// a live probe never yields `Unknown`.
    pub fn from_status(reachable: bool) -> (r: Self)
        ensures
            r == (if reachable { StalwartChip::Reachable } else { StalwartChip::Fail }),
    {
        if reachable {
            StalwartChip::Reachable
        } else {
            StalwartChip::Fail
        }
    }

    /// CSS classes of the chip (neutral cyan when not probed).
    pub fn class(self) -> (r: &'static str)
        ensures
            r@ == spec_chip_class(self),
    {
        match self {
            StalwartChip::Reachable => "chip chip-ok",
            StalwartChip::Fail => "chip chip-fail",
            StalwartChip::Unknown => "chip chip-neutral",
        }
    }

    /// Text of the chip.
    pub fn label(self) -> (r: &'static str)
        ensures
            r@ == spec_chip_label(self),
    {
        match self {
            StalwartChip::Reachable => "Stalwart OK",
            StalwartChip::Fail => "Stalwart down",
            StalwartChip::Unknown => "Stalwart unknown",
        }
    }
}

/// How the listener is described on the System page.
pub fn listen_mode_label(mode: &ListenMode) -> (r: &'static str)
    ensures
        r@ == (match mode {
            ListenMode::PlainHttp => "http (plain)"@,
            ListenMode::Https(_) => "https (rustls)"@,
        }),
{
    match mode {
        ListenMode::PlainHttp => "http (plain)",
        ListenMode::Https(_) => "https (rustls)",
    }
}

/// Classes of the five primary navigation links: `active` on the link whose
/// path is the current one, empty on the others.
pub struct NavClasses {
    pub overview: String,
    pub domains: String,
    pub accounts: String,
    pub system: String,
    pub mail: String,
}

pub open spec fn spec_nav_class(path: Seq<char>, link: Seq<char>) -> Seq<char> {
    if path == link {
        "active"@
    } else {
        Seq::empty()
    }
}

fn nav_class(path: &[char], link: &str) -> (r: String)
    ensures
        r@ == spec_nav_class(path@, link@),
{
    let l = chars_of(link);
    if eq(path, l.as_slice()) {
        own("active")
    } else {
        String::new()
    }
}

pub fn nav_classes(path: &str) -> (r: NavClasses)
    ensures
        r.overview@ == spec_nav_class(path@, "/"@),
        r.domains@ == spec_nav_class(path@, "/domains"@),
        r.accounts@ == spec_nav_class(path@, "/accounts"@),
        r.system@ == spec_nav_class(path@, "/system"@),
        r.mail@ == spec_nav_class(path@, "/mail"@),
{
    let p = chars_of(path);
    NavClasses {
        overview: nav_class(p.as_slice(), "/"),
        domains: nav_class(p.as_slice(), "/domains"),
        accounts: nav_class(p.as_slice(), "/accounts"),
        system: nav_class(p.as_slice(), "/system"),
        mail: nav_class(p.as_slice(), "/mail"),
    }
}

/// System detail when console auth is `nostr`.
pub const AUTH_NOSTR_DETAIL: &'static str = "Auth mode=nostr: NIP-98 + session cookie (rust-nostr, not JS NDK). \
Empty allowlist is fail-closed. nsec never on server. Host enable: docs/OPS.md. \
Open residual (do not invent here): key-loss recovery, durable session store, \
first-operator bootstrap UX.";

/// System detail for every other auth mode (open console).
pub const AUTH_OFF_DETAIL: &'static str = "Auth mode=off: open console for local/dev. Not public-safe alone. \
Console auth is off (local/dev only). Not safe on a public edge. \
To gate: SURMOUNT_AUTH_MODE=nostr, allowlist (env or file), and session secret. \
See docs/OPS.md. Open residual: key-loss, durable store, bootstrap UX.";

/// Technical auth detail for System / Login: the `nostr` text for mode
/// `nostr`, the open-console text for any other mode.
pub fn auth_system_detail(mode: &str) -> (r: String)
    ensures
        r@ == (if mode@ == "nostr"@ { AUTH_NOSTR_DETAIL@ } else { AUTH_OFF_DETAIL@ }),
{
    let m = chars_of(mode);
    let n = chars_of("nostr");
    if eq(m.as_slice(), n.as_slice()) {
        own(AUTH_NOSTR_DETAIL)
    } else {
        own(AUTH_OFF_DETAIL)
    }
}

/// Directory detail for the hermetic mock fixture.
pub const DIRECTORY_MOCK_DETAIL: &'static str = "Directory: hermetic mock fixture (not live Stalwart). \
Create mailbox form is on /mail (Administrator; optional npub; User or \
Administrator). Map path: /var/lib/surmount/console/accounts.json \
(or SURMOUNT_CONSOLE_ACCOUNTS). /accounts still has no create form. \
API POST/PATCH /api/v1/accounts when auth allows (nostr or lab escape) \
+ CSRF on cookie POSTs.";

/// Directory detail when the mail directory is offline.
pub const DIRECTORY_UNAVAILABLE_DETAIL: &'static str = "Mail directory offline (source: unavailable). \
Accounts API stays empty until SURMOUNT_DIRECTORY=stalwart + host token. \
Domains are config inventory only. No invent live mailboxes. \
Create mailbox and attach npub (Grant console login) are on /mail \
(Administrator; session CSRF). Attach writes the console map so that \
npub can log into the portal even when listing is unavailable. \
Map path: /var/lib/surmount/console/accounts.json. \
/accounts still has no create form.";

/// Directory detail for live Stalwart.
pub const DIRECTORY_STALWART_DETAIL: &'static str = "Directory: live Stalwart management JMAP \
(SURMOUNT_DIRECTORY=stalwart). Empty list means no principals or list failed \
fail-closed (no invented rows). Create mailbox form is on /mail \
(Administrator; optional npub; User or Administrator). \
Map path: /var/lib/surmount/console/accounts.json. \
API mutations: POST/PATCH /api/v1/accounts behind auth + CSRF when cookie. \
/accounts still has no create form.";

/// Text before and after the source name for any other directory source.
pub const DIRECTORY_OTHER_HEAD: &'static str = "Directory source: ";

pub const DIRECTORY_OTHER_TAIL: &'static str = ". Create mailbox form is on /mail \
(optional npub; two roles). /accounts still has no create form. \
Map path: /var/lib/surmount/console/accounts.json. See docs/OPS.md.";

pub open spec fn spec_directory_system_detail(source: Seq<char>) -> Seq<char> {
    if source == "mock"@ {
        DIRECTORY_MOCK_DETAIL@
    } else if source == "unavailable"@ {
        DIRECTORY_UNAVAILABLE_DETAIL@
    } else if source == "stalwart"@ {
        DIRECTORY_STALWART_DETAIL@
    } else {
        DIRECTORY_OTHER_HEAD@ + source + DIRECTORY_OTHER_TAIL@
    }
}

/// Technical directory detail for System / Accounts, by accounts source:
/// a fixed text for `mock`, `unavailable` and `stalwart`, and for any other
/// source a text that names it.
pub fn directory_system_detail(accounts_source: &str) -> (r: String)
    ensures
        r@ == spec_directory_system_detail(accounts_source@),
{
    let s = chars_of(accounts_source);
    let mock = chars_of("mock");
    let unavailable = chars_of("unavailable");
    let stalwart = chars_of("stalwart");
    if eq(s.as_slice(), mock.as_slice()) {
        own(DIRECTORY_MOCK_DETAIL)
    } else if eq(s.as_slice(), unavailable.as_slice()) {
        own(DIRECTORY_UNAVAILABLE_DETAIL)
    } else if eq(s.as_slice(), stalwart.as_slice()) {
        own(DIRECTORY_STALWART_DETAIL)
    } else {
        let head = chars_of(DIRECTORY_OTHER_HEAD);
        let tail = chars_of(DIRECTORY_OTHER_TAIL);
        let a = concat(head.as_slice(), s.as_slice());
        let b = concat(a.as_slice(), tail.as_slice());
        string_of(b.as_slice())
    }
}

// ---------------------------------------------------------------------------
// Onion surface
// ---------------------------------------------------------------------------

/// What the host publishes for its onion service: a configured address, an
/// enabled service whose hostname material is missing (where it was looked
/// for), or no service at all. The address is never invented.
#[derive(Debug, Clone, PartialEq, Eq)]
pub enum OnionSurface {
    Configured { url: String },
    HostnameMissing { path: Option<String>, hs_state_dir: Option<String> },
    NotProvisioned,
}

/// The onion surface still needs setup (not provisioned, or hostname missing).
pub open spec fn onion_needs_setup(o: OnionSurface) -> bool {
    match o {
        OnionSurface::Configured { .. } => false,
        _ => true,
    }
}

fn onion_needs_setup_exec(o: &OnionSurface) -> (r: bool)
    ensures
        r == onion_needs_setup(*o),
{
    match o {
        OnionSurface::Configured { .. } => false,
        _ => true,
    }
}

// ---------------------------------------------------------------------------
// Overview
// ---------------------------------------------------------------------------

pub open spec fn spec_needs_attention(
    auth_mode: Seq<char>,
    accounts_source: Seq<char>,
    onion: OnionSurface,
    vaultwarden_url_set: bool,
    vaultwarden_proxy_enable: bool,
    stalwart: StalwartChip,
) -> bool {
    auth_mode != "nostr"@ || accounts_source == "unavailable"@ || accounts_source == "mock"@ || onion_needs_setup(onion)
        || (!vaultwarden_url_set && !vaultwarden_proxy_enable) || stalwart != StalwartChip::Reachable
}

/// How many of the five attention flags hold.
pub open spec fn spec_attention_count(
    auth_mode: Seq<char>,
    accounts_source: Seq<char>,
    onion: OnionSurface,
    vaultwarden_url_set: bool,
    vaultwarden_proxy_enable: bool,
    stalwart: StalwartChip,
) -> nat {
    flag(auth_mode != "nostr"@) + flag(accounts_source == "unavailable"@ || accounts_source == "mock"@) + flag(
        onion_needs_setup(onion),
    ) + flag(!vaultwarden_url_set && !vaultwarden_proxy_enable) + flag(stalwart != StalwartChip::Reachable)
}

/// Whether the Overview surfaces attention (health strip and alert chips):
/// console auth is not `nostr`, the mail directory is `unavailable` or the
/// `mock` fixture, the onion surface still needs setup, no Vaultwarden URL
/// is published and the same-origin proxy is off, or Stalwart is down or
/// not probed. It never claims "all services healthy" while any holds.
pub fn overview_needs_attention(
    auth_mode: &str,
    accounts_source: &str,
    onion: &OnionSurface,
    vaultwarden_url_set: bool,
    vaultwarden_proxy_enable: bool,
    stalwart: StalwartChip,
) -> (r: bool)
    ensures
        r == spec_needs_attention(auth_mode@, accounts_source@, *onion, vaultwarden_url_set, vaultwarden_proxy_enable, stalwart),
{
    let a = chars_of(auth_mode);
    let nostr = chars_of("nostr");
    let src = chars_of(accounts_source);
    let unavailable = chars_of("unavailable");
    let mock = chars_of("mock");
    let chip_down = match stalwart {
        StalwartChip::Reachable => false,
        _ => true,
    };
    !eq(a.as_slice(), nostr.as_slice()) || eq(src.as_slice(), unavailable.as_slice()) || eq(
        src.as_slice(),
        mock.as_slice(),
    ) || onion_needs_setup_exec(onion) || (!vaultwarden_url_set && !vaultwarden_proxy_enable) || chip_down
}

/// The Overview's health strip, alert chips and tiles.
pub struct OverviewHealth {
    /// The five attention flags (each gives an alert chip).
    pub auth_attention: bool,
    pub directory_attention: bool,
    pub onion_attention: bool,
    pub vault_attention: bool,
    pub mail_attention: bool,
    /// How many of the five hold.
    pub attention_count: u32,
    pub health_line: String,
    pub health_class: &'static str,
    pub mail_chip_class: &'static str,
    pub onion_chip_class: &'static str,
    pub mail_tile_state: &'static str,
    pub mail_status: &'static str,
    pub mail_detail: &'static str,
    pub onion_tile_state: &'static str,
    pub onion_status: &'static str,
    pub vault_tile_state: &'static str,
    pub vault_status: &'static str,
    pub vault_href: String,
    /// The vault tile opens an external page (new tab, no referrer).
    pub vault_external: bool,
    pub accounts_tile_state: &'static str,
    pub accounts_detail: String,
}

pub open spec fn flag(b: bool) -> nat {
    if b {
        1
    } else {
        0
    }
}

pub open spec fn spec_health_line(count: nat) -> Seq<char> {
    if count == 0 {
        "All services healthy"@
    } else {
        "Needs attention ("@ + dec(count) + ")"@
    }
}

/// The Overview: the attention flags and their count, the health line
/// ("All services healthy" with no flag, else "Needs attention (N)") and its
/// class, the chip classes, and the state, status and detail of the Mail,
/// Onion, Vault and Accounts tiles.
pub fn overview_health(
    auth_mode: &str,
    accounts_source: &str,
    onion: &OnionSurface,
    vaultwarden_url: Option<&str>,
    vaultwarden_proxy_enable: bool,
    vaultwarden_proxy_href: &str,
    stalwart: StalwartChip,
) -> (r: OverviewHealth)
    ensures
        r.auth_attention == (auth_mode@ != "nostr"@),
        r.directory_attention == (accounts_source@ == "unavailable"@ || accounts_source@ == "mock"@),
        r.onion_attention == onion_needs_setup(*onion),
        r.vault_attention == (vaultwarden_url is None && !vaultwarden_proxy_enable),
        r.mail_attention == (stalwart != StalwartChip::Reachable),
        r.attention_count == spec_attention_count(
            auth_mode@,
            accounts_source@,
            *onion,
            vaultwarden_url is Some,
            vaultwarden_proxy_enable,
            stalwart,
        ),
        r.health_line@ == spec_health_line(r.attention_count as nat),
        r.health_class@ == (if r.attention_count == 0 {
            "health-line health-ok"@
        } else {
            "health-line health-warn"@
        }),
        r.onion_chip_class@ == (match *onion {
            OnionSurface::HostnameMissing { .. } => "chip chip-warn"@,
            _ => "chip chip-neutral"@,
        }),
        r.mail_chip_class@ == (if stalwart == StalwartChip::Fail {
            "chip chip-fail"@
        } else {
            "chip chip-neutral"@
        }),
        (r.mail_tile_state@, r.mail_status@, r.mail_detail@) == (match stalwart {
            StalwartChip::Reachable => ("state-ok"@, "OK"@, ""@),
            StalwartChip::Fail => ("state-fail"@, "Down"@, "Unreachable"@),
            StalwartChip::Unknown => ("state-neutral"@, "Unknown"@, ""@),
        }),
        (r.onion_tile_state@, r.onion_status@) == (match *onion {
            OnionSurface::Configured { .. } => ("state-ok"@, "Ready"@),
            OnionSurface::HostnameMissing { .. } => ("state-warn"@, "Missing"@),
            OnionSurface::NotProvisioned => ("state-neutral"@, "Off"@),
        }),
        (r.vault_tile_state@, r.vault_status@, r.vault_href@, r.vault_external) == (if vaultwarden_proxy_enable {
            ("state-ok"@, "Linked"@, vaultwarden_proxy_href@, false)
        } else {
            match vaultwarden_url {
                Some(u) => ("state-ok"@, "Linked"@, u@, true),
                None => ("state-neutral"@, "Off"@, "/system"@, false),
            }
        }),
        r.accounts_tile_state@ == (if accounts_source@ == "unavailable"@ || accounts_source@ == "mock"@ {
            "state-neutral"@
        } else {
            "state-ok"@
        }),
        r.accounts_detail@ == (if accounts_source@ == "unavailable"@ {
            "offline"@
        } else {
            accounts_source@
        }),
{
    let a = chars_of(auth_mode);
    let nostr = chars_of("nostr");
    let src = chars_of(accounts_source);
    let unavailable = chars_of("unavailable");
    let mock = chars_of("mock");
    let auth_attention = !eq(a.as_slice(), nostr.as_slice());
    let is_unavailable = eq(src.as_slice(), unavailable.as_slice());
    let is_mock = eq(src.as_slice(), mock.as_slice());
    let directory_attention = is_unavailable || is_mock;
    let onion_attention = onion_needs_setup_exec(onion);
    let vault_attention = vaultwarden_url.is_none() && !vaultwarden_proxy_enable;
    let mail_attention = match stalwart {
        StalwartChip::Reachable => false,
        _ => true,
    };
    let attention_count: u32 = (if auth_attention { 1u32 } else { 0u32 }) + (if directory_attention {
        1u32
    } else {
        0u32
    }) + (if onion_attention { 1u32 } else { 0u32 }) + (if vault_attention { 1u32 } else { 0u32 }) + (
    if mail_attention {
        1u32
    } else {
        0u32
    });
    let health_line = if attention_count == 0 {
        own("All services healthy")
    } else {
        let h = chars_of("Needs attention (");
        let n = dec_exec(attention_count as u64);
        let t = chars_of(")");
        let hn = concat(h.as_slice(), n.as_slice());
        let all = concat(hn.as_slice(), t.as_slice());
        string_of(all.as_slice())
    };
    let health_class = if attention_count == 0 {
        "health-line health-ok"
    } else {
        "health-line health-warn"
    };
    let onion_chip_class = match onion {
        OnionSurface::HostnameMissing { .. } => "chip chip-warn",
        _ => "chip chip-neutral",
    };
    let mail_chip_class = match stalwart {
        StalwartChip::Fail => "chip chip-fail",
        _ => "chip chip-neutral",
    };
    let (mail_tile_state, mail_status, mail_detail) = match stalwart {
        StalwartChip::Reachable => ("state-ok", "OK", ""),
        StalwartChip::Fail => ("state-fail", "Down", "Unreachable"),
        StalwartChip::Unknown => ("state-neutral", "Unknown", ""),
    };
    let (onion_tile_state, onion_status) = match onion {
        OnionSurface::Configured { .. } => ("state-ok", "Ready"),
        OnionSurface::HostnameMissing { .. } => ("state-warn", "Missing"),
        OnionSurface::NotProvisioned => ("state-neutral", "Off"),
    };
    let (vault_tile_state, vault_status, vault_href, vault_external) = if vaultwarden_proxy_enable {
        ("state-ok", "Linked", own(vaultwarden_proxy_href), false)
    } else {
        match vaultwarden_url {
            Some(u) => ("state-ok", "Linked", own(u), true),
            None => ("state-neutral", "Off", own("/system"), false),
        }
    };
    let accounts_tile_state = if directory_attention {
        "state-neutral"
    } else {
        "state-ok"
    };
    let accounts_detail = if is_unavailable {
        own("offline")
    } else {
        own(accounts_source)
    };
    OverviewHealth {
        auth_attention,
        directory_attention,
        onion_attention,
        vault_attention,
        mail_attention,
        attention_count,
        health_line,
        health_class,
        mail_chip_class,
        onion_chip_class,
        mail_tile_state,
        mail_status,
        mail_detail,
        onion_tile_state,
        onion_status,
        vault_tile_state,
        vault_status,
        vault_href,
        vault_external,
        accounts_tile_state,
        accounts_detail,
    }
}

pub open spec fn spec_rate_limit_summary(max_requests: u64, window_secs: u64, max_keys: u64) -> Seq<char> {
    if max_requests == 0 {
        "disabled (max=0)"@
    } else {
        dec(max_requests as nat) + " req / "@ + dec(window_secs as nat) + "s (max keys "@
            + dec(max_keys as nat) + ")"@
    }
}

/// The rate-limit line of the System page: `disabled (max=0)` when the
/// limiter is off, else `<max> req / <window>s (max keys <keys>)`.
pub fn rate_limit_summary(max_requests: u64, window_secs: u64, max_keys: u64) -> (r: String)
    ensures
        r@ == spec_rate_limit_summary(max_requests, window_secs, max_keys),
{
    if max_requests == 0 {
        return own("disabled (max=0)");
    }
    let n = dec_exec(max_requests);
    let a = chars_of(" req / ");
    let w = dec_exec(window_secs);
    let b = chars_of("s (max keys ");
    let k = dec_exec(max_keys);
    let c = chars_of(")");
    let s1 = concat(n.as_slice(), a.as_slice());
    let s2 = concat(s1.as_slice(), w.as_slice());
    let s3 = concat(s2.as_slice(), b.as_slice());
    let s4 = concat(s3.as_slice(), k.as_slice());
    let s5 = concat(s4.as_slice(), c.as_slice());
    string_of(s5.as_slice())
}

// ---------------------------------------------------------------------------
// System page: onion and Vaultwarden rows
// ---------------------------------------------------------------------------

/// Body of the onion row when no address is published.
pub const ONION_NOT_PROVISIONED: &'static str = "Not provisioned on this host. Enable surmount.artiHiddenService (HS keys under onionServiceStateDir; startDaemon when ready). See docs/deploy-host-local.md (B3). Address is never invented.";

pub const ONION_MISSING_HEAD: &'static str = "Hostname material missing at ";

pub const ONION_MISSING_TAIL: &'static str = ". Enable path: surmount.artiHiddenService (place HS identity under onionServiceStateDir; startDaemon when ready). Address is never invented.";

/// The System page's onion row: its label, its body text, and the link to
/// show in place of the body when an address is published.
pub struct OnionCard {
    pub label: String,
    pub body: String,
    pub link: Option<String>,
}

/// Where the missing hostname material was looked for: the hostname path,
/// else the state directory, else the option's name.
pub open spec fn missing_where(path: Option<Seq<char>>, hs_state_dir: Option<Seq<char>>) -> Seq<char> {
    match path {
        Some(p) => p,
        None => match hs_state_dir {
            Some(d) => d,
            None => "onionServiceStateDir"@,
        },
    }
}

pub open spec fn opt_str(o: Option<String>) -> Option<Seq<char>> {
    match o {
        Some(s) => Some(s@),
        None => None,
    }
}

pub open spec fn spec_onion_card(surface: OnionSurface) -> (Seq<char>, Seq<char>) {
    match surface {
        OnionSurface::Configured { url } => ("Onion (operator-published)"@, url@),
        OnionSurface::HostnameMissing { path, hs_state_dir } => (
            "Onion"@,
            ONION_MISSING_HEAD@ + missing_where(opt_str(path), opt_str(hs_state_dir)) + ONION_MISSING_TAIL@,
        ),
        OnionSurface::NotProvisioned => ("Onion"@, ONION_NOT_PROVISIONED@),
    }
}

/// The onion row: "Onion (operator-published)" with the configured address,
/// or "Onion" with the residual text (where hostname material is missing,
/// or not provisioned); a published onion URL is shown as a link. No address
/// is made up: the only address text is the configured one or the URL given.
pub fn system_onion_card(surface: &OnionSurface, onion_url: Option<&str>) -> (r: OnionCard)
    ensures
        (r.label@, r.body@) == spec_onion_card(*surface),
        r.link is Some <==> onion_url is Some,
        r.link matches Some(l) ==> l@ == onion_url->Some_0@,
{
    let (label, body) = match surface {
        OnionSurface::Configured { url } => (own("Onion (operator-published)"), url.clone()),
        OnionSurface::HostnameMissing { path, hs_state_dir } => {
            let w = match path {
                Some(p) => chars_of(p.as_str()),
                None => match hs_state_dir {
                    Some(d) => chars_of(d.as_str()),
                    None => chars_of("onionServiceStateDir"),
                },
            };
            let h = chars_of(ONION_MISSING_HEAD);
            let t = chars_of(ONION_MISSING_TAIL);
            let hw = concat(h.as_slice(), w.as_slice());
            let all = concat(hw.as_slice(), t.as_slice());
            (own("Onion"), string_of(all.as_slice()))
        },
        OnionSurface::NotProvisioned => (own("Onion"), own(ONION_NOT_PROVISIONED)),
    };
    let link = match onion_url {
        Some(u) => Some(own(u)),
        None => None,
    };
    OnionCard { label, body, link }
}

/// Body of the Vaultwarden row when no URL is published and the proxy is off.
pub const VAULT_NOT_CONFIGURED: &'static str = "Not configured. Host enable: surmount.vaultwarden + admin token EnvironmentFile under /run/surmount-secrets/vaultwarden/ (never in git). Console link via SURMOUNT_VAULTWARDEN_URL. Optional Axum path proxy: SURMOUNT_VAULTWARDEN_PROXY=1 under /vault/. Domain C human password manager only; not Bitwarden Secrets Manager; not deploy-secret activation.";

pub const VAULT_PROXY_NOTE: &'static str = " (same-origin path proxy; Vaultwarden login is SoT on this path)";

pub const VAULT_EXTERNAL_NOTE: &'static str = " (external; honest link, not reverse-proxied here)";

/// The System page's Vaultwarden row: label, body, the link (with "Open
/// vault") when there is one, whether it is the same-origin proxy (else the
/// link opens externally), and the note after "Open vault".
pub struct VaultCard {
    pub label: &'static str,
    pub body: String,
    pub link: Option<String>,
    pub proxy_mode: bool,
    pub open_note: &'static str,
}

/// The Vaultwarden row: with the proxy on, the same-origin path; else the
/// operator-published URL as an external link; else the setup text.
pub fn system_vault_card(proxy_enable: bool, proxy_href: &str, url: Option<&str>) -> (r: VaultCard)
    ensures
        r.proxy_mode == proxy_enable,
        r.open_note@ == (if proxy_enable { VAULT_PROXY_NOTE@ } else { VAULT_EXTERNAL_NOTE@ }),
        proxy_enable ==> r.label@ == "Vaultwarden (same-origin path proxy)"@ && r.body@ == proxy_href@ && r.link
            == Some(r.body) && r.body@ == proxy_href@,
        !proxy_enable && url is Some ==> r.label@ == "Vaultwarden (operator-published)"@ && r.body@
            == url->Some_0@ && r.link == Some(r.body),
        !proxy_enable && url is None ==> r.label@ == "Vaultwarden"@ && r.body@ == VAULT_NOT_CONFIGURED@ && r.link
            is None,
{
    let open_note = if proxy_enable {
        VAULT_PROXY_NOTE
    } else {
        VAULT_EXTERNAL_NOTE
    };
    if proxy_enable {
        let b = own(proxy_href);
        VaultCard {
            label: "Vaultwarden (same-origin path proxy)",
            body: b.clone(),
            link: Some(b),
            proxy_mode: true,
            open_note,
        }
    } else {
        match url {
            Some(u) => {
                let b = own(u);
                VaultCard {
                    label: "Vaultwarden (operator-published)",
                    body: b.clone(),
                    link: Some(b),
                    proxy_mode: false,
                    open_note,
                }
            },
            None => VaultCard {
                label: "Vaultwarden",
                body: own(VAULT_NOT_CONFIGURED),
                link: None,
                proxy_mode: false,
                open_note,
            },
        }
    }
}

// ---------------------------------------------------------------------------
// Mail page
// ---------------------------------------------------------------------------

/// The texts and switches of the `/mail` page.
pub struct MailPageTexts {
    pub page_title: &'static str,
    /// Create-mailbox, grant-login and roster cards (Administrator only).
    pub show_people: bool,
    /// The wallet (NWC) card (User only).
    pub show_wallet: bool,
    /// The mailbox field is read-only (User).
    pub mailbox_readonly: bool,
    pub wallet_status: &'static str,
    /// The mailbox prefilled in the password form.
    pub default_mailbox: String,
    /// The address named in the help text.
    pub help_mailbox: String,
    /// The local-part the help text warns against using alone.
    pub help_local: String,
    pub primary_preview: String,
    pub imap_line: String,
    pub smtp_line: String,
}

pub open spec fn spec_default_mailbox(view: MailConsoleView) -> Seq<char> {
    match view {
        MailConsoleView::User { mailbox: Some(a) } => if trim(a@).len() > 0 { a@ } else { Seq::empty() },
        _ => Seq::empty(),
    }
}

pub open spec fn spec_help_mailbox(default_mailbox: Seq<char>) -> Seq<char> {
    if default_mailbox.len() == 0 {
        "your mailbox address"@
    } else {
        default_mailbox
    }
}

/// The text before the first `@` (all of it without one), unless it is
/// empty or the placeholder, in which case `the local-part`.
pub open spec fn spec_help_local(help: Seq<char>) -> Seq<char> {
    let first = match find_char(help, '@') {
        Some(i) => help.take(i),
        None => help,
    };
    if first.len() > 0 && first != "your mailbox address"@ {
        first
    } else {
        "the local-part"@
    }
}

/// The `/mail` page by role: a User sees "Your mailbox", a read-only
/// mailbox field prefilled with their (non-blank) mailbox and the wallet
/// card; the Administrator sees "Mail" and the people cards. The help text
/// names the mailbox (or "your mailbox address") and its local-part; the
/// preview and the IMAP (993) and SMTP (465) lines come from the
/// hostnames.
pub fn mail_page_texts(
    view: &MailConsoleView,
    nwc_connected: bool,
    primary_domain: &str,
    mail_hostname: &str,
) -> (r: MailPageTexts)
    ensures
        r.page_title@ == (if *view is User { "Your mailbox"@ } else { "Mail"@ }),
        r.show_people == (*view is Administrator),
        r.show_wallet == (*view is User),
        r.mailbox_readonly == (*view is User),
        r.wallet_status@ == (if nwc_connected { "Wallet connected"@ } else { "Not connected"@ }),
        r.default_mailbox@ == spec_default_mailbox(*view),
        r.help_mailbox@ == spec_help_mailbox(spec_default_mailbox(*view)),
        r.help_local@ == spec_help_local(spec_help_mailbox(spec_default_mailbox(*view))),
        r.primary_preview@ == "local-part@"@ + primary_domain@,
        r.imap_line@ == mail_hostname@ + ":993"@,
        r.smtp_line@ == mail_hostname@ + ":465"@,
{
    let is_user = match view {
        MailConsoleView::User { .. } => true,
        MailConsoleView::Administrator => false,
    };
    let default_mailbox = match view {
        MailConsoleView::User { mailbox: Some(a) } => {
            let t = trim_vec(chars_of(a.as_str()).as_slice());
            if t.len() > 0 {
                a.clone()
            } else {
                String::new()
            }
        },
        _ => String::new(),
    };
    let dm = chars_of(default_mailbox.as_str());
    let help = if dm.len() == 0 {
        chars_of("your mailbox address")
    } else {
        dm
    };
    let first = match find_char_exec(help.as_slice(), '@') {
        Some(i) => slice_of(help.as_slice(), 0, i),
        None => slice_of(help.as_slice(), 0, help.len()),
    };
    proof {
        assert(help@.take(help@.len() as int) =~= help@);
    }
    let placeholder = chars_of("your mailbox address");
    let help_local = if first.len() > 0 && !eq(first.as_slice(), placeholder.as_slice()) {
        string_of(first.as_slice())
    } else {
        own("the local-part")
    };
    let lp = chars_of("local-part@");
    let pd = chars_of(primary_domain);
    let preview = concat(lp.as_slice(), pd.as_slice());
    let mh = chars_of(mail_hostname);
    let p993 = chars_of(":993");
    let p465 = chars_of(":465");
    let imap = concat(mh.as_slice(), p993.as_slice());
    let smtp = concat(mh.as_slice(), p465.as_slice());
    MailPageTexts {
        page_title: if is_user { "Your mailbox" } else { "Mail" },
        show_people: view.can_manage_people(),
        show_wallet: is_user,
        mailbox_readonly: is_user,
        wallet_status: if nwc_connected { "Wallet connected" } else { "Not connected" },
        default_mailbox,
        help_mailbox: string_of(help.as_slice()),
        help_local,
        primary_preview: string_of(preview.as_slice()),
        imap_line: string_of(imap.as_slice()),
        smtp_line: string_of(smtp.as_slice()),
    }
}

pub const PROBE_UP_GUIDANCE: &'static str = "Stalwart HTTP answered. Mail protocols still depend on host DNS, firewall, and account setup. Browser webmail is not shipped yet. Use IMAP and SMTP in Evolution or iPhone Mail, or use JMAP when the authenticated proxy lands.";

pub const PROBE_DOWN_GUIDANCE: &'static str = "When down: start Stalwart on the host, confirm the configured probe URL, or use SSH tunnel / bootstrap /stalwart-admin/ while bringing the host up. Probe URL env is documented on System.";

/// The `/mail` page's Stalwart probe line: the state word and its chip
/// class, the text after it, and the guidance below it.
pub struct MailProbeTexts {
    pub state: &'static str,
    pub result_class: &'static str,
    pub after: String,
    pub guidance: &'static str,
}

pub open spec fn spec_probe_detail(http_status: Option<u16>, error_detail: Option<Seq<char>>) -> Seq<char> {
    match http_status {
        Some(code) => "HTTP status "@ + dec(code as nat),
        None => match error_detail {
            Some(e) => e,
            None => "no detail"@,
        },
    }
}

/// The probe line: `reachable` / `unreachable` with an ok / fail chip,
/// then ` · ` and the detail (the HTTP status when the probe got one, else
/// the probe's error text as given, already redacted by the caller, else
/// `no detail`), and the guidance for up or down.
pub fn mail_probe_texts(reachable: bool, http_status: Option<u16>, error_detail: Option<&str>) -> (r: MailProbeTexts)
    ensures
        r.state@ == (if reachable { "reachable"@ } else { "unreachable"@ }),
        r.result_class@ == (if reachable { "chip chip-ok"@ } else { "chip chip-fail"@ }),
        r.after@ == " · "@ + spec_probe_detail(http_status, match error_detail {
            Some(e) => Some(e@),
            None => None,
        }),
        r.guidance@ == (if reachable { PROBE_UP_GUIDANCE@ } else { PROBE_DOWN_GUIDANCE@ }),
{
    let detail = match http_status {
        Some(code) => {
            let h = chars_of("HTTP status ");
            let n = dec_exec(code as u64);
            concat(h.as_slice(), n.as_slice())
        },
        None => match error_detail {
            Some(e) => chars_of(e),
            None => chars_of("no detail"),
        },
    };
    let sep = chars_of(" · ");
    let after = concat(sep.as_slice(), detail.as_slice());
    MailProbeTexts {
        state: if reachable { "reachable" } else { "unreachable" },
        result_class: if reachable { "chip chip-ok" } else { "chip chip-fail" },
        after: string_of(after.as_slice()),
        guidance: if reachable { PROBE_UP_GUIDANCE } else { PROBE_DOWN_GUIDANCE },
    }
}

/// One person on the Administrator roster. Password is yes/no, never the
/// secret.
#[derive(Debug, Clone, PartialEq, Eq)]
pub struct MailboxRosterRow {
    pub primary: String,
    pub aliases: Vec<String>,
    pub npub_attached: bool,
    pub password_set: bool,
    pub role: String,
}

/// The cells of one roster row.
pub struct RosterCells {
    pub primary: String,
    pub aliases: String,
    pub npub: &'static str,
    pub password: &'static str,
    pub role: &'static str,
}

pub open spec fn alias_views(a: Seq<String>) -> Seq<Seq<char>> {
    a.map_values(|s: String| s@)
}

/// A roster row's cells: the primary address, the aliases joined by `, `
/// (`none` when there are none), `yes`/`no` for an attached npub and a set
/// password, and `Administrator` for the role `administrator` (any ASCII
/// case), else `User`.
pub fn roster_cells(row: &MailboxRosterRow) -> (r: RosterCells)
    ensures
        r.primary@ == row.primary@,
        r.aliases@ == (if row.aliases@.len() == 0 {
            "none"@
        } else {
            join(alias_views(row.aliases@), ", "@)
        }),
        r.npub@ == (if row.npub_attached { "yes"@ } else { "no"@ }),
        r.password@ == (if row.password_set { "yes"@ } else { "no"@ }),
        r.role@ == (if eq_ignore_case(row.role@, "administrator"@) { "Administrator"@ } else { "User"@ }),
{
    let aliases = if row.aliases.len() == 0 {
        own("none")
    } else {
        let mut parts: Vec<Vec<char>> = Vec::new();
        let mut i: usize = 0;
        while i < row.aliases.len()
            invariant
                i <= row.aliases.len(),
                parts@.map_values(|p: Vec<char>| p@) == alias_views(row.aliases@).take(i as int),
            decreases row.aliases.len() - i,
        {
            let c = chars_of(row.aliases[i].as_str());
            let ghost before = parts@.map_values(|p: Vec<char>| p@);
            parts.push(c);
            assert(parts@.map_values(|p: Vec<char>| p@) =~= before.push(c@));
            assert(alias_views(row.aliases@).take(i + 1) =~= alias_views(row.aliases@).take(i as int).push(
                row.aliases@[i as int]@,
            ));
            i += 1;
        }
        assert(alias_views(row.aliases@).take(row.aliases.len() as int) =~= alias_views(row.aliases@));
        let sep = chars_of(", ");
        let j = join_exec(parts.as_slice(), sep.as_slice());
        string_of(j.as_slice())
    };
    let rv = chars_of(row.role.as_str());
    let adm = chars_of("administrator");
    RosterCells {
        primary: row.primary.clone(),
        aliases,
        npub: if row.npub_attached { "yes" } else { "no" },
        password: if row.password_set { "yes" } else { "no" },
        role: if eq_ignore_case_exec(rv.as_slice(), adm.as_slice()) { "Administrator" } else { "User" },
    }
}

// ---------------------------------------------------------------------------
// Domains page
// ---------------------------------------------------------------------------

/// What the Domains page says when the inventory has no rows.
pub const DOMAINS_EMPTY_MSG: &'static str = "No domain rows. Config inventory is empty (unexpected for a normal deploy).";

/// Source column of every inventory row.
pub const DOMAINS_ROW_SOURCE: &'static str = "config inventory";

pub const DOMAINS_SOURCE_TAIL: &'static str = ". Rows mirror deploy/config hostnames, not a live Stalwart directory query.";

/// The Domains page's source line: `Source: <source>. Rows mirror ...`.
pub fn domains_source_line(source: &str) -> (r: String)
    ensures
        r@ == "Source: "@ + source@ + DOMAINS_SOURCE_TAIL@,
{
    let h = chars_of("Source: ");
    let s = chars_of(source);
    let t = chars_of(DOMAINS_SOURCE_TAIL);
    let hs = concat(h.as_slice(), s.as_slice());
    let all = concat(hs.as_slice(), t.as_slice());
    string_of(all.as_slice())
}

// ---------------------------------------------------------------------------
// Laws of the console pages
// ---------------------------------------------------------------------------

/// The Overview is honest: it says "All services healthy" exactly when no
/// attention flag holds, which is exactly when the overview needs no
/// attention; otherwise it says "Needs attention (N)" with N the number of
/// flags, between 1 and 5.
pub proof fn law_overview_health_honest(
    auth_mode: Seq<char>,
    accounts_source: Seq<char>,
    onion: OnionSurface,
    vaultwarden_url_set: bool,
    vaultwarden_proxy_enable: bool,
    stalwart: StalwartChip,
)
    ensures
        ({
            let n = spec_attention_count(
                auth_mode,
                accounts_source,
                onion,
                vaultwarden_url_set,
                vaultwarden_proxy_enable,
                stalwart,
            );
            let attn = spec_needs_attention(
                auth_mode,
                accounts_source,
                onion,
                vaultwarden_url_set,
                vaultwarden_proxy_enable,
                stalwart,
            );
            &&& n <= 5
            &&& (n == 0 <==> !attn)
            &&& (spec_health_line(n) == "All services healthy"@ <==> !attn)
            &&& attn ==> spec_health_line(n) == "Needs attention ("@ + dec(n) + ")"@
        }),
{
    let n = spec_attention_count(auth_mode, accounts_source, onion, vaultwarden_url_set, vaultwarden_proxy_enable, stalwart);
    if n > 0 {
        reveal_strlit("Needs attention (");
        reveal_strlit("All services healthy");
        assert(spec_health_line(n)[0] == 'N');
        assert("All services healthy"@[0] == 'A');
    }
}

/// The System page never invents an onion address: the onion row's body is
/// the configured address only for a configured surface; otherwise it is
/// the fixed "not provisioned" text or the "hostname material missing"
/// text, which names only where the material was looked for.
pub proof fn law_onion_row_never_invented(surface: OnionSurface)
    ensures
        match surface {
            OnionSurface::Configured { url } => spec_onion_card(surface).1 == url@,
            OnionSurface::HostnameMissing { path, hs_state_dir } => spec_onion_card(surface).1 == ONION_MISSING_HEAD@
                + missing_where(opt_str(path), opt_str(hs_state_dir)) + ONION_MISSING_TAIL@,
            OnionSurface::NotProvisioned => spec_onion_card(surface).1 == ONION_NOT_PROVISIONED@,
        },
        !(surface is Configured) ==> spec_onion_card(surface).0 == "Onion"@,
{
}

} // verus!
