//! TLS path configuration for the edge: listen mode, startup decision,
//! secret-file mode rules and the journal fields of a failed handshake.
//!
//! **Fail closed:** HTTPS mode does not serve cleartext unless the explicit
//! dangerous escape is set; when set it always forces cleartext under the
//! https label (see [`https_startup_decision`]).
//!
//! The file facts (`stat` results, the key file's group name) are read by
//! the server around this library and handed in as [`FileMeta`] and
//! [`LinkMeta`]; the PEM loading and the rustls acceptor live there too.

pub mod http3;

use vstd::prelude::*;
use crate::text::{lemma_find_none, match_at, upper_char, chars_of, concat, contains, contains_exec, debug_chars, debug_str, digit_char, digit_exec, eq, extend, find, find_exec, lemma_find_first, lower, lower_vec, opt_view, slice_of, str_views, string_of, trim, trim_str, trim_vec, unit_view, upper, upper_vec};

verus! {

/// File group that may share a group-readable (0640) TLS private key.
pub const SHARED_TLS_KEY_GROUP: &'static str = "surmount-tls";

/// Product has an in-process rustls acceptor.
pub const RUSTLS_ACCEPTOR_READY: bool = true;

/// Journal field cap (bytes) for handshake error Display.
pub const TLS_HANDSHAKE_ERROR_MAX: usize = 200;

/// DNS hostname length cap (bytes) for SNI.
pub const TLS_HANDSHAKE_SNI_MAX: usize = 253;

/// PEM certificate and private key paths.
#[derive(Debug, PartialEq, Eq)]
pub struct TlsPaths {
    pub cert_path: String,
    pub key_path: String,
}

/// What `metadata` (symlinks followed) said of a path.
#[derive(Debug)]
pub enum FileMeta {
    /// Exists; whether it is a regular file.
    Found { is_file: bool },
    /// Missing or unreadable, with the I/O error text.
    Error(String),
}

/// What `symlink_metadata` (symlinks not followed) said of a path.
#[derive(Debug)]
pub enum LinkMeta {
    NotFound,
    /// Any other I/O error, with its text.
    Error(String),
    Symlink,
    NotRegular,
    /// A regular file and its permission bits.
    Regular { mode: u32 },
}

/// Result of the owner-only secret-file mode check.
#[derive(Debug, PartialEq, Eq)]
pub enum SecretFileModeStatus {
    /// Path missing.
    Missing,
    /// Regular file, not a symlink, `mode & 0o077 == 0`.
    OwnerOnlyOk,
    /// Exists but unsafe or of the wrong type.
    HardFail(String),
}

/// How the edge listens.
#[derive(Debug, PartialEq, Eq)]
pub enum ListenMode {
    PlainHttp,
    Https(TlsPaths),
}

/// Whether the server may bind a cleartext or TLS listener.
#[derive(Debug, PartialEq, Eq)]
pub enum HttpsStartupDecision {
    ServePlainHttp,
    ServeHttps,
    FailClosed { reason: &'static str },
    DangerousCleartextEscape,
}

/// Journal fields of a failed TLS accept or handshake. Never holds PEM.
#[derive(Debug, PartialEq, Eq)]
pub struct TlsHandshakeFailureFields {
    pub peer: String,
    pub sni: Option<String>,
    pub error_kind: String,
    pub error: String,
}

// ---------------------------------------------------------------------------
// Spec model
// ---------------------------------------------------------------------------

pub open spec fn spec_require_regular_file(path: Seq<char>, label: Seq<char>, meta: FileMeta) -> Result<(), Seq<char>> {
    if path.len() == 0 {
        Err(label + " path is empty"@)
    } else {
        match meta {
            FileMeta::Found { is_file } => if is_file {
                Ok(())
            } else {
                Err(label + " path is not a regular file: "@ + path)
            },
            FileMeta::Error(e) => Err(label + " missing or unreadable at "@ + path + ": "@ + e@),
        }
    }
}

/// `{:04o}` of a permission value below `0o1000`.
pub open spec fn octal4(m: nat) -> Seq<char> {
    seq!['0', digit_char(m / 64), digit_char((m / 8) % 8), digit_char(m % 8)]
}

/// Spec view of [`SecretFileModeStatus`].
pub enum StatusView {
    Missing,
    OwnerOnlyOk,
    HardFail(Seq<char>),
}

impl SecretFileModeStatus {
    pub open spec fn view(&self) -> StatusView {
        match self {
            SecretFileModeStatus::Missing => StatusView::Missing,
            SecretFileModeStatus::OwnerOnlyOk => StatusView::OwnerOnlyOk,
            SecretFileModeStatus::HardFail(m) => StatusView::HardFail(m@),
        }
    }
}

pub open spec fn spec_secret_file_mode_status(path: Seq<char>, label: Seq<char>, meta: LinkMeta) -> StatusView {
    if path.len() == 0 {
        StatusView::HardFail(label + " path is empty"@)
    } else {
        match meta {
            LinkMeta::NotFound => StatusView::Missing,
            LinkMeta::Error(e) => StatusView::HardFail(label + " missing or unreadable at "@ + path + ": "@ + e@),
            LinkMeta::Symlink => StatusView::HardFail(label + " at "@ + path + " is a symlink (refused; require regular file)"@),
            LinkMeta::NotRegular => StatusView::HardFail(label + " path is not a regular file: "@ + path),
            LinkMeta::Regular { mode } => if mode % 64 != 0 {
                StatusView::HardFail(label + " at "@ + path + " must not be group/world readable (mode "@
                    + octal4((mode % 512) as nat) + "; require owner-only, e.g. 0600)"@)
            } else {
                StatusView::OwnerOnlyOk
            },
        }
    }
}

/// A group-readable key (0640 or 0440, regular, not a symlink) whose file
/// group is on the shared list.
pub open spec fn spec_shared_group_readable(meta: LinkMeta, group: Option<Seq<char>>, shared: Seq<Seq<char>>) -> bool {
    match meta {
        LinkMeta::Regular { mode } => (mode % 512 == 0o640 || mode % 512 == 0o440) && match group {
            Some(g) => shared.contains(g),
            None => false,
        },
        _ => false,
    }
}

pub open spec fn spec_require_tls_private_key_mode(
    path: Seq<char>,
    meta: LinkMeta,
    group: Option<Seq<char>>,
    shared: Seq<Seq<char>>,
) -> Result<(), Seq<char>> {
    match spec_secret_file_mode_status(path, "TLS private key"@, meta) {
        StatusView::OwnerOnlyOk => Ok(()),
        StatusView::Missing => Err("TLS private key missing or unreadable at "@ + path),
        StatusView::HardFail(m) => if spec_shared_group_readable(meta, group, shared) {
            Ok(())
        } else {
            Err(m + "; 0640 is allowed only when the file group is surmount-tls"@)
        },
    }
}

pub open spec fn spec_require_owner_only(path: Seq<char>, label: Seq<char>, meta: LinkMeta) -> Result<(), Seq<char>> {
    match spec_secret_file_mode_status(path, label, meta) {
        StatusView::OwnerOnlyOk => Ok(()),
        StatusView::Missing => Err(label + " missing or unreadable at "@ + path),
        StatusView::HardFail(m) => Err(m),
    }
}

/// `Some(trim(v))` when set and not blank.
pub open spec fn trimmed_nonblank(v: Option<Seq<char>>) -> Option<Seq<char>> {
    match v {
        Some(x) => if trim(x).len() > 0 { Some(trim(x)) } else { None },
        None => None,
    }
}

pub enum ListenModeView {
    PlainHttp,
    Https { cert: Seq<char>, key: Seq<char> },
}

pub open spec fn spec_listen_mode(mode: Option<Seq<char>>, cert: Option<Seq<char>>, key: Option<Seq<char>>) -> Result<ListenModeView, Seq<char>> {
    let m = lower(trim(match mode {
        Some(x) => x,
        None => "http"@,
    }));
    if m == "http"@ || m == "plain"@ || m == "plainhttp"@ {
        Ok(ListenModeView::PlainHttp)
    } else if m == "https"@ || m == "tls"@ {
        match (trimmed_nonblank(cert), trimmed_nonblank(key)) {
            (Some(c), Some(k)) => Ok(ListenModeView::Https { cert: c, key: k }),
            _ => Err("HTTPS listen mode requires SURMOUNT_TLS_CERT and SURMOUNT_TLS_KEY paths"@),
        }
    } else {
        Err("unknown SURMOUNT_LISTEN_MODE "@ + debug_str(m) + "; use http or https"@)
    }
}

/// UTF-8 length of one char.
pub open spec fn utf8_len(c: char) -> nat {
    if (c as u32) < 0x80 {
        1
    } else if (c as u32) < 0x800 {
        2
    } else if (c as u32) < 0x10000 {
        3
    } else {
        4
    }
}

/// The longest prefix of `s` whose UTF-8 encoding has at most `max` bytes.
pub open spec fn spec_truncate(s: Seq<char>, max: nat) -> Seq<char>
    decreases s.len(),
{
    if s.len() == 0 || utf8_len(s[0]) > max {
        seq![]
    } else {
        seq![s[0]] + spec_truncate(s.drop_first(), (max - utf8_len(s[0])) as nat)
    }
}

/// PEM banners and bodies replaced by `<redacted-pem>`; an unterminated
/// block ends the text.
pub open spec fn spec_strip_pem(rest: Seq<char>) -> Seq<char>
    decreases rest.len(),
{
    match find(upper(rest), "-----BEGIN "@) {
        None => rest,
        Some(b) => {
            let after_begin = rest.skip(b + 11);
            rest.take(b) + "<redacted-pem>"@ + match find(upper(after_begin), "-----END "@) {
                None => seq![],
                Some(e) => {
                    let after_end = after_begin.skip(e + 9);
                    match find(after_end, "-----"@) {
                        None => seq![],
                        Some(c) => {
                            proof {
                                lemma_find_first(upper(rest), "-----BEGIN "@);
                                lemma_find_first(upper(after_begin), "-----END "@);
                                lemma_find_first(after_end, "-----"@);
                                reveal_strlit("-----BEGIN ");
                                reveal_strlit("-----END ");
                                reveal_strlit("-----");
                            }
                            spec_strip_pem(after_end.skip(c + 5))
                        },
                    }
                },
            }
        },
    }
}

/// Short filter label of a handshake error Display.
pub open spec fn spec_classify(raw: Seq<char>) -> Seq<char> {
    let l = lower(raw);
    if contains(l, "timed out"@) || contains(l, "timeout"@) {
        "timeout"@
    } else if contains(l, "incompatible"@) {
        "incompatible"@
    } else if contains(l, "protocolversion"@) || contains(l, "protocol_version"@) || contains(l, "tlsv1_2"@) {
        "protocol_version"@
    } else if contains(l, "noapplicationprotocol"@) || contains(l, "no application protocol"@) {
        "alpn"@
    } else if contains(l, "misbehav"@) {
        "misbehaved"@
    } else if contains(l, "unexpected eof"@) {
        "eof"@
    } else if contains(l, "connection reset"@) {
        "reset"@
    } else if contains(l, "decrypt"@) || contains(l, "bad record mac"@) {
        "decrypt"@
    } else if contains(l, "handshake"@) {
        "handshake"@
    } else {
        "error"@
    }
}

pub open spec fn spec_sanitize_sni(sni: Option<Seq<char>>) -> Option<Seq<char>> {
    match sni {
        None => None,
        Some(s) => {
            let t = trim(s);
            if t.len() == 0 || contains(upper(t), "BEGIN CERTIFICATE"@) || contains(upper(t), "BEGIN PRIVATE"@) {
                None
            } else {
                Some(spec_truncate(t, TLS_HANDSHAKE_SNI_MAX as nat))
            }
        },
    }
}

pub open spec fn spec_sanitize_error(raw: Seq<char>) -> Seq<char> {
    spec_truncate(spec_strip_pem(raw), TLS_HANDSHAKE_ERROR_MAX as nat)
}


// ---------------------------------------------------------------------------
// Executable functions
// ---------------------------------------------------------------------------

/// `a + b + c` as a `String`.
fn cat3(a: &[char], b: &[char], c: &[char]) -> (r: String)
    ensures
        r@ == a@ + b@ + c@,
{
    let x = concat(a, b);
    let y = concat(x.as_slice(), c);
    string_of(y.as_slice())
}

/// `a + b` as a `String`.
fn cat2(a: &[char], b: &[char]) -> (r: String)
    ensures
        r@ == a@ + b@,
{
    let x = concat(a, b);
    string_of(x.as_slice())
}

/// Path text is empty.
fn path_is_blank(p: &str) -> (r: bool)
    ensures
        r == (p@.len() == 0),
{
    p.is_empty()
}

impl TlsPaths {
    pub fn new(cert_path: &str, key_path: &str) -> (r: Self)
        ensures
            r.cert_path@ == cert_path@,
            r.key_path@ == key_path@,
    {
        TlsPaths { cert_path: cert_path.to_owned(), key_path: key_path.to_owned() }
    }

    /// Both paths are non-empty (the filesystem is not touched).
    pub fn paths_configured(&self) -> (r: bool)
        ensures
            r == (self.cert_path@.len() > 0 && self.key_path@.len() > 0),
    {
        !path_is_blank(self.cert_path.as_str()) && !path_is_blank(self.key_path.as_str())
    }

    /// Startup check when HTTPS is required, over the file facts read for
    /// both paths: both regular files, and the key owner-only or 0640/0440
    /// with a shared TLS group (`surmount-tls`).
    pub fn require_files_exist(&self, cert: &FileMeta, key: &FileMeta, key_link: &LinkMeta, key_group: Option<&str>) -> (r: Result<(), String>)
        ensures
            unit_view(r) == match spec_require_regular_file(self.cert_path@, "TLS certificate"@, *cert) {
                Err(e) => Err(e),
                Ok(_) => match spec_require_regular_file(self.key_path@, "TLS private key"@, *key) {
                    Err(e) => Err(e),
                    Ok(_) => spec_require_tls_private_key_mode(
                        self.key_path@,
                        *key_link,
                        match key_group { Some(g) => Some(g@), None => None },
                        seq![SHARED_TLS_KEY_GROUP@],
                    ),
                },
            },
    {
        match require_regular_file(self.cert_path.as_str(), "TLS certificate", cert) {
            Err(e) => {
                return Err(e);
            },
            Ok(()) => {},
        }
        match require_regular_file(self.key_path.as_str(), "TLS private key", key) {
            Err(e) => {
                return Err(e);
            },
            Ok(()) => {},
        }
        require_private_key_mode(self.key_path.as_str(), key_link, key_group)
    }
}


/// A path that must name a regular file.
fn require_regular_file(path: &str, label: &str, meta: &FileMeta) -> (r: Result<(), String>)
    ensures
        unit_view(r) == spec_require_regular_file(path@, label@, *meta),
{
    let p = chars_of(path);
    let l = chars_of(label);
    if path_is_blank(path) {
        let t = chars_of(" path is empty");
        return Err(cat2(l.as_slice(), t.as_slice()));
    }
    match meta {
        FileMeta::Found { is_file } => if *is_file {
            Ok(())
        } else {
            let t = chars_of(" path is not a regular file: ");
            Err(cat3(l.as_slice(), t.as_slice(), p.as_slice()))
        },
        FileMeta::Error(e) => {
            let t = chars_of(" missing or unreadable at ");
            let a = cat3(l.as_slice(), t.as_slice(), p.as_slice());
            let av = chars_of(a.as_str());
            let c = chars_of(": ");
            let ev = chars_of(e.as_str());
            Err(cat3(av.as_slice(), c.as_slice(), ev.as_slice()))
        },
    }
}

/// `{:04o}` of `m & 0o777`.
fn octal4_exec(m: u32) -> (r: Vec<char>)
    requires
        m < 512,
    ensures
        r@ == octal4(m as nat),
{
    let mut r: Vec<char> = Vec::new();
    r.push('0');
    let a = digit_exec((m / 64) as u64);
    let b = digit_exec(((m / 8) % 8) as u64);
    let c = digit_exec((m % 8) as u64);
    r.push(a);
    r.push(b);
    r.push(c);
    assert(r@ =~= octal4(m as nat));
    r
}

/// Owner-only mode check of a host secret file (TLS key, ACME account),
/// over what `symlink_metadata` said: missing, owner-only, or a hard
/// failure (empty path, unreadable, symlink, not regular, group/world bits).
pub fn secret_file_mode_status(path: &str, label: &str, meta: &LinkMeta) -> (r: SecretFileModeStatus)
    ensures
        r@ == spec_secret_file_mode_status(path@, label@, *meta),
{
    let p = chars_of(path);
    let l = chars_of(label);
    if path_is_blank(path) {
        let t = chars_of(" path is empty");
        return SecretFileModeStatus::HardFail(cat2(l.as_slice(), t.as_slice()));
    }
    match meta {
        LinkMeta::NotFound => SecretFileModeStatus::Missing,
        LinkMeta::Error(e) => {
            let t = chars_of(" missing or unreadable at ");
            let a = cat3(l.as_slice(), t.as_slice(), p.as_slice());
            let av = chars_of(a.as_str());
            let c = chars_of(": ");
            let ev = chars_of(e.as_str());
            SecretFileModeStatus::HardFail(cat3(av.as_slice(), c.as_slice(), ev.as_slice()))
        },
        LinkMeta::Symlink => {
            let t = chars_of(" at ");
            let u = chars_of(" is a symlink (refused; require regular file)");
            let a = cat3(l.as_slice(), t.as_slice(), p.as_slice());
            let av = chars_of(a.as_str());
            SecretFileModeStatus::HardFail(cat2(av.as_slice(), u.as_slice()))
        },
        LinkMeta::NotRegular => {
            let t = chars_of(" path is not a regular file: ");
            SecretFileModeStatus::HardFail(cat3(l.as_slice(), t.as_slice(), p.as_slice()))
        },
        LinkMeta::Regular { mode } => {
            let m = *mode;
            assert(m & 63 == m % 64) by (bit_vector);
            assert(m & 511 == m % 512) by (bit_vector);
            if m & 63 != 0 {
                let t = chars_of(" at ");
                let u = chars_of(" must not be group/world readable (mode ");
                let w = chars_of("; require owner-only, e.g. 0600)");
                let o = octal4_exec(m & 511);
                let a = cat3(l.as_slice(), t.as_slice(), p.as_slice());
                let av = chars_of(a.as_str());
                let b = cat3(av.as_slice(), u.as_slice(), o.as_slice());
                let bv = chars_of(b.as_str());
                SecretFileModeStatus::HardFail(cat2(bv.as_slice(), w.as_slice()))
            } else {
                SecretFileModeStatus::OwnerOnlyOk
            }
        },
    }
}

/// The key is 0640 or 0440, a regular file, and its group is on the list.
#[verifier::loop_isolation(false)]
fn tls_key_shared_group_readable(meta: &LinkMeta, group: Option<&str>, shared_groups: &[&str]) -> (r: bool)
    ensures
        r == spec_shared_group_readable(*meta, match group { Some(g) => Some(g@), None => None }, str_views(shared_groups@)),
{
    match meta {
        LinkMeta::Regular { mode } => {
            let m = *mode;
            assert(m & 511 == m % 512) by (bit_vector);
            let bits = m & 511;
            if !(bits == 0o640 || bits == 0o440) {
                return false;
            }
            match group {
                None => false,
                Some(name) => {
                    let n = chars_of(name);
                    let mut i: usize = 0;
                    while i < shared_groups.len()
                        invariant
                            i <= shared_groups.len(),
                            n@ == name@,
                            forall|j: int| 0 <= j < i ==> (#[trigger] str_views(shared_groups@)[j]) != name@,
                        decreases shared_groups.len() - i,
                    {
                        let g = chars_of(shared_groups[i]);
                        if eq(g.as_slice(), n.as_slice()) {
                            assert(str_views(shared_groups@)[i as int] == name@);
                            return true;
                        }
                        i += 1;
                    }
                    false
                },
            }
        },
        _ => false,
    }
}

/// TLS private-key mode: owner-only, or 0640/0440 when the file group is on
/// `shared_groups`.
pub fn require_tls_private_key_mode(path: &str, shared_groups: &[&str], meta: &LinkMeta, group: Option<&str>) -> (r: Result<(), String>)
    ensures
        unit_view(r) == spec_require_tls_private_key_mode(
            path@,
            *meta,
            match group { Some(g) => Some(g@), None => None },
            str_views(shared_groups@),
        ),
{
    match secret_file_mode_status(path, "TLS private key", meta) {
        SecretFileModeStatus::OwnerOnlyOk => Ok(()),
        SecretFileModeStatus::Missing => {
            let h = chars_of("TLS private key missing or unreadable at ");
            let p = chars_of(path);
            Err(cat2(h.as_slice(), p.as_slice()))
        },
        SecretFileModeStatus::HardFail(msg) => {
            if tls_key_shared_group_readable(meta, group, shared_groups) {
                Ok(())
            } else {
                let m = chars_of(msg.as_str());
                let t = chars_of("; 0640 is allowed only when the file group is surmount-tls");
                Err(cat2(m.as_slice(), t.as_slice()))
            }
        },
    }
}

/// The product rule: owner-only, or 0640/0440 with group `surmount-tls`.
fn require_private_key_mode(path: &str, meta: &LinkMeta, group: Option<&str>) -> (r: Result<(), String>)
    ensures
        unit_view(r) == spec_require_tls_private_key_mode(
            path@,
            *meta,
            match group { Some(g) => Some(g@), None => None },
            seq![SHARED_TLS_KEY_GROUP@],
        ),
{
    let groups: [&str; 1] = [SHARED_TLS_KEY_GROUP];
    assert(str_views(groups@) =~= seq![SHARED_TLS_KEY_GROUP@]);
    require_tls_private_key_mode(path, &groups, meta, group)
}

/// Fail closed: the path must be an owner-only regular file.
pub fn require_owner_only_secret_file(path: &str, label: &str, meta: &LinkMeta) -> (r: Result<(), String>)
    ensures
        unit_view(r) == spec_require_owner_only(path@, label@, *meta),
{
    match secret_file_mode_status(path, label, meta) {
        SecretFileModeStatus::OwnerOnlyOk => Ok(()),
        SecretFileModeStatus::Missing => {
            let l = chars_of(label);
            let t = chars_of(" missing or unreadable at ");
            let p = chars_of(path);
            Err(cat3(l.as_slice(), t.as_slice(), p.as_slice()))
        },
        SecretFileModeStatus::HardFail(msg) => Err(msg),
    }
}


// ---------------------------------------------------------------------------
// Listen mode and startup decision
// ---------------------------------------------------------------------------

impl ListenMode {
    pub open spec fn view(&self) -> ListenModeView {
        match self {
            ListenMode::PlainHttp => ListenModeView::PlainHttp,
            ListenMode::Https(p) => ListenModeView::Https { cert: p.cert_path@, key: p.key_path@ },
        }
    }

    /// Parse from env-style strings. `mode`: `http` (also `plain`,
    /// `plainhttp`) or `https` (also `tls`), trimmed, ASCII case ignored,
    /// default `http`. HTTPS needs both paths, trimmed and not blank.
    pub fn from_parts(mode: Option<&str>, cert_path: Option<&str>, key_path: Option<&str>) -> (r: Result<Self, String>)
        ensures
            match r {
                Ok(m) => spec_listen_mode(opt_str_view(mode), opt_str_view(cert_path), opt_str_view(key_path)) == Ok::<ListenModeView, Seq<char>>(m@),
                Err(e) => spec_listen_mode(opt_str_view(mode), opt_str_view(cert_path), opt_str_view(key_path)) == Err::<ListenModeView, Seq<char>>(e@),
            },
    {
        let raw = match mode {
            Some(m) => chars_of(m),
            None => chars_of("http"),
        };
        let t = trim_vec(raw.as_slice());
        let m = lower_vec(t.as_slice());
        let http = chars_of("http");
        let plain = chars_of("plain");
        let plainhttp = chars_of("plainhttp");
        let https = chars_of("https");
        let tls = chars_of("tls");
        if eq(m.as_slice(), http.as_slice()) || eq(m.as_slice(), plain.as_slice()) || eq(m.as_slice(), plainhttp.as_slice()) {
            return Ok(ListenMode::PlainHttp);
        }
        if eq(m.as_slice(), https.as_slice()) || eq(m.as_slice(), tls.as_slice()) {
            let cert = trimmed_nonblank_exec(cert_path);
            let key = trimmed_nonblank_exec(key_path);
            return match (cert, key) {
                (Some(c), Some(k)) => Ok(ListenMode::Https(TlsPaths { cert_path: string_of(c.as_slice()), key_path: string_of(k.as_slice()) })),
                _ => Err("HTTPS listen mode requires SURMOUNT_TLS_CERT and SURMOUNT_TLS_KEY paths".to_owned()),
            };
        }
        let h = chars_of("unknown SURMOUNT_LISTEN_MODE ");
        let d = debug_chars(m.as_slice());
        let tail = chars_of("; use http or https");
        let a = concat(h.as_slice(), d.as_slice());
        Err(cat2(a.as_slice(), tail.as_slice()))
    }

    pub fn is_https(&self) -> (r: bool)
        ensures
            r == (self@ is Https),
    {
        match self {
            ListenMode::Https(_) => true,
            ListenMode::PlainHttp => false,
        }
    }
}

pub open spec fn opt_str_view(o: Option<&str>) -> Option<Seq<char>> {
    match o {
        Some(s) => Some(s@),
        None => None,
    }
}

/// Trimmed text when set and not blank.
fn trimmed_nonblank_exec(v: Option<&str>) -> (r: Option<Vec<char>>)
    ensures
        match r {
            Some(t) => trimmed_nonblank(opt_str_view(v)) == Some(t@),
            None => trimmed_nonblank(opt_str_view(v)) is None,
        },
{
    match v {
        Some(x) => {
            let t = trim_str(x);
            if t.len() > 0 {
                Some(t)
            } else {
                None
            }
        },
        None => None,
    }
}

/// Spec view of [`HttpsStartupDecision`].
pub enum DecisionView {
    ServePlainHttp,
    ServeHttps,
    FailClosed(Seq<char>),
    DangerousCleartextEscape,
}

impl HttpsStartupDecision {
    pub open spec fn view(&self) -> DecisionView {
        match self {
            HttpsStartupDecision::ServePlainHttp => DecisionView::ServePlainHttp,
            HttpsStartupDecision::ServeHttps => DecisionView::ServeHttps,
            HttpsStartupDecision::FailClosed { reason } => DecisionView::FailClosed(reason@),
            HttpsStartupDecision::DangerousCleartextEscape => DecisionView::DangerousCleartextEscape,
        }
    }
}

pub open spec fn acceptor_unavailable_reason() -> Seq<char> {
    "SURMOUNT_LISTEN_MODE=https but in-process rustls acceptor is unavailable in this build. Use listen mode http for dual-run behind transitional nginx, or set SURMOUNT_HTTPS_ALLOW_CLEARTEXT_ESCAPE=1 only for emergency debugging (always serves cleartext under the https label; never enable in production)."@
}

pub open spec fn spec_https_startup_decision(mode: ListenModeView, acceptor_ready: bool, escape: bool) -> DecisionView {
    match mode {
        ListenModeView::PlainHttp => DecisionView::ServePlainHttp,
        ListenModeView::Https { .. } => if escape {
            DecisionView::DangerousCleartextEscape
        } else if acceptor_ready {
            DecisionView::ServeHttps
        } else {
            DecisionView::FailClosed(acceptor_unavailable_reason())
        },
    }
}

/// HTTPS startup: plain mode serves plain; in HTTPS mode the explicit
/// cleartext escape wins, else the rustls acceptor serves, else fail closed.
pub fn https_startup_decision(mode: &ListenMode, rustls_acceptor_ready: bool, allow_cleartext_escape: bool) -> (r: HttpsStartupDecision)
    ensures
        r@ == spec_https_startup_decision(mode@, rustls_acceptor_ready, allow_cleartext_escape),
{
    match mode {
        ListenMode::PlainHttp => HttpsStartupDecision::ServePlainHttp,
        ListenMode::Https(_) => if allow_cleartext_escape {
            HttpsStartupDecision::DangerousCleartextEscape
        } else if rustls_acceptor_ready {
            HttpsStartupDecision::ServeHttps
        } else {
            HttpsStartupDecision::FailClosed {
                reason: "SURMOUNT_LISTEN_MODE=https but in-process rustls acceptor is unavailable in this build. Use listen mode http for dual-run behind transitional nginx, or set SURMOUNT_HTTPS_ALLOW_CLEARTEXT_ESCAPE=1 only for emergency debugging (always serves cleartext under the https label; never enable in production).",
            }
        },
    }
}

// ---------------------------------------------------------------------------
// Handshake failure fields
// ---------------------------------------------------------------------------

fn utf8_len_exec(c: char) -> (r: usize)
    ensures
        r == utf8_len(c),
{
    let u = c as u32;
    if u < 0x80 {
        1
    } else if u < 0x800 {
        2
    } else if u < 0x10000 {
        3
    } else {
        4
    }
}

/// [`spec_truncate`] of the chars from `i` on.
fn truncate_from(s: &[char], i: usize, max: usize) -> (r: Vec<char>)
    requires
        i <= s.len(),
    ensures
        r@ == spec_truncate(s@.skip(i as int), max as nat),
    decreases s.len() - i,
{
    if i == s.len() {
        return Vec::new();
    }
    let l = utf8_len_exec(s[i]);
    proof {
        assert(s@.skip(i as int)[0] == s@[i as int]);
        assert(s@.skip(i as int).drop_first() =~= s@.skip(i + 1));
    }
    if l > max {
        return Vec::new();
    }
    let mut r: Vec<char> = Vec::new();
    r.push(s[i]);
    let rest = truncate_from(s, i + 1, max - l);
    extend(&mut r, rest.as_slice());
    r
}

/// The longest prefix whose UTF-8 encoding has at most `max_bytes` bytes.
fn truncate_log_text(s: &str, max_bytes: usize) -> (r: String)
    ensures
        r@ == spec_truncate(s@, max_bytes as nat),
{
    let v = chars_of(s);
    assert(v@.skip(0) =~= v@);
    let t = truncate_from(v.as_slice(), 0, max_bytes);
    string_of(t.as_slice())
}

/// [`spec_strip_pem`] on chars.
fn strip_pem_chars(rest: &[char]) -> (r: Vec<char>)
    ensures
        r@ == spec_strip_pem(rest@),
    decreases rest.len(),
{
    let up = upper_vec(rest);
    let begin = chars_of("-----BEGIN ");
    proof {
        reveal_strlit("-----BEGIN ");
        reveal_strlit("-----END ");
        reveal_strlit("-----");
    }
    match find_exec(up.as_slice(), begin.as_slice()) {
        None => slice_of(rest, 0, rest.len()),
        Some(b) => {
            proof {
                lemma_find_first(up@, begin@);
            }
            let mut out = slice_of(rest, 0, b);
            let marker = chars_of("<redacted-pem>");
            extend(&mut out, marker.as_slice());
            let after_begin = slice_of(rest, b + 11, rest.len());
            let au = upper_vec(after_begin.as_slice());
            let endm = chars_of("-----END ");
            match find_exec(au.as_slice(), endm.as_slice()) {
                None => {
                    assert(out@ =~= rest@.take(b as int) + "<redacted-pem>"@ + Seq::<char>::empty());
                    out
                },
                Some(e) => {
                    proof {
                        lemma_find_first(au@, endm@);
                    }
                    let after_end = slice_of(after_begin.as_slice(), e + 9, after_begin.len());
                    let close = chars_of("-----");
                    match find_exec(after_end.as_slice(), close.as_slice()) {
                        None => {
                            assert(out@ =~= rest@.take(b as int) + "<redacted-pem>"@ + Seq::<char>::empty());
                            out
                        },
                        Some(c) => {
                            proof {
                                lemma_find_first(after_end@, close@);
                            }
                            let next = slice_of(after_end.as_slice(), c + 5, after_end.len());
                            assert(after_begin@ =~= rest@.skip(b + 11));
                            assert(after_end@ =~= after_begin@.skip(e + 9));
                            assert(next@ =~= after_end@.skip(c + 5));
                            let tail = strip_pem_chars(next.as_slice());
                            extend(&mut out, tail.as_slice());
                            out
                        },
                    }
                },
            }
        },
    }
}

/// PEM banners and bodies replaced by `<redacted-pem>`.
fn strip_pem_shaped(raw: &str) -> (r: String)
    ensures
        r@ == spec_strip_pem(raw@),
{
    let v = chars_of(raw);
    let r = strip_pem_chars(v.as_slice());
    string_of(r.as_slice())
}

/// Short filter label of a handshake error Display.
fn classify_tls_handshake_error(raw: &str) -> (r: String)
    ensures
        r@ == spec_classify(raw@),
{
    let v = chars_of(raw);
    let l = lower_vec(v.as_slice());
    let has = |n: &str| -> (b: bool)
        ensures
            b == contains(l@, n@),
        {
            let nv = chars_of(n);
            contains_exec(l.as_slice(), nv.as_slice())
        };
    if has("timed out") || has("timeout") {
        return "timeout".to_owned();
    }
    if has("incompatible") {
        return "incompatible".to_owned();
    }
    if has("protocolversion") || has("protocol_version") || has("tlsv1_2") {
        return "protocol_version".to_owned();
    }
    if has("noapplicationprotocol") || has("no application protocol") {
        return "alpn".to_owned();
    }
    if has("misbehav") {
        return "misbehaved".to_owned();
    }
    if has("unexpected eof") {
        return "eof".to_owned();
    }
    if has("connection reset") {
        return "reset".to_owned();
    }
    if has("decrypt") || has("bad record mac") {
        return "decrypt".to_owned();
    }
    if has("handshake") {
        return "handshake".to_owned();
    }
    "error".to_owned()
}

/// SNI for the journal: trimmed, not blank, not PEM-shaped, at most 253 bytes.
fn sanitize_handshake_sni(sni: Option<&str>) -> (r: Option<String>)
    ensures
        opt_view(r) == spec_sanitize_sni(opt_str_view(sni)),
{
    let s = match sni {
        Some(s) => s,
        None => {
            return None;
        },
    };
    let t = trim_str(s);
    if t.len() == 0 {
        return None;
    }
    let up = upper_vec(t.as_slice());
    let a = chars_of("BEGIN CERTIFICATE");
    let b = chars_of("BEGIN PRIVATE");
    if contains_exec(up.as_slice(), a.as_slice()) || contains_exec(up.as_slice(), b.as_slice()) {
        return None;
    }
    let ts = string_of(t.as_slice());
    Some(truncate_log_text(ts.as_str(), TLS_HANDSHAKE_SNI_MAX))
}

/// Error Display for the journal: PEM stripped, at most 200 bytes.
fn sanitize_handshake_error_display(raw: &str) -> (r: String)
    ensures
        r@ == spec_sanitize_error(raw@),
{
    let stripped = strip_pem_shaped(raw);
    truncate_log_text(stripped.as_str(), TLS_HANDSHAKE_ERROR_MAX)
}

/// Journal fields for a TLS accept / handshake failure: the peer address
/// text (`unknown` when not known), the sanitized SNI, a short kind and the
/// sanitized error Display.
pub fn tls_handshake_failure_fields(peer: Option<String>, sni: Option<&str>, error: &str) -> (r: TlsHandshakeFailureFields)
    ensures
        r.peer@ == match peer { Some(p) => p@, None => "unknown"@ },
        opt_view(r.sni) == spec_sanitize_sni(opt_str_view(sni)),
        r.error_kind@ == spec_classify(error@),
        r.error@ == spec_sanitize_error(error@),
{
    let peer = match peer {
        Some(p) => p,
        None => "unknown".to_owned(),
    };
    TlsHandshakeFailureFields {
        peer,
        sni: sanitize_handshake_sni(sni),
        error_kind: classify_tls_handshake_error(error),
        error: sanitize_handshake_error_display(error),
    }
}


// ---------------------------------------------------------------------------
// Laws
// ---------------------------------------------------------------------------

/// Plain mode always serves plain HTTP, whatever the acceptor and escape.
pub proof fn law_plain_mode_serves_plain(acceptor_ready: bool, escape: bool)
    ensures
        spec_https_startup_decision(ListenModeView::PlainHttp, acceptor_ready, escape) == DecisionView::ServePlainHttp,
{
}

/// HTTPS mode never serves cleartext silently: it serves HTTPS, fails
/// closed, or (only with the explicit escape) serves cleartext under the
/// escape's name.
pub proof fn law_https_mode_never_silent_cleartext(cert: Seq<char>, key: Seq<char>, acceptor_ready: bool, escape: bool)
    ensures
        ({
            let d = spec_https_startup_decision(ListenModeView::Https { cert: cert, key: key }, acceptor_ready, escape);
            &&& d != DecisionView::ServePlainHttp
            &&& (d == DecisionView::DangerousCleartextEscape <==> escape)
            &&& (d == DecisionView::ServeHttps <==> (!escape && acceptor_ready))
        }),
{
}


proof fn lemma_truncate_prefix(s: Seq<char>, max: nat)
    ensures
        spec_truncate(s, max).len() <= s.len(),
        spec_truncate(s, max) == s.take(spec_truncate(s, max).len() as int),
    decreases s.len(),
{
    if !(s.len() == 0 || utf8_len(s[0]) > max) {
        let m = (max - utf8_len(s[0])) as nat;
        lemma_truncate_prefix(s.drop_first(), m);
        let t = spec_truncate(s.drop_first(), m);
        assert(seq![s[0]] + t =~= s.take(t.len() as int + 1));
    } else {
        assert(spec_truncate(s, max) =~= s.take(0));
    }
}

/// No match in the upper-case form of `s` means none in that of any prefix.
proof fn lemma_no_match_prefix(s: Seq<char>, k: int, n: Seq<char>)
    requires
        0 <= k <= s.len(),
        !contains(upper(s), n),
    ensures
        !contains(upper(s.take(k)), n),
{
    lemma_find_first(upper(s), n);
    let u = upper(s.take(k));
    if contains(u, n) {
        lemma_find_first(u, n);
        let j = find(u, n)->Some_0;
        assert(match_at(u, n, j));
        assert(u.subrange(j, j + n.len()) =~= upper(s).subrange(j, j + n.len()));
        assert(match_at(upper(s), n, j));
    }
}

/// Before the first match there is none.
proof fn lemma_no_match_before(s: Seq<char>, n: Seq<char>, b: int)
    requires
        n.len() > 0,
        find(upper(s), n) == Some(b),
    ensures
        !contains(upper(s.take(b)), n),
{
    lemma_find_first(upper(s), n);
    let u = upper(s.take(b));
    if contains(u, n) {
        lemma_find_first(u, n);
        let j = find(u, n)->Some_0;
        assert(match_at(u, n, j));
        assert(u.subrange(j, j + n.len()) =~= upper(s).subrange(j, j + n.len()));
        assert(match_at(upper(s), n, j));
        assert(j < b);
    }
}

/// A window of the needle `-----BEGIN ` never covers the marker's first or
/// last char, nor lies inside it.
proof fn lemma_no_match_around_marker(x: Seq<char>, y: Seq<char>)
    requires
        !contains(upper(x), "-----BEGIN "@),
        !contains(upper(y), "-----BEGIN "@),
    ensures
        !contains(upper(x + "<redacted-pem>"@ + y), "-----BEGIN "@),
{
    reveal_strlit("-----BEGIN ");
    reveal_strlit("<redacted-pem>");
    let n = "-----BEGIN "@;
    let m = "<redacted-pem>"@;
    let t = x + m + y;
    let u = upper(t);
    lemma_find_first(upper(x), n);
    lemma_find_first(upper(y), n);
    assert forall|j: int| !match_at(u, n, j) by {
        if match_at(u, n, j) {
            let xl = x.len() as int;
            let ml = m.len() as int;
            assert(forall|q: int| 0 <= q < n.len() ==> u[j + q] == #[trigger] n[q]);
            if j + 11 <= xl {
                assert(upper(x).subrange(j, j + 11) =~= u.subrange(j, j + 11));
                assert(match_at(upper(x), n, j));
            } else if j >= xl + ml {
                assert(upper(y).subrange(j - xl - ml, j - xl - ml + 11) =~= u.subrange(j, j + 11));
                assert(match_at(upper(y), n, j - xl - ml));
            } else if j <= xl {
                // the window covers the marker's opening `<`
                assert(u[xl] == upper_char(t[xl]));
                assert(t[xl] == '<');
                assert(n[xl - j] == u[xl]);
            } else if j + 11 > xl + ml {
                // the window covers the marker's closing `>`
                assert(t[xl + ml - 1] == '>');
                assert(n[xl + ml - 1 - j] == u[xl + ml - 1]);
            } else {
                // inside the marker: its first char is not `-`
                assert(t[j] == m[j - xl]);
                assert(n[0] == u[j]);
            }
        }
    }
    lemma_find_none(u, n);
}

proof fn lemma_strip_pem_clean(rest: Seq<char>)
    ensures
        !contains(upper(spec_strip_pem(rest)), "-----BEGIN "@),
    decreases rest.len(),
{
    reveal_strlit("-----BEGIN ");
    reveal_strlit("-----END ");
    reveal_strlit("-----");
    let n = "-----BEGIN "@;
    lemma_find_first(upper(rest), n);
    match find(upper(rest), n) {
        None => {},
        Some(b) => {
            let head = rest.take(b);
            lemma_no_match_before(rest, n, b);
            let after_begin = rest.skip(b + 11);
            lemma_find_first(upper(after_begin), "-----END "@);
            let tail = match find(upper(after_begin), "-----END "@) {
                None => seq![],
                Some(e) => {
                    let after_end = after_begin.skip(e + 9);
                    lemma_find_first(after_end, "-----"@);
                    match find(after_end, "-----"@) {
                        None => seq![],
                        Some(c) => spec_strip_pem(after_end.skip(c + 5)),
                    }
                },
            };
            match find(upper(after_begin), "-----END "@) {
                None => {
                    lemma_find_none(upper(tail), n);
                },
                Some(e) => {
                    let after_end = after_begin.skip(e + 9);
                    match find(after_end, "-----"@) {
                        None => {
                            lemma_find_none(upper(tail), n);
                        },
                        Some(c) => {
                            lemma_strip_pem_clean(after_end.skip(c + 5));
                        },
                    }
                },
            }
            assert(spec_strip_pem(rest) == head + "<redacted-pem>"@ + tail);
            lemma_no_match_around_marker(head, tail);
        },
    }
}

/// The journal's error text never holds a PEM banner: `-----BEGIN ` does
/// not occur in it, in any ASCII case.
pub proof fn law_error_field_holds_no_pem(raw: Seq<char>)
    ensures
        !contains(upper(spec_sanitize_error(raw)), "-----BEGIN "@),
{
    let st = spec_strip_pem(raw);
    lemma_strip_pem_clean(raw);
    lemma_truncate_prefix(st, TLS_HANDSHAKE_ERROR_MAX as nat);
    lemma_no_match_prefix(st, spec_truncate(st, TLS_HANDSHAKE_ERROR_MAX as nat).len() as int, "-----BEGIN "@);
}

/// The journal's SNI field never holds a certificate or private-key banner.
pub proof fn law_sni_field_holds_no_pem(sni: Option<Seq<char>>)
    ensures
        spec_sanitize_sni(sni) matches Some(v) ==> !contains(upper(v), "BEGIN CERTIFICATE"@) && !contains(
            upper(v),
            "BEGIN PRIVATE"@,
        ),
{
    if let Some(s) = sni {
        let t = trim(s);
        lemma_truncate_prefix(t, TLS_HANDSHAKE_SNI_MAX as nat);
        let k = spec_truncate(t, TLS_HANDSHAKE_SNI_MAX as nat).len() as int;
        if !contains(upper(t), "BEGIN CERTIFICATE"@) && !contains(upper(t), "BEGIN PRIVATE"@) {
            lemma_no_match_prefix(t, k, "BEGIN CERTIFICATE"@);
            lemma_no_match_prefix(t, k, "BEGIN PRIVATE"@);
        }
    }
}

} // verus!
