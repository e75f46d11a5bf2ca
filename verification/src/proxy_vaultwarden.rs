//! Vaultwarden reverse proxy under a public path prefix on the edge:
//! configuration, path rewriting, header classification and log redaction.
//!
//! Public prefix default `/vault`, upstream default `http://127.0.0.1:8222`.
//! The request forwarding itself (HTTP client, WebSocket tunnel) is done by
//! the server around this library; this module decides what it forwards.

pub mod handshake;
pub mod splora;

use vstd::prelude::*;
use crate::text::{chars_of, concat, contains, contains_exec, debug_chars, debug_str, eq, eq_ignore_case, eq_ignore_case_exec, extend, find, find_exec, has_char, has_char_exec, is_ascii_alnum, is_control, is_control_exec, is_ws, is_ws_exec, lemma_find_first, lemma_lower_len, lemma_trim_start_skip, lower, lower_vec, match_at, match_at_exec, opt_view, parse_unsigned, parse_unsigned_exec, parse_usize, res_view, slice_of, split_char, split_char_exec, starts_with, starts_with_exec, string_of, trim, trim_end_char, trim_end_char_vec, trim_start, trim_str, trim_vec, parse_int_error_text};

verus! {

/// Default public path prefix (no trailing slash).
pub const DEFAULT_PUBLIC_PREFIX: &'static str = "/vault";

/// Default loopback upstream base (no trailing slash).
pub const DEFAULT_UPSTREAM_BASE: &'static str = "http://127.0.0.1:8222";

/// Attachment-friendly body cap (bytes) for non-upgrade proxy requests.
pub const DEFAULT_BODY_LIMIT_BYTES: usize = 33554432;

/// Runtime knobs for the Vaultwarden path proxy.
#[derive(Debug)]
pub struct VaultwardenProxyConfig {
    pub enable: bool,
    /// Normalized public prefix without trailing slash (e.g. `/vault`).
    pub public_prefix: String,
    /// Upstream base without trailing slash (e.g. `http://127.0.0.1:8222`).
    pub upstream_base: String,
    /// Max request body bytes for non-upgrade forwards.
    pub body_limit_bytes: usize,
}

/// Spec view of [`VaultwardenProxyConfig`].
pub struct VaultConfigView {
    pub enable: bool,
    pub public_prefix: Seq<char>,
    pub upstream_base: Seq<char>,
    pub body_limit_bytes: nat,
}

impl VaultwardenProxyConfig {
    pub open spec fn view(&self) -> VaultConfigView {
        VaultConfigView {
            enable: self.enable,
            public_prefix: self.public_prefix@,
            upstream_base: self.upstream_base@,
            body_limit_bytes: self.body_limit_bytes as nat,
        }
    }
}

// ---------------------------------------------------------------------------
// Spec model
// ---------------------------------------------------------------------------

/// `1`, `true`, `yes`, `on` (trimmed, ASCII case ignored).
pub open spec fn spec_env_truthy(raw: Seq<char>) -> bool {
    let t = lower(trim(raw));
    t == "1"@ || t == "true"@ || t == "yes"@ || t == "on"@
}

/// Characters allowed in a public prefix.
pub open spec fn prefix_char_ok(c: char) -> bool {
    is_ascii_alnum(c) || c == '/' || c == '-' || c == '_' || c == '.'
}

/// Not a bare path: a scheme separator, query, fragment or space.
pub open spec fn not_a_path(t: Seq<char>) -> bool {
    contains(t, "://"@) || has_char(t, '?') || has_char(t, '#') || has_char(t, ' ')
}

/// Leading slash added, trailing slashes removed.
pub open spec fn slash_normalized(t: Seq<char>) -> Seq<char> {
    trim_end_char(if t.len() > 0 && t[0] == '/' { t } else { seq!['/'] + t }, '/')
}

/// Public prefix: leading slash, no trailing slash, not `/`, safe chars.
pub open spec fn spec_normalize_public_prefix(raw: Seq<char>) -> Result<Seq<char>, Seq<char>> {
    let t = trim(raw);
    let n = slash_normalized(t);
    if t.len() == 0 {
        Err("Vaultwarden proxy public prefix must not be empty"@)
    } else if not_a_path(t) {
        Err("Vaultwarden proxy public prefix must be a path (got "@ + debug_str(t) + ")"@)
    } else if n.len() == 0 || n == "/"@ {
        Err("Vaultwarden proxy public prefix must not be '/'"@)
    } else if exists|i: int| 0 <= i < n.len() && !prefix_char_ok(#[trigger] n[i]) {
        Err("Vaultwarden proxy public prefix has unsafe characters: "@ + debug_str(n))
    } else {
        Ok(n)
    }
}

/// Whitespace and `/` removed from the end, repeatedly, until neither is left.
pub open spec fn trim_end_ws_slash(s: Seq<char>) -> Seq<char>
    decreases s.len(),
{
    if s.len() > 0 && (is_ws(s.last()) || s.last() == '/') {
        trim_end_ws_slash(s.drop_last())
    } else {
        s
    }
}

/// Upstream base: trimmed, trailing slashes removed, http(s) only.
pub open spec fn spec_normalize_upstream_base(raw: Seq<char>) -> Result<Seq<char>, Seq<char>> {
    let t = trim_end_ws_slash(trim(raw));
    if t.len() == 0 {
        Err("Vaultwarden proxy upstream must not be empty"@)
    } else if !(starts_with(t, "http://"@) || starts_with(t, "https://"@)) {
        Err("Vaultwarden proxy upstream must be http(s):// (got "@ + debug_str(t) + ")"@)
    } else if exists|i: int| 0 <= i < t.len() && (is_control(#[trigger] t[i]) || is_ws(t[i])) {
        Err("Vaultwarden proxy upstream must not contain whitespace/control"@)
    } else {
        Ok(t)
    }
}

/// Path is exactly `prefix` or under `prefix/`.
pub open spec fn spec_path_under_prefix(path: Seq<char>, prefix: Seq<char>) -> bool {
    let p = trim_end_char(prefix, '/');
    path == p || starts_with(path, p + "/"@)
}

/// Upstream path for a public path: `/` for the prefix itself, else the
/// remainder after `prefix/` with a leading slash.
pub open spec fn spec_strip_public_prefix(path: Seq<char>, prefix: Seq<char>) -> Option<Seq<char>> {
    let p = trim_end_char(prefix, '/');
    let ws = p + "/"@;
    if path == p || path == ws {
        Some("/"@)
    } else if starts_with(path, ws) {
        Some("/"@ + path.skip(ws.len() as int))
    } else {
        None
    }
}

/// `base + path [+ "?" + query]`.
pub open spec fn spec_build_upstream_uri(
    base: Seq<char>,
    stripped: Seq<char>,
    query: Option<Seq<char>>,
) -> Result<Seq<char>, Seq<char>> {
    let b = trim_end_char(base, '/');
    if stripped.len() > 0 && stripped[0] != '/' {
        Err("stripped path must start with / (got "@ + debug_str(stripped) + ")"@)
    } else {
        let path = if stripped.len() == 0 { "/"@ } else { stripped };
        match query {
            Some(q) if q.len() > 0 => Ok(b + path + "?"@ + q),
            _ => Ok(b + path),
        }
    }
}

/// WebSocket handshake header names.
pub open spec fn spec_is_websocket_header(name: Seq<char>) -> bool {
    let n = lower(name);
    ||| n == "upgrade"@
    ||| n == "connection"@
    ||| n == "sec-websocket-key"@
    ||| n == "sec-websocket-version"@
    ||| n == "sec-websocket-protocol"@
    ||| n == "sec-websocket-extensions"@
    ||| n == "sec-websocket-accept"@
}

/// Hop-by-hop header names (plus Host and Content-Length).
pub open spec fn spec_is_hop_by_hop(name: Seq<char>) -> bool {
    let n = lower(name);
    ||| n == "connection"@
    ||| n == "keep-alive"@
    ||| n == "proxy-authenticate"@
    ||| n == "proxy-authorization"@
    ||| n == "te"@
    ||| n == "trailers"@
    ||| n == "transfer-encoding"@
    ||| n == "upgrade"@
    ||| n == "host"@
    ||| n == "content-length"@
}

/// Request header kept for the upstream hop.
pub open spec fn spec_keep_request_header(name: Seq<char>, preserve_upgrade: bool) -> bool {
    let n = lower(name);
    if n == "host"@ || n == "content-length"@ {
        false
    } else if preserve_upgrade && spec_is_websocket_header(name) {
        true
    } else {
        !spec_is_hop_by_hop(name)
    }
}

/// The request fields forwarded upstream, in order.
pub open spec fn kept_request_fields<V>(src: Seq<(String, V)>, preserve_upgrade: bool) -> Seq<(String, V)> {
    src.filter(|h: (String, V)| spec_keep_request_header(h.0@, preserve_upgrade))
}

/// The reply fields passed to the client, in order.
pub open spec fn kept_response_fields<V>(src: Seq<(String, V)>, preserve_upgrade: bool) -> Seq<(String, V)> {
    src.filter(|h: (String, V)| spec_keep_response_header(h.0@, preserve_upgrade))
}

/// Response header kept for the client.
pub open spec fn spec_keep_response_header(name: Seq<char>, preserve_upgrade: bool) -> bool {
    let n = lower(name);
    if n == "transfer-encoding"@ || n == "content-length"@ {
        false
    } else if preserve_upgrade && spec_is_websocket_header(name) {
        true
    } else {
        !spec_is_hop_by_hop(name)
    }
}

/// Secret-shaped markers (matched with ASCII case ignored).
pub open spec fn secret_needles() -> Seq<Seq<char>> {
    seq!["admin_token="@, "authorization:"@, "cookie:"@, "bearer "@]
}

/// Length of the marker that starts at `i` in the lower-cased text, if any
/// (no two markers start alike, so at most one matches).
pub open spec fn secret_at(low: Seq<char>, i: int) -> Option<int> {
    if match_at(low, secret_needles()[0], i) {
        Some(secret_needles()[0].len() as int)
    } else if match_at(low, secret_needles()[1], i) {
        Some(secret_needles()[1].len() as int)
    } else if match_at(low, secret_needles()[2], i) {
        Some(secret_needles()[2].len() as int)
    } else if match_at(low, secret_needles()[3], i) {
        Some(secret_needles()[3].len() as int)
    } else {
        None
    }
}

/// The earliest marker at or after `i`: its start and length.
pub open spec fn first_secret(low: Seq<char>, i: int) -> Option<(int, int)>
    decreases low.len() - i,
{
    if i < 0 || i >= low.len() {
        None
    } else {
        match secret_at(low, i) {
            Some(l) => Some((i, l)),
            None => first_secret(low, i + 1),
        }
    }
}

/// Everything after the earliest marker in the text becomes `<redacted>`;
/// a text with no marker is unchanged.
pub open spec fn spec_redact(line: Seq<char>) -> Seq<char> {
    match first_secret(lower(line), 0) {
        Some((i, l)) => line.take(i + l) + "<redacted>"@,
        None => line,
    }
}

/// First position of `\r\n\r\n` plus four.
pub open spec fn spec_find_header_end(buf: Seq<u8>) -> Option<int>
    decreases buf.len(),
{
    if buf.len() < 4 {
        None
    } else if buf[0] == 13u8 && buf[1] == 10u8 && buf[2] == 13u8 && buf[3] == 10u8 {
        Some(4)
    } else {
        match spec_find_header_end(buf.drop_first()) {
            Some(i) => Some(i + 1),
            None => None,
        }
    }
}

/// `str::split_whitespace().nth(1)`: the second whitespace-separated token.
pub open spec fn second_ws_token(s: Seq<char>) -> Option<Seq<char>> {
    let t1 = trim_start(s);
    let rest = trim_start(t1.skip(first_ws(t1)));
    if rest.len() == 0 {
        None
    } else {
        Some(rest.take(first_ws(rest)))
    }
}

/// Index of the first whitespace char, or the length.
pub open spec fn first_ws(s: Seq<char>) -> int
    decreases s.len(),
{
    if s.len() == 0 {
        0
    } else if is_ws(s[0]) {
        0
    } else {
        1 + first_ws(s.drop_first())
    }
}

/// Status code: second whitespace-separated token as a `u16`.
pub open spec fn spec_parse_status_code(line: Seq<char>) -> Option<nat> {
    match second_ws_token(line) {
        Some(tok) => parse_unsigned(tok, 65535),
        None => None,
    }
}

// ---------------------------------------------------------------------------
// Lemmas
// ---------------------------------------------------------------------------

proof fn lemma_trim_start_len(s: Seq<char>)
    ensures
        trim_start(s).len() <= s.len(),
        trim_start(s).len() > 0 ==> !is_ws(trim_start(s)[0]),
        exists|k: int| 0 <= k <= s.len() && trim_start(s) == s.skip(k),
    decreases s.len(),
{
    if s.len() > 0 && is_ws(s[0]) {
        lemma_trim_start_len(s.drop_first());
        let k = choose|k: int| 0 <= k <= s.drop_first().len() && trim_start(s.drop_first()) == s.drop_first().skip(k);
        assert(s.drop_first().skip(k) =~= s.skip(k + 1));
    } else {
        assert(s.skip(0) =~= s);
    }
}

proof fn lemma_first_ws(s: Seq<char>)
    ensures
        0 <= first_ws(s) <= s.len(),
        forall|j: int| 0 <= j < first_ws(s) ==> !is_ws(#[trigger] s[j]),
        first_ws(s) < s.len() ==> is_ws(s[first_ws(s)]),
    decreases s.len(),
{
    if s.len() > 0 && !is_ws(s[0]) {
        lemma_first_ws(s.drop_first());
        assert forall|j: int| 0 <= j < first_ws(s) implies !is_ws(#[trigger] s[j]) by {
            if j > 0 {
                assert(s[j] == s.drop_first()[j - 1]);
            }
        }
    }
}

// ---------------------------------------------------------------------------
// Executable functions
// ---------------------------------------------------------------------------

fn env_truthy_chars(raw: &[char]) -> (r: bool)
    ensures
        r == spec_env_truthy(raw@),
{
    let t = trim_vec(raw);
    let l = lower_vec(t.as_slice());
    let a = chars_of("1");
    let b = chars_of("true");
    let c = chars_of("yes");
    let d = chars_of("on");
    eq(l.as_slice(), a.as_slice()) || eq(l.as_slice(), b.as_slice()) || eq(l.as_slice(), c.as_slice())
        || eq(l.as_slice(), d.as_slice())
}

/// Truthy env flag: `1`, `true`, `yes`, `on` (trimmed, ASCII case ignored).
pub fn env_truthy(raw: &str) -> (r: bool)
    ensures
        r == spec_env_truthy(raw@),
{
    let v = chars_of(raw);
    env_truthy_chars(v.as_slice())
}

pub(crate) fn slash_normalized_exec(t: &[char]) -> (r: Vec<char>)
    ensures
        r@ == slash_normalized(t@),
{
    let with_slash = if t.len() > 0 && t[0] == '/' {
        let w = slice_of(t, 0, t.len());
        assert(w@ =~= t@);
        w
    } else {
        let s = chars_of("/");
        proof {
            reveal_strlit("/");
            assert(s@ =~= seq!['/']);
        }
        concat(s.as_slice(), t)
    };
    trim_end_char_vec(with_slash.as_slice(), '/')
}

pub(crate) fn not_a_path_exec(t: &[char]) -> (r: bool)
    ensures
        r == not_a_path(t@),
{
    let sep = chars_of("://");
    contains_exec(t, sep.as_slice()) || has_char_exec(t, '?') || has_char_exec(t, '#')
        || has_char_exec(t, ' ')
}

fn msg(s: &str) -> (r: String)
    ensures
        r@ == s@,
{
    s.to_owned()
}

fn msg_with_debug(head: &str, v: &[char], tail: &str) -> (r: String)
    ensures
        r@ == head@ + debug_str(v@) + tail@,
{
    let h = chars_of(head);
    let d = debug_chars(v);
    let t = chars_of(tail);
    let x = concat(h.as_slice(), d.as_slice());
    let y = concat(x.as_slice(), t.as_slice());
    string_of(y.as_slice())
}

/// Normalize the public prefix: leading slash, no trailing slash, not
/// empty or `/`, only `[A-Za-z0-9/_.-]`.
#[verifier::loop_isolation(false)]
pub fn normalize_public_prefix(raw: &str) -> (r: Result<String, String>)
    ensures
        res_view(r) == spec_normalize_public_prefix(raw@),
{
    let t = trim_str(raw);
    if t.len() == 0 {
        return Err(msg("Vaultwarden proxy public prefix must not be empty"));
    }
    if not_a_path_exec(t.as_slice()) {
        return Err(msg_with_debug("Vaultwarden proxy public prefix must be a path (got ", t.as_slice(), ")"));
    }
    let n = slash_normalized_exec(t.as_slice());
    let root = chars_of("/");
    if n.len() == 0 || eq(n.as_slice(), root.as_slice()) {
        return Err(msg("Vaultwarden proxy public prefix must not be '/'"));
    }
    let mut i: usize = 0;
    while i < n.len()
        invariant
            i <= n.len(),
            forall|j: int| 0 <= j < i ==> prefix_char_ok(#[trigger] n@[j]),
        decreases n.len() - i,
    {
        let c = n[i];
        if !(('a' <= c && c <= 'z') || ('A' <= c && c <= 'Z') || ('0' <= c && c <= '9') || c == '/'
            || c == '-' || c == '_' || c == '.') {
            assert(!prefix_char_ok(n@[i as int]));
            assert(exists|j: int| 0 <= j < n@.len() && !prefix_char_ok(#[trigger] n@[j]));
            proof {
                reveal_strlit("");
                assert(n@ + ""@ =~= n@);
            }
            return Err(msg_with_debug("Vaultwarden proxy public prefix has unsafe characters: ", n.as_slice(), ""));
        }
        i += 1;
    }
    Ok(string_of(n.as_slice()))
}

proof fn lemma_trim_end_ws_slash_take(s: Seq<char>, b: int)
    requires
        0 <= b <= s.len(),
        forall|j: int| b <= j < s.len() ==> is_ws(#[trigger] s[j]) || s[j] == '/',
    ensures
        trim_end_ws_slash(s) == trim_end_ws_slash(s.take(b)),
    decreases s.len() - b,
{
    if b < s.len() {
        assert(s.drop_last().take(b) =~= s.take(b));
        lemma_trim_end_ws_slash_take(s.drop_last(), b);
    } else {
        assert(s.take(b) =~= s);
    }
}

/// Drops whitespace and `/` from the end until neither is left.
fn trim_end_ws_slash_vec(v: &[char]) -> (r: Vec<char>)
    ensures
        r@ == trim_end_ws_slash(v@),
{
    let mut b: usize = v.len();
    while b > 0 && (is_ws_exec(v[b - 1]) || v[b - 1] == '/')
        invariant
            b <= v.len(),
            forall|j: int| b <= j < v.len() ==> is_ws(#[trigger] v@[j]) || v@[j] == '/',
        decreases b,
    {
        b -= 1;
    }
    proof {
        lemma_trim_end_ws_slash_take(v@, b as int);
        let u = v@.take(b as int);
        if u.len() > 0 {
            assert(u.last() == v@[b - 1]);
        }
        assert(trim_end_ws_slash(u) == u);
    }
    slice_of(v, 0, b)
}

/// Normalize the upstream base URL: trimmed, no trailing slash, `http://`
/// or `https://`, no whitespace or control chars.
#[verifier::loop_isolation(false)]
pub fn normalize_upstream_base(raw: &str) -> (r: Result<String, String>)
    ensures
        res_view(r) == spec_normalize_upstream_base(raw@),
{
    let a = trim_str(raw);
    let t = trim_end_ws_slash_vec(a.as_slice());
    if t.len() == 0 {
        return Err(msg("Vaultwarden proxy upstream must not be empty"));
    }
    let h = chars_of("http://");
    let hs = chars_of("https://");
    if !(starts_with_exec(t.as_slice(), h.as_slice()) || starts_with_exec(t.as_slice(), hs.as_slice())) {
        return Err(msg_with_debug("Vaultwarden proxy upstream must be http(s):// (got ", t.as_slice(), ")"));
    }
    let mut i: usize = 0;
    while i < t.len()
        invariant
            i <= t.len(),
            forall|j: int| 0 <= j < i ==> !(is_control(#[trigger] t@[j]) || is_ws(t@[j])),
        decreases t.len() - i,
    {
        if is_control_exec(t[i]) || is_ws_exec(t[i]) {
            assert(is_control(t@[i as int]) || is_ws(t@[i as int]));
            return Err(msg("Vaultwarden proxy upstream must not contain whitespace/control"));
        }
        i += 1;
    }
    Ok(string_of(t.as_slice()))
}

/// Path is exactly the prefix or under `prefix/`.
pub fn path_under_prefix(path: &str, prefix: &str) -> (r: bool)
    ensures
        r == spec_path_under_prefix(path@, prefix@),
{
    let pv = chars_of(prefix);
    let p = trim_end_char_vec(pv.as_slice(), '/');
    let path_v = chars_of(path);
    let slash = chars_of("/");
    let ps = concat(p.as_slice(), slash.as_slice());
    eq(path_v.as_slice(), p.as_slice()) || starts_with_exec(path_v.as_slice(), ps.as_slice())
}

/// Strips the public prefix for the upstream path: `/vault` and `/vault/`
/// become `/`, `/vault/api/foo` becomes `/api/foo`, other paths None.
pub fn strip_public_prefix(path: &str, prefix: &str) -> (r: Option<String>)
    ensures
        opt_view(r) == spec_strip_public_prefix(path@, prefix@),
{
    let pv = chars_of(prefix);
    let p = trim_end_char_vec(pv.as_slice(), '/');
    let path_v = chars_of(path);
    let slash = chars_of("/");
    if eq(path_v.as_slice(), p.as_slice()) {
        return Some(string_of(slash.as_slice()));
    }
    let ws = concat(p.as_slice(), slash.as_slice());
    if eq(path_v.as_slice(), ws.as_slice()) {
        return Some(string_of(slash.as_slice()));
    }
    if starts_with_exec(path_v.as_slice(), ws.as_slice()) {
        let rest = slice_of(path_v.as_slice(), ws.len(), path_v.len());
        let out = concat(slash.as_slice(), rest.as_slice());
        return Some(string_of(out.as_slice()));
    }
    None
}

/// Upstream URI from base + stripped path + optional non-empty query.
pub fn build_upstream_uri(upstream_base: &str, stripped_path: &str, query: Option<&str>) -> (r: Result<String, String>)
    ensures
        res_view(r) == spec_build_upstream_uri(
            upstream_base@,
            stripped_path@,
            match query {
                Some(q) => Some(q@),
                None => None,
            },
        ),
{
    let bv = chars_of(upstream_base);
    let base = trim_end_char_vec(bv.as_slice(), '/');
    let sp = chars_of(stripped_path);
    if sp.len() > 0 && sp[0] != '/' {
        return Err(msg_with_debug("stripped path must start with / (got ", sp.as_slice(), ")"));
    }
    let path = if sp.len() == 0 {
        chars_of("/")
    } else {
        sp
    };
    let mut url = concat(base.as_slice(), path.as_slice());
    if let Some(q) = query {
        let qv = chars_of(q);
        if qv.len() > 0 {
            let qm = chars_of("?");
            extend(&mut url, qm.as_slice());
            extend(&mut url, qv.as_slice());
        }
    }
    Ok(string_of(url.as_slice()))
}

/// Header names always preserved for WebSocket handshakes.
pub fn is_websocket_header(name: &str) -> (r: bool)
    ensures
        r == spec_is_websocket_header(name@),
{
    let v = chars_of(name);
    let n = lower_vec(v.as_slice());
    let a = chars_of("upgrade");
    let b = chars_of("connection");
    let c = chars_of("sec-websocket-key");
    let d = chars_of("sec-websocket-version");
    let e = chars_of("sec-websocket-protocol");
    let f = chars_of("sec-websocket-extensions");
    let g = chars_of("sec-websocket-accept");
    eq(n.as_slice(), a.as_slice()) || eq(n.as_slice(), b.as_slice()) || eq(n.as_slice(), c.as_slice())
        || eq(n.as_slice(), d.as_slice()) || eq(n.as_slice(), e.as_slice()) || eq(n.as_slice(), f.as_slice())
        || eq(n.as_slice(), g.as_slice())
}

/// Hop-by-hop header names (plus Host and Content-Length).
pub fn is_hop_by_hop_name(name: &str) -> (r: bool)
    ensures
        r == spec_is_hop_by_hop(name@),
{
    let v = chars_of(name);
    let n = lower_vec(v.as_slice());
    let a = chars_of("connection");
    let b = chars_of("keep-alive");
    let c = chars_of("proxy-authenticate");
    let d = chars_of("proxy-authorization");
    let e = chars_of("te");
    let f = chars_of("trailers");
    let g = chars_of("transfer-encoding");
    let h = chars_of("upgrade");
    let i = chars_of("host");
    let j = chars_of("content-length");
    eq(n.as_slice(), a.as_slice()) || eq(n.as_slice(), b.as_slice()) || eq(n.as_slice(), c.as_slice())
        || eq(n.as_slice(), d.as_slice()) || eq(n.as_slice(), e.as_slice()) || eq(n.as_slice(), f.as_slice())
        || eq(n.as_slice(), g.as_slice()) || eq(n.as_slice(), h.as_slice()) || eq(n.as_slice(), i.as_slice())
        || eq(n.as_slice(), j.as_slice())
}

/// Whether a request header is copied to the upstream hop: Host and
/// Content-Length never; WebSocket handshake headers when upgrading;
/// otherwise everything that is not hop-by-hop.
pub fn keep_request_header(name: &str, preserve_upgrade: bool) -> (r: bool)
    ensures
        r == spec_keep_request_header(name@, preserve_upgrade),
{
    let v = chars_of(name);
    let n = lower_vec(v.as_slice());
    let host = chars_of("host");
    let cl = chars_of("content-length");
    if eq(n.as_slice(), host.as_slice()) || eq(n.as_slice(), cl.as_slice()) {
        return false;
    }
    if preserve_upgrade && is_websocket_header(name) {
        return true;
    }
    !is_hop_by_hop_name(name)
}

/// Whether a response header is copied to the client: Transfer-Encoding
/// and Content-Length never; WebSocket handshake headers on upgrade;
/// otherwise everything that is not hop-by-hop.
pub fn keep_response_header(name: &str, preserve_upgrade: bool) -> (r: bool)
    ensures
        r == spec_keep_response_header(name@, preserve_upgrade),
{
    let v = chars_of(name);
    let n = lower_vec(v.as_slice());
    let te = chars_of("transfer-encoding");
    let cl = chars_of("content-length");
    if eq(n.as_slice(), te.as_slice()) || eq(n.as_slice(), cl.as_slice()) {
        return false;
    }
    if preserve_upgrade && is_websocket_header(name) {
        return true;
    }
    !is_hop_by_hop_name(name)
}

/// Request headers for the upstream hop, in order (see [`keep_request_header`]).
pub fn filter_request_headers<V>(src: Vec<(String, V)>, preserve_upgrade: bool) -> (r: Vec<(String, V)>)
    ensures
        r@ == kept_request_fields(src@, preserve_upgrade),
{
    let ghost orig = src@;
    let mut out: Vec<(String, V)> = Vec::new();
    let mut rest = src;
    let mut k: usize = 0;
    let n = rest.len();
    while rest.len() > 0
        invariant
            rest@ == orig.skip(k as int),
            k <= n,
            n == orig.len(),
            out@ == orig.take(k as int).filter(|h: (String, V)| spec_keep_request_header(h.0@, preserve_upgrade)),
        decreases rest.len(),
    {
        let h = rest.remove(0);
        proof {
            assert(h == orig[k as int]);
            assert(rest@ =~= orig.skip(k + 1));
            assert(orig.take(k + 1) =~= orig.take(k as int).push(h));
            reveal(Seq::filter);
            assert(orig.take(k + 1).drop_last() =~= orig.take(k as int));
        }
        if keep_request_header(h.0.as_str(), preserve_upgrade) {
            out.push(h);
        }
        k += 1;
    }
    assert(orig.take(n as int) =~= orig);
    out
}

/// Response headers for the client, in order (see [`keep_response_header`]).
pub fn filter_response_headers<V>(src: Vec<(String, V)>, preserve_upgrade: bool) -> (r: Vec<(String, V)>)
    ensures
        r@ == kept_response_fields(src@, preserve_upgrade),
{
    let ghost orig = src@;
    let mut out: Vec<(String, V)> = Vec::new();
    let mut rest = src;
    let mut k: usize = 0;
    let n = rest.len();
    while rest.len() > 0
        invariant
            rest@ == orig.skip(k as int),
            k <= n,
            n == orig.len(),
            out@ == orig.take(k as int).filter(|h: (String, V)| spec_keep_response_header(h.0@, preserve_upgrade)),
        decreases rest.len(),
    {
        let h = rest.remove(0);
        proof {
            assert(h == orig[k as int]);
            assert(rest@ =~= orig.skip(k + 1));
            assert(orig.take(k + 1) =~= orig.take(k as int).push(h));
            reveal(Seq::filter);
            assert(orig.take(k + 1).drop_last() =~= orig.take(k as int));
        }
        if keep_response_header(h.0.as_str(), preserve_upgrade) {
            out.push(h);
        }
        k += 1;
    }
    assert(orig.take(n as int) =~= orig);
    out
}

/// Redacts secret-shaped text for logs: from the earliest marker in the
/// text (`admin_token=`, `authorization:`, `cookie:`, `bearer `, ASCII case
/// ignored) everything after the marker becomes `<redacted>`.
pub fn redact_secrets_in_text(line: &str) -> (r: String)
    ensures
        r@ == spec_redact(line@),
{
    let v = chars_of(line);
    let low = lower_vec(v.as_slice());
    proof {
        lemma_lower_len(v@);
    }
    let n0 = chars_of("admin_token=");
    let n1 = chars_of("authorization:");
    let n2 = chars_of("cookie:");
    let n3 = chars_of("bearer ");
    proof {
        reveal_strlit("admin_token=");
        reveal_strlit("authorization:");
        reveal_strlit("cookie:");
        reveal_strlit("bearer ");
    }
    let mut i: usize = 0;
    while i < low.len()
        invariant
            i <= low.len(),
            low@ == lower(v@),
            low@.len() == v@.len(),
            v@ == line@,
            n0@ == secret_needles()[0],
            n1@ == secret_needles()[1],
            n2@ == secret_needles()[2],
            n3@ == secret_needles()[3],
            n0@.len() > 0 && n1@.len() > 0 && n2@.len() > 0 && n3@.len() > 0,
            first_secret(low@, 0) == first_secret(low@, i as int),
        decreases low.len() - i,
    {
        let l: usize = if match_at_exec(low.as_slice(), n0.as_slice(), i) {
            n0.len()
        } else if match_at_exec(low.as_slice(), n1.as_slice(), i) {
            n1.len()
        } else if match_at_exec(low.as_slice(), n2.as_slice(), i) {
            n2.len()
        } else if match_at_exec(low.as_slice(), n3.as_slice(), i) {
            n3.len()
        } else {
            0
        };
        if l > 0 {
            assert(secret_at(low@, i as int) == Some(l as int));
            assert(i + l <= v.len());
            let prefix = slice_of(v.as_slice(), 0, i + l);
            let red = chars_of("<redacted>");
            let out = concat(prefix.as_slice(), red.as_slice());
            return string_of(out.as_slice());
        }
        assert(secret_at(low@, i as int) is None);
        i += 1;
    }
    assert(first_secret(low@, i as int) is None);
    string_of(v.as_slice())
}

/// End of an HTTP header block: the first `\r\n\r\n`, plus four.
pub fn find_header_end(buf: &[u8]) -> (r: Option<usize>)
    ensures
        r matches Some(p) ==> spec_find_header_end(buf@) == Some(p as int),
        r is None ==> spec_find_header_end(buf@) is None,
{
    if buf.len() < 4 {
        return None;
    }
    let mut i: usize = 0;
    assert(buf@.skip(0) =~= buf@);
    while i <= buf.len() - 4
        invariant
            buf.len() >= 4,
            i <= buf.len(),
            spec_find_header_end(buf@) == (match spec_find_header_end(buf@.skip(i as int)) {
                Some(p) => Some(p + i),
                None => None,
            }),
        decreases buf.len() - i,
    {
        proof {
            let t = buf@.skip(i as int);
            assert(t[0] == buf@[i as int] && t[1] == buf@[i + 1] && t[2] == buf@[i + 2] && t[3]
                == buf@[i + 3]);
            assert(t.drop_first() =~= buf@.skip(i + 1));
        }
        if buf[i] == 13 && buf[i + 1] == 10 && buf[i + 2] == 13 && buf[i + 3] == 10 {
            return Some(i + 4);
        }
        i += 1;
    }
    proof {
        assert(buf@.skip(i as int).len() < 4);
    }
    None
}

/// Index of the first non-whitespace char at or after `i`.
fn skip_ws(v: &[char], i: usize) -> (j: usize)
    requires
        i <= v.len(),
    ensures
        i <= j <= v.len(),
        v@.skip(j as int) == trim_start(v@.skip(i as int)),
{
    let mut j: usize = i;
    while j < v.len() && is_ws_exec(v[j])
        invariant
            i <= j <= v.len(),
            forall|t: int| i <= t < j ==> is_ws(#[trigger] v@[t]),
        decreases v.len() - j,
    {
        j += 1;
    }
    proof {
        let s = v@.skip(i as int);
        assert forall|t: int| 0 <= t < j - i implies is_ws(#[trigger] s[t]) by {
            assert(s[t] == v@[i + t]);
        }
        lemma_trim_start_skip(s, j - i);
        assert(s.skip(j - i) =~= v@.skip(j as int));
        let r = v@.skip(j as int);
        if r.len() > 0 {
            assert(r[0] == v@[j as int]);
        }
        assert(trim_start(r) == r);
    }
    j
}

/// Index of the first whitespace char at or after `i`.
fn skip_word(v: &[char], i: usize) -> (j: usize)
    requires
        i <= v.len(),
    ensures
        i <= j <= v.len(),
        j - i == first_ws(v@.skip(i as int)),
{
    let mut j: usize = i;
    while j < v.len() && !is_ws_exec(v[j])
        invariant
            i <= j <= v.len(),
            forall|t: int| i <= t < j ==> !is_ws(#[trigger] v@[t]),
        decreases v.len() - j,
    {
        j += 1;
    }
    proof {
        let s = v@.skip(i as int);
        lemma_first_ws(s);
        let k = first_ws(s);
        if k < j - i {
            assert(s[k] == v@[i + k]);
        }
        if k > j - i {
            assert(s[j - i] == v@[j as int]);
        }
    }
    j
}

/// Status code of an HTTP status line: the second whitespace-separated
/// token parsed as a `u16`.
pub fn parse_status_code(status_line: &str) -> (r: Option<u16>)
    ensures
        r matches Some(c) ==> spec_parse_status_code(status_line@) == Some(c as nat),
        r is None ==> spec_parse_status_code(status_line@) is None,
{
    let v = chars_of(status_line);
    let a = skip_ws(v.as_slice(), 0);
    let b = skip_word(v.as_slice(), a);
    let c = skip_ws(v.as_slice(), b);
    let d = skip_word(v.as_slice(), c);
    proof {
        assert(v@.skip(0) =~= v@);
        let t1 = trim_start(v@);
        assert(t1 == v@.skip(a as int));
        assert(t1.skip(first_ws(t1)) =~= v@.skip(b as int));
        let rest = v@.skip(c as int);
        assert(rest.take(d - c) =~= v@.subrange(c as int, d as int));
    }
    if c == v.len() {
        return None;
    }
    let tok = slice_of(v.as_slice(), c, d);
    match parse_unsigned_exec(tok.as_slice(), 65535) {
        Some(n) => Some(n as u16),
        None => None,
    }
}

impl VaultwardenProxyConfig {
    /// Defaults: off, `/vault`, `http://127.0.0.1:8222`, 32 MiB.
    pub fn default() -> (r: Self)
        ensures
            r@ == (VaultConfigView {
                enable: false,
                public_prefix: DEFAULT_PUBLIC_PREFIX@,
                upstream_base: DEFAULT_UPSTREAM_BASE@,
                body_limit_bytes: DEFAULT_BODY_LIMIT_BYTES as nat,
            }),
    {
        VaultwardenProxyConfig {
            enable: false,
            public_prefix: msg(DEFAULT_PUBLIC_PREFIX),
            upstream_base: msg(DEFAULT_UPSTREAM_BASE),
            body_limit_bytes: DEFAULT_BODY_LIMIT_BYTES,
        }
    }

    /// Configuration from the four env values (`SURMOUNT_VAULTWARDEN_PROXY`,
    /// `..._PREFIX`, `..._UPSTREAM`, `..._BODY_LIMIT`); unset or blank
    /// values take the defaults. The body limit must parse as a `usize`
    /// and be at least 1024.
    pub fn from_env_values(
        enable: Option<String>,
        prefix: Option<String>,
        upstream: Option<String>,
        body_limit: Option<String>,
    ) -> (r: Result<Self, String>)
        ensures
            vault_config_view(r) == spec_vault_config(opt_view(enable), opt_view(prefix), opt_view(upstream), opt_view(body_limit)),
    {
        let en = match enable {
            Some(v) => env_truthy(v.as_str()),
            None => false,
        };
        let public_prefix = match prefix {
            Some(v) => {
                let t = trim_str(v.as_str());
                if t.len() > 0 {
                    match normalize_public_prefix(v.as_str()) {
                        Ok(p) => p,
                        Err(e) => return Err(e),
                    }
                } else {
                    msg(DEFAULT_PUBLIC_PREFIX)
                }
            },
            None => msg(DEFAULT_PUBLIC_PREFIX),
        };
        let upstream_base = match upstream {
            Some(v) => {
                let t = trim_str(v.as_str());
                if t.len() > 0 {
                    match normalize_upstream_base(v.as_str()) {
                        Ok(u) => u,
                        Err(e) => return Err(e),
                    }
                } else {
                    msg(DEFAULT_UPSTREAM_BASE)
                }
            },
            None => msg(DEFAULT_UPSTREAM_BASE),
        };
        let body_limit_bytes = match body_limit {
            Some(v) => {
                let t = trim_str(v.as_str());
                if t.len() > 0 {
                    let ts = string_of(t.as_slice());
                    match parse_usize(ts.as_str()) {
                        Ok(n) => {
                            if n < 1024 {
                                return Err(msg("SURMOUNT_VAULTWARDEN_PROXY_BODY_LIMIT must be >= 1024 bytes"));
                            }
                            n
                        },
                        Err(reason) => {
                            let head = chars_of("SURMOUNT_VAULTWARDEN_PROXY_BODY_LIMIT invalid: ");
                            let rv = chars_of(reason.as_str());
                            let out = concat(head.as_slice(), rv.as_slice());
                            return Err(string_of(out.as_slice()));
                        },
                    }
                } else {
                    DEFAULT_BODY_LIMIT_BYTES
                }
            },
            None => DEFAULT_BODY_LIMIT_BYTES,
        };
        Ok(VaultwardenProxyConfig { enable: en, public_prefix, upstream_base, body_limit_bytes })
    }

    /// Configuration read through `get` (the process env or a test map).
    pub fn from_env_map(get: impl Fn(&str) -> Option<String>) -> (r: Result<Self, String>)
        requires
            forall|k: &str| #[trigger] call_requires(get, (k,)),
        ensures
            exists|a: Option<String>, b: Option<String>, c: Option<String>, d: Option<String>|
                {
                    &&& vault_env_reads(get, a, b, c, d)
                    &&& vault_config_view(r) == spec_vault_config(opt_view(a), opt_view(b), opt_view(c), opt_view(d))
                },
    {
        let a = get("SURMOUNT_VAULTWARDEN_PROXY");
        let b = get("SURMOUNT_VAULTWARDEN_PROXY_PREFIX");
        let c = get("SURMOUNT_VAULTWARDEN_PROXY_UPSTREAM");
        let d = get("SURMOUNT_VAULTWARDEN_PROXY_BODY_LIMIT");
        proof {
            assert(vault_env_reads(get, a, b, c, d));
        }
        Self::from_env_values(a, b, c, d)
    }

    /// True when `path` is exactly the prefix or under it.
    pub fn matches_path(&self, path: &str) -> (r: bool)
        ensures
            r == spec_path_under_prefix(path@, self.public_prefix@),
    {
        path_under_prefix(path, self.public_prefix.as_str())
    }

    /// Same-origin console href: the prefix (trailing slashes removed) plus `/`.
    pub fn same_origin_href(&self) -> (r: String)
        ensures
            r@ == trim_end_char(self.public_prefix@, '/') + "/"@,
    {
        let v = chars_of(self.public_prefix.as_str());
        let p = trim_end_char_vec(v.as_slice(), '/');
        let s = chars_of("/");
        let out = concat(p.as_slice(), s.as_slice());
        string_of(out.as_slice())
    }
}

/// The values `get` returned for the four Vaultwarden keys.
pub open spec fn vault_env_reads<F: Fn(&str) -> Option<String>>(
    get: F,
    a: Option<String>,
    b: Option<String>,
    c: Option<String>,
    d: Option<String>,
) -> bool {
    &&& exists|k: &str| k@ == "SURMOUNT_VAULTWARDEN_PROXY"@ && call_ensures(get, (k,), a)
    &&& exists|k: &str| k@ == "SURMOUNT_VAULTWARDEN_PROXY_PREFIX"@ && call_ensures(get, (k,), b)
    &&& exists|k: &str| k@ == "SURMOUNT_VAULTWARDEN_PROXY_UPSTREAM"@ && call_ensures(get, (k,), c)
    &&& exists|k: &str| k@ == "SURMOUNT_VAULTWARDEN_PROXY_BODY_LIMIT"@ && call_ensures(get, (k,), d)
}

/// The configuration (or the refusal message) the four env values give.
pub open spec fn spec_vault_config(
    enable: Option<Seq<char>>,
    prefix: Option<Seq<char>>,
    upstream: Option<Seq<char>>,
    body_limit: Option<Seq<char>>,
) -> Result<VaultConfigView, Seq<char>> {
    let en = match enable {
        Some(v) => spec_env_truthy(v),
        None => false,
    };
    let pre: Result<Seq<char>, Seq<char>> = match prefix {
        Some(v) if trim(v).len() > 0 => spec_normalize_public_prefix(v),
        _ => Ok(DEFAULT_PUBLIC_PREFIX@),
    };
    let up: Result<Seq<char>, Seq<char>> = match upstream {
        Some(v) if trim(v).len() > 0 => spec_normalize_upstream_base(v),
        _ => Ok(DEFAULT_UPSTREAM_BASE@),
    };
    let lim: Result<nat, Seq<char>> = match body_limit {
        Some(v) if trim(v).len() > 0 => match parse_unsigned(trim(v), usize::MAX as nat) {
            Some(n) => if n < 1024 {
                Err("SURMOUNT_VAULTWARDEN_PROXY_BODY_LIMIT must be >= 1024 bytes"@)
            } else {
                Ok(n)
            },
            None => Err("SURMOUNT_VAULTWARDEN_PROXY_BODY_LIMIT invalid: "@ + parse_int_error_text(trim(v), usize::MAX as nat)),
        },
        _ => Ok(DEFAULT_BODY_LIMIT_BYTES as nat),
    };
    match pre {
        Err(e) => Err(e),
        Ok(p) => match up {
            Err(e) => Err(e),
            Ok(u) => match lim {
                Err(e) => Err(e),
                Ok(n) => Ok(VaultConfigView { enable: en, public_prefix: p, upstream_base: u, body_limit_bytes: n }),
            },
        },
    }
}

/// A configuration result by its view.
pub open spec fn vault_config_view(r: Result<VaultwardenProxyConfig, String>) -> Result<VaultConfigView, Seq<char>> {
    match r {
        Ok(c) => Ok(c@),
        Err(e) => Err(e@),
    }
}


// ---------------------------------------------------------------------------
// Request decisions
// ---------------------------------------------------------------------------

/// `Upgrade: websocket` (ASCII case ignored) and a `Connection` list with
/// an `upgrade` token; each header given as its text when it is visible
/// ASCII.
pub open spec fn spec_is_websocket_upgrade(upgrade: Option<Seq<char>>, connection: Option<Seq<char>>) -> bool {
    match upgrade {
        Some(u) => eq_ignore_case(u, "websocket"@) && match connection {
            Some(c) => exists|i: int|
                0 <= i < split_char(c, ',').len() && eq_ignore_case(trim(#[trigger] split_char(c, ',')[i]), "upgrade"@),
            None => false,
        },
        None => false,
    }
}

/// Some comma-separated item of `c`, trimmed, is `upgrade` (ASCII case
/// ignored).
fn lists_upgrade(c: &str) -> (r: bool)
    ensures
        r == exists|i: int|
            0 <= i < split_char(c@, ',').len() && eq_ignore_case(trim(#[trigger] split_char(c@, ',')[i]), "upgrade"@),
{
    let cv = chars_of(c);
    let parts = split_char_exec(cv.as_slice(), ',');
    let ghost pieces = split_char(c@, ',');
    let up = chars_of("upgrade");
    let mut i: usize = 0;
    assert(parts@.map_values(|p: Vec<char>| p@).len() == parts@.len());
    while i < parts.len()
        invariant
            i <= parts.len(),
            up@ == "upgrade"@,
            pieces == split_char(c@, ','),
            parts@.len() == pieces.len(),
            parts@.map_values(|p: Vec<char>| p@) == pieces,
            forall|j: int| 0 <= j < i ==> !eq_ignore_case(trim(#[trigger] pieces[j]), "upgrade"@),
        decreases parts.len() - i,
    {
        let t = trim_vec(parts[i].as_slice());
        assert(parts@[i as int]@ == pieces[i as int]);
        if eq_ignore_case_exec(t.as_slice(), up.as_slice()) {
            assert(eq_ignore_case(trim(pieces[i as int]), "upgrade"@));
            return true;
        }
        i += 1;
    }
    false
}

/// The client asks for a WebSocket upgrade.
pub fn is_websocket_upgrade(upgrade: Option<&str>, connection: Option<&str>) -> (r: bool)
    ensures
        r == spec_is_websocket_upgrade(
            match upgrade { Some(u) => Some(u@), None => None },
            match connection { Some(c) => Some(c@), None => None },
        ),
{
    match upgrade {
        None => false,
        Some(u) => {
            let uv = chars_of(u);
            let ws = chars_of("websocket");
            if !eq_ignore_case_exec(uv.as_slice(), ws.as_slice()) {
                return false;
            }
            match connection {
                None => false,
                Some(c) => lists_upgrade(c),
            }
        },
    }
}

/// What the Vaultwarden handler does with one request.
#[derive(Debug, PartialEq, Eq)]
pub enum VaultRoute {
    /// 404: proxy off, or the path is outside the prefix.
    NotFound,
    /// 308 to this same-origin location (the bare prefix gets its slash).
    Redirect(String),
    /// 502: no upstream URI could be built.
    BadGateway,
    /// WebSocket tunnel to this upstream URI.
    WebSocket(String),
    /// Plain HTTP forward to this upstream URI.
    Http(String),
}

/// Spec view of [`VaultRoute`].
pub enum VaultRouteView {
    NotFound,
    Redirect(Seq<char>),
    BadGateway,
    WebSocket(Seq<char>),
    Http(Seq<char>),
}

impl VaultRoute {
    pub open spec fn view(&self) -> VaultRouteView {
        match self {
            VaultRoute::NotFound => VaultRouteView::NotFound,
            VaultRoute::Redirect(l) => VaultRouteView::Redirect(l@),
            VaultRoute::BadGateway => VaultRouteView::BadGateway,
            VaultRoute::WebSocket(u) => VaultRouteView::WebSocket(u@),
            VaultRoute::Http(u) => VaultRouteView::Http(u@),
        }
    }
}

/// The route of a request with `path`, `query` and upgrade wish.
pub open spec fn spec_vault_route(c: VaultConfigView, path: Seq<char>, query: Option<Seq<char>>, wants_ws: bool) -> VaultRouteView {
    if !c.enable {
        VaultRouteView::NotFound
    } else if path == c.public_prefix {
        VaultRouteView::Redirect(c.public_prefix + "/"@)
    } else {
        match spec_strip_public_prefix(path, c.public_prefix) {
            None => VaultRouteView::NotFound,
            Some(stripped) => match spec_build_upstream_uri(c.upstream_base, stripped, query) {
                Err(_) => VaultRouteView::BadGateway,
                Ok(u) => if wants_ws { VaultRouteView::WebSocket(u) } else { VaultRouteView::Http(u) },
            },
        }
    }
}

impl VaultwardenProxyConfig {
    /// Route of one request under the public prefix: 404 when off or
    /// outside the prefix, the bare prefix redirected to `prefix/`, else a
    /// forward (WebSocket when the client asks for an upgrade) to the
    /// upstream URI, or 502 when none can be built.
    pub fn route(&self, path: &str, query: Option<&str>, wants_ws: bool) -> (r: VaultRoute)
        ensures
            r@ == spec_vault_route(self@, path@, match query { Some(q) => Some(q@), None => None }, wants_ws),
    {
        if !self.enable {
            return VaultRoute::NotFound;
        }
        let pv = chars_of(path);
        let pre = chars_of(self.public_prefix.as_str());
        if eq(pv.as_slice(), pre.as_slice()) {
            let slash = chars_of("/");
            let loc = concat(pre.as_slice(), slash.as_slice());
            return VaultRoute::Redirect(string_of(loc.as_slice()));
        }
        match strip_public_prefix(path, self.public_prefix.as_str()) {
            None => VaultRoute::NotFound,
            Some(stripped) => match build_upstream_uri(self.upstream_base.as_str(), stripped.as_str(), query) {
                Err(_) => VaultRoute::BadGateway,
                Ok(u) => if wants_ws {
                    VaultRoute::WebSocket(u)
                } else {
                    VaultRoute::Http(u)
                },
            },
        }
    }
}


// ---------------------------------------------------------------------------
// Laws
// ---------------------------------------------------------------------------

proof fn lemma_trim_end_ws_slash_clean(s: Seq<char>)
    ensures
        trim_end_ws_slash(s).len() > 0 ==> {
            let t = trim_end_ws_slash(s);
            t.last() != '/' && !is_ws(t.last())
        },
    decreases s.len(),
{
    if s.len() > 0 && (is_ws(s.last()) || s.last() == '/') {
        lemma_trim_end_ws_slash_clean(s.drop_last());
    }
}

/// An accepted upstream base is `http://` or `https://`, never ends in `/`
/// and holds no whitespace or control character.
pub proof fn law_upstream_base_clean(raw: Seq<char>)
    ensures
        spec_normalize_upstream_base(raw) matches Ok(u) ==> {
            &&& starts_with(u, "http://"@) || starts_with(u, "https://"@)
            &&& u.len() > 0 && u.last() != '/'
            &&& forall|i: int| 0 <= i < u.len() ==> !is_control(#[trigger] u[i]) && !is_ws(u[i])
        },
{
    lemma_trim_end_ws_slash_clean(trim(raw));
}

/// The prefix (trailing slashes dropped) followed by the stripped upstream
/// path rebuilds the public path; the bare prefix maps to `/`.
pub proof fn law_prefix_plus_stripped_rebuilds_path(path: Seq<char>, prefix: Seq<char>)
    ensures
        spec_strip_public_prefix(path, prefix) matches Some(s) ==> {
            let p = trim_end_char(prefix, '/');
            (path == p && s == "/"@) || p + s == path
        },
{
    let p = trim_end_char(prefix, '/');
    let ws = p + "/"@;
    reveal_strlit("/");
    if path == ws {
        assert(p + "/"@ == path);
    } else if path != p && starts_with(path, ws) {
        assert(p + ("/"@ + path.skip(ws.len() as int)) =~= path) by {
            assert(path.take(ws.len() as int) == ws);
            assert forall|i: int| 0 <= i < path.len() implies (p + ("/"@ + path.skip(ws.len() as int)))[i] == path[i] by {
                if i < ws.len() {
                    assert(path.take(ws.len() as int)[i] == ws[i]);
                }
            }
        }
    }
}

proof fn lemma_needles_literal()
    ensures
        secret_needles()[0] =~= seq!['a', 'd', 'm', 'i', 'n', '_', 't', 'o', 'k', 'e', 'n', '='],
        secret_needles()[1] =~= seq!['a', 'u', 't', 'h', 'o', 'r', 'i', 'z', 'a', 't', 'i', 'o', 'n', ':'],
        secret_needles()[2] =~= seq!['c', 'o', 'o', 'k', 'i', 'e', ':'],
        secret_needles()[3] =~= seq!['b', 'e', 'a', 'r', 'e', 'r', ' '],
{
    reveal_strlit("admin_token=");
    reveal_strlit("authorization:");
    reveal_strlit("cookie:");
    reveal_strlit("bearer ");
}

/// No marker occurs inside another one past its first char.
proof fn lemma_needle_not_inside(m: int, k: int, o: int)
    requires
        0 <= m < 4,
        0 <= k < 4,
        1 <= o,
        o + secret_needles()[k].len() <= secret_needles()[m].len(),
    ensures
        secret_needles()[m][o] != secret_needles()[k][0],
{
    lemma_needles_literal();
}

/// At a position where marker `k` matches, `secret_at` reports a marker
/// of that length.
proof fn lemma_secret_at_match(low: Seq<char>, j: int, k: int)
    requires
        0 <= k < 4,
        match_at(low, secret_needles()[k], j),
    ensures
        secret_at(low, j) == Some(secret_needles()[k].len() as int),
{
    lemma_needles_literal();
    let n = secret_needles();
    assert(low[j] == n[k][0]) by {
        assert(low.subrange(j, j + n[k].len())[0] == n[k][0]);
    }
    assert(low[j + 1] == n[k][1]) by {
        assert(low.subrange(j, j + n[k].len())[1] == n[k][1]);
    }
    if match_at(low, n[0], j) {
        assert(low.subrange(j, j + n[0].len())[1] == n[0][1]);
    }
    if match_at(low, n[1], j) {
        assert(low.subrange(j, j + n[1].len())[1] == n[1][1]);
    }
    if match_at(low, n[2], j) {
        assert(low.subrange(j, j + n[2].len())[0] == n[2][0]);
    }
    if match_at(low, n[3], j) {
        assert(low.subrange(j, j + n[3].len())[0] == n[3][0]);
    }
}

proof fn lemma_first_secret_before(low: Seq<char>, i: int, j: int, k: int)
    requires
        0 <= i <= j,
        0 <= k < 4,
        match_at(low, secret_needles()[k], j),
    ensures
        first_secret(low, i) matches Some((p, l)) && i <= p <= j && secret_at(low, p) == Some(l) && (p == j ==> l
            == secret_needles()[k].len()),
    decreases j - i,
{
    lemma_needles_literal();
    lemma_secret_at_match(low, j, k);
    assert(j < low.len());
    if secret_at(low, i) is None {
        lemma_first_secret_before(low, i + 1, j, k);
    }
}

/// What `secret_at` reported is a match of one marker.
proof fn lemma_secret_at_is_match(low: Seq<char>, p: int)
    requires
        secret_at(low, p) is Some,
    ensures
        exists|m: int| 0 <= m < 4 && match_at(low, secret_needles()[m], p) && secret_at(low, p) == Some(
            secret_needles()[m].len() as int,
        ),
{
    if match_at(low, secret_needles()[0], p) {
        assert(match_at(low, secret_needles()[0], p));
    } else if match_at(low, secret_needles()[1], p) {
        assert(match_at(low, secret_needles()[1], p));
    } else if match_at(low, secret_needles()[2], p) {
        assert(match_at(low, secret_needles()[2], p));
    } else {
        assert(match_at(low, secret_needles()[3], p));
    }
}

proof fn lemma_first_secret_scan(low: Seq<char>, i: int)
    requires
        0 <= i,
    ensures
        match first_secret(low, i) {
            Some((p, l)) => i <= p < low.len() && secret_at(low, p) == Some(l) && forall|q: int|
                i <= q < p ==> #[trigger] secret_at(low, q) is None,
            None => forall|q: int| i <= q < low.len() ==> #[trigger] secret_at(low, q) is None,
        },
    decreases low.len() - i,
{
    if i < low.len() && secret_at(low, i) is None {
        lemma_first_secret_scan(low, i + 1);
    }
}

/// Redaction cuts at the earliest marker: with no marker anywhere in the
/// text (ASCII case ignored) it is unchanged; otherwise it keeps exactly
/// the text up to the end of the marker that starts first, then
/// `<redacted>`.
pub proof fn law_redact_earliest_marker(line: Seq<char>)
    ensures
        (forall|q: int, m: int| 0 <= m < 4 ==> !#[trigger] match_at(lower(line), secret_needles()[m], q))
            ==> spec_redact(line) == line,
        (exists|q: int, m: int| 0 <= m < 4 && #[trigger] match_at(lower(line), secret_needles()[m], q)) ==> exists|
            p: int,
            m: int,
        |
            0 <= m < 4 && #[trigger] match_at(lower(line), secret_needles()[m], p) && (forall|q: int, m2: int|
                0 <= q < p && 0 <= m2 < 4 ==> !#[trigger] match_at(lower(line), secret_needles()[m2], q))
                && spec_redact(line) == line.take(p + secret_needles()[m].len()) + "<redacted>"@,
{
    let low = lower(line);
    lemma_first_secret_scan(low, 0);
    lemma_needles_literal();
    match first_secret(low, 0) {
        None => {
            assert forall|q: int, m: int| 0 <= m < 4 implies !#[trigger] match_at(low, secret_needles()[m], q) by {
                if match_at(low, secret_needles()[m], q) {
                    lemma_secret_at_match(low, q, m);
                    assert(secret_at(low, q) is None);
                }
            }
        },
        Some((p, l)) => {
            lemma_secret_at_is_match(low, p);
            let m = choose|m: int| 0 <= m < 4 && match_at(low, secret_needles()[m], p) && secret_at(low, p) == Some(
                secret_needles()[m].len() as int,
            );
            assert forall|q: int, m2: int| 0 <= q < p && 0 <= m2 < 4 implies !#[trigger] match_at(low, secret_needles()[m2], q) by {
                if match_at(low, secret_needles()[m2], q) {
                    lemma_secret_at_match(low, q, m2);
                    assert(secret_at(low, q) is None);
                }
            }
            assert(match_at(low, secret_needles()[m], p));
        },
    }
}

/// Nothing that follows a secret marker reaches a log line: wherever a
/// marker occurs in the text (ASCII case ignored), the redacted text is cut
/// at or before that marker's end and ends in `<redacted>`.
pub proof fn law_redact_cuts_every_marker(line: Seq<char>, j: int, k: int)
    requires
        0 <= k < 4,
        match_at(lower(line), secret_needles()[k], j),
    ensures
        exists|e: int| 0 <= e <= j + secret_needles()[k].len() && spec_redact(line) == line.take(e) + "<redacted>"@,
{
    let low = lower(line);
    lemma_needles_literal();
    lemma_first_secret_before(low, 0, j, k);
    let (p, l) = first_secret(low, 0)->Some_0;
    lemma_secret_at_is_match(low, p);
    let m = choose|m: int| 0 <= m < 4 && match_at(low, secret_needles()[m], p) && secret_at(low, p) == Some(
        secret_needles()[m].len() as int,
    );
    let lk = secret_needles()[k].len() as int;
    if p < j && p + l > j + lk {
        let o = j - p;
        lemma_needle_not_inside(m, k, o);
        assert(low[j] == secret_needles()[k][0]) by {
            assert(low.subrange(j, j + lk)[0] == secret_needles()[k][0]);
        }
        assert(low[p + o] == secret_needles()[m][o]) by {
            assert(low.subrange(p, p + l)[o] == secret_needles()[m][o]);
        }
    }
    assert(0 <= p + l <= j + lk);
    assert(spec_redact(line) == line.take(p + l) + "<redacted>"@);
}

/// The names the edge treats as hop-by-hop (RFC 9110 section 7.6.1, plus
/// `Host` and `Content-Length`), ASCII case ignored.
pub open spec fn hop_field_name(n: Seq<char>) -> bool {
    let l = lower(n);
    ||| l == "connection"@
    ||| l == "keep-alive"@
    ||| l == "proxy-authenticate"@
    ||| l == "proxy-authorization"@
    ||| l == "te"@
    ||| l == "trailers"@
    ||| l == "transfer-encoding"@
    ||| l == "upgrade"@
    ||| l == "host"@
    ||| l == "content-length"@
}

/// The WebSocket handshake names, ASCII case ignored.
pub open spec fn handshake_field_name(n: Seq<char>) -> bool {
    let l = lower(n);
    ||| l == "upgrade"@
    ||| l == "connection"@
    ||| l == "sec-websocket-key"@
    ||| l == "sec-websocket-version"@
    ||| l == "sec-websocket-protocol"@
    ||| l == "sec-websocket-extensions"@
    ||| l == "sec-websocket-accept"@
}

/// The reply fields that reach the client are exactly, in order, those that
/// are neither `Transfer-Encoding` nor `Content-Length` and are either
/// end-to-end (not hop-by-hop) or, on a `101`, handshake fields. So every
/// end-to-end field (`Content-Type`, `Content-Encoding`, `Set-Cookie`, ...)
/// passes unchanged, and nothing is passed that the upstream did not send.
pub proof fn law_response_fields_end_to_end<V>(src: Seq<(String, V)>, preserve_upgrade: bool)
    ensures
        kept_response_fields(src, preserve_upgrade) == src.filter(
            |h: (String, V)|
                !(lower(h.0@) == "transfer-encoding"@ || lower(h.0@) == "content-length"@) && ((preserve_upgrade
                    && handshake_field_name(h.0@)) || !hop_field_name(h.0@)),
        ),
        forall|i: int|
            0 <= i < src.len() && !hop_field_name(src[i].0@) ==> #[trigger] kept_response_fields(
                src,
                preserve_upgrade,
            ).contains(src[i]),
        forall|i: int|
            0 <= i < kept_response_fields(src, preserve_upgrade).len() ==> src.contains(
                #[trigger] kept_response_fields(src, preserve_upgrade)[i],
            ),
{
    let p1 = |h: (String, V)| spec_keep_response_header(h.0@, preserve_upgrade);
    let p2 = |h: (String, V)|
        !(lower(h.0@) == "transfer-encoding"@ || lower(h.0@) == "content-length"@) && ((preserve_upgrade
            && handshake_field_name(h.0@)) || !hop_field_name(h.0@));
    assert(p1 =~= p2);
    broadcast use vstd::seq_lib::group_filter_ensures;
    assert forall|i: int| 0 <= i < src.len() && !hop_field_name(src[i].0@) implies #[trigger] kept_response_fields(
        src,
        preserve_upgrade,
    ).contains(src[i]) by {
        src.lemma_filter_contains(p2, i);
    }
    let f = src.filter(p2);
    assert forall|i: int| 0 <= i < f.len() implies src.contains(#[trigger] f[i]) by {
        assert(f.contains(f[i]));
        src.lemma_filter_contains_rev(p2, f[i]);
    }
}

/// The request fields forwarded upstream are exactly, in order, those that
/// are neither `Host` nor `Content-Length` and are either end-to-end or,
/// for an upgrade, handshake fields: every end-to-end field of the client
/// reaches the upstream.
pub proof fn law_request_fields_end_to_end<V>(src: Seq<(String, V)>, preserve_upgrade: bool)
    ensures
        kept_request_fields(src, preserve_upgrade) == src.filter(
            |h: (String, V)|
                !(lower(h.0@) == "host"@ || lower(h.0@) == "content-length"@) && ((preserve_upgrade
                    && handshake_field_name(h.0@)) || !hop_field_name(h.0@)),
        ),
        forall|i: int|
            0 <= i < src.len() && !hop_field_name(src[i].0@) ==> #[trigger] kept_request_fields(
                src,
                preserve_upgrade,
            ).contains(src[i]),
        forall|i: int|
            0 <= i < kept_request_fields(src, preserve_upgrade).len() ==> src.contains(
                #[trigger] kept_request_fields(src, preserve_upgrade)[i],
            ),
{
    let p1 = |h: (String, V)| spec_keep_request_header(h.0@, preserve_upgrade);
    let p2 = |h: (String, V)|
        !(lower(h.0@) == "host"@ || lower(h.0@) == "content-length"@) && ((preserve_upgrade && handshake_field_name(
            h.0@,
        )) || !hop_field_name(h.0@));
    assert(p1 =~= p2);
    broadcast use vstd::seq_lib::group_filter_ensures;
    assert forall|i: int| 0 <= i < src.len() && !hop_field_name(src[i].0@) implies #[trigger] kept_request_fields(
        src,
        preserve_upgrade,
    ).contains(src[i]) by {
        src.lemma_filter_contains(p2, i);
    }
    let f = src.filter(p2);
    assert forall|i: int| 0 <= i < f.len() implies src.contains(#[trigger] f[i]) by {
        assert(f.contains(f[i]));
        src.lemma_filter_contains_rev(p2, f[i]);
    }
}

/// A path is under the public prefix exactly when it has an upstream path.
pub proof fn law_under_prefix_iff_stripped(path: Seq<char>, prefix: Seq<char>)
    ensures
        spec_path_under_prefix(path, prefix) <==> spec_strip_public_prefix(path, prefix) is Some,
{
    let p = trim_end_char(prefix, '/');
    let ws = p + "/"@;
    if path == ws {
        assert(path.take(ws.len() as int) =~= ws);
    }
}

/// The stripped upstream path always starts with `/`.
pub proof fn law_stripped_path_is_absolute(path: Seq<char>, prefix: Seq<char>)
    ensures
        spec_strip_public_prefix(path, prefix) matches Some(st) ==> st.len() > 0 && st[0] == '/',
{
    reveal_strlit("/");
}

/// An enabled proxy never answers 502 for lack of an upstream URI: every
/// path under the prefix other than the bare prefix is forwarded, to the
/// upstream base (trailing slashes dropped) joined with the stripped path.
pub proof fn law_route_under_prefix_forwards(c: VaultConfigView, path: Seq<char>, query: Option<Seq<char>>, wants_ws: bool)
    requires
        c.enable,
        path != c.public_prefix,
        spec_path_under_prefix(path, c.public_prefix),
    ensures
        ({
            let st = spec_strip_public_prefix(path, c.public_prefix)->Some_0;
            let u = match query {
                Some(q) => if q.len() > 0 {
                    trim_end_char(c.upstream_base, '/') + st + "?"@ + q
                } else {
                    trim_end_char(c.upstream_base, '/') + st
                },
                None => trim_end_char(c.upstream_base, '/') + st,
            };
            spec_vault_route(c, path, query, wants_ws) == if wants_ws {
                VaultRouteView::WebSocket(u)
            } else {
                VaultRouteView::Http(u)
            }
        }),
{
    law_under_prefix_iff_stripped(path, c.public_prefix);
    law_stripped_path_is_absolute(path, c.public_prefix);
}

/// The forwarded request never carries the client's `Host` or
/// `Content-Length`, and without an upgrade no hop-by-hop field passes.
pub proof fn law_request_filter_drops_hop_fields<V>(src: Seq<(String, V)>, preserve_upgrade: bool)
    ensures
        forall|i: int| 0 <= i < kept_request_fields(src, preserve_upgrade).len() ==> {
            let n = (#[trigger] kept_request_fields(src, preserve_upgrade)[i]).0@;
            &&& lower(n) != "host"@
            &&& lower(n) != "content-length"@
            &&& (!preserve_upgrade ==> !spec_is_hop_by_hop(n))
        },
{
    let pred = |h: (String, V)| spec_keep_request_header(h.0@, preserve_upgrade);
    assert forall|i: int| 0 <= i < kept_request_fields(src, preserve_upgrade).len() implies pred(
        #[trigger] kept_request_fields(src, preserve_upgrade)[i],
    ) by {
        src.lemma_filter_pred(pred, i);
    }
}

/// The reply to the client never carries the upstream's
/// `Transfer-Encoding` or `Content-Length`, and outside a `101` no
/// hop-by-hop field passes.
pub proof fn law_response_filter_drops_hop_fields<V>(src: Seq<(String, V)>, preserve_upgrade: bool)
    ensures
        forall|i: int| 0 <= i < kept_response_fields(src, preserve_upgrade).len() ==> {
            let n = (#[trigger] kept_response_fields(src, preserve_upgrade)[i]).0@;
            &&& lower(n) != "transfer-encoding"@
            &&& lower(n) != "content-length"@
            &&& (!preserve_upgrade ==> !spec_is_hop_by_hop(n))
        },
{
    let pred = |h: (String, V)| spec_keep_response_header(h.0@, preserve_upgrade);
    assert forall|i: int| 0 <= i < kept_response_fields(src, preserve_upgrade).len() implies pred(
        #[trigger] kept_response_fields(src, preserve_upgrade)[i],
    ) by {
        src.lemma_filter_pred(pred, i);
    }
}

} // verus!
