//! Splora Unix-socket proxy: configuration, the portal Host and its path
//! routing.
//!
//! One public Host. Network paths on that Host map to
//! `/run/splora/<instance>.http.sock`. The queue is a separate socket and
//! path. Not the Electrum newline socket (configuring one fails closed).
//! Not an explorer: no block, transaction, or address pages.
//!
//! The JSON instance map is decoded by serde outside this library into
//! [`InstancesJson`]; this module checks and maps it.

use vstd::prelude::*;
use crate::text::{chars_of, concat, contains, contains_exec, debug_chars, debug_str, eq, extend, find_char_exec, lower, lower_vec, opt_view, own, replace_char, replace_char_exec, res_view, slice_of, starts_with, starts_with_exec, str_views, string_of, trim, trim_end_char, trim_end_char_vec, trim_str, views};
use crate::redirect::{host_for_url_authority, path_only, spec_authority};
use crate::proxy_vaultwarden::{env_truthy, not_a_path, not_a_path_exec, slash_normalized, slash_normalized_exec, spec_env_truthy};

verus! {

/// Directory for splora sockets on the edge host.
pub const DEFAULT_SOCKET_DIR: &'static str = "/run/splora";

/// Queue unit socket (not an indexer instance).
pub const DEFAULT_QUEUE_SOCKET: &'static str = "/run/splora/queue.sock";

/// Public path for queue POST `{npub,email}` only.
pub const DEFAULT_QUEUE_PATH: &'static str = "/splora/queue";

/// WebSocket path on each indexer HTTP socket. Exact path only.
pub const INDEXER_WS_PATH: &'static str = "/api/v1/ws";

/// Request body cap for indexer forwards.
pub const DEFAULT_BODY_LIMIT_BYTES: usize = 8388608;

/// Request body cap for the queue POST.
pub const QUEUE_BODY_LIMIT_BYTES: usize = 65536;

/// Instance names this edge will proxy.
pub open spec fn allowed_instance_names() -> Seq<Seq<char>> {
    seq!["mainnet"@, "testnet3"@, "testnet4"@, "mutinynet"@, "liquid"@]
}

/// `GET /` hrefs on the one public Host, in order.
pub open spec fn public_path_hrefs() -> Seq<Seq<char>> {
    seq!["/api/"@, "/testnet/"@, "/testnet4/"@, "/signet/"@, "/mutinynet/"@, "/liquid/"@]
}

/// One indexer instance behind a Host list and one HTTP Unix socket.
#[derive(Debug)]
pub struct SploraInstance {
    pub name: String,
    pub hosts: Vec<String>,
    pub http_socket: String,
}

/// Spec view of [`SploraInstance`].
pub struct InstanceView {
    pub name: Seq<char>,
    pub hosts: Seq<Seq<char>>,
    pub http_socket: Seq<char>,
}

impl SploraInstance {
    pub open spec fn view(&self) -> InstanceView {
        InstanceView { name: self.name@, hosts: views(self.hosts@), http_socket: self.http_socket@ }
    }
}

/// Views of a list of instances.
pub open spec fn instance_views(s: Seq<SploraInstance>) -> Seq<InstanceView> {
    s.map_values(|i: SploraInstance| i@)
}

/// Runtime knobs for the splora Unix-socket proxy. Default off.
#[derive(Debug)]
pub struct SploraProxyConfig {
    pub enable: bool,
    pub instances: Vec<SploraInstance>,
    pub queue_socket: String,
    pub queue_path: String,
    pub body_limit_bytes: usize,
    /// Public portal Host (one DNS name). Not an indexer. `None` when the
    /// proxy is off or the Host is unset.
    pub portal_host: Option<String>,
}

/// Spec view of [`SploraProxyConfig`].
pub struct SploraConfigView {
    pub enable: bool,
    pub instances: Seq<InstanceView>,
    pub queue_socket: Seq<char>,
    pub queue_path: Seq<char>,
    pub body_limit_bytes: nat,
    pub portal_host: Option<Seq<char>>,
}

impl SploraProxyConfig {
    pub open spec fn view(&self) -> SploraConfigView {
        SploraConfigView {
            enable: self.enable,
            instances: instance_views(self.instances@),
            queue_socket: self.queue_socket@,
            queue_path: self.queue_path@,
            body_limit_bytes: self.body_limit_bytes as nat,
            portal_host: opt_view(self.portal_host),
        }
    }
}

/// Where one public path goes. No redirect arm: `/signet` and `/mutinynet`
/// are both proxies to the mutinynet socket.
#[derive(Debug, Clone, PartialEq, Eq)]
pub enum SploraPublicRoute {
    Index,
    Queue,
    NotFound,
    Proxy { socket_name: &'static str, backend_path: String, query: Option<String>, websocket: bool },
}

/// Spec view of [`SploraPublicRoute`].
pub enum RouteView {
    Index,
    Queue,
    NotFound,
    Proxy { socket_name: Seq<char>, backend_path: Seq<char>, query: Option<Seq<char>>, websocket: bool },
}

impl SploraPublicRoute {
    pub open spec fn view(&self) -> RouteView {
        match self {
            SploraPublicRoute::Index => RouteView::Index,
            SploraPublicRoute::Queue => RouteView::Queue,
            SploraPublicRoute::NotFound => RouteView::NotFound,
            SploraPublicRoute::Proxy { socket_name, backend_path, query, websocket } => RouteView::Proxy {
                socket_name: socket_name@,
                backend_path: backend_path@,
                query: opt_view(*query),
                websocket: *websocket,
            },
        }
    }
}

// ---------------------------------------------------------------------------
// Spec model
// ---------------------------------------------------------------------------

/// Host key: the URL authority host, trimmed, ASCII lower-case.
pub open spec fn spec_normalize_host(raw: Seq<char>) -> Seq<char> {
    lower(trim(spec_authority(raw)))
}

/// `path` is the queue path, with or without one trailing slash.
pub open spec fn spec_path_is_queue(queue_path: Seq<char>, path: Seq<char>) -> bool {
    let p = trim_end_char(queue_path, '/');
    p.len() > 0 && (path == p || path == p + "/"@)
}

/// Remainder after a network prefix: `Some("")` for the prefix itself,
/// `Some("/...")` under it, else `None`.
pub open spec fn spec_strip_named_prefix(path: Seq<char>, prefix: Seq<char>) -> Option<Seq<char>> {
    if path == prefix {
        Some(seq![])
    } else if starts_with(path, prefix) && path.len() > prefix.len() && path[prefix.len() as int] == '/' {
        Some(path.skip(prefix.len() as int))
    } else {
        None
    }
}

/// Non-REST remainder, forwarded as a path (`/` for the prefix itself).
pub open spec fn spec_forward_ui_remainder(after: Seq<char>) -> Seq<char> {
    if after.len() == 0 || after == "/"@ {
        "/"@
    } else if after[0] == '/' {
        after
    } else {
        "/"@ + after
    }
}

/// `/api/v1/ws` (and below it) stays; other `/api...` loses `/api`.
pub open spec fn spec_backend_path_for_indexer(p: Seq<char>) -> Seq<char> {
    if p == "/api/v1/ws"@ || starts_with(p, "/api/v1/ws/"@) {
        p
    } else if starts_with(p, "/api"@) {
        if p.len() == 4 { "/"@ } else { p.skip(4) }
    } else {
        p
    }
}

/// `/api` or `/api/...`.
pub open spec fn is_api_path(p: Seq<char>) -> bool {
    p == "/api"@ || starts_with(p, "/api/"@)
}

/// Proxy to `socket` when that instance is enabled.
pub open spec fn spec_proxy_after_network(
    socket: Seq<char>,
    after: Seq<char>,
    query: Option<Seq<char>>,
    enabled: Seq<Seq<char>>,
) -> RouteView {
    if !enabled.contains(socket) {
        RouteView::NotFound
    } else {
        let api = is_api_path(after);
        RouteView::Proxy {
            socket_name: socket,
            backend_path: if api { spec_backend_path_for_indexer(after) } else { spec_forward_ui_remainder(after) },
            query: query,
            websocket: api && after == "/api/v1/ws"@,
        }
    }
}

/// Path routing for the portal Host (see [`route_splora_public`]).
pub open spec fn spec_route(
    path: Seq<char>,
    query: Option<Seq<char>>,
    queue_path: Seq<char>,
    enabled: Seq<Seq<char>>,
) -> RouteView {
    let p = path_only(path);
    let kept = match query {
        Some(q) => if q.len() > 0 { Some(q) } else { None },
        None => None,
    };
    if spec_path_is_queue(queue_path, p) {
        RouteView::Queue
    } else if p == "/"@ {
        RouteView::Index
    } else if let Some(rest) = spec_strip_named_prefix(p, "/testnet4"@) {
        spec_proxy_after_network("testnet4"@, rest, kept, enabled)
    } else if let Some(rest) = spec_strip_named_prefix(p, "/testnet"@) {
        spec_proxy_after_network("testnet3"@, rest, kept, enabled)
    } else if let Some(rest) = spec_strip_named_prefix(p, "/signet"@) {
        spec_proxy_after_network("mutinynet"@, rest, kept, enabled)
    } else if let Some(rest) = spec_strip_named_prefix(p, "/mutinynet"@) {
        spec_proxy_after_network("mutinynet"@, rest, kept, enabled)
    } else if let Some(rest) = spec_strip_named_prefix(p, "/liquid"@) {
        spec_proxy_after_network("liquid"@, rest, kept, enabled)
    } else if is_api_path(p) {
        spec_proxy_after_network("mainnet"@, p, kept, enabled)
    } else {
        RouteView::NotFound
    }
}

/// `str::replace` of the four HTML-special characters.
pub open spec fn spec_html_escape(s: Seq<char>) -> Seq<char> {
    replace_char(
        replace_char(replace_char(replace_char(s, '&', "&amp;"@), '<', "&lt;"@), '>', "&gt;"@),
        '"',
        "&quot;"@,
    )
}

/// One list item of the portal page.
pub open spec fn portal_item(href: Seq<char>) -> Seq<char> {
    "<li><a href=\""@ + spec_html_escape(href) + "\">"@ + spec_html_escape(href) + "</a></li>\n"@
}

/// The list items for the first `k` hrefs.
pub open spec fn portal_items(hrefs: Seq<Seq<char>>) -> Seq<char>
    decreases hrefs.len(),
{
    if hrefs.len() == 0 {
        seq![]
    } else {
        portal_items(hrefs.drop_last()) + portal_item(hrefs.last())
    }
}

/// The portal `GET /` page: a same-host path list.
pub open spec fn spec_portal_index_html() -> Seq<char> {
    "<!DOCTYPE html>\n<html lang=\"en\">\n<head><meta charset=\"utf-8\"/><title>Splora</title></head>\n<body>\n<h1>Splora</h1>\n<p>Paths on this host:</p>\n<ul>\n"@
        + portal_items(public_path_hrefs()) + "</ul>\n</body>\n</html>\n"@
}

/// Refusal of a path that names an Electrum socket.
pub open spec fn spec_refuse_electrum_path(path: Seq<char>, label: Seq<char>) -> Result<(), Seq<char>> {
    if contains(lower(path), "electrum"@) {
        Err(label + "="@ + debug_str(path)
            + " looks like an Electrum newline socket; this edge does not proxy that protocol (fail-closed)"@)
    } else {
        Ok(())
    }
}

/// Queue path: leading slash, no trailing slash, not `/`.
pub open spec fn spec_normalize_queue_path(raw: Seq<char>) -> Result<Seq<char>, Seq<char>> {
    let t = trim(raw);
    let n = slash_normalized(t);
    if t.len() == 0 {
        Err("splora queue path must not be empty"@)
    } else if not_a_path(t) {
        Err("splora queue path must be a path (got "@ + debug_str(t) + ")"@)
    } else if n.len() == 0 || n == "/"@ {
        Err("splora queue path must not be '/'"@)
    } else {
        Ok(n)
    }
}

/// Portal Host: only when the proxy is on and the Host is not blank.
pub open spec fn spec_parse_portal_host(raw: Option<Seq<char>>, enable: bool) -> Option<Seq<char>> {
    if !enable {
        None
    } else {
        match raw {
            None => None,
            Some(v) => if spec_normalize_host(v).len() == 0 { None } else { Some(spec_normalize_host(v)) },
        }
    }
}

/// `X-Forwarded-Proto` for the hop to splora.
pub open spec fn spec_forwarded_proto(listen_is_https: bool) -> Seq<char> {
    if listen_is_https { "https"@ } else { "http"@ }
}



// ---------------------------------------------------------------------------
// Executable functions
// ---------------------------------------------------------------------------

/// Host key: URL authority host, trimmed, ASCII lower-case.
pub fn normalize_host(raw: &str) -> (r: String)
    ensures
        r@ == spec_normalize_host(raw@),
{
    let a = host_for_url_authority(raw);
    let t = trim_str(a.as_str());
    let l = lower_vec(t.as_slice());
    string_of(l.as_slice())
}

/// `path` is the queue path, with or without one trailing slash.
fn path_is_queue(queue_path: &str, path: &str) -> (r: bool)
    ensures
        r == spec_path_is_queue(queue_path@, path@),
{
    let q = chars_of(queue_path);
    let p = trim_end_char_vec(q.as_slice(), '/');
    if p.len() == 0 {
        return false;
    }
    let pv = chars_of(path);
    let slash = chars_of("/");
    let ps = concat(p.as_slice(), slash.as_slice());
    eq(pv.as_slice(), p.as_slice()) || eq(pv.as_slice(), ps.as_slice())
}

/// Remainder after a network prefix (see [`spec_strip_named_prefix`]).
fn strip_named_prefix(path: &[char], prefix: &str) -> (r: Option<Vec<char>>)
    ensures
        match r {
            Some(v) => spec_strip_named_prefix(path@, prefix@) == Some(v@),
            None => spec_strip_named_prefix(path@, prefix@) is None,
        },
{
    let pre = chars_of(prefix);
    if eq(path, pre.as_slice()) {
        return Some(Vec::new());
    }
    if starts_with_exec(path, pre.as_slice()) && path.len() > pre.len() && path[pre.len()] == '/' {
        return Some(slice_of(path, pre.len(), path.len()));
    }
    None
}

/// Non-REST remainder, forwarded as a path.
fn forward_ui_remainder(after: &[char]) -> (r: Vec<char>)
    ensures
        r@ == spec_forward_ui_remainder(after@),
{
    let slash = chars_of("/");
    if after.len() == 0 || eq(after, slash.as_slice()) {
        slash
    } else if after[0] == '/' {
        slice_of(after, 0, after.len())
    } else {
        concat(slash.as_slice(), after)
    }
}

/// `/api/v1/ws` stays; other `/api...` loses the `/api` prefix.
fn backend_path_for_indexer(p: &[char]) -> (r: Vec<char>)
    ensures
        r@ == spec_backend_path_for_indexer(p@),
{
    let ws = chars_of("/api/v1/ws");
    let ws_dir = chars_of("/api/v1/ws/");
    if eq(p, ws.as_slice()) || starts_with_exec(p, ws_dir.as_slice()) {
        return slice_of(p, 0, p.len());
    }
    let api = chars_of("/api");
    proof {
        reveal_strlit("/api");
    }
    if starts_with_exec(p, api.as_slice()) {
        if p.len() == 4 {
            return chars_of("/");
        }
        return slice_of(p, 4, p.len());
    }
    slice_of(p, 0, p.len())
}

fn is_api_path_exec(p: &[char]) -> (r: bool)
    ensures
        r == is_api_path(p@),
{
    let a = chars_of("/api");
    let b = chars_of("/api/");
    eq(p, a.as_slice()) || starts_with_exec(p, b.as_slice())
}

/// Name is one of the enabled instance names.
fn enabled_has(enabled: &[&str], name: &str) -> (r: bool)
    ensures
        r == str_views(enabled@).contains(name@),
{
    let n = chars_of(name);
    let mut i: usize = 0;
    while i < enabled.len()
        invariant
            i <= enabled.len(),
            n@ == name@,
            forall|j: int| 0 <= j < i ==> str_views(enabled@)[j] != name@,
        decreases enabled.len() - i,
    {
        let e = chars_of(enabled[i]);
        if eq(e.as_slice(), n.as_slice()) {
            assert(str_views(enabled@)[i as int] == name@);
            return true;
        }
        i += 1;
    }
    false
}

/// Proxy to `socket_name` when that instance is enabled.
fn proxy_after_network(socket_name: &'static str, after: &[char], query: Option<String>, enabled: &[&str]) -> (r: SploraPublicRoute)
    ensures
        r@ == spec_proxy_after_network(socket_name@, after@, opt_view(query), str_views(enabled@)),
{
    if !enabled_has(enabled, socket_name) {
        return SploraPublicRoute::NotFound;
    }
    let api = is_api_path_exec(after);
    let backend_path = if api {
        backend_path_for_indexer(after)
    } else {
        forward_ui_remainder(after)
    };
    let ws = chars_of(INDEXER_WS_PATH);
    let websocket = api && eq(after, ws.as_slice());
    SploraPublicRoute::Proxy { socket_name, backend_path: string_of(backend_path.as_slice()), query, websocket }
}

/// Path routing for the portal Host.
///
/// The network prefix is stripped first and the query string is kept. A
/// remainder of `/api` or `/api/...` drops the leading `/api`, except
/// `/api/v1/ws` (and below it), which stays; only exact `/api/v1/ws` is an
/// upgrade. Any other remainder is forwarded to that network socket as is.
/// `/testnet3` is not `/testnet`; the queue path is not a network prefix;
/// `/api` with no network prefix is mainnet and is not proxied when
/// mainnet is absent.
pub fn route_splora_public(path: &str, query: Option<&str>, queue_path: &str, enabled: &[&str]) -> (r: SploraPublicRoute)
    ensures
        r@ == spec_route(path@, match query { Some(q) => Some(q@), None => None }, queue_path@, str_views(enabled@)),
{
    let full = chars_of(path);
    let p = match find_char_exec(full.as_slice(), '?') {
        Some(i) => slice_of(full.as_slice(), 0, i),
        None => full,
    };
    let ps = string_of(p.as_slice());
    if path_is_queue(queue_path, ps.as_str()) {
        return SploraPublicRoute::Queue;
    }
    let root = chars_of("/");
    if eq(p.as_slice(), root.as_slice()) {
        return SploraPublicRoute::Index;
    }
    let kept: Option<String> = match query {
        Some(q) => if !q.is_empty() { Some(q.to_owned()) } else { None },
        None => None,
    };
    if let Some(rest) = strip_named_prefix(p.as_slice(), "/testnet4") {
        return proxy_after_network("testnet4", rest.as_slice(), kept, enabled);
    }
    if let Some(rest) = strip_named_prefix(p.as_slice(), "/testnet") {
        return proxy_after_network("testnet3", rest.as_slice(), kept, enabled);
    }
    if let Some(rest) = strip_named_prefix(p.as_slice(), "/signet") {
        return proxy_after_network("mutinynet", rest.as_slice(), kept, enabled);
    }
    if let Some(rest) = strip_named_prefix(p.as_slice(), "/mutinynet") {
        return proxy_after_network("mutinynet", rest.as_slice(), kept, enabled);
    }
    if let Some(rest) = strip_named_prefix(p.as_slice(), "/liquid") {
        return proxy_after_network("liquid", rest.as_slice(), kept, enabled);
    }
    if is_api_path_exec(p.as_slice()) {
        return proxy_after_network("mainnet", p.as_slice(), kept, enabled);
    }
    SploraPublicRoute::NotFound
}

/// HTML escape of `&`, `<`, `>` and `"`.
fn html_escape(s: &[char]) -> (r: Vec<char>)
    ensures
        r@ == spec_html_escape(s@),
{
    let amp = chars_of("&amp;");
    let lt = chars_of("&lt;");
    let gt = chars_of("&gt;");
    let quot = chars_of("&quot;");
    let a = replace_char_exec(s, '&', amp.as_slice());
    let b = replace_char_exec(a.as_slice(), '<', lt.as_slice());
    let c = replace_char_exec(b.as_slice(), '>', gt.as_slice());
    replace_char_exec(c.as_slice(), '"', quot.as_slice())
}

/// `GET /` HTML for the one public Host: the same-host path list. Not an
/// explorer; the configuration does not change the page.
pub fn portal_index_html(_cfg: &SploraProxyConfig) -> (r: String)
    ensures
        r@ == spec_portal_index_html(),
{
    let hrefs: [&str; 6] = ["/api/", "/testnet/", "/testnet4/", "/signet/", "/mutinynet/", "/liquid/"];
    let mut items: Vec<char> = Vec::new();
    let mut i: usize = 0;
    assert(public_path_hrefs().take(0) =~= Seq::<Seq<char>>::empty());
    while i < 6
        invariant
            i <= 6,
            hrefs@.len() == 6,
            forall|j: int| 0 <= j < 6 ==> (#[trigger] hrefs@[j])@ == public_path_hrefs()[j],
            items@ == portal_items(public_path_hrefs().take(i as int)),
        decreases 6 - i,
    {
        let hv = chars_of(hrefs[i]);
        let h = html_escape(hv.as_slice());
        let a = chars_of("<li><a href=\"");
        let b = chars_of("\">");
        let c = chars_of("</a></li>\n");
        extend(&mut items, a.as_slice());
        extend(&mut items, h.as_slice());
        extend(&mut items, b.as_slice());
        extend(&mut items, h.as_slice());
        extend(&mut items, c.as_slice());
        proof {
            let t = public_path_hrefs().take(i + 1);
            assert(t.drop_last() =~= public_path_hrefs().take(i as int));
            assert(t.last() == hv@);
        }
        i += 1;
    }
    assert(public_path_hrefs().take(6) =~= public_path_hrefs());
    let head = chars_of(
        "<!DOCTYPE html>\n<html lang=\"en\">\n<head><meta charset=\"utf-8\"/><title>Splora</title></head>\n<body>\n<h1>Splora</h1>\n<p>Paths on this host:</p>\n<ul>\n",
    );
    let tail = chars_of("</ul>\n</body>\n</html>\n");
    let x = concat(head.as_slice(), items.as_slice());
    let y = concat(x.as_slice(), tail.as_slice());
    string_of(y.as_slice())
}

/// Refuses a path that names an Electrum socket (fail-closed).
fn refuse_electrum_path(path: &str, label: &str) -> (r: Result<(), String>)
    ensures
        match r {
            Ok(()) => spec_refuse_electrum_path(path@, label@) is Ok,
            Err(e) => spec_refuse_electrum_path(path@, label@) == Err::<(), Seq<char>>(e@),
        },
{
    let v = chars_of(path);
    let low = lower_vec(v.as_slice());
    let needle = chars_of("electrum");
    if contains_exec(low.as_slice(), needle.as_slice()) {
        let l = chars_of(label);
        let eqs = chars_of("=");
        let d = debug_chars(v.as_slice());
        let tail = chars_of(" looks like an Electrum newline socket; this edge does not proxy that protocol (fail-closed)");
        let a = concat(l.as_slice(), eqs.as_slice());
        let b = concat(a.as_slice(), d.as_slice());
        let c = concat(b.as_slice(), tail.as_slice());
        return Err(string_of(c.as_slice()));
    }
    Ok(())
}

/// Queue path: leading slash, no trailing slash, not `/`.
pub fn normalize_queue_path(raw: &str) -> (r: Result<String, String>)
    ensures
        res_view(r) == spec_normalize_queue_path(raw@),
{
    let t = trim_str(raw);
    if t.len() == 0 {
        return Err("splora queue path must not be empty".to_owned());
    }
    if not_a_path_exec(t.as_slice()) {
        let h = chars_of("splora queue path must be a path (got ");
        let d = debug_chars(t.as_slice());
        let c = chars_of(")");
        let a = concat(h.as_slice(), d.as_slice());
        let b = concat(a.as_slice(), c.as_slice());
        return Err(string_of(b.as_slice()));
    }
    let n = slash_normalized_exec(t.as_slice());
    let root = chars_of("/");
    if n.len() == 0 || eq(n.as_slice(), root.as_slice()) {
        return Err("splora queue path must not be '/'".to_owned());
    }
    Ok(string_of(n.as_slice()))
}

/// Portal Host: only when the proxy is on and the Host is not blank.
fn parse_portal_host(raw: Option<String>, enable: bool) -> (r: Option<String>)
    ensures
        opt_view(r) == spec_parse_portal_host(opt_view(raw), enable),
{
    if !enable {
        return None;
    }
    match raw {
        None => None,
        Some(v) => {
            let n = normalize_host(v.as_str());
            if n.as_str().is_empty() {
                None
            } else {
                Some(n)
            }
        },
    }
}

/// Name is one of the allowed instance names.
fn allowed_instance_name(name: &str) -> (r: bool)
    ensures
        r == allowed_instance_names().contains(name@),
{
    let names: [&str; 5] = ["mainnet", "testnet3", "testnet4", "mutinynet", "liquid"];
    let n = chars_of(name);
    let mut i: usize = 0;
    while i < 5
        invariant
            i <= 5,
            n@ == name@,
            names@.len() == 5,
            forall|j: int| 0 <= j < 5 ==> (#[trigger] names@[j])@ == allowed_instance_names()[j],
            forall|j: int| 0 <= j < i ==> allowed_instance_names()[j] != name@,
        decreases 5 - i,
    {
        let c = chars_of(names[i]);
        if eq(c.as_slice(), n.as_slice()) {
            assert(allowed_instance_names()[i as int] == name@);
            return true;
        }
        i += 1;
    }
    false
}

/// `X-Forwarded-Proto` for the hop to splora (always set).
pub fn forwarded_proto(listen_is_https: bool) -> (r: &'static str)
    ensures
        r@ == spec_forwarded_proto(listen_is_https),
{
    if listen_is_https { "https" } else { "http" }
}


// ---------------------------------------------------------------------------
// Configuration queries
// ---------------------------------------------------------------------------

/// Some instance lists `h` among its Hosts.
pub open spec fn any_instance_has_host(insts: Seq<InstanceView>, h: Seq<char>) -> bool {
    exists|i: int| 0 <= i < insts.len() && (#[trigger] insts[i]).hosts.contains(h)
}

/// All instance Hosts, instance by instance.
pub open spec fn all_hosts(insts: Seq<InstanceView>) -> Seq<Seq<char>>
    decreases insts.len(),
{
    if insts.len() == 0 {
        seq![]
    } else {
        all_hosts(insts.drop_last()) + insts.last().hosts
    }
}

/// First occurrences only, in order.
pub open spec fn dedup(s: Seq<Seq<char>>) -> Seq<Seq<char>>
    decreases s.len(),
{
    if s.len() == 0 {
        seq![]
    } else if dedup(s.drop_last()).contains(s.last()) {
        dedup(s.drop_last())
    } else {
        dedup(s.drop_last()).push(s.last())
    }
}

/// Indexer Hosts plus the portal Host, without repeats; empty when off.
pub open spec fn spec_extra_hosts(c: SploraConfigView) -> Seq<Seq<char>> {
    if !c.enable {
        seq![]
    } else {
        let portal: Seq<Seq<char>> = match c.portal_host {
            Some(p) => if p.len() > 0 { seq![p] } else { seq![] },
            None => seq![],
        };
        dedup(all_hosts(c.instances) + portal)
    }
}

/// `host` is the portal Host of an enabled proxy.
pub open spec fn spec_is_portal_host(c: SploraConfigView, host: Seq<char>) -> bool {
    c.enable && match c.portal_host {
        Some(p) => spec_normalize_host(host).len() > 0 && spec_normalize_host(host) == p,
        None => false,
    }
}

/// `host` (normalized, not blank) is an indexer Host.
pub open spec fn spec_serves_host(c: SploraConfigView, host: Seq<char>) -> bool {
    spec_normalize_host(host).len() > 0 && any_instance_has_host(c.instances, spec_normalize_host(host))
}

/// Skip the Nostr gate: a splora Host, the portal, or the queue path.
pub open spec fn spec_should_bypass_auth(c: SploraConfigView, host: Seq<char>, path: Seq<char>) -> bool {
    c.enable && (spec_path_is_queue(c.queue_path, path) || spec_is_portal_host(c, host) || spec_serves_host(c, host))
}

/// `r` is the first instance with name `name` (or none has it).
pub open spec fn first_named(insts: Seq<InstanceView>, name: Seq<char>, r: Option<InstanceView>) -> bool {
    match r {
        Some(v) => exists|i: int|
            0 <= i < insts.len() && insts[i].name == name && v == insts[i] && forall|j: int|
                0 <= j < i ==> (#[trigger] insts[j]).name != name,
        None => forall|i: int| 0 <= i < insts.len() ==> (#[trigger] insts[i]).name != name,
    }
}

/// `r` is the first instance listing Host `key` (or none lists it).
pub open spec fn first_with_host(insts: Seq<InstanceView>, key: Seq<char>, r: Option<InstanceView>) -> bool {
    match r {
        Some(v) => exists|i: int|
            0 <= i < insts.len() && insts[i].hosts.contains(key) && v == insts[i] && forall|j: int|
                0 <= j < i ==> !(#[trigger] insts[j]).hosts.contains(key),
        None => !any_instance_has_host(insts, key),
    }
}

pub open spec fn opt_inst_view(r: Option<&SploraInstance>) -> Option<InstanceView> {
    match r {
        Some(i) => Some(i@),
        None => None,
    }
}

/// `views(v).contains(s)`.
fn contains_string(v: &Vec<String>, s: &String) -> (r: bool)
    ensures
        r == views(v@).contains(s@),
{
    let mut i: usize = 0;
    while i < v.len()
        invariant
            i <= v.len(),
            forall|j: int| 0 <= j < i ==> views(v@)[j] != s@,
        decreases v.len() - i,
    {
        if v[i] == *s {
            assert(views(v@)[i as int] == s@);
            return true;
        }
        i += 1;
    }
    false
}

proof fn lemma_all_hosts_take(insts: Seq<InstanceView>, i: int)
    requires
        0 <= i < insts.len(),
    ensures
        all_hosts(insts.take(i + 1)) == all_hosts(insts.take(i)) + insts[i].hosts,
{
    assert(insts.take(i + 1).drop_last() =~= insts.take(i));
}

impl SploraProxyConfig {
    /// Defaults: off, no instances, queue socket and path defaults, 8 MiB.
    pub fn default() -> (r: Self)
        ensures
            r@ == (SploraConfigView {
                enable: false,
                instances: seq![],
                queue_socket: DEFAULT_QUEUE_SOCKET@,
                queue_path: DEFAULT_QUEUE_PATH@,
                body_limit_bytes: DEFAULT_BODY_LIMIT_BYTES as nat,
                portal_host: None,
            }),
    {
        let r = SploraProxyConfig {
            enable: false,
            instances: Vec::new(),
            queue_socket: DEFAULT_QUEUE_SOCKET.to_owned(),
            queue_path: DEFAULT_QUEUE_PATH.to_owned(),
            body_limit_bytes: DEFAULT_BODY_LIMIT_BYTES,
            portal_host: None,
        };
        assert(instance_views(r.instances@) =~= Seq::<InstanceView>::empty());
        r
    }

    /// True when this request is a splora Host, the portal, or the queue
    /// path (these skip the Nostr gate). Always false when off.
    pub fn should_bypass_auth(&self, host: &str, path: &str) -> (r: bool)
        ensures
            r == spec_should_bypass_auth(self@, host@, path@),
    {
        if !self.enable {
            return false;
        }
        self.is_queue_path(path) || self.is_portal_host(host) || self.instance_for_host(host).is_some()
    }

    /// `host` is the portal Host (normalized; never when off).
    pub fn is_portal_host(&self, host: &str) -> (r: bool)
        ensures
            r == spec_is_portal_host(self@, host@),
    {
        if !self.enable {
            return false;
        }
        match &self.portal_host {
            None => false,
            Some(portal) => {
                let key = normalize_host(host);
                !key.as_str().is_empty() && key == *portal
            },
        }
    }

    /// Indexer Hosts plus the portal Host (when set), each once, in order.
    /// Empty when the proxy is off.
    pub fn extra_onion_and_redirect_hosts(&self) -> (r: Vec<String>)
        ensures
            views(r@) == spec_extra_hosts(self@),
    {
        let mut out: Vec<String> = Vec::new();
        if !self.enable {
            assert(views(out@) =~= Seq::<Seq<char>>::empty());
            return out;
        }
        let ghost insts = self@.instances;
        let mut i: usize = 0;
        assert(views(out@) =~= dedup(all_hosts(insts.take(0))));
        while i < self.instances.len()
            invariant
                i <= self.instances.len(),
                insts == self@.instances,
                views(out@) == dedup(all_hosts(insts.take(i as int))),
            decreases self.instances.len() - i,
        {
            let hosts = &self.instances[i].hosts;
            let ghost base = all_hosts(insts.take(i as int));
            let mut j: usize = 0;
            assert(base + views(hosts@).take(0) =~= base);
            while j < hosts.len()
                invariant
                    j <= hosts.len(),
                    views(out@) == dedup(base + views(hosts@).take(j as int)),
                decreases hosts.len() - j,
            {
                let ghost before = base + views(hosts@).take(j as int);
                proof {
                    assert(base + views(hosts@).take(j + 1) =~= before.push(hosts@[j as int]@));
                    assert(before.push(hosts@[j as int]@).drop_last() =~= before);
                }
                if !contains_string(&out, &hosts[j]) {
                    out.push(hosts[j].clone());
                    assert(views(out@) =~= dedup(before).push(hosts@[j as int]@));
                }
                j += 1;
            }
            proof {
                assert(views(hosts@).take(hosts.len() as int) =~= views(hosts@));
                lemma_all_hosts_take(insts, i as int);
                assert(insts[i as int].hosts == views(hosts@));
            }
            i += 1;
        }
        assert(insts.take(self.instances.len() as int) =~= insts);
        let ghost all = all_hosts(insts);
        match &self.portal_host {
            Some(portal) => {
                if !portal.as_str().is_empty() {
                    proof {
                        assert((all + seq![portal@]).drop_last() =~= all);
                    }
                    if !contains_string(&out, portal) {
                        out.push(portal.clone());
                        assert(views(out@) =~= dedup(all).push(portal@));
                    }
                } else {
                    assert(all + Seq::<Seq<char>>::empty() =~= all);
                }
            },
            None => {
                assert(all + Seq::<Seq<char>>::empty() =~= all);
            },
        }
        out
    }

    /// `path` is the queue path.
    pub fn is_queue_path(&self, path: &str) -> (r: bool)
        ensures
            r == spec_path_is_queue(self.queue_path@, path@),
    {
        path_is_queue(self.queue_path.as_str(), path)
    }

    /// The first instance named `name`.
    pub fn instance_by_name(&self, name: &str) -> (r: Option<&SploraInstance>)
        ensures
            first_named(self@.instances, name@, opt_inst_view(r)),
    {
        let mut i: usize = 0;
        while i < self.instances.len()
            invariant
                i <= self.instances.len(),
                forall|j: int| 0 <= j < i ==> (#[trigger] self@.instances[j]).name != name@,
            decreases self.instances.len() - i,
        {
            let n = chars_of(name);
            let m = chars_of(self.instances[i].name.as_str());
            if eq(m.as_slice(), n.as_slice()) {
                let r = Some(&self.instances[i]);
                assert(self@.instances[i as int] == self.instances@[i as int]@);
                return r;
            }
            i += 1;
        }
        None
    }

    /// Instance names in this map, in order. Absent `mainnet` means `/api` is off.
    pub fn enabled_instance_names(&self) -> (r: Vec<&str>)
        ensures
            str_views(r@) == self@.instances.map_values(|i: InstanceView| i.name),
    {
        let mut out: Vec<&str> = Vec::new();
        let mut i: usize = 0;
        while i < self.instances.len()
            invariant
                i <= self.instances.len(),
                str_views(out@) == self@.instances.take(i as int).map_values(|x: InstanceView| x.name),
            decreases self.instances.len() - i,
        {
            out.push(self.instances[i].name.as_str());
            assert(self@.instances.take(i + 1).map_values(|x: InstanceView| x.name) =~= self@.instances.take(
                i as int,
            ).map_values(|x: InstanceView| x.name).push(self@.instances[i as int].name));
            assert(str_views(out@) =~= self@.instances.take(i + 1).map_values(|x: InstanceView| x.name));
            i += 1;
        }
        assert(self@.instances.take(i as int) =~= self@.instances);
        out
    }

    /// The first instance whose Hosts list `host` (normalized; never for a
    /// blank Host).
    pub fn instance_for_host(&self, host: &str) -> (r: Option<&SploraInstance>)
        ensures
            spec_normalize_host(host@).len() == 0 ==> r is None,
            spec_normalize_host(host@).len() > 0 ==> first_with_host(self@.instances, spec_normalize_host(host@), opt_inst_view(r)),
    {
        let key = normalize_host(host);
        if key.as_str().is_empty() {
            return None;
        }
        let mut i: usize = 0;
        while i < self.instances.len()
            invariant
                i <= self.instances.len(),
                key@ == spec_normalize_host(host@),
                key@.len() > 0,
                forall|j: int| 0 <= j < i ==> !(#[trigger] self@.instances[j]).hosts.contains(key@),
            decreases self.instances.len() - i,
        {
            if contains_string(&self.instances[i].hosts, &key) {
                let r = Some(&self.instances[i]);
                assert(self@.instances[i as int] == self.instances@[i as int]@);
                return r;
            }
            assert(self@.instances[i as int] == self.instances@[i as int]@);
            i += 1;
        }
        None
    }
}


// ---------------------------------------------------------------------------
// Instance map
// ---------------------------------------------------------------------------

/// One instance entry of the JSON map, as serde decodes it (both fields
/// default to empty).
#[derive(Debug)]
pub struct InstanceFields {
    pub hosts: Vec<String>,
    pub socket: String,
}

/// Spec view of [`InstanceFields`].
pub struct FieldsView {
    pub hosts: Seq<Seq<char>>,
    pub socket: Seq<char>,
}

/// `SURMOUNT_SPLORA_INSTANCES` as decoded: not JSON (with the decoder's
/// error text), JSON but not an object, or the object's members in the
/// decoder's order, each with its fields or the decoder's error text.
#[derive(Debug)]
pub enum InstancesJson {
    Invalid(String),
    NotObject,
    Members(Vec<(String, Result<InstanceFields, String>)>),
}

/// Spec view of [`InstancesJson`].
pub enum InstancesJsonView {
    Invalid(Seq<char>),
    NotObject,
    Members(Seq<(Seq<char>, Result<FieldsView, Seq<char>>)>),
}

pub open spec fn fields_view(f: Result<InstanceFields, String>) -> Result<FieldsView, Seq<char>> {
    match f {
        Ok(x) => Ok(FieldsView { hosts: views(x.hosts@), socket: x.socket@ }),
        Err(e) => Err(e@),
    }
}

pub open spec fn member_views(m: Seq<(String, Result<InstanceFields, String>)>) -> Seq<(Seq<char>, Result<FieldsView, Seq<char>>)> {
    m.map_values(|x: (String, Result<InstanceFields, String>)| (x.0@, fields_view(x.1)))
}

impl InstancesJson {
    pub open spec fn view(&self) -> InstancesJsonView {
        match self {
            InstancesJson::Invalid(e) => InstancesJsonView::Invalid(e@),
            InstancesJson::NotObject => InstancesJsonView::NotObject,
            InstancesJson::Members(m) => InstancesJsonView::Members(member_views(m@)),
        }
    }
}

/// Name of the instance that already owns Host `h` (first in order).
pub open spec fn host_owner(done: Seq<InstanceView>, h: Seq<char>) -> Option<Seq<char>>
    decreases done.len(),
{
    if done.len() == 0 {
        None
    } else {
        match host_owner(done.drop_last(), h) {
            Some(o) => Some(o),
            None => if done.last().hosts.contains(h) { Some(done.last().name) } else { None },
        }
    }
}

/// The normalized Hosts of instance `name`, checked against the Hosts of
/// the instances before it and its own earlier Hosts.
pub open spec fn spec_member_hosts(done: Seq<InstanceView>, name: Seq<char>, raw: Seq<Seq<char>>) -> Result<Seq<Seq<char>>, Seq<char>>
    decreases raw.len(),
{
    if raw.len() == 0 {
        Ok(seq![])
    } else {
        match spec_member_hosts(done, name, raw.drop_last()) {
            Err(e) => Err(e),
            Ok(prev) => {
                let n = spec_normalize_host(raw.last());
                if n.len() == 0 {
                    Err("SURMOUNT_SPLORA_INSTANCES["@ + name + "] host must not be empty"@)
                } else {
                    match host_owner(done.push(InstanceView { name: name, hosts: prev, http_socket: seq![] }), n) {
                        Some(o) => Err("SURMOUNT_SPLORA_INSTANCES host "@ + n + " is mapped to both "@ + o + " and "@ + name),
                        None => Ok(prev.push(n)),
                    }
                }
            },
        }
    }
}

/// Socket of an instance: the given one (trimmed) or `<dir>/<name>.http.sock`.
pub open spec fn instance_socket(dir: Seq<char>, name: Seq<char>, socket: Seq<char>) -> Seq<char> {
    if trim(socket).len() == 0 {
        dir + "/"@ + name + ".http.sock"@
    } else {
        trim(socket)
    }
}

/// One member of the map, after the instances `done` before it.
pub open spec fn spec_member(done: Seq<InstanceView>, name: Seq<char>, fields: Result<FieldsView, Seq<char>>, dir: Seq<char>) -> Result<InstanceView, Seq<char>> {
    if !allowed_instance_names().contains(name) {
        Err("SURMOUNT_SPLORA_INSTANCES unknown instance "@ + debug_str(name)
            + "; allowed: mainnet, testnet3, testnet4, mutinynet, liquid"@)
    } else {
        match fields {
            Err(e) => Err("SURMOUNT_SPLORA_INSTANCES["@ + name + "] must be an object with hosts/socket: "@ + e),
            Ok(f) => {
                let sock = instance_socket(dir, name, f.socket);
                match spec_refuse_electrum_path(sock, "splora instance socket"@) {
                    Err(e) => Err(e),
                    Ok(_) => if !(sock.len() > 0 && sock[0] == '/') {
                        Err("SURMOUNT_SPLORA_INSTANCES["@ + name + "].socket must be an absolute path"@)
                    } else {
                        match spec_member_hosts(done, name, f.hosts) {
                            Err(e) => Err(e),
                            Ok(h) => Ok(InstanceView { name: name, hosts: h, http_socket: sock }),
                        }
                    },
                }
            },
        }
    }
}

/// All members, in order; the first refusal wins.
pub open spec fn spec_instances(members: Seq<(Seq<char>, Result<FieldsView, Seq<char>>)>, dir: Seq<char>) -> Result<Seq<InstanceView>, Seq<char>>
    decreases members.len(),
{
    if members.len() == 0 {
        Ok(seq![])
    } else {
        match spec_instances(members.drop_last(), dir) {
            Err(e) => Err(e),
            Ok(done) => match spec_member(done, members.last().0, members.last().1, dir) {
                Err(e) => Err(e),
                Ok(i) => Ok(done.push(i)),
            },
        }
    }
}

/// The instance list a decoded map gives.
pub open spec fn spec_instances_from_json(j: InstancesJsonView, dir: Seq<char>) -> Result<Seq<InstanceView>, Seq<char>> {
    match j {
        InstancesJsonView::Invalid(e) => Err("SURMOUNT_SPLORA_INSTANCES must be a JSON object instance -> hosts/socket: "@ + e),
        InstancesJsonView::NotObject => Err("SURMOUNT_SPLORA_INSTANCES must be a JSON object (instance name -> config)"@),
        InstancesJsonView::Members(m) => spec_instances(m, dir),
    }
}

pub open spec fn insts_result_view(r: Result<Vec<SploraInstance>, String>) -> Result<Seq<InstanceView>, Seq<char>> {
    match r {
        Ok(v) => Ok(instance_views(v@)),
        Err(e) => Err(e@),
    }
}

pub open spec fn inst_result_view(r: Result<SploraInstance, String>) -> Result<InstanceView, Seq<char>> {
    match r {
        Ok(v) => Ok(v@),
        Err(e) => Err(e@),
    }
}

pub open spec fn hosts_result_view(r: Result<Vec<String>, String>) -> Result<Seq<Seq<char>>, Seq<char>> {
    match r {
        Ok(v) => Ok(views(v@)),
        Err(e) => Err(e@),
    }
}

proof fn lemma_host_owner_prefix(s: Seq<InstanceView>, k: int, h: Seq<char>)
    requires
        0 <= k <= s.len(),
        host_owner(s.take(k), h) is Some,
    ensures
        host_owner(s, h) == host_owner(s.take(k), h),
    decreases s.len() - k,
{
    if k == s.len() {
        assert(s.take(k) =~= s);
    } else {
        assert(s.drop_last().take(k) =~= s.take(k));
        lemma_host_owner_prefix(s.drop_last(), k, h);
    }
}

/// `a + b + c`.
fn join3(a: &str, b: &[char], c: &str) -> (r: String)
    ensures
        r@ == a@ + b@ + c@,
{
    let x = chars_of(a);
    let z = chars_of(c);
    let y = concat(x.as_slice(), b);
    let w = concat(y.as_slice(), z.as_slice());
    string_of(w.as_slice())
}

/// Owner of Host `n` among `done` and the Hosts `cur` taken so far for `name`.
fn host_owner_exec(done: &Vec<SploraInstance>, name: &String, cur: &Vec<String>, n: &String) -> (r: Option<String>)
    ensures
        opt_view(r) == host_owner(instance_views(done@).push(InstanceView { name: name@, hosts: views(cur@), http_socket: seq![] }), n@),
{
    let ghost full = instance_views(done@).push(InstanceView { name: name@, hosts: views(cur@), http_socket: seq![] });
    let mut i: usize = 0;
    assert(full.take(0) =~= Seq::<InstanceView>::empty());
    while i < done.len()
        invariant
            i <= done.len(),
            full == instance_views(done@).push(InstanceView { name: name@, hosts: views(cur@), http_socket: seq![] }),
            host_owner(full.take(i as int), n@) is None,
        decreases done.len() - i,
    {
        proof {
            assert(full.take(i + 1).drop_last() =~= full.take(i as int));
            assert(full.take(i + 1).last() == done@[i as int]@);
        }
        if contains_string(&done[i].hosts, n) {
            proof {
                lemma_host_owner_prefix(full, i + 1, n@);
            }
            return Some(done[i].name.clone());
        }
        i += 1;
    }
    proof {
        assert(full.drop_last() =~= full.take(done.len() as int));
    }
    if contains_string(cur, n) {
        Some(name.clone())
    } else {
        None
    }
}

/// The normalized Hosts of instance `name` (see [`spec_member_hosts`]).
fn member_hosts(done: &Vec<SploraInstance>, name: &String, raw: &Vec<String>) -> (r: Result<Vec<String>, String>)
    ensures
        hosts_result_view(r) == spec_member_hosts(instance_views(done@), name@, views(raw@)),
{
    let mut hosts: Vec<String> = Vec::new();
    let mut j: usize = 0;
    assert(views(raw@).take(0) =~= Seq::<Seq<char>>::empty());
    assert(views(hosts@) =~= Seq::<Seq<char>>::empty());
    while j < raw.len()
        invariant
            j <= raw.len(),
            spec_member_hosts(instance_views(done@), name@, views(raw@).take(j as int)) == Ok::<Seq<Seq<char>>, Seq<char>>(views(hosts@)),
        decreases raw.len() - j,
    {
        proof {
            assert(views(raw@).take(j + 1).drop_last() =~= views(raw@).take(j as int));
            assert(views(raw@).take(j + 1).last() == raw@[j as int]@);
        }
        let n = normalize_host(raw[j].as_str());
        let nv = chars_of(n.as_str());
        if n.as_str().is_empty() {
            let nm = chars_of(name.as_str());
            let e = join3("SURMOUNT_SPLORA_INSTANCES[", nm.as_slice(), "] host must not be empty");
            proof {
                lemma_member_hosts_err(instance_views(done@), name@, views(raw@), j + 1, e@);
            }
            return Err(e);
        }
        match host_owner_exec(done, name, &hosts, &n) {
            Some(o) => {
                let ov = chars_of(o.as_str());
                let nm = chars_of(name.as_str());
                let a = join3("SURMOUNT_SPLORA_INSTANCES host ", nv.as_slice(), " is mapped to both ");
                let av = chars_of(a.as_str());
                let b = concat(av.as_slice(), ov.as_slice());
                let e = join3("", b.as_slice(), " and ");
                let ev = chars_of(e.as_str());
                let f = concat(ev.as_slice(), nm.as_slice());
                let msg = string_of(f.as_slice());
                proof {
                    reveal_strlit("");
                    lemma_member_hosts_err(instance_views(done@), name@, views(raw@), j + 1, msg@);
                }
                return Err(msg);
            },
            None => {},
        }
        let ghost old_hosts = views(hosts@);
        hosts.push(n);
        assert(views(hosts@) =~= old_hosts.push(nv@));
        j += 1;
    }
    assert(views(raw@).take(raw.len() as int) =~= views(raw@));
    Ok(hosts)
}

proof fn lemma_member_hosts_err(done: Seq<InstanceView>, name: Seq<char>, raw: Seq<Seq<char>>, k: int, e: Seq<char>)
    requires
        0 <= k <= raw.len(),
        spec_member_hosts(done, name, raw.take(k)) == Err::<Seq<Seq<char>>, Seq<char>>(e),
    ensures
        spec_member_hosts(done, name, raw) == Err::<Seq<Seq<char>>, Seq<char>>(e),
    decreases raw.len() - k,
{
    if k == raw.len() {
        assert(raw.take(k) =~= raw);
    } else {
        assert(raw.drop_last().take(k) =~= raw.take(k));
        lemma_member_hosts_err(done, name, raw.drop_last(), k, e);
    }
}


/// Checks one member of the map and builds its instance.
fn build_instance(done: &Vec<SploraInstance>, name: &String, fields: &Result<InstanceFields, String>, dir: &str) -> (r: Result<SploraInstance, String>)
    ensures
        inst_result_view(r) == spec_member(instance_views(done@), name@, fields_view(*fields), dir@),
{
    let nm = chars_of(name.as_str());
    if !allowed_instance_name(name.as_str()) {
        let d = debug_chars(nm.as_slice());
        return Err(join3("SURMOUNT_SPLORA_INSTANCES unknown instance ", d.as_slice(), "; allowed: mainnet, testnet3, testnet4, mutinynet, liquid"));
    }
    match fields {
        Err(e) => {
            let a = join3("SURMOUNT_SPLORA_INSTANCES[", nm.as_slice(), "] must be an object with hosts/socket: ");
            let x = chars_of(a.as_str());
            let y = chars_of(e.as_str());
            let z = concat(x.as_slice(), y.as_slice());
            Err(string_of(z.as_slice()))
        },
        Ok(f) => {
            let t = trim_str(f.socket.as_str());
            let sock: Vec<char> = if t.len() == 0 {
                let a = chars_of(dir);
                let b = join3("/", nm.as_slice(), ".http.sock");
                let bv = chars_of(b.as_str());
                let c = concat(a.as_slice(), bv.as_slice());
                assert(c@ =~= dir@ + "/"@ + name@ + ".http.sock"@);
                c
            } else {
                t
            };
            assert(sock@ == instance_socket(dir@, name@, f.socket@));
            let sock_s = string_of(sock.as_slice());
            match refuse_electrum_path(sock_s.as_str(), "splora instance socket") {
                Err(e) => {
                    return Err(e);
                },
                Ok(()) => {},
            }
            if !(sock.len() > 0 && sock[0] == '/') {
                return Err(join3("SURMOUNT_SPLORA_INSTANCES[", nm.as_slice(), "].socket must be an absolute path"));
            }
            match member_hosts(done, name, &f.hosts) {
                Err(e) => Err(e),
                Ok(h) => Ok(SploraInstance { name: name.clone(), hosts: h, http_socket: sock_s }),
            }
        },
    }
}

proof fn lemma_instances_err(m: Seq<(Seq<char>, Result<FieldsView, Seq<char>>)>, dir: Seq<char>, k: int, e: Seq<char>)
    requires
        0 <= k <= m.len(),
        spec_instances(m.take(k), dir) == Err::<Seq<InstanceView>, Seq<char>>(e),
    ensures
        spec_instances(m, dir) == Err::<Seq<InstanceView>, Seq<char>>(e),
    decreases m.len() - k,
{
    if k == m.len() {
        assert(m.take(k) =~= m);
    } else {
        assert(m.drop_last().take(k) =~= m.take(k));
        lemma_instances_err(m.drop_last(), dir, k, e);
    }
}

/// Instances from the decoded `SURMOUNT_SPLORA_INSTANCES` map, in the
/// map's order: each name allowed, the socket absolute (default
/// `<socket_dir>/<name>.http.sock`) and not Electrum's, each Host
/// normalized, not blank and on one instance only. An instance without
/// Hosts is still routed by path on the portal Host.
pub fn parse_instances_json(parsed: &InstancesJson, socket_dir: &str) -> (r: Result<Vec<SploraInstance>, String>)
    ensures
        insts_result_view(r) == spec_instances_from_json(parsed@, socket_dir@),
{
    match parsed {
        InstancesJson::Invalid(e) => {
            let hv = chars_of("SURMOUNT_SPLORA_INSTANCES must be a JSON object instance -> hosts/socket: ");
            let ev = chars_of(e.as_str());
            let z = concat(hv.as_slice(), ev.as_slice());
            Err(string_of(z.as_slice()))
        },
        InstancesJson::NotObject => Err("SURMOUNT_SPLORA_INSTANCES must be a JSON object (instance name -> config)".to_owned()),
        InstancesJson::Members(m) => {
            let ghost mv = member_views(m@);
            let mut out: Vec<SploraInstance> = Vec::new();
            let mut k: usize = 0;
            assert(mv.take(0) =~= Seq::<(Seq<char>, Result<FieldsView, Seq<char>>)>::empty());
            assert(instance_views(out@) =~= Seq::<InstanceView>::empty());
            while k < m.len()
                invariant
                    k <= m.len(),
                    mv == member_views(m@),
                    parsed@ == InstancesJsonView::Members(mv),
                    spec_instances(mv.take(k as int), socket_dir@) == Ok::<Seq<InstanceView>, Seq<char>>(instance_views(out@)),
                decreases m.len() - k,
            {
                proof {
                    assert(mv.take(k + 1).drop_last() =~= mv.take(k as int));
                    assert(mv.take(k + 1).last() == (m@[k as int].0@, fields_view(m@[k as int].1)));
                }
                let inst = build_instance(&out, &m[k].0, &m[k].1, socket_dir);
                match inst {
                    Err(e) => {
                        proof {
                            lemma_instances_err(mv, socket_dir@, k + 1, e@);
                        }
                        return Err(e);
                    },
                    Ok(i) => {
                        let ghost before = instance_views(out@);
                        out.push(i);
                        assert(instance_views(out@) =~= before.push(i@));
                    },
                }
                k += 1;
            }
            assert(mv.take(m.len() as int) =~= mv);
            Ok(out)
        },
    }
}


// ---------------------------------------------------------------------------
// Configuration from the environment
// ---------------------------------------------------------------------------

/// Set and not blank.
pub open spec fn nonblank(v: Option<Seq<char>>) -> Option<Seq<char>> {
    match v {
        Some(x) => if trim(x).len() > 0 { Some(x) } else { None },
        None => None,
    }
}

pub open spec fn electrum_env_refusal() -> Seq<char> {
    "SURMOUNT_SPLORA_ELECTRUM_SOCKET is set: this edge does not proxy the Electrum newline Unix socket (fail-closed)"@
}

pub open spec fn empty_instances_refusal() -> Seq<char> {
    "SURMOUNT_SPLORA_PROXY is on but SURMOUNT_SPLORA_INSTANCES is empty (fail-closed; configure a Host -> Unix socket map)"@
}

pub open spec fn portal_collision_refusal(p: Seq<char>) -> Seq<char> {
    "SURMOUNT_SPLORA_PORTAL_HOST="@ + p + " must not also be an indexer Host (the portal is not a fifth indexer)"@
}

/// Socket directory from its env value.
pub open spec fn spec_socket_dir(v: Option<Seq<char>>) -> Seq<char> {
    match nonblank(v) {
        Some(x) => trim(x),
        None => DEFAULT_SOCKET_DIR@,
    }
}

/// Queue socket from its env value.
pub open spec fn spec_queue_socket(v: Option<Seq<char>>) -> Seq<char> {
    match nonblank(v) {
        Some(x) => trim(x),
        None => DEFAULT_QUEUE_SOCKET@,
    }
}

/// The configuration (or refusal) the env values give. `instances` is the
/// decoded `SURMOUNT_SPLORA_INSTANCES`, present when that value is set and
/// not blank.
pub open spec fn spec_splora_config(
    electrum: Option<Seq<char>>,
    enable: Option<Seq<char>>,
    socket_dir: Option<Seq<char>>,
    queue_socket: Option<Seq<char>>,
    queue_path: Option<Seq<char>>,
    instances: Option<InstancesJsonView>,
    portal: Option<Seq<char>>,
) -> Result<SploraConfigView, Seq<char>> {
    let en = match enable {
        Some(v) => spec_env_truthy(v),
        None => false,
    };
    let dir = spec_socket_dir(socket_dir);
    let qs = spec_queue_socket(queue_socket);
    let qp: Result<Seq<char>, Seq<char>> = match nonblank(queue_path) {
        Some(v) => spec_normalize_queue_path(v),
        None => Ok(DEFAULT_QUEUE_PATH@),
    };
    let insts: Result<Seq<InstanceView>, Seq<char>> = match instances {
        Some(j) => spec_instances_from_json(j, dir),
        None => Ok(seq![]),
    };
    let ph = spec_parse_portal_host(portal, en);
    if nonblank(electrum) is Some {
        Err(electrum_env_refusal())
    } else if spec_refuse_electrum_path(dir, "SURMOUNT_SPLORA_SOCKET_DIR"@) is Err {
        Err(spec_refuse_electrum_path(dir, "SURMOUNT_SPLORA_SOCKET_DIR"@)->Err_0)
    } else if spec_refuse_electrum_path(qs, "SURMOUNT_SPLORA_QUEUE_SOCKET"@) is Err {
        Err(spec_refuse_electrum_path(qs, "SURMOUNT_SPLORA_QUEUE_SOCKET"@)->Err_0)
    } else if qp is Err {
        Err(qp->Err_0)
    } else if insts is Err {
        Err(insts->Err_0)
    } else if en && insts->Ok_0.len() == 0 {
        Err(empty_instances_refusal())
    } else if ph is Some && any_instance_has_host(insts->Ok_0, ph->Some_0) {
        Err(portal_collision_refusal(ph->Some_0))
    } else {
        Ok(SploraConfigView {
            enable: en,
            instances: insts->Ok_0,
            queue_socket: qs,
            queue_path: qp->Ok_0,
            body_limit_bytes: DEFAULT_BODY_LIMIT_BYTES as nat,
            portal_host: ph,
        })
    }
}

pub open spec fn splora_config_view(r: Result<SploraProxyConfig, String>) -> Result<SploraConfigView, Seq<char>> {
    match r {
        Ok(c) => Ok(c@),
        Err(e) => Err(e@),
    }
}

pub open spec fn opt_json_view(o: Option<InstancesJson>) -> Option<InstancesJsonView> {
    match o {
        Some(j) => Some(j@),
        None => None,
    }
}

/// Trimmed value when set and not blank.
fn nonblank_trimmed(v: &Option<String>) -> (r: Option<Vec<char>>)
    ensures
        match r {
            Some(t) => nonblank(opt_view(*v)) is Some && t@ == trim(opt_view(*v)->Some_0),
            None => nonblank(opt_view(*v)) is None,
        },
{
    match v {
        Some(x) => {
            let t = trim_str(x.as_str());
            if t.len() > 0 {
                Some(t)
            } else {
                None
            }
        },
        None => None,
    }
}

impl SploraProxyConfig {
    /// Configuration from the env values (`SURMOUNT_SPLORA_ELECTRUM_SOCKET`,
    /// `..._PROXY`, `..._SOCKET_DIR`, `..._QUEUE_SOCKET`, `..._QUEUE_PATH`,
    /// the decoded `..._INSTANCES`, `..._PORTAL_HOST`). Fails closed on an
    /// Electrum socket anywhere, on an enabled proxy without instances, and
    /// on a portal Host that is also an indexer Host; the portal Host is
    /// ignored while the proxy is off.
    #[verifier::loop_isolation(false)]
    pub fn from_env_values(
        electrum: Option<String>,
        enable: Option<String>,
        socket_dir: Option<String>,
        queue_socket: Option<String>,
        queue_path: Option<String>,
        instances: Option<InstancesJson>,
        portal_host: Option<String>,
    ) -> (r: Result<Self, String>)
        ensures
            splora_config_view(r) == spec_splora_config(
                opt_view(electrum),
                opt_view(enable),
                opt_view(socket_dir),
                opt_view(queue_socket),
                opt_view(queue_path),
                opt_json_view(instances),
                opt_view(portal_host),
            ),
    {
        if nonblank_trimmed(&electrum).is_some() {
            return Err("SURMOUNT_SPLORA_ELECTRUM_SOCKET is set: this edge does not proxy the Electrum newline Unix socket (fail-closed)".to_owned());
        }
        let en = match &enable {
            Some(v) => env_truthy(v.as_str()),
            None => false,
        };
        let dir: String = match nonblank_trimmed(&socket_dir) {
            Some(t) => string_of(t.as_slice()),
            None => DEFAULT_SOCKET_DIR.to_owned(),
        };
        match refuse_electrum_path(dir.as_str(), "SURMOUNT_SPLORA_SOCKET_DIR") {
            Err(e) => {
                return Err(e);
            },
            Ok(()) => {},
        }
        let qs: String = match nonblank_trimmed(&queue_socket) {
            Some(t) => string_of(t.as_slice()),
            None => DEFAULT_QUEUE_SOCKET.to_owned(),
        };
        match refuse_electrum_path(qs.as_str(), "SURMOUNT_SPLORA_QUEUE_SOCKET") {
            Err(e) => {
                return Err(e);
            },
            Ok(()) => {},
        }
        let qp: String = match &queue_path {
            Some(v) => {
                let t = trim_str(v.as_str());
                if t.len() > 0 {
                    match normalize_queue_path(v.as_str()) {
                        Ok(p) => p,
                        Err(e) => {
                            return Err(e);
                        },
                    }
                } else {
                    DEFAULT_QUEUE_PATH.to_owned()
                }
            },
            None => DEFAULT_QUEUE_PATH.to_owned(),
        };
        let insts: Vec<SploraInstance> = match &instances {
            Some(j) => match parse_instances_json(j, dir.as_str()) {
                Ok(v) => v,
                Err(e) => {
                    return Err(e);
                },
            },
            None => {
                let v: Vec<SploraInstance> = Vec::new();
                assert(instance_views(v@) =~= Seq::<InstanceView>::empty());
                v
            },
        };
        if en && insts.len() == 0 {
            return Err("SURMOUNT_SPLORA_PROXY is on but SURMOUNT_SPLORA_INSTANCES is empty (fail-closed; configure a Host -> Unix socket map)".to_owned());
        }
        let ph = parse_portal_host(portal_host, en);
        if let Some(p) = &ph {
            let mut i: usize = 0;
            while i < insts.len()
                invariant
                    i <= insts.len(),
                    forall|j: int| 0 <= j < i ==> !(#[trigger] instance_views(insts@)[j]).hosts.contains(p@),
                decreases insts.len() - i,
            {
                if contains_string(&insts[i].hosts, p) {
                    assert(instance_views(insts@)[i as int].hosts.contains(p@));
                    let pv = chars_of(p.as_str());
                    return Err(join3("SURMOUNT_SPLORA_PORTAL_HOST=", pv.as_slice(), " must not also be an indexer Host (the portal is not a fifth indexer)"));
                }
                i += 1;
            }
        }
        assert(ph is Some ==> !any_instance_has_host(instance_views(insts@), opt_view(ph)->Some_0));
        assert(opt_view(ph) == spec_parse_portal_host(opt_view(portal_host), en));
        Ok(SploraProxyConfig {
            enable: en,
            instances: insts,
            queue_socket: qs,
            queue_path: qp,
            body_limit_bytes: DEFAULT_BODY_LIMIT_BYTES,
            portal_host: ph,
        })
    }

    /// Configuration read through `get` (the process env or a test map);
    /// a set, non-blank `SURMOUNT_SPLORA_INSTANCES` is decoded by `decode`.
    pub fn from_env_map(get: impl Fn(&str) -> Option<String>, decode: impl Fn(&str) -> InstancesJson) -> (r: Result<Self, String>)
        requires
            forall|k: &str| #[trigger] call_requires(get, (k,)),
            forall|k: &str| #[trigger] call_requires(decode, (k,)),
        ensures
            exists|e: Option<String>, en: Option<String>, d: Option<String>, qs: Option<String>, qp: Option<String>, i: Option<String>, p: Option<String>, j: Option<InstancesJson>|
                {
                    &&& splora_env_reads(get, e, en, d, qs, qp, i, p)
                    &&& decoded(decode, opt_view(i), j)
                    &&& splora_config_view(r) == spec_splora_config(opt_view(e), opt_view(en), opt_view(d), opt_view(qs), opt_view(qp), opt_json_view(j), opt_view(p))
                },
    {
        let e = get("SURMOUNT_SPLORA_ELECTRUM_SOCKET");
        let en = get("SURMOUNT_SPLORA_PROXY");
        let d = get("SURMOUNT_SPLORA_SOCKET_DIR");
        let qs = get("SURMOUNT_SPLORA_QUEUE_SOCKET");
        let qp = get("SURMOUNT_SPLORA_QUEUE_PATH");
        let i = get("SURMOUNT_SPLORA_INSTANCES");
        let p = get("SURMOUNT_SPLORA_PORTAL_HOST");
        let j: Option<InstancesJson> = match &i {
            Some(raw) => {
                if nonblank_trimmed(&i).is_some() {
                    Some(decode(raw.as_str()))
                } else {
                    None
                }
            },
            None => None,
        };
        proof {
            assert(splora_env_reads(get, e, en, d, qs, qp, i, p));
            assert(decoded(decode, opt_view(i), j));
        }
        Self::from_env_values(e, en, d, qs, qp, j, p)
    }
}

/// The values `get` returned for the splora keys.
pub open spec fn splora_env_reads<F: Fn(&str) -> Option<String>>(
    get: F,
    e: Option<String>,
    en: Option<String>,
    d: Option<String>,
    qs: Option<String>,
    qp: Option<String>,
    i: Option<String>,
    p: Option<String>,
) -> bool {
    &&& exists|k: &str| k@ == "SURMOUNT_SPLORA_ELECTRUM_SOCKET"@ && call_ensures(get, (k,), e)
    &&& exists|k: &str| k@ == "SURMOUNT_SPLORA_PROXY"@ && call_ensures(get, (k,), en)
    &&& exists|k: &str| k@ == "SURMOUNT_SPLORA_SOCKET_DIR"@ && call_ensures(get, (k,), d)
    &&& exists|k: &str| k@ == "SURMOUNT_SPLORA_QUEUE_SOCKET"@ && call_ensures(get, (k,), qs)
    &&& exists|k: &str| k@ == "SURMOUNT_SPLORA_QUEUE_PATH"@ && call_ensures(get, (k,), qp)
    &&& exists|k: &str| k@ == "SURMOUNT_SPLORA_INSTANCES"@ && call_ensures(get, (k,), i)
    &&& exists|k: &str| k@ == "SURMOUNT_SPLORA_PORTAL_HOST"@ && call_ensures(get, (k,), p)
}

/// `j` is what `decode` gave for a set, non-blank `raw`, and absent otherwise.
pub open spec fn decoded<F: Fn(&str) -> InstancesJson>(decode: F, raw: Option<Seq<char>>, j: Option<InstancesJson>) -> bool {
    match nonblank(raw) {
        Some(v) => j is Some && exists|k: &str| k@ == v && call_ensures(decode, (k,), j->Some_0),
        None => j is None,
    }
}


// ---------------------------------------------------------------------------
// Queue body
// ---------------------------------------------------------------------------

/// The members of the JSON object that `bytes` holds, in the decoder's
/// order, each with its value when that value is a JSON string; `None`
/// when `bytes` is not JSON or not an object.
pub uninterp spec fn json_object_string_members(bytes: Seq<u8>) -> Option<Seq<(Seq<char>, Option<Seq<char>>)>>;

pub open spec fn string_member_views(m: Seq<(String, Option<String>)>) -> Seq<(Seq<char>, Option<Seq<char>>)> {
    m.map_values(|x: (String, Option<String>)| (x.0@, opt_view(x.1)))
}

/// `serde_json::from_slice::<serde_json::Value>`, then the object's
/// members with string values kept as text. Its result is named by
/// [`json_object_string_members`]; nothing else about the decoder is
/// claimed.
#[verifier::external_body]
fn decode_json_object(bytes: &[u8]) -> (r: Option<Vec<(String, Option<String>)>>)
    ensures
        match r {
            Some(m) => json_object_string_members(bytes@) == Some(string_member_views(m@)),
            None => json_object_string_members(bytes@) is None,
        },
{
    match serde_json::from_slice::<serde_json::Value>(bytes) {
        Ok(serde_json::Value::Object(m)) => Some(
            m.into_iter().map(|(k, v)| match v {
                serde_json::Value::String(s) => (k, Some(s)),
                _ => (k, None),
            }).collect(),
        ),
        _ => None,
    }
}

/// The first member named `key` is a string that is not blank.
pub open spec fn member_nonblank(ms: Seq<(Seq<char>, Option<Seq<char>>)>, key: Seq<char>) -> bool {
    exists|i: int|
        0 <= i < ms.len() && ms[i].0 == key && (forall|j: int| 0 <= j < i ==> (#[trigger] ms[j]).0 != key)
            && ms[i].1 is Some && trim(ms[i].1->Some_0).len() > 0
}

/// The queue POST body is a JSON object whose `npub` and `email` are
/// non-blank strings.
pub open spec fn spec_queue_body_ok(bytes: Seq<u8>) -> bool {
    match json_object_string_members(bytes) {
        Some(ms) => member_nonblank(ms, "npub"@) && member_nonblank(ms, "email"@),
        None => false,
    }
}

/// A member value that is a non-blank string.
fn nonempty_str_field(v: Option<&Option<String>>) -> (r: bool)
    ensures
        r == (v is Some && v->Some_0 is Some && trim(v->Some_0->Some_0@).len() > 0),
{
    match v {
        Some(Some(s)) => trim_str(s.as_str()).len() > 0,
        _ => false,
    }
}

/// The first member named `key`.
fn find_member<'a>(ms: &'a Vec<(String, Option<String>)>, key: &str) -> (r: Option<&'a Option<String>>)
    ensures
        match r {
            Some(x) => exists|i: int|
                0 <= i < ms@.len() && ms@[i].0@ == key@ && *x == ms@[i].1 && forall|j: int|
                    0 <= j < i ==> (#[trigger] ms@[j]).0@ != key@,
            None => forall|i: int| 0 <= i < ms@.len() ==> (#[trigger] ms@[i]).0@ != key@,
        },
{
    let k = chars_of(key);
    let mut i: usize = 0;
    while i < ms.len()
        invariant
            i <= ms.len(),
            k@ == key@,
            forall|j: int| 0 <= j < i ==> (#[trigger] ms@[j]).0@ != key@,
        decreases ms.len() - i,
    {
        let n = chars_of(ms[i].0.as_str());
        if eq(n.as_slice(), k.as_slice()) {
            return Some(&ms[i].1);
        }
        i += 1;
    }
    None
}

/// The first member named `key` is a non-blank string.
pub fn member_nonblank_exec(ms: &Vec<(String, Option<String>)>, key: &str) -> (r: bool)
    ensures
        r == member_nonblank(string_member_views(ms@), key@),
{
    let ghost mv = string_member_views(ms@);
    let f = find_member(ms, key);
    let r = nonempty_str_field(f);
    proof {
        assert forall|i: int| 0 <= i < ms@.len() implies #[trigger] mv[i] == (ms@[i].0@, opt_view(ms@[i].1)) by {}
        match f {
            Some(x) => {
                let i = choose|i: int|
                    0 <= i < ms@.len() && ms@[i].0@ == key@ && *x == ms@[i].1 && forall|j: int|
                        0 <= j < i ==> (#[trigger] ms@[j]).0@ != key@;
                assert(mv[i].0 == key@);
                if r {
                    assert(forall|j: int| 0 <= j < i ==> (#[trigger] mv[j]).0 != key@) by {
                        assert forall|j: int| 0 <= j < i implies (#[trigger] mv[j]).0 != key@ by {
                            assert(mv[j] == (ms@[j].0@, opt_view(ms@[j].1)));
                        }
                    }
                }
                if member_nonblank(mv, key@) {
                    let i2 = choose|i2: int|
                        0 <= i2 < mv.len() && mv[i2].0 == key@ && (forall|j: int| 0 <= j < i2 ==> (#[trigger] mv[j]).0 != key@)
                            && mv[i2].1 is Some && trim(mv[i2].1->Some_0).len() > 0;
                    if i2 < i {
                        assert(ms@[i2].0@ == key@);
                    }
                    if i2 > i {
                        assert(mv[i].0 != key@);
                    }
                    assert(i2 == i);
                }
            },
            None => {
                if member_nonblank(mv, key@) {
                    let i2 = choose|i2: int|
                        0 <= i2 < mv.len() && mv[i2].0 == key@ && (forall|j: int| 0 <= j < i2 ==> (#[trigger] mv[j]).0 != key@)
                            && mv[i2].1 is Some && trim(mv[i2].1->Some_0).len() > 0;
                    assert(ms@[i2].0@ == key@);
                }
            },
        }
    }
    r
}

/// Decoded queue body members: non-blank string `npub` and `email`.
pub fn queue_members_have_npub_and_email(ms: &Vec<(String, Option<String>)>) -> (r: bool)
    ensures
        r == (member_nonblank(string_member_views(ms@), "npub"@) && member_nonblank(string_member_views(ms@), "email"@)),
{
    member_nonblank_exec(ms, "npub") && member_nonblank_exec(ms, "email")
}

/// The queue POST body is a JSON object with non-blank string `npub` and
/// `email`.
pub fn queue_body_has_npub_and_email(bytes: &[u8]) -> (r: bool)
    ensures
        r == spec_queue_body_ok(bytes@),
{
    match decode_json_object(bytes) {
        None => false,
        Some(ms) => queue_members_have_npub_and_email(&ms),
    }
}


// ---------------------------------------------------------------------------
// Request dispatch
// ---------------------------------------------------------------------------

/// What the splora middleware does with one request.
#[derive(Debug, PartialEq, Eq)]
pub enum SploraAction {
    /// Not a splora request: the rest of the console serves it.
    PassThrough,
    /// The queue POST (see [`queue_request`]).
    Queue,
    /// The portal page (see [`portal_reply`]).
    Portal,
    NotFound,
    /// Forward to the instance at `index` in the configured list.
    Indexer { index: usize, backend_path: String, websocket: bool },
}

/// Spec view of [`SploraAction`].
pub enum ActionView {
    PassThrough,
    Queue,
    Portal,
    NotFound,
    Indexer { index: int, backend_path: Seq<char>, websocket: bool },
}

impl SploraAction {
    pub open spec fn view(&self) -> ActionView {
        match self {
            SploraAction::PassThrough => ActionView::PassThrough,
            SploraAction::Queue => ActionView::Queue,
            SploraAction::Portal => ActionView::Portal,
            SploraAction::NotFound => ActionView::NotFound,
            SploraAction::Indexer { index, backend_path, websocket } => ActionView::Indexer {
                index: *index as int,
                backend_path: backend_path@,
                websocket: *websocket,
            },
        }
    }
}

/// Index of the first instance from `k` on named `name`.
pub open spec fn index_named_from(insts: Seq<InstanceView>, name: Seq<char>, k: int) -> Option<int>
    decreases insts.len() - k,
{
    if k < 0 || k >= insts.len() {
        None
    } else if insts[k].name == name {
        Some(k)
    } else {
        index_named_from(insts, name, k + 1)
    }
}

/// Index of the first instance from `k` on that lists Host `key`.
pub open spec fn index_with_host_from(insts: Seq<InstanceView>, key: Seq<char>, k: int) -> Option<int>
    decreases insts.len() - k,
{
    if k < 0 || k >= insts.len() {
        None
    } else if insts[k].hosts.contains(key) {
        Some(k)
    } else {
        index_with_host_from(insts, key, k + 1)
    }
}

/// The portal route mapped to an action: a proxy route names an instance,
/// which must be configured.
pub open spec fn spec_portal_action(c: SploraConfigView, route: RouteView) -> ActionView {
    match route {
        RouteView::Queue => ActionView::Queue,
        RouteView::Index => ActionView::Portal,
        RouteView::NotFound => ActionView::NotFound,
        RouteView::Proxy { socket_name, backend_path, websocket, .. } => match index_named_from(c.instances, socket_name, 0) {
            Some(i) => ActionView::Indexer { index: i, backend_path, websocket },
            None => ActionView::NotFound,
        },
    }
}

/// The middleware's decision: off passes everything through; the queue
/// path on any Host is the queue; on the portal Host the path routes
/// ([`spec_route`]); on an indexer Host the whole path goes to that
/// instance (an upgrade only for exactly `/api/v1/ws`); else pass through.
pub open spec fn spec_splora_action(c: SploraConfigView, path: Seq<char>, query: Option<Seq<char>>, host: Seq<char>) -> ActionView {
    if !c.enable {
        ActionView::PassThrough
    } else if spec_path_is_queue(c.queue_path, path) {
        ActionView::Queue
    } else if spec_is_portal_host(c, host) {
        spec_portal_action(c, spec_route(path, query, c.queue_path, c.instances.map_values(|i: InstanceView| i.name)))
    } else if spec_normalize_host(host).len() > 0 {
        match index_with_host_from(c.instances, spec_normalize_host(host), 0) {
            Some(i) => ActionView::Indexer { index: i, backend_path: path, websocket: path == INDEXER_WS_PATH@ },
            None => ActionView::PassThrough,
        }
    } else {
        ActionView::PassThrough
    }
}

/// What the portal Host answers on its own page path.
#[derive(Debug, PartialEq, Eq)]
pub enum PortalReply {
    /// 200 with [`portal_index_html`].
    Index,
    /// 405 "GET only".
    MethodNotAllowed,
    /// 404 "not found".
    NotFound,
}

/// Only `/` (before any `?`) is the page, and only for `GET`.
pub open spec fn spec_portal_reply(is_get: bool, path: Seq<char>) -> PortalReply {
    if path_only(path) != "/"@ {
        PortalReply::NotFound
    } else if !is_get {
        PortalReply::MethodNotAllowed
    } else {
        PortalReply::Index
    }
}

/// What the queue route does with a request.
#[derive(Debug, PartialEq, Eq)]
pub enum QueueReply {
    /// 405 "POST only".
    MethodNotAllowed,
    /// 400: the body is not a JSON object with `npub` and `email`.
    BadBody,
    /// Forward the body to the queue socket.
    Forward,
}

pub open spec fn spec_queue_request(is_post: bool, body: Seq<u8>) -> QueueReply {
    if !is_post {
        QueueReply::MethodNotAllowed
    } else if !spec_queue_body_ok(body) {
        QueueReply::BadBody
    } else {
        QueueReply::Forward
    }
}

/// Host sent to the queue backend: the request's Host, normalized, when it
/// is not blank; else the services hostname.
pub open spec fn spec_queue_host(host_header: Option<Seq<char>>, services_hostname: Seq<char>) -> Seq<char> {
    match host_header {
        Some(h) => if spec_normalize_host(h).len() > 0 { spec_normalize_host(h) } else { services_hostname },
        None => services_hostname,
    }
}

impl SploraProxyConfig {
    fn index_named(&self, name: &str) -> (r: Option<usize>)
        ensures
            match r {
                Some(i) => index_named_from(self@.instances, name@, 0) == Some(i as int),
                None => index_named_from(self@.instances, name@, 0) is None,
            },
    {
        let n = chars_of(name);
        let mut i: usize = 0;
        while i < self.instances.len()
            invariant
                i <= self.instances.len(),
                n@ == name@,
                index_named_from(self@.instances, name@, 0) == index_named_from(self@.instances, name@, i as int),
            decreases self.instances.len() - i,
        {
            let m = chars_of(self.instances[i].name.as_str());
            assert(self@.instances[i as int] == self.instances@[i as int]@);
            if eq(m.as_slice(), n.as_slice()) {
                return Some(i);
            }
            i += 1;
        }
        None
    }

    fn index_with_host(&self, key: &String) -> (r: Option<usize>)
        ensures
            match r {
                Some(i) => index_with_host_from(self@.instances, key@, 0) == Some(i as int),
                None => index_with_host_from(self@.instances, key@, 0) is None,
            },
    {
        let mut i: usize = 0;
        while i < self.instances.len()
            invariant
                i <= self.instances.len(),
                index_with_host_from(self@.instances, key@, 0) == index_with_host_from(self@.instances, key@, i as int),
            decreases self.instances.len() - i,
        {
            assert(self@.instances[i as int] == self.instances@[i as int]@);
            if contains_string(&self.instances[i].hosts, key) {
                return Some(i);
            }
            i += 1;
        }
        None
    }

    /// The middleware's decision for a request with URI path `path`, query
    /// `query` and surface Host `host` (see [`spec_splora_action`]).
    pub fn action(&self, path: &str, query: Option<&str>, host: &str) -> (r: SploraAction)
        ensures
            r@ == spec_splora_action(self@, path@, match query {
                Some(q) => Some(q@),
                None => None,
            }, host@),
    {
        if !self.enable {
            return SploraAction::PassThrough;
        }
        if self.is_queue_path(path) {
            return SploraAction::Queue;
        }
        if self.is_portal_host(host) {
            let enabled = self.enabled_instance_names();
            let route = route_splora_public(path, query, self.queue_path.as_str(), enabled.as_slice());
            return match route {
                SploraPublicRoute::Queue => SploraAction::Queue,
                SploraPublicRoute::Index => SploraAction::Portal,
                SploraPublicRoute::NotFound => SploraAction::NotFound,
                SploraPublicRoute::Proxy { socket_name, backend_path, websocket, .. } => {
                    match self.index_named(socket_name) {
                        Some(i) => SploraAction::Indexer { index: i, backend_path, websocket },
                        None => SploraAction::NotFound,
                    }
                },
            };
        }
        let key = normalize_host(host);
        if key.as_str().is_empty() {
            return SploraAction::PassThrough;
        }
        match self.index_with_host(&key) {
            Some(i) => {
                let pv = chars_of(path);
                let ws = chars_of(INDEXER_WS_PATH);
                let websocket = eq(pv.as_slice(), ws.as_slice());
                SploraAction::Indexer { index: i, backend_path: own(path), websocket }
            },
            None => SploraAction::PassThrough,
        }
    }
}

/// The portal page answer (see [`spec_portal_reply`]).
pub fn portal_reply(is_get: bool, path: &str) -> (r: PortalReply)
    ensures
        r == spec_portal_reply(is_get, path@),
{
    let full = chars_of(path);
    let p = match find_char_exec(full.as_slice(), '?') {
        Some(i) => slice_of(full.as_slice(), 0, i),
        None => full,
    };
    let root = chars_of("/");
    if !eq(p.as_slice(), root.as_slice()) {
        return PortalReply::NotFound;
    }
    if !is_get {
        return PortalReply::MethodNotAllowed;
    }
    PortalReply::Index
}

/// The queue route's answer: `POST` only, and the body must pass
/// [`queue_body_has_npub_and_email`].
pub fn queue_request(is_post: bool, body: &[u8]) -> (r: QueueReply)
    ensures
        r == spec_queue_request(is_post, body@),
{
    if !is_post {
        return QueueReply::MethodNotAllowed;
    }
    if !queue_body_has_npub_and_email(body) {
        return QueueReply::BadBody;
    }
    QueueReply::Forward
}

/// Host sent to the queue backend (see [`spec_queue_host`]).
pub fn queue_host(host_header: Option<&str>, services_hostname: &str) -> (r: String)
    ensures
        r@ == spec_queue_host(match host_header {
            Some(h) => Some(h@),
            None => None,
        }, services_hostname@),
{
    match host_header {
        Some(h) => {
            let n = normalize_host(h);
            if !n.as_str().is_empty() {
                return n;
            }
            own(services_hostname)
        },
        None => own(services_hostname),
    }
}


// ---------------------------------------------------------------------------
// Laws
// ---------------------------------------------------------------------------

pub proof fn lemma_index_named_from(insts: Seq<InstanceView>, name: Seq<char>, k: int)
    requires
        0 <= k,
    ensures
        index_named_from(insts, name, k) matches Some(i) ==> k <= i < insts.len() && insts[i].name == name,
    decreases insts.len() - k,
{
    if k < insts.len() && insts[k].name != name {
        lemma_index_named_from(insts, name, k + 1);
    }
}

pub proof fn lemma_index_with_host_from(insts: Seq<InstanceView>, key: Seq<char>, k: int)
    requires
        0 <= k,
    ensures
        index_with_host_from(insts, key, k) matches Some(i) ==> k <= i < insts.len() && insts[i].hosts.contains(key),
    decreases insts.len() - k,
{
    if k < insts.len() && !insts[k].hosts.contains(key) {
        lemma_index_with_host_from(insts, key, k + 1);
    }
}

/// An off proxy takes nothing: every request passes through, none skips
/// the Nostr gate, and it adds no Host.
pub proof fn law_off_takes_nothing(c: SploraConfigView, path: Seq<char>, query: Option<Seq<char>>, host: Seq<char>)
    requires
        !c.enable,
    ensures
        spec_splora_action(c, path, query, host) == ActionView::PassThrough,
        !spec_should_bypass_auth(c, host, path),
        spec_extra_hosts(c) == Seq::<Seq<char>>::empty(),
{
}

/// The queue path is the queue on every Host: it is never forwarded to an
/// indexer.
pub proof fn law_queue_path_is_queue_everywhere(c: SploraConfigView, path: Seq<char>, query: Option<Seq<char>>, host: Seq<char>)
    requires
        c.enable,
        spec_path_is_queue(c.queue_path, path),
    ensures
        spec_splora_action(c, path, query, host) == ActionView::Queue,
{
}

/// Public routing only ever proxies to an enabled instance.
pub proof fn law_route_proxies_enabled_only(path: Seq<char>, query: Option<Seq<char>>, queue_path: Seq<char>, enabled: Seq<Seq<char>>)
    ensures
        spec_route(path, query, queue_path, enabled) matches RouteView::Proxy { socket_name, .. } ==> enabled.contains(socket_name),
{
}

/// A forward names a configured instance: on the portal Host the instance
/// named by the route, on an indexer Host the first instance listing that
/// Host.
pub proof fn law_indexer_action_names_instance(c: SploraConfigView, path: Seq<char>, query: Option<Seq<char>>, host: Seq<char>)
    ensures
        spec_splora_action(c, path, query, host) matches ActionView::Indexer { index, .. } ==> 0 <= index < c.instances.len(),
{
    let names = c.instances.map_values(|i: InstanceView| i.name);
    match spec_route(path, query, c.queue_path, names) {
        RouteView::Proxy { socket_name, .. } => {
            lemma_index_named_from(c.instances, socket_name, 0);
        },
        _ => {},
    }
    lemma_index_with_host_from(c.instances, spec_normalize_host(host), 0);
}

proof fn lemma_strip_own_prefix(prefix: Seq<char>, rest: Seq<char>)
    requires
        rest.len() == 0 || rest[0] == '/',
    ensures
        spec_strip_named_prefix(prefix + rest, prefix) == Some(rest),
{
    let p = prefix + rest;
    if rest.len() == 0 {
        assert(p =~= prefix);
    } else {
        assert(p.take(prefix.len() as int) =~= prefix);
        assert(p.skip(prefix.len() as int) =~= rest);
        assert(p[prefix.len() as int] == rest[0]);
    }
}

proof fn lemma_no_prefix_at(p: Seq<char>, other: Seq<char>, k: int)
    requires
        0 <= k < p.len(),
        k < other.len(),
        p[k] != other[k],
    ensures
        spec_strip_named_prefix(p, other) is None,
{
    if starts_with(p, other) {
        assert(p.take(other.len() as int)[k] == other[k]);
    }
    if p == other {
        assert(p[k] == other[k]);
    }
}

proof fn lemma_path_only_plain(p: Seq<char>)
    requires
        forall|j: int| 0 <= j < p.len() ==> p[j] != '?',
    ensures
        path_only(p) == p,
{
    crate::text::lemma_find_char_none(p, '?');
}

/// `/signet` is `/mutinynet`: under either prefix the same remainder goes
/// to the same (mutinynet) socket with the same backend path and query,
/// with no redirect between them (neither path being the queue path).
pub proof fn law_signet_is_mutinynet(rest: Seq<char>, query: Option<Seq<char>>, queue_path: Seq<char>, enabled: Seq<Seq<char>>)
    requires
        rest.len() == 0 || rest[0] == '/',
        forall|j: int| 0 <= j < rest.len() ==> rest[j] != '?',
        !spec_path_is_queue(queue_path, "/signet"@ + rest),
        !spec_path_is_queue(queue_path, "/mutinynet"@ + rest),
    ensures
        spec_route("/signet"@ + rest, query, queue_path, enabled) == spec_route("/mutinynet"@ + rest, query, queue_path, enabled),
        spec_route("/signet"@ + rest, query, queue_path, enabled) == spec_proxy_after_network(
            "mutinynet"@,
            rest,
            match query {
                Some(q) => if q.len() > 0 { Some(q) } else { None },
                None => None,
            },
            enabled,
        ),
{
    reveal_strlit("/signet");
    reveal_strlit("/mutinynet");
    reveal_strlit("/testnet4");
    reveal_strlit("/testnet");
    reveal_strlit("/");
    let a = "/signet"@ + rest;
    let b = "/mutinynet"@ + rest;
    assert forall|j: int| 0 <= j < a.len() implies a[j] != '?' by {
        if j >= 7 {
            assert(a[j] == rest[j - 7]);
        }
    }
    assert forall|j: int| 0 <= j < b.len() implies b[j] != '?' by {
        if j >= 10 {
            assert(b[j] == rest[j - 10]);
        }
    }
    lemma_path_only_plain(a);
    lemma_path_only_plain(b);
    assert(a[1] == 's');
    assert(b[1] == 'm');
    assert(a != "/"@) by {
        assert(a.len() >= 7);
    }
    assert(b != "/"@) by {
        assert(b.len() >= 10);
    }
    lemma_no_prefix_at(a, "/testnet4"@, 1);
    lemma_no_prefix_at(a, "/testnet"@, 1);
    lemma_strip_own_prefix("/signet"@, rest);
    lemma_no_prefix_at(b, "/testnet4"@, 1);
    lemma_no_prefix_at(b, "/testnet"@, 1);
    lemma_no_prefix_at(b, "/signet"@, 1);
    lemma_strip_own_prefix("/mutinynet"@, rest);
}

// ---------------------------------------------------------------------------
// Laws of the configuration
// ---------------------------------------------------------------------------

proof fn lemma_dedup(s: Seq<Seq<char>>)
    ensures
        forall|x: Seq<char>| #[trigger] dedup(s).contains(x) <==> s.contains(x),
        forall|i: int, j: int| 0 <= i < j < dedup(s).len() ==> dedup(s)[i] != dedup(s)[j],
    decreases s.len(),
{
    if s.len() > 0 {
        let d = s.drop_last();
        lemma_dedup(d);
        assert forall|x: Seq<char>| #[trigger] dedup(s).contains(x) <==> s.contains(x) by {
            if s.contains(x) && x != s.last() {
                let k = choose|k: int| 0 <= k < s.len() && s[k] == x;
                assert(d[k] == x);
            }
            if d.contains(x) {
                let k = choose|k: int| 0 <= k < d.len() && d[k] == x;
                assert(s[k] == x);
            }
            assert(s[s.len() - 1] == s.last());
            if !dedup(d).contains(s.last()) {
                let e = dedup(d).push(s.last());
                if e.contains(x) {
                    let k = choose|k: int| 0 <= k < e.len() && e[k] == x;
                    if k < dedup(d).len() {
                        assert(dedup(d)[k] == x);
                    }
                }
                if dedup(d).contains(x) {
                    let k = choose|k: int| 0 <= k < dedup(d).len() && dedup(d)[k] == x;
                    assert(e[k] == x);
                }
                assert(e[dedup(d).len() as int] == s.last());
            }
        }
        if !dedup(d).contains(s.last()) {
            let e = dedup(d).push(s.last());
            assert forall|i: int, j: int| 0 <= i < j < e.len() implies e[i] != e[j] by {
                if j == dedup(d).len() {
                    assert(e[i] == dedup(d)[i]);
                } else {
                    assert(e[i] == dedup(d)[i]);
                    assert(e[j] == dedup(d)[j]);
                }
            }
        }
    }
}

proof fn lemma_all_hosts(insts: Seq<InstanceView>, h: Seq<char>)
    ensures
        all_hosts(insts).contains(h) <==> any_instance_has_host(insts, h),
    decreases insts.len(),
{
    if insts.len() > 0 {
        let d = insts.drop_last();
        lemma_all_hosts(d, h);
        let a = all_hosts(d);
        let l = insts.last().hosts;
        if (a + l).contains(h) {
            let k = choose|k: int| 0 <= k < (a + l).len() && (a + l)[k] == h;
            if k < a.len() {
                assert(a[k] == h);
                let i = choose|i: int| 0 <= i < d.len() && (#[trigger] d[i]).hosts.contains(h);
                assert(insts[i] == d[i]);
            } else {
                assert(l[k - a.len()] == h);
                assert(insts[insts.len() - 1].hosts.contains(h));
            }
        }
        if any_instance_has_host(insts, h) {
            let i = choose|i: int| 0 <= i < insts.len() && (#[trigger] insts[i]).hosts.contains(h);
            if i < d.len() {
                assert(d[i] == insts[i]);
                assert(a.contains(h));
                let k = choose|k: int| 0 <= k < a.len() && a[k] == h;
                assert((a + l)[k] == h);
            } else {
                let k = choose|k: int| 0 <= k < l.len() && l[k] == h;
                assert((a + l)[a.len() + k] == h);
            }
        }
    }
}

/// The extra Hosts the edge serves for splora (TLS names, onion and
/// redirect allowlists) hold no repeats, and are exactly the indexer Hosts
/// and the portal Host of an enabled proxy.
pub proof fn law_extra_hosts_no_repeats(c: SploraConfigView)
    ensures
        forall|i: int, j: int| 0 <= i < j < spec_extra_hosts(c).len() ==> spec_extra_hosts(c)[i] != spec_extra_hosts(c)[j],
        forall|h: Seq<char>|
            #[trigger] spec_extra_hosts(c).contains(h) <==> c.enable && (any_instance_has_host(c.instances, h) || (
            c.portal_host == Some(h) && h.len() > 0)),
{
    if c.enable {
        let portal: Seq<Seq<char>> = match c.portal_host {
            Some(p) => if p.len() > 0 { seq![p] } else { seq![] },
            None => seq![],
        };
        let a = all_hosts(c.instances);
        lemma_dedup(a + portal);
        assert forall|h: Seq<char>| #[trigger] spec_extra_hosts(c).contains(h) <==> (any_instance_has_host(c.instances, h) || (
            c.portal_host == Some(h) && h.len() > 0)) by {
            lemma_all_hosts(c.instances, h);
            if (a + portal).contains(h) {
                let k = choose|k: int| 0 <= k < (a + portal).len() && (a + portal)[k] == h;
                if k < a.len() {
                    assert(a[k] == h);
                } else {
                    assert(portal[k - a.len()] == h);
                }
            }
            if a.contains(h) {
                let k = choose|k: int| 0 <= k < a.len() && a[k] == h;
                assert((a + portal)[k] == h);
            }
            if c.portal_host == Some(h) && h.len() > 0 {
                assert((a + portal)[a.len() as int] == h);
            }
        }
    }
}

/// No two Hosts of a list of instances are the same (within one instance
/// or across two).
pub open spec fn hosts_unique(insts: Seq<InstanceView>) -> bool {
    forall|i: int, j: int, a: int, b: int|
        0 <= i < insts.len() && 0 <= j < insts.len() && 0 <= a < insts[i].hosts.len() && 0 <= b < insts[j].hosts.len()
            && (i != j || a != b) ==> #[trigger] insts[i].hosts[a] != #[trigger] insts[j].hosts[b]
}

/// What each accepted instance holds: an allowed name, an absolute socket
/// that is not an Electrum socket, and Hosts that are normalized and not
/// blank.
pub open spec fn instance_ok(v: InstanceView) -> bool {
    &&& allowed_instance_names().contains(v.name)
    &&& v.http_socket.len() > 0 && v.http_socket[0] == '/'
    &&& spec_refuse_electrum_path(v.http_socket, "splora instance socket"@) is Ok
    &&& forall|a: int| 0 <= a < v.hosts.len() ==> (#[trigger] v.hosts[a]).len() > 0
}

proof fn lemma_host_owner(done: Seq<InstanceView>, h: Seq<char>)
    ensures
        host_owner(done, h) is None <==> !any_instance_has_host(done, h),
    decreases done.len(),
{
    if done.len() > 0 {
        let d = done.drop_last();
        lemma_host_owner(d, h);
        if any_instance_has_host(done, h) {
            let i = choose|i: int| 0 <= i < done.len() && (#[trigger] done[i]).hosts.contains(h);
            if i < d.len() {
                assert(d[i] == done[i]);
            }
        }
        if any_instance_has_host(d, h) {
            let i = choose|i: int| 0 <= i < d.len() && (#[trigger] d[i]).hosts.contains(h);
            assert(done[i] == d[i]);
        }
        assert(done[done.len() - 1] == done.last());
    }
}

proof fn lemma_member_hosts(done: Seq<InstanceView>, name: Seq<char>, raw: Seq<Seq<char>>)
    ensures
        spec_member_hosts(done, name, raw) matches Ok(h) ==> {
            &&& forall|a: int| 0 <= a < h.len() ==> (#[trigger] h[a]).len() > 0
            &&& forall|a: int| 0 <= a < h.len() ==> !any_instance_has_host(done, #[trigger] h[a])
            &&& forall|a: int, b: int| 0 <= a < b < h.len() ==> h[a] != h[b]
        },
    decreases raw.len(),
{
    if raw.len() > 0 {
        lemma_member_hosts(done, name, raw.drop_last());
        match spec_member_hosts(done, name, raw.drop_last()) {
            Err(_) => {},
            Ok(prev) => {
                let n = spec_normalize_host(raw.last());
                let v = InstanceView { name: name, hosts: prev, http_socket: seq![] };
                let dd = done.push(v);
                if n.len() > 0 && host_owner(dd, n) is None {
                    lemma_host_owner(dd, n);
                    let h = prev.push(n);
                    assert(dd[dd.len() - 1] == v);
                    assert forall|i: int| 0 <= i < done.len() implies !(#[trigger] done[i]).hosts.contains(n) by {
                        assert(dd[i] == done[i]);
                    }
                    assert(!prev.contains(n));
                    assert forall|a: int| 0 <= a < h.len() implies !any_instance_has_host(done, #[trigger] h[a]) by {
                        if a < prev.len() {
                            assert(h[a] == prev[a]);
                        }
                    }
                    assert forall|a: int, b: int| 0 <= a < b < h.len() implies h[a] != h[b] by {
                        if b == prev.len() {
                            assert(h[a] == prev[a]);
                            assert(prev.contains(prev[a]));
                        } else {
                            assert(h[a] == prev[a]);
                            assert(h[b] == prev[b]);
                        }
                    }
                    assert forall|a: int| 0 <= a < h.len() implies (#[trigger] h[a]).len() > 0 by {
                        if a < prev.len() {
                            assert(h[a] == prev[a]);
                        }
                    }
                }
            },
        }
    }
}

proof fn lemma_instances(members: Seq<(Seq<char>, Result<FieldsView, Seq<char>>)>, dir: Seq<char>)
    ensures
        spec_instances(members, dir) matches Ok(insts) ==> hosts_unique(insts) && forall|i: int|
            0 <= i < insts.len() ==> instance_ok(#[trigger] insts[i]),
    decreases members.len(),
{
    if members.len() > 0 {
        lemma_instances(members.drop_last(), dir);
        match spec_instances(members.drop_last(), dir) {
            Err(_) => {},
            Ok(done) => {
                let m = members.last();
                match spec_member(done, m.0, m.1, dir) {
                    Err(_) => {},
                    Ok(v) => {
                        let f = m.1->Ok_0;
                        lemma_member_hosts(done, m.0, f.hosts);
                        let insts = done.push(v);
                        assert(insts[insts.len() - 1] == v);
                        assert forall|i: int| 0 <= i < insts.len() implies instance_ok(#[trigger] insts[i]) by {
                            if i < done.len() {
                                assert(insts[i] == done[i]);
                            }
                        }
                        assert forall|i: int, j: int, a: int, b: int|
                            0 <= i < insts.len() && 0 <= j < insts.len() && 0 <= a < insts[i].hosts.len() && 0 <= b
                                < insts[j].hosts.len() && (i != j || a != b) implies #[trigger] insts[i].hosts[a]
                            != #[trigger] insts[j].hosts[b] by {
                            let last = done.len() as int;
                            if i < last && j < last {
                                assert(insts[i] == done[i]);
                                assert(insts[j] == done[j]);
                            } else if i == last && j == last {
                            } else if i == last {
                                assert(insts[j] == done[j]);
                                assert(!any_instance_has_host(done, v.hosts[a]));
                                assert(done[j].hosts[b] == insts[j].hosts[b]);
                                if insts[i].hosts[a] == insts[j].hosts[b] {
                                    assert(done[j].hosts.contains(v.hosts[a]));
                                }
                            } else {
                                assert(insts[i] == done[i]);
                                assert(!any_instance_has_host(done, v.hosts[b]));
                                if insts[i].hosts[a] == insts[j].hosts[b] {
                                    assert(done[i].hosts.contains(v.hosts[b]));
                                }
                            }
                        }
                    },
                }
            },
        }
    }
}

/// Every instance an accepted `SURMOUNT_SPLORA_INSTANCES` map gives has an
/// allowed name, an absolute non-Electrum socket and non-blank Hosts, and
/// no Host belongs to two instances (nor twice to one): a Host names at
/// most one instance.
pub proof fn law_instances_checked(j: InstancesJsonView, dir: Seq<char>)
    ensures
        spec_instances_from_json(j, dir) matches Ok(insts) ==> {
            &&& hosts_unique(insts)
            &&& forall|i: int| 0 <= i < insts.len() ==> instance_ok(#[trigger] insts[i])
        },
{
    if let InstancesJsonView::Members(m) = j {
        lemma_instances(m, dir);
    }
}

/// The instance an indexer Host belongs to: when a Host is listed, the
/// instance listing it is the only one that does.
pub proof fn law_host_names_one_instance(insts: Seq<InstanceView>, h: Seq<char>, i: int, k: int)
    requires
        hosts_unique(insts),
        0 <= i < insts.len(),
        0 <= k < insts.len(),
        insts[i].hosts.contains(h),
        insts[k].hosts.contains(h),
    ensures
        i == k,
{
    let a = choose|a: int| 0 <= a < insts[i].hosts.len() && insts[i].hosts[a] == h;
    let b = choose|b: int| 0 <= b < insts[k].hosts.len() && insts[k].hosts[b] == h;
    if i != k {
        assert(insts[i].hosts[a] != insts[k].hosts[b]);
    }
}

/// An accepted splora configuration never has the Electrum socket set,
/// keeps its sockets off Electrum paths, has at least one instance when on,
/// never makes the portal Host an indexer Host, and holds only checked
/// instances whose Hosts name one instance each.
pub proof fn law_splora_config_refusals(
    electrum: Option<Seq<char>>,
    enable: Option<Seq<char>>,
    socket_dir: Option<Seq<char>>,
    queue_socket: Option<Seq<char>>,
    queue_path: Option<Seq<char>>,
    instances: Option<InstancesJsonView>,
    portal: Option<Seq<char>>,
)
    ensures
        spec_splora_config(electrum, enable, socket_dir, queue_socket, queue_path, instances, portal) matches Ok(c)
            ==> {
            &&& nonblank(electrum) is None
            &&& spec_refuse_electrum_path(spec_socket_dir(socket_dir), "SURMOUNT_SPLORA_SOCKET_DIR"@) is Ok
            &&& spec_refuse_electrum_path(c.queue_socket, "SURMOUNT_SPLORA_QUEUE_SOCKET"@) is Ok
            &&& c.enable ==> c.instances.len() > 0
            &&& c.portal_host matches Some(p) ==> !any_instance_has_host(c.instances, p)
            &&& hosts_unique(c.instances)
            &&& forall|i: int| 0 <= i < c.instances.len() ==> instance_ok(#[trigger] c.instances[i])
        },
        nonblank(electrum) is Some ==> spec_splora_config(
            electrum,
            enable,
            socket_dir,
            queue_socket,
            queue_path,
            instances,
            portal,
        ) == Err::<SploraConfigView, Seq<char>>(electrum_env_refusal()),
{
    if let Some(j) = instances {
        law_instances_checked(j, spec_socket_dir(socket_dir));
    }
}

} // verus!
