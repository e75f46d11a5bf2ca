//! Host classification and HTTP -> HTTPS upgrade targets for the edge.
//!
//! Apex and `www.` are the public site, the services hostname is the
//! operator console, extra static hosts have their own document roots, and
//! every other Host is left alone. The plain-HTTP listener upgrades only
//! allowlisted hosts, to the same host (open-redirect safe).

use vstd::prelude::*;
use crate::ip::{ip_eq, is_ipv6_literal, is_ipv6_literal_exec, parse_ip_addr, spec_parse_ip};
use crate::text::{all_digits, all_digits_exec, chars_of, concat, contains, dec, dec_exec, eq, eq_ignore_case, eq_ignore_case_exec, extend, find_char, find_char_exec, has_char, has_char_exec, lemma_find_char, lemma_find_char_none, lemma_rfind_char, lower, lower_vec, own, rfind_char, rfind_char_exec, slice_of, starts_with, starts_with_exec, string_of, trim, trim_str, trim_vec, views};

verus! {

/// Result of deciding whether / how to redirect plain HTTP to HTTPS.
#[derive(Debug, PartialEq, Eq)]
pub enum HttpToHttps {
    /// Redirect to this absolute HTTPS URL.
    Redirect { location: String },
    /// Do not redirect (feature disabled or host not allowlisted).
    PassThrough,
}

/// Spec view of [`HttpToHttps`].
pub enum HttpToHttpsView {
    Redirect(Seq<char>),
    PassThrough,
}

impl HttpToHttps {
    pub open spec fn view(&self) -> HttpToHttpsView {
        match self {
            HttpToHttps::Redirect { location } => HttpToHttpsView::Redirect(location@),
            HttpToHttps::PassThrough => HttpToHttpsView::PassThrough,
        }
    }
}

// ---------------------------------------------------------------------------
// Spec model
// ---------------------------------------------------------------------------

/// Host header without its port: bracketed IPv6 keeps its brackets; a
/// trailing `:digits` is dropped unless the name itself has a colon.
pub open spec fn spec_host_without_port(raw: Seq<char>) -> Seq<char> {
    let t = trim(raw);
    if t.len() == 0 {
        t
    } else if t[0] == '[' {
        match find_char(t.drop_first(), ']') {
            Some(e) => t.take(e + 2),
            None => t,
        }
    } else {
        match rfind_char(t, ':') {
            Some(i) => {
                let port = t.skip(i + 1);
                if port.len() > 0 && all_digits(port) {
                    if has_char(t.take(i), ':') {
                        t
                    } else {
                        t.take(i)
                    }
                } else {
                    t
                }
            },
            None => t,
        }
    }
}

/// Host for a URL authority: port stripped, IPv6 brackets removed.
pub open spec fn spec_authority(raw: Seq<char>) -> Seq<char> {
    let h = spec_host_without_port(raw);
    if h.len() >= 2 && h[0] == '[' && h.last() == ']' {
        h.subrange(1, h.len() - 1)
    } else {
        h
    }
}

/// Same IP address when both parse as IPs.
pub open spec fn same_ip(a: Seq<char>, b: Seq<char>) -> bool {
    spec_parse_ip(a) is Some && spec_parse_ip(b) is Some && spec_parse_ip(a) == spec_parse_ip(b)
}

/// One allowlist entry admits the Host.
pub open spec fn allow_entry_matches(host: Seq<char>, entry: Seq<char>) -> bool {
    let c = spec_authority(host);
    let a = spec_authority(entry);
    lower(c) == lower(a) || same_ip(c, a)
}

/// Host is allowed for redirects.
pub open spec fn spec_host_is_allowlisted(host: Seq<char>, allowed: Seq<Seq<char>>) -> bool {
    exists|i: int| 0 <= i < allowed.len() && allow_entry_matches(host, #[trigger] allowed[i])
}

/// Host is the apex primary domain or `www.` of it.
pub open spec fn spec_is_apex_or_www(host: Seq<char>, primary: Seq<char>) -> bool {
    let p = spec_authority(primary);
    p.len() > 0 && {
        let h = lower(spec_authority(host));
        h == lower(p) || h == "www."@ + lower(p)
    }
}

/// Host is the services (console) hostname.
pub open spec fn spec_is_services_host(host: Seq<char>, services: Seq<char>) -> bool {
    let s = spec_authority(services);
    s.len() > 0 && eq_ignore_case(spec_authority(host), s)
}

/// Host is a configured extra static vhost.
pub open spec fn spec_static_vhost_mapped(host: Seq<char>, vhosts: Map<Seq<char>, Seq<char>>) -> bool {
    let h = lower(spec_authority(host));
    h.len() > 0 && vhosts.dom().contains(h)
}

/// Which public surface a Host maps to.
pub open spec fn spec_classify(
    host: Seq<char>,
    primary: Seq<char>,
    services: Seq<char>,
    vhosts: Map<Seq<char>, Seq<char>>,
) -> HostSurface {
    if spec_is_services_host(host, services) {
        HostSurface::ServicesConsole
    } else if spec_is_apex_or_www(host, primary) {
        HostSurface::ApexPublic
    } else if spec_static_vhost_mapped(host, vhosts) {
        HostSurface::StaticVhost
    } else {
        HostSurface::Other
    }
}

/// Path before the first `?`.
pub open spec fn path_only(path: Seq<char>) -> Seq<char> {
    match find_char(path, '?') {
        Some(i) => path.take(i),
        None => path,
    }
}

/// Health probes and `/.well-known/` stay on apex/www.
pub open spec fn spec_edge_exception(path: Seq<char>) -> bool {
    let p = path_only(path);
    p == "/health"@ || p == "/api/health"@ || starts_with(p, "/.well-known/"@)
}

/// The public coming-soon page answers: apex/www Host, not an edge
/// exception, not under `/api/`.
pub open spec fn spec_coming_soon(host: Seq<char>, primary: Seq<char>, services: Seq<char>, path: Seq<char>) -> bool {
    spec_classify(host, primary, services, Map::<Seq<char>, Seq<char>>::empty()) == HostSurface::ApexPublic
        && !spec_edge_exception(path) && !starts_with(path_only(path), "/api/"@)
}

/// A closed API 404 answers: public static surface, a path under `/api/`
/// that is not an edge exception.
pub open spec fn spec_reject_public_api(
    host: Seq<char>,
    primary: Seq<char>,
    services: Seq<char>,
    vhosts: Map<Seq<char>, Seq<char>>,
    path: Seq<char>,
) -> bool {
    let s = spec_classify(host, primary, services, vhosts);
    (s == HostSurface::ApexPublic || s == HostSurface::StaticVhost) && starts_with(path_only(path), "/api/"@)
        && !spec_edge_exception(path)
}

/// `https://{authority}{:port}{path}`, IPv6 bracketed, 443 omitted.
pub open spec fn spec_https_location(authority: Seq<char>, path: Seq<char>, port: Option<u16>) -> Seq<char> {
    let auth = if is_ipv6_literal(authority) {
        "["@ + authority + "]"@
    } else {
        authority
    };
    match port {
        Some(p) if p != 443 => "https://"@ + auth + ":"@ + dec(p as nat) + path,
        _ => "https://"@ + auth + path,
    }
}

/// Redirect decision for a plain-HTTP request.
pub open spec fn spec_redirect(
    enabled: bool,
    host: Seq<char>,
    path_and_query: Seq<char>,
    port: Option<u16>,
    allowed: Seq<Seq<char>>,
) -> HttpToHttpsView {
    if !enabled || allowed.len() == 0 || !spec_host_is_allowlisted(host, allowed) {
        HttpToHttpsView::PassThrough
    } else {
        let h = spec_authority(host);
        if h.len() == 0 {
            HttpToHttpsView::PassThrough
        } else if path_and_query.len() == 0 {
            HttpToHttpsView::Redirect(spec_https_location(h, "/"@, port))
        } else if path_and_query[0] == '/' {
            HttpToHttpsView::Redirect(spec_https_location(h, path_and_query, port))
        } else {
            HttpToHttpsView::PassThrough
        }
    }
}


// ---------------------------------------------------------------------------
// Static vhost map
// ---------------------------------------------------------------------------

/// Extra static Host -> document root map (keys are lower-case hosts).
pub struct StaticVhosts {
    entries: Vec<(String, String)>,
}

/// Map of a list of bindings, later bindings winning.
pub open spec fn bindings_map(s: Seq<(Seq<char>, Seq<char>)>) -> Map<Seq<char>, Seq<char>>
    decreases s.len(),
{
    if s.len() == 0 {
        Map::empty()
    } else {
        bindings_map(s.drop_last()).insert(s.last().0, s.last().1)
    }
}

pub open spec fn pair_views(s: Seq<(String, String)>) -> Seq<(Seq<char>, Seq<char>)> {
    s.map_values(|p: (String, String)| (p.0@, p.1@))
}

proof fn lemma_bindings_map_dom(s: Seq<(Seq<char>, Seq<char>)>, k: Seq<char>)
    ensures
        bindings_map(s).dom().contains(k) <==> exists|i: int| 0 <= i < s.len() && s[i].0 == k,
    decreases s.len(),
{
    if s.len() > 0 {
        lemma_bindings_map_dom(s.drop_last(), k);
        if exists|i: int| 0 <= i < s.len() && s[i].0 == k {
            let i = choose|i: int| 0 <= i < s.len() && s[i].0 == k;
            if i < s.len() - 1 {
                assert(s.drop_last()[i].0 == k);
            }
        }
        if exists|i: int| 0 <= i < s.len() - 1 && s.drop_last()[i].0 == k {
            let i = choose|i: int| 0 <= i < s.len() - 1 && s.drop_last()[i].0 == k;
            assert(s[i].0 == k);
        }
    }
}

proof fn lemma_bindings_map_last(s: Seq<(Seq<char>, Seq<char>)>, k: Seq<char>, i: int)
    requires
        0 <= i < s.len(),
        s[i].0 == k,
        forall|j: int| i < j < s.len() ==> s[j].0 != k,
    ensures
        bindings_map(s).dom().contains(k),
        bindings_map(s)[k] == s[i].1,
    decreases s.len(),
{
    if i < s.len() - 1 {
        lemma_bindings_map_last(s.drop_last(), k, i);
    }
}

impl StaticVhosts {
    pub closed spec fn view(&self) -> Map<Seq<char>, Seq<char>> {
        bindings_map(pair_views(self.entries@))
    }

    pub fn new() -> (r: Self)
        ensures
            r.view() == Map::<Seq<char>, Seq<char>>::empty(),
    {
        let r = StaticVhosts { entries: Vec::new() };
        assert(pair_views(r.entries@) =~= Seq::<(Seq<char>, Seq<char>)>::empty());
        r
    }

    /// Maps `host` to `root`, replacing an earlier binding.
    pub fn insert(&mut self, host: String, root: String)
        ensures
            final(self).view() == old(self).view().insert(host@, root@),
    {
        let ghost before = pair_views(self.entries@);
        let ghost h = host@;
        let ghost r = root@;
        self.entries.push((host, root));
        assert(pair_views(self.entries@) =~= before.push((h, r)));
        assert(before.push((h, r)).drop_last() =~= before);
    }

    pub fn is_empty(&self) -> (r: bool)
        ensures
            r == (self.view().dom().len() == 0 && self.view().dom().finite()),
            r == (self.view() == Map::<Seq<char>, Seq<char>>::empty()),
    {
        proof {
            lemma_bindings_map_finite(pair_views(self.entries@));
        }
        if self.entries.len() == 0 {
            assert(pair_views(self.entries@) =~= Seq::<(Seq<char>, Seq<char>)>::empty());
            assert(self.view().dom() =~= Set::<Seq<char>>::empty());
            true
        } else {
            let ghost s = pair_views(self.entries@);
            proof {
                lemma_bindings_map_dom(s, s.last().0);
                assert(self.view().dom().contains(s.last().0));
            }
            false
        }
    }

    /// The root bound to `key`, if any.
    pub fn get(&self, key: &[char]) -> (r: Option<String>)
        ensures
            r matches Some(v) ==> self.view().dom().contains(key@) && self.view()[key@] == v@,
            r is None ==> !self.view().dom().contains(key@),
    {
        let ghost s = pair_views(self.entries@);
        let mut i: usize = self.entries.len();
        while i > 0
            invariant
                i <= self.entries.len(),
                s == pair_views(self.entries@),
                forall|j: int| i <= j < s.len() ==> s[j].0 != key@,
            decreases i,
        {
            let k = chars_of(self.entries[i - 1].0.as_str());
            if eq(k.as_slice(), key) {
                proof {
                    lemma_bindings_map_last(s, key@, i - 1);
                }
                return Some(self.entries[i - 1].1.clone());
            }
            i -= 1;
        }
        proof {
            lemma_bindings_map_dom(s, key@);
        }
        None
    }
}

proof fn lemma_bindings_map_finite(s: Seq<(Seq<char>, Seq<char>)>)
    ensures
        bindings_map(s).dom().finite(),
    decreases s.len(),
{
    if s.len() > 0 {
        lemma_bindings_map_finite(s.drop_last());
    }
}

// ---------------------------------------------------------------------------
// Executable functions
// ---------------------------------------------------------------------------

fn host_without_port_chars(raw: &[char]) -> (r: Vec<char>)
    ensures
        r@ == spec_host_without_port(raw@),
{
    let t = trim_vec(raw);
    if t.len() == 0 {
        return t;
    }
    if t[0] == '[' {
        let rest = slice_of(t.as_slice(), 1, t.len());
        assert(rest@ == t@.drop_first());
        match find_char_exec(rest.as_slice(), ']') {
            Some(e) => {
                proof {
                    lemma_find_char(t@.drop_first(), ']');
                }
                return slice_of(t.as_slice(), 0, e + 2);
            },
            None => return t,
        }
    }
    match rfind_char_exec(t.as_slice(), ':') {
        Some(i) => {
            proof {
                lemma_rfind_char(t@, ':');
            }
            let port = slice_of(t.as_slice(), i + 1, t.len());
            let name = slice_of(t.as_slice(), 0, i);
            assert(port@ == t@.skip(i + 1));
            assert(name@ == t@.take(i as int));
            if port.len() > 0 && all_digits_exec(port.as_slice()) {
                if has_char_exec(name.as_slice(), ':') {
                    t
                } else {
                    name
                }
            } else {
                t
            }
        },
        None => t,
    }
}

/// Strips an optional port from a Host header value; bracketed IPv6 keeps
/// its brackets (`[2001:db8::1]:8080` -> `[2001:db8::1]`).
pub fn host_without_port(host: &str) -> (r: String)
    ensures
        r@ == spec_host_without_port(host@),
{
    let v = chars_of(host);
    let r = host_without_port_chars(v.as_slice());
    string_of(r.as_slice())
}

fn authority_chars(raw: &[char]) -> (r: Vec<char>)
    ensures
        r@ == spec_authority(raw@),
{
    let h = host_without_port_chars(raw);
    if h.len() >= 2 && h[0] == '[' && h[h.len() - 1] == ']' {
        slice_of(h.as_slice(), 1, h.len() - 1)
    } else {
        h
    }
}

/// Inner host for a URL authority: port stripped, IPv6 brackets removed.
pub fn host_for_url_authority(host_header: &str) -> (r: String)
    ensures
        r@ == spec_authority(host_header@),
{
    let v = chars_of(host_header);
    let r = authority_chars(v.as_slice());
    string_of(r.as_slice())
}

fn allow_entry_matches_exec(cand: &[char], cand_lower: &[char], entry: &str) -> (r: bool)
    requires
        cand_lower@ == lower(cand@),
    ensures
        r == (lower(cand@) == lower(spec_authority(entry@)) || same_ip(cand@, spec_authority(entry@))),
{
    let ev = chars_of(entry);
    let allow = authority_chars(ev.as_slice());
    let allow_lower = lower_vec(allow.as_slice());
    if eq(cand_lower, allow_lower.as_slice()) {
        return true;
    }
    match (parse_ip_addr(cand), parse_ip_addr(allow.as_slice())) {
        (Some(c), Some(a)) => ip_eq(&c, &a),
        _ => false,
    }
}

/// True when Host is allowed for redirects: same host (port stripped,
/// ASCII case ignored) as some entry, or the same IP address when both
/// parse as IPs. An empty allowlist admits nothing.
pub fn host_is_allowlisted(host_header: &str, allowed: &[String]) -> (r: bool)
    ensures
        r == spec_host_is_allowlisted(host_header@, views(allowed@)),
{
    let hv = chars_of(host_header);
    let candidate = authority_chars(hv.as_slice());
    let cand_lower = lower_vec(candidate.as_slice());
    let ghost al = views(allowed@);
    let mut i: usize = 0;
    while i < allowed.len()
        invariant
            i <= allowed.len(),
            al == views(allowed@),
            candidate@ == spec_authority(host_header@),
            cand_lower@ == lower(candidate@),
            forall|j: int| 0 <= j < i ==> !allow_entry_matches(host_header@, #[trigger] al[j]),
        decreases allowed.len() - i,
    {
        if allow_entry_matches_exec(candidate.as_slice(), cand_lower.as_slice(), allowed[i].as_str()) {
            proof {
                assert(al[i as int] == allowed@[i as int]@);
                assert(allow_entry_matches(host_header@, al[i as int]));
            }
            return true;
        }
        proof {
            assert(al[i as int] == allowed@[i as int]@);
        }
        i += 1;
    }
    false
}

/// True when Host is the apex primary domain or `www.` of it (port
/// stripped, ASCII case ignored). An empty primary never matches.
pub fn is_apex_or_www(host_header: &str, primary_domain: &str) -> (r: bool)
    ensures
        r == spec_is_apex_or_www(host_header@, primary_domain@),
{
    let pv = chars_of(primary_domain);
    let primary = authority_chars(pv.as_slice());
    if primary.len() == 0 {
        return false;
    }
    let hv = chars_of(host_header);
    let ha = authority_chars(hv.as_slice());
    let h = lower_vec(ha.as_slice());
    let p = lower_vec(primary.as_slice());
    let www = chars_of("www.");
    let wp = concat(www.as_slice(), p.as_slice());
    eq(h.as_slice(), p.as_slice()) || eq(h.as_slice(), wp.as_slice())
}

/// True when Host is the services (console) hostname (port stripped, ASCII
/// case ignored). An empty services name never matches.
pub fn is_services_host(host_header: &str, services_hostname: &str) -> (r: bool)
    ensures
        r == spec_is_services_host(host_header@, services_hostname@),
{
    let sv = chars_of(services_hostname);
    let services = authority_chars(sv.as_slice());
    if services.len() == 0 {
        return false;
    }
    let hv = chars_of(host_header);
    let h = authority_chars(hv.as_slice());
    eq_ignore_case_exec(h.as_slice(), services.as_slice())
}

/// Which public product surface a request Host maps to.
#[derive(Debug, Clone, Copy, PartialEq, Eq, Structural)]
pub enum HostSurface {
    /// Apex or `www.<primary>`: public site (not the operator console).
    ApexPublic,
    /// Extra static Host with its own document root.
    StaticVhost,
    /// Services hostname: operator management console.
    ServicesConsole,
    /// Any other Host: no public remap.
    Other,
}

/// Host used for surface routing: a non-blank Host header (trimmed), else
/// the URI host (trimmed), else empty.
pub fn request_authority_host(host_header: Option<&str>, uri_host: Option<&str>) -> (r: String)
    ensures
        r@ == (match host_header {
            Some(h) if trim(h@).len() > 0 => trim(h@),
            _ => match uri_host {
                Some(u) if trim(u@).len() > 0 => trim(u@),
                _ => Seq::<char>::empty(),
            },
        }),
{
    if let Some(h) = host_header {
        let t = trim_str(h);
        if t.len() > 0 {
            return string_of(t.as_slice());
        }
    }
    if let Some(u) = uri_host {
        let t = trim_str(u);
        if t.len() > 0 {
            return string_of(t.as_slice());
        }
    }
    String::new()
}

/// Classify Host for product routing (no extra static vhosts).
pub fn host_surface(host_header: &str, primary_domain: &str, services_hostname: &str) -> (r: HostSurface)
    ensures
        r == spec_classify(
            host_header@,
            primary_domain@,
            services_hostname@,
            Map::<Seq<char>, Seq<char>>::empty(),
        ),
{
    let m = StaticVhosts::new();
    classify_host_surface(host_header, primary_domain, services_hostname, &m)
}

/// Classify Host including extra static vhosts. Services wins over
/// everything, then apex/www, then a mapped extra host; the rest is Other.
pub fn classify_host_surface(
    host_header: &str,
    primary_domain: &str,
    services_hostname: &str,
    static_vhosts: &StaticVhosts,
) -> (r: HostSurface)
    ensures
        r == spec_classify(host_header@, primary_domain@, services_hostname@, static_vhosts.view()),
{
    if is_services_host(host_header, services_hostname) {
        return HostSurface::ServicesConsole;
    }
    if is_apex_or_www(host_header, primary_domain) {
        return HostSurface::ApexPublic;
    }
    if static_vhost_mapped(host_header, static_vhosts) {
        return HostSurface::StaticVhost;
    }
    HostSurface::Other
}

/// True when Host (port stripped, lower-cased) is a configured extra vhost.
pub fn static_vhost_mapped(host_header: &str, static_vhosts: &StaticVhosts) -> (r: bool)
    ensures
        r == spec_static_vhost_mapped(host_header@, static_vhosts.view()),
{
    if static_vhosts.is_empty() {
        return false;
    }
    let hv = chars_of(host_header);
    let a = authority_chars(hv.as_slice());
    let host = lower_vec(a.as_slice());
    host.len() > 0 && static_vhosts.get(host.as_slice()).is_some()
}

/// Document root for an extra static Host, if mapped.
pub fn static_vhost_document_root(host_header: &str, static_vhosts: &StaticVhosts) -> (r: Option<String>)
    ensures
        ({
            let h = lower(spec_authority(host_header@));
            match r {
                Some(root) => static_vhosts.view().dom().contains(h) && root@ == static_vhosts.view()[h],
                None => !static_vhosts.view().dom().contains(h),
            }
        }),
{
    let hv = chars_of(host_header);
    let a = authority_chars(hv.as_slice());
    let host = lower_vec(a.as_slice());
    static_vhosts.get(host.as_slice())
}

/// True when this surface serves public static files.
pub fn is_public_static_surface(surface: HostSurface) -> (r: bool)
    ensures
        r == (surface == HostSurface::ApexPublic || surface == HostSurface::StaticVhost),
{
    match surface {
        HostSurface::ApexPublic | HostSurface::StaticVhost => true,
        _ => false,
    }
}

fn path_only_chars(path: &[char]) -> (r: Vec<char>)
    ensures
        r@ == path_only(path@),
{
    match find_char_exec(path, '?') {
        Some(i) => {
            proof {
                lemma_find_char(path@, '?');
            }
            slice_of(path, 0, i)
        },
        None => slice_of(path, 0, path.len()),
    }
}

fn edge_exception_chars(p: &[char]) -> (r: bool)
    ensures
        r == spec_edge_exception(p@),
{
    let po = path_only_chars(p);
    let a = chars_of("/health");
    let b = chars_of("/api/health");
    let c = chars_of("/.well-known/");
    eq(po.as_slice(), a.as_slice()) || eq(po.as_slice(), b.as_slice()) || starts_with_exec(
        po.as_slice(),
        c.as_slice(),
    )
}

/// Paths that stay available on apex/www: `/health`, `/api/health` and
/// `/.well-known/...` (query ignored).
pub fn apex_public_path_is_edge_exception(path: &str) -> (r: bool)
    ensures
        r == spec_edge_exception(path@),
{
    let v = chars_of(path);
    edge_exception_chars(v.as_slice())
}

proof fn lemma_path_only_idem(p: Seq<char>)
    ensures
        path_only(path_only(p)) == path_only(p),
{
    lemma_find_char(p, '?');
    match find_char(p, '?') {
        Some(i) => {
            let q = p.take(i);
            assert forall|j: int| 0 <= j < q.len() implies q[j] != '?' by {}
            lemma_find_char_none(q, '?');
        },
        None => {},
    }
}

/// True when the edge should answer with the public coming-soon page:
/// apex/www Host, not an edge-exception path, not under `/api/`.
pub fn should_serve_apex_coming_soon(
    host_header: &str,
    primary_domain: &str,
    services_hostname: &str,
    path: &str,
) -> (r: bool)
    ensures
        r == spec_coming_soon(host_header@, primary_domain@, services_hostname@, path@),
{
    if host_surface(host_header, primary_domain, services_hostname) != HostSurface::ApexPublic {
        return false;
    }
    let v = chars_of(path);
    let po = path_only_chars(v.as_slice());
    proof {
        lemma_path_only_idem(v@);
    }
    if edge_exception_chars(po.as_slice()) {
        return false;
    }
    let api = chars_of("/api/");
    !starts_with_exec(po.as_slice(), api.as_slice())
}

/// True when apex/www Host should get a closed (non-console) API response.
pub fn should_reject_apex_api(
    host_header: &str,
    primary_domain: &str,
    services_hostname: &str,
    path: &str,
) -> (r: bool)
    ensures
        r == spec_reject_public_api(host_header@, primary_domain@, services_hostname@, Map::<Seq<char>, Seq<char>>::empty(), path@),
{
    let m = StaticVhosts::new();
    should_reject_public_static_api(host_header, primary_domain, services_hostname, &m, path)
}

/// True when apex/www or an extra static Host should get a closed API 404:
/// public static surface and a path under `/api/` that is not an edge
/// exception.
pub fn should_reject_public_static_api(
    host_header: &str,
    primary_domain: &str,
    services_hostname: &str,
    static_vhosts: &StaticVhosts,
    path: &str,
) -> (r: bool)
    ensures
        r == spec_reject_public_api(host_header@, primary_domain@, services_hostname@, static_vhosts.view(), path@),
{
    let s = classify_host_surface(host_header, primary_domain, services_hostname, static_vhosts);
    if !is_public_static_surface(s) {
        return false;
    }
    let v = chars_of(path);
    let po = path_only_chars(v.as_slice());
    proof {
        lemma_path_only_idem(v@);
    }
    let api = chars_of("/api/");
    starts_with_exec(po.as_slice(), api.as_slice()) && !edge_exception_chars(po.as_slice())
}

/// Location authority for an allowlisted Host: the request's own host
/// (same-host upgrade). `primary_domain` and `services_hostname` do not
/// remap it.
pub fn redirect_location_authority(
    host_header: &str,
    primary_domain: &str,
    services_hostname: &str,
) -> (r: String)
    ensures
        r@ == spec_authority(host_header@),
{
    host_for_url_authority(host_header)
}

fn https_location_chars(authority: &[char], path: &[char], https_port: Option<u16>) -> (r: Vec<char>)
    ensures
        r@ == spec_https_location(authority@, path@, https_port),
{
    let auth = if is_ipv6_literal_exec(authority) {
        let lb = chars_of("[");
        let rb = chars_of("]");
        let x = concat(lb.as_slice(), authority);
        concat(x.as_slice(), rb.as_slice())
    } else {
        slice_of(authority, 0, authority.len())
    };
    let scheme = chars_of("https://");
    let mut out = concat(scheme.as_slice(), auth.as_slice());
    match https_port {
        Some(p) if p != 443 => {
            let colon = chars_of(":");
            extend(&mut out, colon.as_slice());
            let d = dec_exec(p as u64);
            extend(&mut out, d.as_slice());
        },
        _ => {},
    }
    extend(&mut out, path);
    out
}

/// `https://{authority}{path}` with the port unless it is 443 (or absent);
/// IPv6 literals are bracketed.
pub fn https_location(authority_host: &str, path: &str, https_port: Option<u16>) -> (r: String)
    ensures
        r@ == spec_https_location(authority_host@, path@, https_port),
{
    let a = chars_of(authority_host);
    let p = chars_of(path);
    let r = https_location_chars(a.as_slice(), p.as_slice(), https_port);
    string_of(r.as_slice())
}

/// Path+query for Location: empty becomes `/`; it must start with `/`.
fn normalize_redirect_path(path_and_query: &[char]) -> (r: Option<Vec<char>>)
    ensures
        r matches Some(p) ==> (path_and_query@.len() == 0 && p@ == "/"@) || (path_and_query@.len()
            > 0 && path_and_query@[0] == '/' && p@ == path_and_query@),
        r is None <==> path_and_query@.len() > 0 && path_and_query@[0] != '/',
{
    if path_and_query.len() == 0 {
        Some(chars_of("/"))
    } else if path_and_query[0] == '/' {
        Some(slice_of(path_and_query, 0, path_and_query.len()))
    } else {
        None
    }
}

/// Builds the HTTPS Location for a plain-HTTP request: PassThrough when
/// disabled, when the allowlist is empty or does not admit the Host, when
/// the Host is empty, or when the path is not absolute; otherwise a
/// same-host redirect keeping path and query.
pub fn redirect_http_to_https(
    enabled: bool,
    host: &str,
    path_and_query: &str,
    https_port: Option<u16>,
    allowed_hosts: &[String],
    primary_domain: &str,
    services_hostname: &str,
) -> (r: HttpToHttps)
    ensures
        r.view() == spec_redirect(enabled, host@, path_and_query@, https_port, views(allowed_hosts@)),
{
    if !enabled {
        return HttpToHttps::PassThrough;
    }
    if allowed_hosts.len() == 0 || !host_is_allowlisted(host, allowed_hosts) {
        return HttpToHttps::PassThrough;
    }
    let hv = chars_of(host);
    let host_only = authority_chars(hv.as_slice());
    if host_only.len() == 0 {
        return HttpToHttps::PassThrough;
    }
    let pv = chars_of(path_and_query);
    let path = match normalize_redirect_path(pv.as_slice()) {
        Some(p) => p,
        None => return HttpToHttps::PassThrough,
    };
    let loc = https_location_chars(host_only.as_slice(), path.as_slice(), https_port);
    HttpToHttps::Redirect { location: string_of(loc.as_slice()) }
}

/// Status for the upgrade redirect; 308 preserves the method.
#[derive(Debug, Clone, Copy, PartialEq, Eq, Structural)]
pub enum RedirectStatus {
    PermanentRedirect308,
    MovedPermanently301,
}

/// Numeric HTTP status of a redirect kind.
pub open spec fn status_code(s: RedirectStatus) -> u16 {
    match s {
        RedirectStatus::PermanentRedirect308 => 308u16,
        RedirectStatus::MovedPermanently301 => 301u16,
    }
}

impl RedirectStatus {
    pub fn as_u16(self) -> (r: u16)
        ensures
            r == status_code(self),
    {
        match self {
            RedirectStatus::PermanentRedirect308 => 308,
            RedirectStatus::MovedPermanently301 => 301,
        }
    }

    /// Decimal code (what `Display` prints).
    pub fn to_string(self) -> (r: String)
        ensures
            r@ == dec(status_code(self) as nat),
    {
        let d = dec_exec(self.as_u16() as u64);
        string_of(d.as_slice())
    }
}

/// Whether to bind the plain-HTTP redirect-only listener at `A`.
#[derive(Debug, PartialEq, Eq)]
pub enum RedirectBindDecision<A> {
    /// Bind redirect-only plain HTTP at this address.
    Bind { addr: A },
    /// Feature off or listen unset: do not bind (not an error).
    Skip { reason: &'static str },
    /// Misconfiguration: refuse start.
    FailClosed { reason: &'static str },
}

/// Why the redirect listener refuses to start with an empty allowlist.
pub const EMPTY_ALLOWLIST_REASON: &'static str = "redirect_http_to_https on but redirect allowlist is empty (open-redirect-safe refuse; set SURMOUNT_REDIRECT_ALLOWED_HOSTS or services/primary hostnames)";

/// Redirect listener decision: off -> Skip; on without a listen address ->
/// Skip; on with an address and an empty allowlist -> FailClosed (it could
/// never redirect); otherwise Bind at that address.
pub fn redirect_bind_decision<A>(
    enabled: bool,
    listen: Option<A>,
    allowed_hosts: &[String],
) -> (r: RedirectBindDecision<A>)
    ensures
        !enabled ==> (r matches RedirectBindDecision::Skip { reason } && reason@
            == "redirect_http_to_https off"@),
        enabled && listen is None ==> (r matches RedirectBindDecision::Skip { reason } && reason@
            == "http_redirect_listen unset"@),
        enabled && listen is Some && allowed_hosts@.len() == 0 ==> (r matches RedirectBindDecision::FailClosed { reason }
            && reason@ == EMPTY_ALLOWLIST_REASON@),
        enabled && listen is Some && allowed_hosts@.len() > 0 ==> r == (RedirectBindDecision::Bind {
            addr: listen->0,
        }),
{
    if !enabled {
        return RedirectBindDecision::Skip { reason: "redirect_http_to_https off" };
    }
    let addr = match listen {
        Some(a) => a,
        None => return RedirectBindDecision::Skip { reason: "http_redirect_listen unset" },
    };
    if allowed_hosts.len() == 0 {
        return RedirectBindDecision::FailClosed { reason: EMPTY_ALLOWLIST_REASON };
    }
    RedirectBindDecision::Bind { addr }
}

/// HTTPS port to embed in a redirect Location: 443 is omitted.
pub fn https_port_for_redirect(https_listen_port: u16) -> (r: Option<u16>)
    ensures
        r == (if https_listen_port == 443 {
            None
        } else {
            Some(https_listen_port)
        }),
{
    if https_listen_port == 443 {
        None
    } else {
        Some(https_listen_port)
    }
}


// ---------------------------------------------------------------------------
// Laws
// ---------------------------------------------------------------------------

/// Open-redirect safety: a redirect is issued only by an enabled edge whose
/// non-empty allowlist admits the request Host, and it stays on that Host:
/// the Location is `https://`, the Host's own authority, then the path (`/`
/// for an empty one).
pub proof fn law_redirect_only_allowlisted_same_host(
    enabled: bool,
    host: Seq<char>,
    path_and_query: Seq<char>,
    port: Option<u16>,
    allowed: Seq<Seq<char>>,
)
    ensures
        spec_redirect(enabled, host, path_and_query, port, allowed) matches HttpToHttpsView::Redirect(loc) ==> {
            &&& enabled
            &&& allowed.len() > 0
            &&& spec_host_is_allowlisted(host, allowed)
            &&& loc == spec_https_location(
                spec_authority(host),
                if path_and_query.len() == 0 { "/"@ } else { path_and_query },
                port,
            )
            &&& starts_with(loc, "https://"@)
        },
{
    if let HttpToHttpsView::Redirect(loc) = spec_redirect(enabled, host, path_and_query, port, allowed) {
        let h = spec_authority(host);
        let auth = if is_ipv6_literal(h) { "["@ + h + "]"@ } else { h };
        let path = if path_and_query.len() == 0 { "/"@ } else { path_and_query };
        let rest = match port {
            Some(p) => if p != 443 { auth + ":"@ + dec(p as nat) + path } else { auth + path },
            None => auth + path,
        };
        assert(loc =~= "https://"@ + rest);
        assert(("https://"@ + rest).take("https://"@.len() as int) =~= "https://"@);
    }
}

/// With an empty allowlist the edge never redirects.
pub proof fn law_empty_allowlist_never_redirects(
    enabled: bool,
    host: Seq<char>,
    path_and_query: Seq<char>,
    port: Option<u16>,
)
    ensures
        spec_redirect(enabled, host, path_and_query, port, Seq::<Seq<char>>::empty()) == HttpToHttpsView::PassThrough,
{
}

/// The services hostname is always the operator console, whatever the
/// primary domain or the static vhost map say: never the coming-soon page,
/// never a closed API reply.
pub proof fn law_services_host_is_console(
    host: Seq<char>,
    primary: Seq<char>,
    services: Seq<char>,
    vhosts: Map<Seq<char>, Seq<char>>,
    path: Seq<char>,
)
    requires
        spec_is_services_host(host, services),
    ensures
        spec_classify(host, primary, services, vhosts) == HostSurface::ServicesConsole,
        !spec_coming_soon(host, primary, services, path),
        !spec_reject_public_api(host, primary, services, vhosts, path),
{
}

/// The coming-soon page and the closed API reply never both answer one
/// request.
pub proof fn law_coming_soon_excludes_api_reject(
    host: Seq<char>,
    primary: Seq<char>,
    services: Seq<char>,
    vhosts: Map<Seq<char>, Seq<char>>,
    path: Seq<char>,
)
    ensures
        !(spec_coming_soon(host, primary, services, path) && spec_reject_public_api(host, primary, services, vhosts, path)),
{
}

/// Health probes and `/.well-known/` pass on every Host: neither the
/// coming-soon page nor the closed API reply takes them.
pub proof fn law_edge_exceptions_pass(
    host: Seq<char>,
    primary: Seq<char>,
    services: Seq<char>,
    vhosts: Map<Seq<char>, Seq<char>>,
    path: Seq<char>,
)
    requires
        spec_edge_exception(path),
    ensures
        !spec_coming_soon(host, primary, services, path),
        !spec_reject_public_api(host, primary, services, vhosts, path),
{
}

/// The coming-soon page answers only on apex/www, never on the services
/// hostname.
pub proof fn law_coming_soon_only_on_apex(host: Seq<char>, primary: Seq<char>, services: Seq<char>, path: Seq<char>)
    requires
        spec_coming_soon(host, primary, services, path),
    ensures
        spec_is_apex_or_www(host, primary),
        !spec_is_services_host(host, services),
{
}

} // verus!
