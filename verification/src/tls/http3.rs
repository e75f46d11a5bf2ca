//! HTTP/3 (QUIC) listener knobs next to TCP HTTPS.
//!
//! Same PEMs as TCP :443; QUIC ALPN is h3 only. Clearnet `Alt-Svc`
//! advertises `h3=":{port}"` only after the QUIC listener is bound. The
//! QUIC endpoint itself is run by the server around this library, which
//! records the bound port here with [`Http3Config::mark_bound`].

use vstd::prelude::*;
use crate::text::{chars_of, concat, dec, dec_exec, opt_view, string_of};
use crate::proxy_vaultwarden::{env_truthy, spec_env_truthy};

verus! {

/// HTTP/3 listen knobs. `bound` turns true only once the QUIC endpoint
/// listens (`Alt-Svc` must not be sent before that).
#[derive(Debug, PartialEq, Eq)]
pub struct Http3Config {
    pub enable: bool,
    pub bound: bool,
    /// Bound UDP port once listening (0 = not bound).
    pub bound_port: u16,
}

pub open spec fn http3_refusal() -> Seq<char> {
    "SURMOUNT_HTTP3 requires SURMOUNT_LISTEN_MODE=https (QUIC uses the same PEMs; fail-closed)"@
}

/// `enable` from `SURMOUNT_HTTP3` (default: on exactly when listening on
/// HTTPS); on without HTTPS is refused.
pub open spec fn spec_http3_enable(v: Option<Seq<char>>, listen_is_https: bool) -> Result<bool, Seq<char>> {
    let enable = match v {
        Some(x) => spec_env_truthy(x),
        None => listen_is_https,
    };
    if enable && !listen_is_https {
        Err(http3_refusal())
    } else {
        Ok(enable)
    }
}

/// `h3=":{port}"; ma=86400` once bound to a non-zero port.
pub open spec fn spec_h3_alt_svc(bound: bool, port: u16) -> Option<Seq<char>> {
    if !bound || port == 0 {
        None
    } else {
        Some("h3=\":"@ + dec(port as nat) + "\"; ma=86400"@)
    }
}

/// The `h3` token for one response: HTTPS listener, TLS socket, clearnet
/// Host, status 200..399, and a bound QUIC listener.
pub open spec fn spec_h3_alt_svc_for_response(
    bound: bool,
    port: u16,
    listen_is_https: bool,
    cleartext_socket: bool,
    host_is_onion: bool,
    status: u16,
) -> Option<Seq<char>> {
    if !listen_is_https || cleartext_socket || host_is_onion || !(200 <= status && status < 400) {
        None
    } else {
        spec_h3_alt_svc(bound, port)
    }
}

/// `v` is what `get` returned for `SURMOUNT_HTTP3`.
pub open spec fn http3_env_read<F: Fn(&str) -> Option<String>>(get: F, v: Option<String>) -> bool {
    exists|k: &str| k@ == "SURMOUNT_HTTP3"@ && call_ensures(get, (k,), v)
}

impl Http3Config {
    /// Off and not bound.
    pub fn default() -> (r: Self)
        ensures
            !r.enable && !r.bound && r.bound_port == 0,
    {
        Http3Config { enable: false, bound: false, bound_port: 0 }
    }

    /// Knobs from `SURMOUNT_HTTP3`, given the listen mode. Not bound yet.
    pub fn from_env_value(value: Option<String>, listen_is_https: bool) -> (r: Result<Self, String>)
        ensures
            match r {
                Ok(c) => spec_http3_enable(opt_view(value), listen_is_https) == Ok::<bool, Seq<char>>(c.enable) && !c.bound && c.bound_port == 0,
                Err(e) => spec_http3_enable(opt_view(value), listen_is_https) == Err::<bool, Seq<char>>(e@),
            },
    {
        let enable = match &value {
            Some(v) => env_truthy(v.as_str()),
            None => listen_is_https,
        };
        if enable && !listen_is_https {
            return Err("SURMOUNT_HTTP3 requires SURMOUNT_LISTEN_MODE=https (QUIC uses the same PEMs; fail-closed)".to_owned());
        }
        Ok(Http3Config { enable, bound: false, bound_port: 0 })
    }

    /// Knobs read through `get` (the process env or a test map).
    pub fn from_env_map(get: impl Fn(&str) -> Option<String>, listen_is_https: bool) -> (r: Result<Self, String>)
        requires
            forall|k: &str| #[trigger] call_requires(get, (k,)),
        ensures
            exists|v: Option<String>|
                {
                    &&& http3_env_read(get, v)
                    &&& match r {
                        Ok(c) => spec_http3_enable(opt_view(v), listen_is_https) == Ok::<bool, Seq<char>>(c.enable) && !c.bound && c.bound_port == 0,
                        Err(e) => spec_http3_enable(opt_view(v), listen_is_https) == Err::<bool, Seq<char>>(e@),
                    }
                },
    {
        let k = "SURMOUNT_HTTP3";
        let v = get(k);
        assert(http3_env_read(get, v));
        Self::from_env_value(v, listen_is_https)
    }

    /// The QUIC listener is bound.
    pub fn listener_bound(&self) -> (r: bool)
        ensures
            r == self.bound,
    {
        self.bound
    }

    /// Records the bound UDP port and marks the listener bound.
    pub fn mark_bound(&mut self, port: u16)
        ensures
            final(self).bound,
            final(self).bound_port == port,
            final(self).enable == old(self).enable,
    {
        self.bound_port = port;
        self.bound = true;
    }
}

/// `Alt-Svc` token for the bound QUIC listener; `None` when not bound.
pub fn h3_alt_svc_value(cfg: &Http3Config) -> (r: Option<String>)
    ensures
        opt_view(r) == spec_h3_alt_svc(cfg.bound, cfg.bound_port),
{
    if !cfg.listener_bound() {
        return None;
    }
    let port = cfg.bound_port;
    if port == 0 {
        return None;
    }
    let a = chars_of("h3=\":");
    let d = dec_exec(port as u64);
    let b = chars_of("\"; ma=86400");
    let x = concat(a.as_slice(), d.as_slice());
    let y = concat(x.as_slice(), b.as_slice());
    Some(string_of(y.as_slice()))
}

/// The `h3` `Alt-Svc` token to merge into one response, if any: never on a
/// cleartext socket or listener, never for an onion Host, only for status
/// 200..399, and only once the QUIC listener is bound.
pub fn h3_alt_svc_for_response(
    cfg: &Http3Config,
    listen_is_https: bool,
    cleartext_socket: bool,
    host_is_onion: bool,
    status: u16,
) -> (r: Option<String>)
    ensures
        opt_view(r) == spec_h3_alt_svc_for_response(cfg.bound, cfg.bound_port, listen_is_https, cleartext_socket, host_is_onion, status),
{
    if !listen_is_https || cleartext_socket || host_is_onion {
        return None;
    }
    if !(200 <= status && status < 400) {
        return None;
    }
    h3_alt_svc_value(cfg)
}

/// Fail closed when HTTP/3 is enabled on a listener that is not HTTPS.
pub fn require_http3_bind(enable: bool, listen_is_https: bool) -> (r: Result<(), String>)
    ensures
        r is Err <==> (enable && !listen_is_https),
        r matches Err(e) ==> e@ == "HTTP/3 is enabled but listen mode is not https (fail-closed)"@,
{
    if enable && !listen_is_https {
        return Err("HTTP/3 is enabled but listen mode is not https (fail-closed)".to_owned());
    }
    Ok(())
}


// ---------------------------------------------------------------------------
// Laws
// ---------------------------------------------------------------------------

/// `Alt-Svc: h3` is advertised only for a bound QUIC listener on an HTTPS
/// edge, over TLS, to a clearnet Host, on a 2xx/3xx reply.
pub proof fn law_alt_svc_only_when_reachable(
    bound: bool,
    port: u16,
    listen_is_https: bool,
    cleartext_socket: bool,
    host_is_onion: bool,
    status: u16,
)
    ensures
        spec_h3_alt_svc_for_response(bound, port, listen_is_https, cleartext_socket, host_is_onion, status) is Some ==> {
            &&& bound
            &&& port != 0
            &&& listen_is_https
            &&& !cleartext_socket
            &&& !host_is_onion
            &&& 200 <= status < 400
        },
{
}

} // verus!
