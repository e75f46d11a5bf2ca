# surmount_edge

The decision logic of the Surmount HTTPS edge and of its Namecheap DNS-01
certificate helpers, written in Verus with its behaviour stated as contracts
and proved.

## Layout

- `src/` - the verified library
  - `rate_limit.rs` - fixed-window per-key rate limiter with a key cap
  - `redirect.rs` - host surfaces, apex "coming soon" / API refusal, HTTP to
    HTTPS redirects and the redirect listener's bind decision
  - `tls.rs`, `tls/http3.rs` - listen mode, secret-file mode checks, TLS
    handshake failure log fields, HTTP/3 `Alt-Svc`
  - `proxy_vaultwarden.rs` and its submodules - same-origin Vaultwarden path
    proxy (prefix normalisation, upstream URIs, hop-by-hop header filtering,
    WebSocket handshake framing) and the Splora/Esplora public proxy routes
  - `console.rs` - console page decisions: roles, status chip, navigation,
    the Overview's attention count, health line and tiles, the System page's
    onion and Vaultwarden rows, the Mail page's texts, probe line and roster
    cells, the Domains page's source line
  - `acme/` - credentials file parsing, zone and lab-zone files, the
    Namecheap API request/response handling, TXT set/clear/wait, hook
    dispatch and the laptop renewal driver's option parsing and checks
  - `text.rs`, `ip.rs` - string and address helpers with their models
- `app/` - the I/O shell: environment, files, processes, HTTP calls
- `tests/` - tests run against the compiled library

Properties that span several calls (for example that a TXT record set in a
zone is then reported ready, or that rendering and re-parsing a zone file
gives back its records) are stated as public proof functions named `law_*`.

## What `app/` does not hold

`app/` wires the library to the environment, files, processes and the
Namecheap HTTPS API. It holds no HTTP server: the edge's request handlers,
the WebSocket and Unix-socket proxy I/O, the TLS/QUIC listeners and the
console's HTML pages are not here. Their decisions (routing, header
filtering, upgrade heads and the reply-head read steps, redirect and TLS
startup choices, the page texts, chips and tiles) are in `src/`; the server
and the HTML templates that would use them are not part of this crate.
