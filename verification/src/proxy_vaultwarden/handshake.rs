//! Text of the WebSocket upgrade handshake that the edge writes to an
//! upstream socket, and the reading of the upstream's reply head.
//!
//! Both proxies (Vaultwarden over TCP, Splora over a Unix socket) speak
//! HTTP/1.1 by hand for the upgrade: the request head is built here, and the
//! status and header fields of the reply head are read here.

use vstd::prelude::*;
use crate::proxy_vaultwarden::{find_header_end, parse_status_code, spec_find_header_end, spec_parse_status_code};
use crate::text::{chars_of, is_ascii_alnum, lower, lower_vec, debug_chars, debug_str, eq_ignore_case, eq_ignore_case_exec, extend, find_char, find_char_exec, lemma_find_char, own, slice_of, split_str, split_str_exec, starts_with, string_of, trim, trim_vec};

verus! {

// ---------------------------------------------------------------------------
// Spec model
// ---------------------------------------------------------------------------

/// `path?query` when the query is non-empty, else `path`.
pub open spec fn spec_path_and_query(path: Seq<char>, query: Option<Seq<char>>) -> Seq<char> {
    match query {
        Some(q) => if q.len() > 0 {
            path + seq!['?'] + q
        } else {
            path
        },
        None => path,
    }
}

/// Origin-form request target: an empty path is `/`; a path that does not
/// start with `/` is refused.
pub open spec fn spec_origin_form(path: Seq<char>, query: Option<Seq<char>>) -> Result<Seq<char>, Seq<char>> {
    let p = if path.len() == 0 { seq!['/'] } else { path };
    if !starts_with(p, "/"@) {
        Err("path must start with / (got "@ + debug_str(p) + ")"@)
    } else {
        Ok(spec_path_and_query(p, query))
    }
}

/// A header field as the proxy sees it: its name, and its value when the
/// value is visible text (`HeaderValue::to_str` succeeds).
pub open spec fn field_view(f: (String, Option<String>)) -> (Seq<char>, Option<Seq<char>>) {
    (f.0@, match f.1 {
        Some(v) => Some(v@),
        None => None,
    })
}

pub open spec fn fields_view(fs: Seq<(String, Option<String>)>) -> Seq<(Seq<char>, Option<Seq<char>>)> {
    fs.map_values(|f: (String, Option<String>)| field_view(f))
}

/// `name: value\r\n`.
pub open spec fn head_line(name: Seq<char>, value: Seq<char>) -> Seq<char> {
    name + ": "@ + value + "\r\n"@
}

/// The header lines written for the forwarded fields: fields without a
/// text value are left out, and so is `X-Forwarded-Proto` when the edge
/// sets that field itself.
pub open spec fn forwarded_lines(fs: Seq<(Seq<char>, Option<Seq<char>>)>, own_proto: bool) -> Seq<char>
    decreases fs.len(),
{
    if fs.len() == 0 {
        seq![]
    } else {
        let f = fs.last();
        let line = match f.1 {
            Some(v) => if own_proto && eq_ignore_case(f.0, "x-forwarded-proto"@) {
                seq![]
            } else {
                head_line(f.0, v)
            },
            None => seq![],
        };
        forwarded_lines(fs.drop_last(), own_proto) + line
    }
}

/// Some field is named `name` (header names compare without ASCII case).
pub open spec fn names_field(fs: Seq<(Seq<char>, Option<Seq<char>>)>, name: Seq<char>) -> bool {
    exists|i: int| 0 <= i < fs.len() && eq_ignore_case(#[trigger] fs[i].0, name)
}

/// The upgrade request head: request line, `Host`, the edge's own
/// `X-Forwarded-Proto` when it has one, the forwarded fields, then
/// `Connection: Upgrade` and `Upgrade: websocket` unless forwarded, and the
/// blank line.
pub open spec fn spec_upgrade_request_head(
    method: Seq<char>,
    target: Seq<char>,
    host: Seq<char>,
    proto: Option<Seq<char>>,
    fs: Seq<(Seq<char>, Option<Seq<char>>)>,
) -> Seq<char> {
    method + " "@ + target + " HTTP/1.1\r\nHost: "@ + host + "\r\n"@
        + (match proto {
        Some(p) => "X-Forwarded-Proto: "@ + p + "\r\n"@,
        None => seq![],
    }) + forwarded_lines(fs, proto is Some)
        + (if names_field(fs, "connection"@) { seq![] } else { "Connection: Upgrade\r\n"@ })
        + (if names_field(fs, "upgrade"@) { seq![] } else { "Upgrade: websocket\r\n"@ })
        + "\r\n"@
}

/// A `tchar` of RFC 9110: the characters a header name may hold.
pub open spec fn is_tchar(c: char) -> bool {
    is_ascii_alnum(c) || c == '!' || c == '#' || c == '$' || c == '%' || c == '&' || c == '\'' || c == '*'
        || c == '+' || c == '-' || c == '.' || c == '^' || c == '_' || c == '`' || c == '|' || c == '~'
}

/// What `http::HeaderName::from_bytes` accepts: 1 to 65535 `tchar`s.
pub open spec fn valid_header_name(n: Seq<char>) -> bool {
    1 <= n.len() <= 65535 && forall|i: int| 0 <= i < n.len() ==> is_tchar(#[trigger] n[i])
}

/// A char whose UTF-8 bytes `http::HeaderValue::from_str` accepts: a tab,
/// or any char from the space on other than DEL.
pub open spec fn header_value_char(c: char) -> bool {
    c == '\t' || (c >= ' ' && c != '\x7f')
}

pub open spec fn valid_header_value(v: Seq<char>) -> bool {
    forall|i: int| 0 <= i < v.len() ==> header_value_char(#[trigger] v[i])
}

/// A reply head line read as a header field: the text before the first
/// `:` (trimmed, lower-cased) and the text after it (trimmed). Empty lines,
/// lines without a `:`, and lines whose name is not a valid header name or
/// whose value is not a valid header value give none.
pub open spec fn head_field(line: Seq<char>) -> Option<(Seq<char>, Seq<char>)> {
    if line.len() == 0 {
        None
    } else {
        match find_char(line, ':') {
            Some(i) => {
                let n = trim(line.take(i));
                let v = trim(line.skip(i + 1));
                if valid_header_name(n) && valid_header_value(v) {
                    Some((lower(n), v))
                } else {
                    None
                }
            },
            None => None,
        }
    }
}

pub open spec fn head_fields(lines: Seq<Seq<char>>) -> Seq<(Seq<char>, Seq<char>)>
    decreases lines.len(),
{
    if lines.len() == 0 {
        seq![]
    } else {
        match head_field(lines.last()) {
            Some(f) => head_fields(lines.drop_last()).push(f),
            None => head_fields(lines.drop_last()),
        }
    }
}

/// The reply head: the status code of its first line (502 when the line
/// has none), and the fields of the other lines.
pub open spec fn spec_reply_head(text: Seq<char>) -> (nat, Seq<(Seq<char>, Seq<char>)>) {
    let lines = split_str(text, "\r\n"@);
    let code = match spec_parse_status_code(lines[0]) {
        Some(c) => c,
        None => 502,
    };
    (code, head_fields(lines.drop_first()))
}

pub open spec fn pair_views(fs: Seq<(String, String)>) -> Seq<(Seq<char>, Seq<char>)> {
    fs.map_values(|f: (String, String)| (f.0@, f.1@))
}

/// Some field of a reply is named `name` (without ASCII case).
pub open spec fn names_pair(fs: Seq<(Seq<char>, Seq<char>)>, name: Seq<char>) -> bool {
    exists|i: int| 0 <= i < fs.len() && eq_ignore_case(#[trigger] fs[i].0, name)
}

/// The reply to the client on `101`: the upstream's kept fields, then
/// `upgrade: websocket` and `connection: Upgrade` when missing.
pub open spec fn spec_switching_fields(fs: Seq<(Seq<char>, Seq<char>)>) -> Seq<(Seq<char>, Seq<char>)> {
    let a = if names_pair(fs, "upgrade"@) { fs } else { fs.push(("upgrade"@, "websocket"@)) };
    if names_pair(a, "connection"@) { a } else { a.push(("connection"@, "Upgrade"@)) }
}

// ---------------------------------------------------------------------------
// Executable functions
// ---------------------------------------------------------------------------

/// `path?query` when the query is non-empty, else `path`.
pub fn path_and_query(path: &str, query: Option<&str>) -> (r: String)
    ensures
        r@ == spec_path_and_query(path@, match query {
            Some(q) => Some(q@),
            None => None,
        }),
{
    let mut v = chars_of(path);
    match query {
        Some(q) => {
            let qv = chars_of(q);
            if qv.len() > 0 {
                v.push('?');
                extend(&mut v, qv.as_slice());
            }
        },
        None => {},
    }
    string_of(v.as_slice())
}

/// The origin-form request target for a backend request (see
/// [`spec_origin_form`]).
pub fn origin_form_uri(path: &str, query: Option<&str>) -> (r: Result<String, String>)
    ensures
        match r {
            Ok(s) => spec_origin_form(path@, match query {
                Some(q) => Some(q@),
                None => None,
            }) == Ok::<Seq<char>, Seq<char>>(s@),
            Err(e) => spec_origin_form(path@, match query {
                Some(q) => Some(q@),
                None => None,
            }) == Err::<Seq<char>, Seq<char>>(e@),
        },
{
    let pv = chars_of(path);
    let p: Vec<char> = if pv.len() == 0 {
        let mut s: Vec<char> = Vec::new();
        s.push('/');
        s
    } else {
        pv
    };
    proof {
        reveal_strlit("/");
    }
    let ghost pp = if path@.len() == 0 { seq!['/'] } else { path@ };
    assert(p@ =~= pp);
    assert("/"@ =~= seq!['/']);
    assert(pp.len() >= 1);
    assert(pp.take(1) =~= seq![pp[0]]);
    proof {
        if pp[0] == '/' {
            assert(pp.take(1) =~= "/"@);
        } else {
            assert(pp.take(1)[0] != "/"@[0]);
        }
    }
    assert(starts_with(pp, "/"@) == (pp[0] == '/'));
    if p[0] != '/' {
        let mut m = chars_of("path must start with / (got ");
        let d = debug_chars(p.as_slice());
        extend(&mut m, d.as_slice());
        extend(&mut m, chars_of(")").as_slice());
        return Err(string_of(m.as_slice()));
    }
    let ps = string_of(p.as_slice());
    Ok(path_and_query(ps.as_str(), query))
}

fn push_str(out: &mut Vec<char>, s: &str)
    ensures
        final(out)@ == old(out)@ + s@,
{
    let v = chars_of(s);
    extend(out, v.as_slice());
}

/// Whether some field is named `name`, without ASCII case.
fn names_field_exec(fs: &Vec<(String, Option<String>)>, name: &str) -> (r: bool)
    ensures
        r == names_field(fields_view(fs@), name@),
{
    let nv = chars_of(name);
    let mut i: usize = 0;
    while i < fs.len()
        invariant
            i <= fs.len(),
            nv@ == name@,
            forall|j: int| 0 <= j < i ==> !eq_ignore_case(#[trigger] fields_view(fs@)[j].0, name@),
        decreases fs.len() - i,
    {
        let fv = chars_of(fs[i].0.as_str());
        if eq_ignore_case_exec(fv.as_slice(), nv.as_slice()) {
            assert(fields_view(fs@)[i as int].0 == fv@);
            return true;
        }
        i += 1;
    }
    proof {
        if names_field(fields_view(fs@), name@) {
            let k = choose|k: int| 0 <= k < fields_view(fs@).len() && eq_ignore_case(#[trigger] fields_view(fs@)[k].0, name@);
            assert(!eq_ignore_case(fields_view(fs@)[k].0, name@));
        }
    }
    false
}

/// The upgrade request head written to the upstream socket (see
/// [`spec_upgrade_request_head`]). `host` is the `Host` value as sent
/// (`host:port` over TCP); `proto` is the edge's own `X-Forwarded-Proto`,
/// if it sets one.
pub fn upgrade_request_head(
    method: &str,
    target: &str,
    host: &str,
    proto: Option<&str>,
    fields: &Vec<(String, Option<String>)>,
) -> (r: String)
    ensures
        r@ == spec_upgrade_request_head(method@, target@, host@, match proto {
            Some(p) => Some(p@),
            None => None,
        }, fields_view(fields@)),
{
    let ghost fs = fields_view(fields@);
    let mut out: Vec<char> = Vec::new();
    push_str(&mut out, method);
    push_str(&mut out, " ");
    push_str(&mut out, target);
    push_str(&mut out, " HTTP/1.1\r\nHost: ");
    push_str(&mut out, host);
    push_str(&mut out, "\r\n");
    let own_proto = proto.is_some();
    match proto {
        Some(p) => {
            push_str(&mut out, "X-Forwarded-Proto: ");
            push_str(&mut out, p);
            push_str(&mut out, "\r\n");
        },
        None => {},
    }
    let ghost head = out@;
    assert(head =~= method@ + " "@ + target@ + " HTTP/1.1\r\nHost: "@ + host@ + "\r\n"@ + (match proto {
        Some(p) => "X-Forwarded-Proto: "@ + p@ + "\r\n"@,
        None => seq![],
    }));
    let xfp = chars_of("x-forwarded-proto");
    let mut i: usize = 0;
    assert(fs.take(0) =~= Seq::<(Seq<char>, Option<Seq<char>>)>::empty());
    while i < fields.len()
        invariant
            i <= fields.len(),
            fs == fields_view(fields@),
            xfp@ == "x-forwarded-proto"@,
            own_proto == (proto is Some),
            out@ == head + forwarded_lines(fs.take(i as int), own_proto),
        decreases fields.len() - i,
    {
        proof {
            assert(fs.take(i + 1).drop_last() =~= fs.take(i as int));
            assert(fs.take(i + 1).last() == fs[i as int]);
        }
        let ghost before = out@;
        match &fields[i].1 {
            Some(v) => {
                let nv = chars_of(fields[i].0.as_str());
                if !(own_proto && eq_ignore_case_exec(nv.as_slice(), xfp.as_slice())) {
                    extend(&mut out, nv.as_slice());
                    push_str(&mut out, ": ");
                    push_str(&mut out, v.as_str());
                    push_str(&mut out, "\r\n");
                    assert(out@ =~= before + head_line(fs[i as int].0, fs[i as int].1.unwrap()));
                } else {
                    assert(forwarded_lines(fs.take(i + 1), own_proto) =~= forwarded_lines(fs.take(i as int), own_proto));
                }
            },
            None => {
                assert(forwarded_lines(fs.take(i + 1), own_proto) =~= forwarded_lines(fs.take(i as int), own_proto));
            },
        }
        i += 1;
    }
    assert(fs.take(fields.len() as int) =~= fs);
    let ghost mid = out@;
    if !names_field_exec(fields, "connection") {
        push_str(&mut out, "Connection: Upgrade\r\n");
    }
    let ghost mid2 = out@;
    if !names_field_exec(fields, "upgrade") {
        push_str(&mut out, "Upgrade: websocket\r\n");
    }
    push_str(&mut out, "\r\n");
    string_of(out.as_slice())
}

fn is_tchar_exec(c: char) -> (r: bool)
    ensures
        r == is_tchar(c),
{
    ('a' <= c && c <= 'z') || ('A' <= c && c <= 'Z') || ('0' <= c && c <= '9') || c == '!' || c == '#'
        || c == '$' || c == '%' || c == '&' || c == '\'' || c == '*' || c == '+' || c == '-' || c == '.'
        || c == '^' || c == '_' || c == '`' || c == '|' || c == '~'
}

fn valid_header_name_exec(n: &[char]) -> (r: bool)
    ensures
        r == valid_header_name(n@),
{
    if n.len() == 0 || n.len() > 65535 {
        return false;
    }
    let mut i: usize = 0;
    while i < n.len()
        invariant
            i <= n.len(),
            forall|j: int| 0 <= j < i ==> is_tchar(#[trigger] n@[j]),
        decreases n.len() - i,
    {
        if !is_tchar_exec(n[i]) {
            return false;
        }
        i += 1;
    }
    true
}

fn valid_header_value_exec(v: &[char]) -> (r: bool)
    ensures
        r == valid_header_value(v@),
{
    let mut i: usize = 0;
    while i < v.len()
        invariant
            i <= v.len(),
            forall|j: int| 0 <= j < i ==> header_value_char(#[trigger] v@[j]),
        decreases v.len() - i,
    {
        let c = v[i];
        if !(c == '\t' || (c >= ' ' && c != '\x7f')) {
            assert(!header_value_char(v@[i as int]));
            return false;
        }
        i += 1;
    }
    true
}

fn head_field_exec(line: &[char]) -> (r: Option<(Vec<char>, Vec<char>)>)
    ensures
        match r {
            Some(f) => head_field(line@) == Some((f.0@, f.1@)),
            None => head_field(line@) is None,
        },
{
    if line.len() == 0 {
        return None;
    }
    match find_char_exec(line, ':') {
        Some(i) => {
            let n = slice_of(line, 0, i);
            let v = slice_of(line, i + 1, line.len());
            assert(n@ =~= line@.take(i as int));
            assert(v@ =~= line@.skip(i + 1));
            let tn = trim_vec(n.as_slice());
            let tv = trim_vec(v.as_slice());
            if valid_header_name_exec(tn.as_slice()) && valid_header_value_exec(tv.as_slice()) {
                Some((lower_vec(tn.as_slice()), tv))
            } else {
                None
            }
        },
        None => None,
    }
}

/// The upgrade reply head (the text before the blank line): its status code
/// and header fields (see [`spec_reply_head`]).
pub fn parse_reply_head(text: &str) -> (r: (u16, Vec<(String, String)>))
    ensures
        r.0 as nat == spec_reply_head(text@).0,
        pair_views(r.1@) == spec_reply_head(text@).1,
{
    let tv = chars_of(text);
    let sep = chars_of("\r\n");
    proof {
        reveal_strlit("\r\n");
    }
    let lines = split_str_exec(tv.as_slice(), sep.as_slice());
    let ghost ls = lines@.map_values(|p: Vec<char>| p@);
    assert(ls.len() >= 1);
    let first = string_of(lines[0].as_slice());
    assert(first@ == ls[0]);
    let code: u16 = match parse_status_code(first.as_str()) {
        Some(c) => c,
        None => 502,
    };
    let mut out: Vec<(String, String)> = Vec::new();
    let mut k: usize = 1;
    assert(ls.drop_first().take(0) =~= Seq::<Seq<char>>::empty());
    assert(pair_views(out@) =~= Seq::<(Seq<char>, Seq<char>)>::empty());
    while k < lines.len()
        invariant
            1 <= k <= lines.len(),
            ls == lines@.map_values(|p: Vec<char>| p@),
            pair_views(out@) == head_fields(ls.drop_first().take(k - 1)),
        decreases lines.len() - k,
    {
        proof {
            let d = ls.drop_first();
            assert(d.take(k as int).drop_last() =~= d.take(k - 1));
            assert(d.take(k as int).last() == lines@[k as int]@);
        }
        match head_field_exec(lines[k].as_slice()) {
            Some(f) => {
                let ghost before = pair_views(out@);
                let n = string_of(f.0.as_slice());
                let v = string_of(f.1.as_slice());
                out.push((n, v));
                assert(pair_views(out@) =~= before.push((f.0@, f.1@)));
            },
            None => {},
        }
        k += 1;
    }
    assert(ls.drop_first().take(lines.len() - 1) =~= ls.drop_first());
    (code, out)
}

fn pair_named(fs: &Vec<(String, String)>, name: &str) -> (r: bool)
    ensures
        r == names_pair(pair_views(fs@), name@),
{
    let nv = chars_of(name);
    let mut i: usize = 0;
    while i < fs.len()
        invariant
            i <= fs.len(),
            nv@ == name@,
            forall|j: int| 0 <= j < i ==> !eq_ignore_case(#[trigger] pair_views(fs@)[j].0, name@),
        decreases fs.len() - i,
    {
        let fv = chars_of(fs[i].0.as_str());
        if eq_ignore_case_exec(fv.as_slice(), nv.as_slice()) {
            assert(pair_views(fs@)[i as int].0 == fv@);
            return true;
        }
        i += 1;
    }
    false
}

/// The fields of the `101` reply to the client: the upstream's kept fields
/// with `upgrade` and `connection` added when missing (see
/// [`spec_switching_fields`]).
pub fn switching_fields(fields: Vec<(String, String)>) -> (r: Vec<(String, String)>)
    ensures
        pair_views(r@) == spec_switching_fields(pair_views(fields@)),
{
    let mut out = fields;
    let ghost f0 = pair_views(out@);
    let has_up = pair_named(&out, "upgrade");
    if !has_up {
        out.push((own("upgrade"), own("websocket")));
        assert(pair_views(out@) =~= f0.push(("upgrade"@, "websocket"@)));
    }
    let ghost f1 = pair_views(out@);
    assert(f1 == (if has_up { f0 } else { f0.push(("upgrade"@, "websocket"@)) }));
    let has_conn = pair_named(&out, "connection");
    if !has_conn {
        out.push((own("connection"), own("Upgrade")));
        assert(pair_views(out@) =~= f1.push(("connection"@, "Upgrade"@)));
    }
    out
}

// ---------------------------------------------------------------------------
// Reading the upgrade reply head
// ---------------------------------------------------------------------------

/// The most reply-head bytes buffered before the upstream is given up on.
pub const UPGRADE_HEAD_LIMIT: usize = 65536;

/// What one read of the upstream socket gave: bytes (none at end of
/// stream), or an I/O error.
pub enum HeadEvent {
    Read(Vec<u8>),
    ReadFailed,
}

/// What to do after a read: read again, the head ends at `head_end`, or
/// answer the client 502.
#[derive(Debug, Clone, Copy, PartialEq, Eq, Structural)]
pub enum HeadStep {
    Continue,
    Done { head_end: usize },
    BadGateway,
}

/// One step of reading the upstream's reply head into `buf`. A buffer
/// already past [`UPGRADE_HEAD_LIMIT`] gives 502 before anything is read;
/// end of stream or a read error gives 502; otherwise the bytes are
/// appended and the head is done once `\r\n\r\n` is buffered.
pub fn upgrade_head_step(buf: &mut Vec<u8>, event: HeadEvent) -> (r: HeadStep)
    ensures
        old(buf)@.len() > UPGRADE_HEAD_LIMIT ==> r == HeadStep::BadGateway && final(buf)@ == old(buf)@,
        old(buf)@.len() <= UPGRADE_HEAD_LIMIT ==> match event {
            HeadEvent::ReadFailed => r == HeadStep::BadGateway && final(buf)@ == old(buf)@,
            HeadEvent::Read(d) => if d@.len() == 0 {
                r == HeadStep::BadGateway && final(buf)@ == old(buf)@
            } else {
                &&& final(buf)@ == old(buf)@ + d@
                &&& match spec_find_header_end(old(buf)@ + d@) {
                    Some(p) => r == (HeadStep::Done { head_end: p as usize }),
                    None => r == HeadStep::Continue,
                }
            },
        },
{
    if buf.len() > UPGRADE_HEAD_LIMIT {
        return HeadStep::BadGateway;
    }
    match event {
        HeadEvent::ReadFailed => HeadStep::BadGateway,
        HeadEvent::Read(d) => {
            if d.len() == 0 {
                return HeadStep::BadGateway;
            }
            let mut d = d;
            buf.append(&mut d);
            match find_header_end(buf.as_slice()) {
                Some(p) => HeadStep::Done { head_end: p },
                None => HeadStep::Continue,
            }
        },
    }
}

/// How the edge answers once the reply head is read: a `101` switches
/// protocols (upgrade fields kept, see [`switching_fields`]); any other code
/// is passed through to the client with hop-by-hop fields dropped, as
/// itself when it is a valid status (100..=999) and as 502 otherwise.
#[derive(Debug, Clone, Copy, PartialEq, Eq, Structural)]
pub enum UpgradeReply {
    Switch,
    PassThrough { status: u16 },
}

pub fn upgrade_reply(code: u16) -> (r: UpgradeReply)
    ensures
        code == 101 ==> r == UpgradeReply::Switch,
        code != 101 && 100 <= code <= 999 ==> r == (UpgradeReply::PassThrough { status: code }),
        code != 101 && !(100 <= code <= 999) ==> r == (UpgradeReply::PassThrough { status: 502 }),
{
    if code == 101 {
        UpgradeReply::Switch
    } else if 100 <= code && code <= 999 {
        UpgradeReply::PassThrough { status: code }
    } else {
        UpgradeReply::PassThrough { status: 502 }
    }
}

} // verus!
