//! The DNS-01 `set` / `clear` / `wait` protocol over a Namecheap zone, and
//! the Namecheap XML API's requests and replies (getHosts / setHosts).
//!
//! The HTTP exchange and the zone file I/O are done by the caller; this
//! module builds the request parameters, reads the replies, and decides
//! what each command does to the zone's records.

use vstd::prelude::*;
use crate::text::{is_ascii_digit, lemma_dec_digits, lower_char, match_at, all_digits, all_digits_exec, any_control_exec, chars_of, concat, contains, contains_exec, dec, dec_exec, eq, extend, find, find_char, find_char_exec, find_exec, is_ascii_alpha, is_control, lemma_find_char, lemma_find_first, lemma_lower_len, lower, lower_vec, opt_view, replace_str, replace_str_exec, res_view, slice_of, string_of, trim, trim_str, unit_view, views};
use crate::acme::cred::{CredView, Credentials, die, spec_die};
use crate::acme::zone::{Record, RecordView, law_zone_round_trip, record_round_trips, record_views, spec_parse_zone, spec_render_zone};

verus! {

/// Default Namecheap XML API endpoint.
pub const DEFAULT_API: &'static str = "https://api.namecheap.com/xml.response";

/// Error prefix of the hook.
pub const PREFIX: &'static str = "acme-dns-hook-namecheap";

/// A zone's records and its `EmailType` (setHosts needs it back).
#[derive(Debug)]
pub struct Hosts {
    pub records: Vec<Record>,
    pub email_type: String,
}

// ---------------------------------------------------------------------------
// XML reading (spec)
// ---------------------------------------------------------------------------

/// `find` ignoring ASCII case.
pub open spec fn spec_find_ci(hay: Seq<char>, needle: Seq<char>) -> Option<int> {
    find(lower(hay), lower(needle))
}

/// XML entity decoding of the five predefined entities, in this order.
pub open spec fn spec_xml_unescape(s: Seq<char>) -> Seq<char> {
    replace_str(
        replace_str(
            replace_str(replace_str(replace_str(s, "&quot;"@, "\""@), "&apos;"@, "'"@), "&lt;"@, "<"@),
            "&gt;"@,
            ">"@,
        ),
        "&amp;"@,
        "&"@,
    )
}

/// The attribute patterns tried, in order.
pub open spec fn attr_patterns(name: Seq<char>) -> Seq<Seq<char>> {
    seq![name + "=\""@, name + "='"@, " "@ + name + "=\""@, " "@ + name + "='"@]
}

/// Value of attribute `name` from pattern `k` on: the first pattern found
/// (ASCII case ignored) decides; its value runs to the matching quote.
pub open spec fn attr_from(blob: Seq<char>, pats: Seq<Seq<char>>, k: int) -> Option<Seq<char>>
    decreases pats.len() - k,
{
    if k < 0 || k >= pats.len() {
        None
    } else {
        match spec_find_ci(blob, pats[k]) {
            None => attr_from(blob, pats, k + 1),
            Some(idx) => {
                let rest = blob.skip(idx + pats[k].len());
                match find_char(rest, pats[k].last()) {
                    Some(end) => Some(spec_xml_unescape(rest.take(end))),
                    None => None,
                }
            },
        }
    }
}

pub open spec fn spec_xml_attr(blob: Seq<char>, name: Seq<char>) -> Option<Seq<char>> {
    attr_from(blob, attr_patterns(name), 0)
}

/// Text of the first `<name ...>...</name>` element (ASCII case ignored),
/// unescaped; none for a self-closing tag.
pub open spec fn spec_xml_tag_text(xml: Seq<char>, name: Seq<char>) -> Option<Seq<char>> {
    match find(lower(xml), lower("<"@ + name)) {
        None => None,
        Some(start) => {
            let after = xml.skip(start);
            match find_char(after, '>') {
                None => None,
                Some(gt) => if after[if gt > 0 { gt - 1 } else { 0 }] == '/' {
                    None
                } else {
                    let inner = after.skip(gt + 1);
                    match find(lower(inner), "</"@ + lower(name) + ">"@) {
                        None => None,
                        Some(end) => Some(spec_xml_unescape(inner.take(end))),
                    }
                },
            }
        },
    }
}

/// Length of the ASCII-letter prefix.
pub open spec fn alpha_len(s: Seq<char>) -> int
    decreases s.len(),
{
    if s.len() > 0 && is_ascii_alpha(s[0]) {
        1 + alpha_len(s.drop_first())
    } else {
        0
    }
}

/// Opening tags `<name ...>` (name matched ignoring ASCII case) from
/// position `i` on, in order.
pub open spec fn tags_from(x: Seq<char>, want: Seq<char>, i: int) -> Seq<Seq<char>>
    decreases x.len() - i,
{
    if i < 0 || i >= x.len() {
        seq![]
    } else if x[i] != '<' {
        tags_from(x, want, i + 1)
    } else {
        let rest = x.skip(i + 1);
        let ident = rest.take(alpha_len(rest));
        if lower(ident) != want {
            tags_from(x, want, i + 1)
        } else {
            let after = rest.skip(alpha_len(rest));
            match find_char(after, '>') {
                None => seq![],
                Some(end) => {
                    proof {
                        lemma_alpha_len(rest);
                        lemma_find_char(after, '>');
                    }
                    seq![seq!['<'] + ident + after.take(end + 1)] + tags_from(x, want, i + 1 + alpha_len(rest) + end + 1)
                },
            }
        }
    }
}

pub open spec fn spec_xml_tags(xml: Seq<char>, name: Seq<char>) -> Seq<Seq<char>> {
    tags_from(xml, lower(name), 0)
}

pub proof fn lemma_alpha_len(s: Seq<char>)
    ensures
        0 <= alpha_len(s) <= s.len(),
        forall|j: int| 0 <= j < alpha_len(s) ==> is_ascii_alpha(#[trigger] s[j]),
        alpha_len(s) < s.len() ==> !is_ascii_alpha(s[alpha_len(s)]),
    decreases s.len(),
{
    if s.len() > 0 && is_ascii_alpha(s[0]) {
        lemma_alpha_len(s.drop_first());
        assert forall|j: int| 0 <= j < alpha_len(s) implies is_ascii_alpha(#[trigger] s[j]) by {
            if j > 0 {
                assert(s[j] == s.drop_first()[j - 1]);
            }
        }
    }
}


// ---------------------------------------------------------------------------
// XML reading
// ---------------------------------------------------------------------------

/// `find` ignoring ASCII case.
fn find_ci(hay: &[char], needle: &[char]) -> (r: Option<usize>)
    ensures
        match r {
            Some(i) => spec_find_ci(hay@, needle@) == Some(i as int) && i + needle@.len() <= hay@.len(),
            None => spec_find_ci(hay@, needle@) is None,
        },
{
    let h = lower_vec(hay);
    let n = lower_vec(needle);
    let r = find_exec(h.as_slice(), n.as_slice());
    proof {
        lemma_lower_len(hay@);
        lemma_lower_len(needle@);
        lemma_find_first(h@, n@);
    }
    r
}

/// Decodes `&quot;`, `&apos;`, `&lt;`, `&gt;` and `&amp;`, in that order.
fn xml_unescape(s: &[char]) -> (r: Vec<char>)
    ensures
        r@ == spec_xml_unescape(s@),
{
    proof {
        reveal_strlit("&quot;");
        reveal_strlit("&apos;");
        reveal_strlit("&lt;");
        reveal_strlit("&gt;");
        reveal_strlit("&amp;");
    }
    let a = replace_str_exec(s, chars_of("&quot;").as_slice(), chars_of("\"").as_slice());
    let b = replace_str_exec(a.as_slice(), chars_of("&apos;").as_slice(), chars_of("'").as_slice());
    let c = replace_str_exec(b.as_slice(), chars_of("&lt;").as_slice(), chars_of("<").as_slice());
    let d = replace_str_exec(c.as_slice(), chars_of("&gt;").as_slice(), chars_of(">").as_slice());
    replace_str_exec(d.as_slice(), chars_of("&amp;").as_slice(), chars_of("&").as_slice())
}

/// Value of attribute `name` (see [`spec_xml_attr`]).
fn xml_attr(blob: &[char], name: &str) -> (r: Option<Vec<char>>)
    ensures
        match r {
            Some(v) => spec_xml_attr(blob@, name@) == Some(v@),
            None => spec_xml_attr(blob@, name@) is None,
        },
{
    let n = chars_of(name);
    let dq = chars_of("=\"");
    let sq = chars_of("='");
    let sp = chars_of(" ");
    let p0 = concat(n.as_slice(), dq.as_slice());
    let p1 = concat(n.as_slice(), sq.as_slice());
    let s0 = concat(sp.as_slice(), n.as_slice());
    let p2 = concat(s0.as_slice(), dq.as_slice());
    let p3 = concat(s0.as_slice(), sq.as_slice());
    proof {
        reveal_strlit("=\"");
        reveal_strlit("='");
        reveal_strlit(" ");
    }
    let pats: [Vec<char>; 4] = [p0, p1, p2, p3];
    let ghost ps = attr_patterns(name@);
    assert(pats@[0]@ == ps[0] && pats@[1]@ == ps[1] && pats@[2]@ == ps[2] && pats@[3]@ == ps[3]);
    let mut k: usize = 0;
    while k < 4
        invariant
            k <= 4,
            ps == attr_patterns(name@),
            pats@.len() == 4,
            forall|j: int| 0 <= j < 4 ==> (#[trigger] pats@[j])@ == ps[j],
            forall|j: int| 0 <= j < 4 ==> (#[trigger] pats@[j])@.len() > 0,
            spec_xml_attr(blob@, name@) == attr_from(blob@, ps, k as int),
        decreases 4 - k,
    {
        let pat = &pats[k];
        match find_ci(blob, pat.as_slice()) {
            None => {},
            Some(idx) => {
                let bl = blob.len();
                let pl = pat.len();
                assert(idx + pl <= bl);
                let rest = slice_of(blob, idx + pl, bl);
                assert(rest@ =~= blob@.skip(idx + pat@.len()));
                let quote = pat[pat.len() - 1];
                match find_char_exec(rest.as_slice(), quote) {
                    Some(end) => {
                        let v = slice_of(rest.as_slice(), 0, end);
                        assert(v@ =~= rest@.take(end as int));
                        return Some(xml_unescape(v.as_slice()));
                    },
                    None => {
                        return None;
                    },
                }
            },
        }
        k += 1;
    }
    None
}

/// Text of the first `<name ...>...</name>` element (see [`spec_xml_tag_text`]).
fn xml_tag_text(xml: &[char], name: &str) -> (r: Option<Vec<char>>)
    ensures
        match r {
            Some(v) => spec_xml_tag_text(xml@, name@) == Some(v@),
            None => spec_xml_tag_text(xml@, name@) is None,
        },
{
    let n = chars_of(name);
    let lt = chars_of("<");
    let open = concat(lt.as_slice(), n.as_slice());
    let low = lower_vec(xml);
    let open_l = lower_vec(open.as_slice());
    let start = match find_exec(low.as_slice(), open_l.as_slice()) {
        None => {
            return None;
        },
        Some(s) => s,
    };
    proof {
        lemma_find_first(low@, open_l@);
        lemma_lower_len(xml@);
    }
    let after = slice_of(xml, start, xml.len());
    assert(after@ =~= xml@.skip(start as int));
    let gt = match find_char_exec(after.as_slice(), '>') {
        None => {
            return None;
        },
        Some(g) => g,
    };
    let bi: usize = if gt > 0 { gt - 1 } else { 0 };
    if after[bi] == '/' {
        return None;
    }
    let inner = slice_of(after.as_slice(), gt + 1, after.len());
    assert(inner@ =~= after@.skip(gt + 1));
    let close_a = chars_of("</");
    let nl = lower_vec(n.as_slice());
    let close_b = chars_of(">");
    let c1 = concat(close_a.as_slice(), nl.as_slice());
    let close_l = concat(c1.as_slice(), close_b.as_slice());
    let inner_l = lower_vec(inner.as_slice());
    match find_exec(inner_l.as_slice(), close_l.as_slice()) {
        None => None,
        Some(end) => {
            proof {
                lemma_find_first(inner_l@, close_l@);
                lemma_lower_len(inner@);
            }
            let v = slice_of(inner.as_slice(), 0, end);
            assert(v@ =~= inner@.take(end as int));
            Some(xml_unescape(v.as_slice()))
        },
    }
}

/// Length of the ASCII-letter prefix of `x` from `i`.
fn alpha_len_from(x: &[char], i: usize) -> (r: usize)
    requires
        i <= x.len(),
    ensures
        r == alpha_len(x@.skip(i as int)),
        i + r <= x.len(),
{
    let mut j: usize = i;
    while j < x.len() && (('a' <= x[j] && x[j] <= 'z') || ('A' <= x[j] && x[j] <= 'Z'))
        invariant
            i <= j <= x.len(),
            forall|t: int| i <= t < j ==> is_ascii_alpha(#[trigger] x@[t]),
        decreases x.len() - j,
    {
        j += 1;
    }
    proof {
        let s = x@.skip(i as int);
        lemma_alpha_len(s);
        let k = alpha_len(s);
        if k < j - i {
            assert(s[k] == x@[i + k]);
        }
        if k > j - i {
            assert(s[j - i] == x@[j as int]);
        }
    }
    j - i
}

/// The opening tags `<name ...>` in order (see [`spec_xml_tags`]).
fn xml_tags(x: &[char], name: &str) -> (r: Vec<Vec<char>>)
    ensures
        r@.map_values(|t: Vec<char>| t@) == spec_xml_tags(x@, name@),
{
    let nv = chars_of(name);
    let want = lower_vec(nv.as_slice());
    let mut out: Vec<Vec<char>> = Vec::new();
    let mut i: usize = 0;
    while i < x.len()
        invariant
            i <= x.len(),
            want@ == lower(name@),
            out@.map_values(|t: Vec<char>| t@) + tags_from(x@, want@, i as int) == spec_xml_tags(x@, name@),
        decreases x.len() - i,
    {
        if x[i] != '<' {
            i += 1;
            continue;
        }
        let al = alpha_len_from(x, i + 1);
        let ident = slice_of(x, i + 1, i + 1 + al);
        let il = lower_vec(ident.as_slice());
        let ghost rest = x@.skip(i + 1);
        assert(ident@ =~= rest.take(al as int));
        if !eq(il.as_slice(), want.as_slice()) {
            i += 1;
            continue;
        }
        let after = slice_of(x, i + 1 + al, x.len());
        assert(after@ =~= rest.skip(al as int));
        match find_char_exec(after.as_slice(), '>') {
            None => {
                assert(out@.map_values(|t: Vec<char>| t@) + Seq::<Seq<char>>::empty() =~= out@.map_values(|t: Vec<char>| t@));
                return out;
            },
            Some(end) => {
                let mut tag: Vec<char> = Vec::new();
                tag.push('<');
                extend(&mut tag, ident.as_slice());
                let a = slice_of(after.as_slice(), 0, end + 1);
                extend(&mut tag, a.as_slice());
                let ghost before = out@.map_values(|t: Vec<char>| t@);
                proof {
                    assert(tag@ =~= seq!['<'] + ident@ + after@.take(end + 1));
                }
                out.push(tag);
                proof {
                    assert(out@.map_values(|t: Vec<char>| t@) =~= before.push(tag@));
                    assert(before + (seq![tag@] + tags_from(x@, want@, i + 1 + al + end + 1)) =~= before.push(tag@) + tags_from(x@, want@, i + 1 + al + end + 1));
                }
                i = i + 1 + al + end + 1;
            },
        }
    }
    assert(tags_from(x@, want@, i as int) == Seq::<Seq<char>>::empty());
    assert(out@.map_values(|t: Vec<char>| t@) + Seq::<Seq<char>>::empty() =~= out@.map_values(|t: Vec<char>| t@));
    out
}

/// The value, or `fallback` when empty.
fn nonempty(s: Vec<char>, fallback: &str) -> (r: Vec<char>)
    ensures
        r@ == (if s@.len() == 0 { fallback@ } else { s@ }),
{
    if s.len() == 0 {
        chars_of(fallback)
    } else {
        s
    }
}


// ---------------------------------------------------------------------------
// API replies
// ---------------------------------------------------------------------------

pub open spec fn unwrap_or_empty(o: Option<Seq<char>>) -> Seq<char> {
    match o {
        Some(v) => v,
        None => seq![],
    }
}

/// ` Number={n}` when the reply's `Number` attribute is all digits.
pub open spec fn number_note(xml: Seq<char>) -> Seq<char> {
    let num = unwrap_or_empty(spec_xml_attr(xml, "Number"@));
    if num.len() > 0 && all_digits(num) { " Number="@ + num } else { seq![] }
}

pub open spec fn blocked_ip_msg() -> Seq<char> {
    "BLOCKED: Invalid request IP (Namecheap ClientIp whitelist of laptop egress)"@
}

/// The refusal an API reply carries, if it is an error reply.
pub open spec fn spec_api_xml_error(xml: Seq<char>, prefix: Seq<char>) -> Option<Seq<char>> {
    let low = lower(xml);
    let note = number_note(xml);
    if contains(low, "invalid request ip"@) {
        Some(spec_die(prefix, blocked_ip_msg() + note))
    } else if spec_xml_attr(xml, "Status"@) == Some("ERROR"@) || contains(low, "status=\"error\""@) || contains(
        low,
        "status='error'"@,
    ) {
        let ml = lower(unwrap_or_empty(spec_xml_tag_text(xml, "Error"@)));
        if contains(ml, "invalid request ip"@) {
            Some(spec_die(prefix, blocked_ip_msg() + note))
        } else if contains(ml, "not using"@) && (contains(ml, "name server"@) || contains(ml, "dns"@)) {
            Some(spec_die(prefix, "Namecheap API: zone is not on Namecheap hosted DNS"@ + note))
        } else if contains(ml, "domain not found"@) || contains(ml, "no longer exists"@) {
            Some(spec_die(prefix, "Namecheap API: domain not found"@ + note))
        } else if contains(ml, "api key"@) {
            Some(spec_die(prefix, "Namecheap API: credentials rejected"@ + note))
        } else {
            Some(spec_die(prefix, "Namecheap API error"@ + note + " (body not logged; check ClientIp and zone)"@))
        }
    } else {
        None
    }
}

/// The record of one `<host ...>` tag, when it has a name and a type.
pub open spec fn spec_host_record(tag: Seq<char>) -> Option<RecordView> {
    let name = unwrap_or_empty(spec_xml_attr(tag, "Name"@));
    let typ = unwrap_or_empty(spec_xml_attr(tag, "Type"@));
    if name.len() == 0 || typ.len() == 0 {
        None
    } else {
        let mx = unwrap_or_empty(spec_xml_attr(tag, "MXPref"@));
        let ttl = unwrap_or_empty(spec_xml_attr(tag, "TTL"@));
        Some(RecordView {
            name: name,
            record_type: typ,
            address: unwrap_or_empty(spec_xml_attr(tag, "Address"@)),
            mx_pref: if mx.len() == 0 { "10"@ } else { mx },
            ttl: if ttl.len() == 0 { "1800"@ } else { ttl },
        })
    }
}

/// Records of a list of host tags, in order.
pub open spec fn host_records(tags: Seq<Seq<char>>) -> Seq<RecordView>
    decreases tags.len(),
{
    if tags.len() == 0 {
        seq![]
    } else {
        match spec_host_record(tags.last()) {
            Some(r) => host_records(tags.drop_last()).push(r),
            None => host_records(tags.drop_last()),
        }
    }
}

pub open spec fn no_records_msg() -> Seq<char> {
    "getHosts returned no records (refuse setHosts wipe)"@
}

/// Reply status is OK (attribute or text, ASCII case ignored for the text).
pub open spec fn reply_ok(xml: Seq<char>) -> bool {
    spec_xml_attr(xml, "Status"@) == Some("OK"@) || contains(lower(xml), "status=\"ok\""@) || contains(
        lower(xml),
        "status='ok'"@,
    )
}

/// A getHosts reply: its error, or Status OK with at least one record.
pub open spec fn spec_parse_get_hosts(xml: Seq<char>, prefix: Seq<char>) -> Result<(Seq<RecordView>, Seq<char>), Seq<char>> {
    match spec_api_xml_error(xml, prefix) {
        Some(e) => Err(e),
        None => if !reply_ok(xml) {
            Err(spec_die(prefix, "Namecheap getHosts XML missing Status=OK"@))
        } else {
            let recs = host_records(spec_xml_tags(xml, "host"@));
            if recs.len() == 0 {
                Err(spec_die(prefix, no_records_msg()))
            } else {
                Ok((recs, unwrap_or_empty(spec_xml_attr(xml, "EmailType"@))))
            }
        },
    }
}

/// A setHosts reply: its error, or a success marker.
pub open spec fn spec_parse_set_hosts_ok(xml: Seq<char>, prefix: Seq<char>) -> Result<(), Seq<char>> {
    match spec_api_xml_error(xml, prefix) {
        Some(e) => Err(e),
        None => {
            let low = lower(xml);
            if contains(low, "issuccess=\"true\""@) || contains(low, "issuccess='true'"@) || spec_xml_attr(xml, "Status"@)
                == Some("OK"@) || contains(low, "status=\"ok\""@) {
                Ok(())
            } else {
                Err(spec_die(prefix, "Namecheap setHosts did not report success"@))
            }
        },
    }
}

pub open spec fn hosts_view(r: Result<Hosts, String>) -> Result<(Seq<RecordView>, Seq<char>), Seq<char>> {
    match r {
        Ok(h) => Ok((record_views(h.records@), h.email_type@)),
        Err(e) => Err(e@),
    }
}

fn unwrap_or_empty_exec(o: Option<Vec<char>>) -> (r: Vec<char>)
    ensures
        r@ == unwrap_or_empty(match o { Some(v) => Some(v@), None => None }),
{
    match o {
        Some(v) => v,
        None => Vec::new(),
    }
}

fn mentions(low: &[char], needle: &str) -> (r: bool)
    ensures
        r == contains(low@, needle@),
{
    let n = chars_of(needle);
    contains_exec(low, n.as_slice())
}

fn die_with(prefix: &str, msg: &str, note: &[char]) -> (r: String)
    ensures
        r@ == spec_die(prefix@, msg@ + note@),
{
    let m = chars_of(msg);
    let x = concat(m.as_slice(), note);
    let xs = string_of(x.as_slice());
    die(prefix, xs.as_str())
}

fn eq_str(v: &[char], s: &str) -> (r: bool)
    ensures
        r == (v@ == s@),
{
    let sv = chars_of(s);
    eq(v, sv.as_slice())
}

fn opt_eq_str(o: &Option<Vec<char>>, s: &str) -> (r: bool)
    ensures
        r == (match o { Some(v) => Some(v@), None => None::<Seq<char>> } == Some(s@)),
{
    match o {
        Some(v) => eq_str(v.as_slice(), s),
        None => false,
    }
}

/// The refusal an API reply carries, if it is an error reply: `BLOCKED`
/// for the ClientIp whitelist, else a short reason; the reply's error
/// `Number` is kept when it is all digits, the body never.
pub fn api_xml_error(xml: &str, prefix: &str) -> (r: Option<String>)
    ensures
        opt_view(r) == spec_api_xml_error(xml@, prefix@),
{
    let x = chars_of(xml);
    let low = lower_vec(x.as_slice());
    let num = unwrap_or_empty_exec(xml_attr(x.as_slice(), "Number"));
    let note: Vec<char> = if num.len() > 0 && all_digits_exec(num.as_slice()) {
        let h = chars_of(" Number=");
        concat(h.as_slice(), num.as_slice())
    } else {
        Vec::new()
    };
    let blocked = "BLOCKED: Invalid request IP (Namecheap ClientIp whitelist of laptop egress)";
    if mentions(low.as_slice(), "invalid request ip") {
        return Some(die_with(prefix, blocked, note.as_slice()));
    }
    let status = xml_attr(x.as_slice(), "Status");
    if opt_eq_str(&status, "ERROR") || mentions(low.as_slice(), "status=\"error\"") || mentions(low.as_slice(), "status='error'") {
        let msg = unwrap_or_empty_exec(xml_tag_text(x.as_slice(), "Error"));
        let ml = lower_vec(msg.as_slice());
        if mentions(ml.as_slice(), "invalid request ip") {
            return Some(die_with(prefix, blocked, note.as_slice()));
        }
        if mentions(ml.as_slice(), "not using") && (mentions(ml.as_slice(), "name server") || mentions(ml.as_slice(), "dns")) {
            return Some(die_with(prefix, "Namecheap API: zone is not on Namecheap hosted DNS", note.as_slice()));
        }
        if mentions(ml.as_slice(), "domain not found") || mentions(ml.as_slice(), "no longer exists") {
            return Some(die_with(prefix, "Namecheap API: domain not found", note.as_slice()));
        }
        if mentions(ml.as_slice(), "api key") {
            return Some(die_with(prefix, "Namecheap API: credentials rejected", note.as_slice()));
        }
        let tail = chars_of(" (body not logged; check ClientIp and zone)");
        let nt = concat(note.as_slice(), tail.as_slice());
        proof {
            assert(nt@ == note@ + " (body not logged; check ClientIp and zone)"@);
            assert("Namecheap API error"@ + nt@ =~= "Namecheap API error"@ + note@ + " (body not logged; check ClientIp and zone)"@);
        }
        return Some(die_with(prefix, "Namecheap API error", nt.as_slice()));
    }
    None
}

/// The record of one `<host ...>` tag (see [`spec_host_record`]).
fn host_record(tag: &[char]) -> (r: Option<Record>)
    ensures
        match r {
            Some(x) => spec_host_record(tag@) == Some(x@),
            None => spec_host_record(tag@) is None,
        },
{
    let name = unwrap_or_empty_exec(xml_attr(tag, "Name"));
    let typ = unwrap_or_empty_exec(xml_attr(tag, "Type"));
    if name.len() == 0 || typ.len() == 0 {
        return None;
    }
    let addr = unwrap_or_empty_exec(xml_attr(tag, "Address"));
    let mx = nonempty(unwrap_or_empty_exec(xml_attr(tag, "MXPref")), "10");
    let ttl = nonempty(unwrap_or_empty_exec(xml_attr(tag, "TTL")), "1800");
    Some(Record {
        name: string_of(name.as_slice()),
        record_type: string_of(typ.as_slice()),
        address: string_of(addr.as_slice()),
        mx_pref: string_of(mx.as_slice()),
        ttl: string_of(ttl.as_slice()),
    })
}

/// A getHosts reply: its refusal, or Status OK with the records of its
/// `<host>` tags (at least one; an empty zone would be wiped by the next
/// setHosts) and its `EmailType`.
pub fn parse_get_hosts(xml: &str, prefix: &str) -> (r: Result<Hosts, String>)
    ensures
        hosts_view(r) == spec_parse_get_hosts(xml@, prefix@),
{
    match api_xml_error(xml, prefix) {
        Some(e) => {
            return Err(e);
        },
        None => {},
    }
    let x = chars_of(xml);
    let low = lower_vec(x.as_slice());
    let status = xml_attr(x.as_slice(), "Status");
    if !opt_eq_str(&status, "OK") && !mentions(low.as_slice(), "status=\"ok\"") && !mentions(low.as_slice(), "status='ok'") {
        return Err(die(prefix, "Namecheap getHosts XML missing Status=OK"));
    }
    let email_type = unwrap_or_empty_exec(xml_attr(x.as_slice(), "EmailType"));
    let tags = xml_tags(x.as_slice(), "host");
    let ghost ts = tags@.map_values(|t: Vec<char>| t@);
    let mut records: Vec<Record> = Vec::new();
    let mut k: usize = 0;
    assert(ts.take(0) =~= Seq::<Seq<char>>::empty());
    assert(record_views(records@) =~= Seq::<RecordView>::empty());
    while k < tags.len()
        invariant
            k <= tags.len(),
            ts == tags@.map_values(|t: Vec<char>| t@),
            record_views(records@) == host_records(ts.take(k as int)),
        decreases tags.len() - k,
    {
        proof {
            assert(ts.take(k + 1).drop_last() =~= ts.take(k as int));
            assert(ts.take(k + 1).last() == tags@[k as int]@);
        }
        let ghost before = record_views(records@);
        match host_record(tags[k].as_slice()) {
            Some(rec) => {
                let ghost rv = rec@;
                records.push(rec);
                assert(record_views(records@) =~= before.push(rv));
            },
            None => {},
        }
        k += 1;
    }
    assert(ts.take(tags.len() as int) =~= ts);
    if records.len() == 0 {
        return Err(die(prefix, "getHosts returned no records (refuse setHosts wipe)"));
    }
    Ok(Hosts { records, email_type: string_of(email_type.as_slice()) })
}

/// A setHosts reply: its refusal, or success when it says `IsSuccess`
/// true or Status OK.
pub fn parse_set_hosts_ok(xml: &str, prefix: &str) -> (r: Result<(), String>)
    ensures
        match r {
            Ok(()) => spec_parse_set_hosts_ok(xml@, prefix@) is Ok,
            Err(e) => spec_parse_set_hosts_ok(xml@, prefix@) == Err::<(), Seq<char>>(e@),
        },
{
    match api_xml_error(xml, prefix) {
        Some(e) => {
            return Err(e);
        },
        None => {},
    }
    let x = chars_of(xml);
    let low = lower_vec(x.as_slice());
    let status = xml_attr(x.as_slice(), "Status");
    if mentions(low.as_slice(), "issuccess=\"true\"") || mentions(low.as_slice(), "issuccess='true'") || opt_eq_str(&status, "OK")
        || mentions(low.as_slice(), "status=\"ok\"") {
        return Ok(());
    }
    Err(die(prefix, "Namecheap setHosts did not report success"))
}


// ---------------------------------------------------------------------------
// API requests
// ---------------------------------------------------------------------------

pub open spec fn pair_views(s: Seq<(String, String)>) -> Seq<(Seq<char>, Seq<char>)> {
    s.map_values(|p: (String, String)| (p.0@, p.1@))
}

pub open spec fn client_ip_refusal() -> Seq<char> {
    "BLOCKED: live Namecheap API requires ClientIp (laptop egress whitelist)"@
}

/// Live API calls need the laptop egress `ClientIp`.
pub open spec fn spec_require_client_ip(c: CredView, prefix: Seq<char>) -> Result<(), Seq<char>> {
    if trim(c.client_ip).len() == 0 {
        Err(spec_die(prefix, client_ip_refusal()))
    } else {
        Ok(())
    }
}

/// The account parameters every API call carries, then `extra`.
pub open spec fn spec_api_query(c: CredView, extra: Seq<(Seq<char>, Seq<char>)>) -> Seq<(Seq<char>, Seq<char>)> {
    seq![("ApiUser"@, c.api_user), ("ApiKey"@, c.api_key), ("UserName"@, c.user_name), ("ClientIp"@, c.client_ip)] + extra
}

/// The five setHosts parameters of record `i` (numbered from 1).
pub open spec fn record_params(i: nat, r: RecordView) -> Seq<(Seq<char>, Seq<char>)> {
    let n = dec(i + 1);
    seq![
        ("HostName"@ + n, r.name),
        ("RecordType"@ + n, r.record_type),
        ("Address"@ + n, r.address),
        ("MXPref"@ + n, r.mx_pref),
        ("TTL"@ + n, r.ttl),
    ]
}

/// The parameters of all records, in order.
pub open spec fn records_params(rs: Seq<RecordView>) -> Seq<(Seq<char>, Seq<char>)>
    decreases rs.len(),
{
    if rs.len() == 0 {
        seq![]
    } else {
        records_params(rs.drop_last()) + record_params((rs.len() - 1) as nat, rs.last())
    }
}

/// getHosts query parameters.
pub open spec fn spec_get_hosts_request(c: CredView, prefix: Seq<char>) -> Result<Seq<(Seq<char>, Seq<char>)>, Seq<char>> {
    match spec_require_client_ip(c, prefix) {
        Err(e) => Err(e),
        Ok(_) => Ok(spec_api_query(c, seq![("Command"@, "namecheap.domains.dns.getHosts"@), ("SLD"@, c.sld), ("TLD"@, c.tld)])),
    }
}

/// setHosts query parameters; refused for an empty zone or a missing
/// `EmailType` (either would un-publish the zone).
pub open spec fn spec_set_hosts_request(c: CredView, rs: Seq<RecordView>, email_type: Seq<char>, prefix: Seq<char>) -> Result<Seq<(Seq<char>, Seq<char>)>, Seq<char>> {
    match spec_require_client_ip(c, prefix) {
        Err(e) => Err(e),
        Ok(_) => if rs.len() == 0 {
            Err(spec_die(prefix, no_records_msg()))
        } else if email_type.len() == 0 {
            Err(spec_die(prefix, "getHosts missing EmailType (refuse setHosts that would un-publish)"@))
        } else {
            Ok(spec_api_query(
                c,
                seq![
                    ("Command"@, "namecheap.domains.dns.setHosts"@),
                    ("SLD"@, c.sld),
                    ("TLD"@, c.tld),
                    ("EmailType"@, email_type),
                ] + records_params(rs),
            ))
        },
    }
}

pub open spec fn pairs_result_view(r: Result<Vec<(String, String)>, String>) -> Result<Seq<(Seq<char>, Seq<char>)>, Seq<char>> {
    match r {
        Ok(v) => Ok(pair_views(v@)),
        Err(e) => Err(e@),
    }
}

/// Live API calls need the laptop egress `ClientIp`.
fn require_client_ip(cred: &Credentials, prefix: &str) -> (r: Result<(), String>)
    ensures
        unit_view(r) == spec_require_client_ip(cred@, prefix@),
{
    let t = trim_str(cred.client_ip.as_str());
    if t.len() == 0 {
        return Err(die(prefix, "BLOCKED: live Namecheap API requires ClientIp (laptop egress whitelist)"));
    }
    Ok(())
}

fn pair(k: &str, v: &str) -> (r: (String, String))
    ensures
        r.0@ == k@,
        r.1@ == v@,
{
    (k.to_owned(), v.to_owned())
}

/// The account parameters, then `extra`.
fn api_query(cred: &Credentials, extra: &Vec<(String, String)>) -> (r: Vec<(String, String)>)
    ensures
        pair_views(r@) == spec_api_query(cred@, pair_views(extra@)),
{
    let mut q: Vec<(String, String)> = Vec::new();
    q.push(pair("ApiUser", cred.api_user.as_str()));
    q.push(pair("ApiKey", cred.api_key.as_str()));
    q.push(pair("UserName", cred.user_name.as_str()));
    q.push(pair("ClientIp", cred.client_ip.as_str()));
    let ghost head = pair_views(q@);
    let ghost ev = pair_views(extra@);
    let mut k: usize = 0;
    assert(ev.take(0) =~= Seq::<(Seq<char>, Seq<char>)>::empty());
    assert(pair_views(q@) =~= head + ev.take(0));
    while k < extra.len()
        invariant
            k <= extra.len(),
            ev == pair_views(extra@),
            pair_views(q@) == head + ev.take(k as int),
        decreases extra.len() - k,
    {
        let a = extra[k].0.clone();
        let b = extra[k].1.clone();
        let ghost before = pair_views(q@);
        q.push((a, b));
        proof {
            assert(pair_views(q@) =~= before.push(ev[k as int]));
            assert(ev.take(k + 1) =~= ev.take(k as int).push(ev[k as int]));
        }
        k += 1;
    }
    assert(ev.take(extra.len() as int) =~= ev);
    proof {
        assert(head =~= seq![("ApiUser"@, cred@.api_user), ("ApiKey"@, cred@.api_key), ("UserName"@, cred@.user_name), ("ClientIp"@, cred@.client_ip)]);
    }
    q
}

/// getHosts query parameters (refused without a `ClientIp`).
pub fn get_hosts_request(cred: &Credentials, prefix: &str) -> (r: Result<Vec<(String, String)>, String>)
    ensures
        pairs_result_view(r) == spec_get_hosts_request(cred@, prefix@),
{
    match require_client_ip(cred, prefix) {
        Err(e) => {
            return Err(e);
        },
        Ok(()) => {},
    }
    let mut extra: Vec<(String, String)> = Vec::new();
    extra.push(pair("Command", "namecheap.domains.dns.getHosts"));
    extra.push(pair("SLD", cred.sld.as_str()));
    extra.push(pair("TLD", cred.tld.as_str()));
    assert(pair_views(extra@) =~= seq![("Command"@, "namecheap.domains.dns.getHosts"@), ("SLD"@, cred@.sld), ("TLD"@, cred@.tld)]);
    Ok(api_query(cred, &extra))
}

/// `prefix{n}` where `n` is `i + 1`.
fn numbered(prefix: &str, i: usize) -> (r: String)
    requires
        i < usize::MAX,
    ensures
        r@ == prefix@ + dec((i + 1) as nat),
{
    let p = chars_of(prefix);
    let d = dec_exec((i + 1) as u64);
    let x = concat(p.as_slice(), d.as_slice());
    string_of(x.as_slice())
}

/// setHosts query parameters: refused without a `ClientIp`, for an empty
/// zone, or without an `EmailType`.
pub fn set_hosts_request(cred: &Credentials, hosts: &Hosts, prefix: &str) -> (r: Result<Vec<(String, String)>, String>)
    ensures
        pairs_result_view(r) == spec_set_hosts_request(cred@, record_views(hosts.records@), hosts.email_type@, prefix@),
{
    match require_client_ip(cred, prefix) {
        Err(e) => {
            return Err(e);
        },
        Ok(()) => {},
    }
    if hosts.records.len() == 0 {
        return Err(die(prefix, "getHosts returned no records (refuse setHosts wipe)"));
    }
    if hosts.email_type.as_str().is_empty() {
        return Err(die(prefix, "getHosts missing EmailType (refuse setHosts that would un-publish)"));
    }
    let mut extra: Vec<(String, String)> = Vec::new();
    extra.push(pair("Command", "namecheap.domains.dns.setHosts"));
    extra.push(pair("SLD", cred.sld.as_str()));
    extra.push(pair("TLD", cred.tld.as_str()));
    extra.push(pair("EmailType", hosts.email_type.as_str()));
    let ghost head = pair_views(extra@);
    assert(head =~= seq![
        ("Command"@, "namecheap.domains.dns.setHosts"@),
        ("SLD"@, cred@.sld),
        ("TLD"@, cred@.tld),
        ("EmailType"@, hosts.email_type@),
    ]);
    let ghost rs = record_views(hosts.records@);
    let mut i: usize = 0;
    assert(rs.take(0) =~= Seq::<RecordView>::empty());
    assert(pair_views(extra@) =~= head + records_params(rs.take(0)));
    while i < hosts.records.len()
        invariant
            i <= hosts.records.len(),
            rs == record_views(hosts.records@),
            pair_views(extra@) == head + records_params(rs.take(i as int)),
        decreases hosts.records.len() - i,
    {
        let r = &hosts.records[i];
        let ghost before = pair_views(extra@);
        extra.push((numbered("HostName", i), r.name.clone()));
        extra.push((numbered("RecordType", i), r.record_type.clone()));
        extra.push((numbered("Address", i), r.address.clone()));
        extra.push((numbered("MXPref", i), r.mx_pref.clone()));
        extra.push((numbered("TTL", i), r.ttl.clone()));
        proof {
            assert(rs.take(i + 1).drop_last() =~= rs.take(i as int));
            assert(rs.take(i + 1).last() == rs[i as int]);
            assert(pair_views(extra@) =~= before + record_params(i as nat, rs[i as int]));
        }
        i += 1;
    }
    assert(rs.take(hosts.records.len() as int) =~= rs);
    Ok(api_query(cred, &extra))
}

/// The API base URL: the dns-zone override, else the hook override, else
/// the public endpoint (blank overrides ignored).
pub fn api_base(dns_zone_base: Option<String>, hook_base: Option<String>) -> (r: String)
    ensures
        r@ == match dns_zone_base {
            Some(b) if b@.len() > 0 => b@,
            _ => match hook_base {
                Some(h) if h@.len() > 0 => h@,
                _ => DEFAULT_API@,
            },
        },
{
    match dns_zone_base {
        Some(b) => if !b.as_str().is_empty() {
            return b;
        },
        None => {},
    }
    match hook_base {
        Some(h) => if !h.as_str().is_empty() {
            return h;
        },
        None => {},
    }
    DEFAULT_API.to_owned()
}

/// The body of an API reply: kept on an HTTP success, else the refusal the
/// body carries or a generic one (URL and body never in the message).
pub fn api_response(success: bool, body: String, prefix: &str) -> (r: Result<String, String>)
    ensures
        res_view(r) == if success {
            Ok(body@)
        } else {
            match spec_api_xml_error(body@, prefix@) {
                Some(e) => Err(e),
                None => Err(spec_die(prefix@, "Namecheap API HTTP status failed (URL and body not logged)"@)),
            }
        },
{
    if success {
        return Ok(body);
    }
    match api_xml_error(body.as_str(), prefix) {
        Some(e) => Err(e),
        None => Err(die(prefix, "Namecheap API HTTP status failed (URL and body not logged)")),
    }
}


/// What one API GET came back with, as the transport saw it.
#[derive(Debug)]
pub enum ApiReply {
    /// An HTTP reply: whether its status was a success, and its body.
    Reply { success: bool, body: String },
    /// The HTTP client could not be built.
    ClientFailed,
    /// The request could not be sent.
    SendFailed,
    /// The reply body could not be read.
    BodyUnreadable,
}

/// The body an exchange yields, or its refusal (URL and body never in the
/// message).
pub open spec fn spec_reply_body(reply: ApiReply, prefix: Seq<char>) -> Result<Seq<char>, Seq<char>> {
    match reply {
        ApiReply::Reply { success, body } => if success {
            Ok(body@)
        } else {
            match spec_api_xml_error(body@, prefix) {
                Some(e) => Err(e),
                None => Err(spec_die(prefix, "Namecheap API HTTP status failed (URL and body not logged)"@)),
            }
        },
        ApiReply::ClientFailed => Err(spec_die(prefix, "Namecheap API HTTP client failed (URL not logged)"@)),
        ApiReply::SendFailed => Err(spec_die(prefix, "Namecheap API HTTP failed (URL not logged)"@)),
        ApiReply::BodyUnreadable => Err(spec_die(prefix, "Namecheap API body unreadable (URL not logged)"@)),
    }
}

/// The body of one exchange (see [`spec_reply_body`]).
pub fn reply_body(reply: ApiReply, prefix: &str) -> (r: Result<String, String>)
    ensures
        res_view(r) == spec_reply_body(reply, prefix@),
{
    match reply {
        ApiReply::Reply { success, body } => api_response(success, body, prefix),
        ApiReply::ClientFailed => Err(die(prefix, "Namecheap API HTTP client failed (URL not logged)")),
        ApiReply::SendFailed => Err(die(prefix, "Namecheap API HTTP failed (URL not logged)")),
        ApiReply::BodyUnreadable => Err(die(prefix, "Namecheap API body unreadable (URL not logged)")),
    }
}

/// `fetch` sent the query `q` and came back with `reply`.
pub open spec fn fetched<F: FnOnce(&Vec<(String, String)>) -> ApiReply>(fetch: F, q: Seq<(Seq<char>, Seq<char>)>, reply: ApiReply) -> bool {
    exists|qv: &Vec<(String, String)>| pair_views(qv@) == q && call_ensures(fetch, (qv,), reply)
}

/// The zone after a getHosts exchange that came back with `reply`.
pub open spec fn spec_hosts_from_reply(reply: ApiReply, prefix: Seq<char>) -> Result<(Seq<RecordView>, Seq<char>), Seq<char>> {
    match spec_reply_body(reply, prefix) {
        Err(e) => Err(e),
        Ok(b) => spec_parse_get_hosts(b, prefix),
    }
}

/// The outcome of a setHosts exchange that came back with `reply`.
pub open spec fn spec_set_from_reply(reply: ApiReply, prefix: Seq<char>) -> Result<(), Seq<char>> {
    match spec_reply_body(reply, prefix) {
        Err(e) => Err(e),
        Ok(b) => spec_parse_set_hosts_ok(b, prefix),
    }
}

/// The zone a getHosts reply gives: the transport's failure, the reply's
/// refusal, or its records and EmailType.
pub fn hosts_from_reply(reply: ApiReply, prefix: &str) -> (r: Result<Hosts, String>)
    ensures
        hosts_view(r) == spec_hosts_from_reply(reply, prefix@),
{
    match reply_body(reply, prefix) {
        Err(e) => Err(e),
        Ok(body) => parse_get_hosts(body.as_str(), prefix),
    }
}

/// The outcome a setHosts reply gives: the transport's failure, the
/// reply's refusal, or success.
pub fn set_outcome_from_reply(reply: ApiReply, prefix: &str) -> (r: Result<(), String>)
    ensures
        unit_view(r) == spec_set_from_reply(reply, prefix@),
{
    match reply_body(reply, prefix) {
        Err(e) => Err(e),
        Ok(body) => parse_set_hosts_ok(body.as_str(), prefix),
    }
}

/// getHosts of the credentials' zone with a caller prefix for errors: the
/// query is refused without a `ClientIp`; else `fetch` (the HTTP GET
/// against the API base) is called once with it and its reply is read.
/// `fetch` is `FnOnce` and may be called only with the built query, so a
/// refused query sends nothing and nothing else is ever sent.
pub fn get_hosts_with_prefix(
    cred: &Credentials,
    prefix: &str,
    fetch: impl FnOnce(&Vec<(String, String)>) -> ApiReply,
) -> (r: Result<Hosts, String>)
    requires
        forall|q: &Vec<(String, String)>|
            #[trigger] call_requires(fetch, (q,))
                <==> spec_get_hosts_request(cred@, prefix@) == Ok::<_, Seq<char>>(pair_views(q@)),
    ensures
        match spec_get_hosts_request(cred@, prefix@) {
            Err(e) => hosts_view(r) == Err::<(Seq<RecordView>, Seq<char>), Seq<char>>(e),
            Ok(q) => exists|reply: ApiReply| fetched(fetch, q, reply) && hosts_view(r) == spec_hosts_from_reply(reply, prefix@),
        },
{
    let q = match get_hosts_request(cred, prefix) {
        Err(e) => {
            return Err(e);
        },
        Ok(q) => q,
    };
    let reply = fetch(&q);
    let ghost rv = reply;
    assert(fetched(fetch, pair_views(q@), rv));
    let r = hosts_from_reply(reply, prefix);
    assert(fetched(fetch, pair_views(q@), rv) && hosts_view(r) == spec_hosts_from_reply(rv, prefix@));
    r
}

/// getHosts with the hook's own prefix.
pub fn get_hosts(cred: &Credentials, fetch: impl FnOnce(&Vec<(String, String)>) -> ApiReply) -> (r: Result<Hosts, String>)
    requires
        forall|q: &Vec<(String, String)>|
            #[trigger] call_requires(fetch, (q,))
                <==> spec_get_hosts_request(cred@, PREFIX@) == Ok::<_, Seq<char>>(pair_views(q@)),
    ensures
        match spec_get_hosts_request(cred@, PREFIX@) {
            Err(e) => hosts_view(r) == Err::<(Seq<RecordView>, Seq<char>), Seq<char>>(e),
            Ok(q) => exists|reply: ApiReply| fetched(fetch, q, reply) && hosts_view(r) == spec_hosts_from_reply(reply, PREFIX@),
        },
{
    get_hosts_with_prefix(cred, PREFIX, fetch)
}

/// setHosts of the whole zone with a caller prefix for errors: refused
/// without a `ClientIp`, for an empty zone or without an `EmailType`
/// (never a wipe); else `fetch` is called once with the query and its
/// reply must report success. `fetch` is `FnOnce` and may be called only
/// with the built query: a refusal sends nothing, and a success sends
/// exactly that one setHosts request.
pub fn set_hosts_with_prefix(
    cred: &Credentials,
    hosts: &Hosts,
    prefix: &str,
    fetch: impl FnOnce(&Vec<(String, String)>) -> ApiReply,
) -> (r: Result<(), String>)
    requires
        forall|q: &Vec<(String, String)>|
            #[trigger] call_requires(fetch, (q,))
                <==> spec_set_hosts_request(cred@, record_views(hosts.records@), hosts.email_type@, prefix@)
                    == Ok::<_, Seq<char>>(pair_views(q@)),
    ensures
        match spec_set_hosts_request(cred@, record_views(hosts.records@), hosts.email_type@, prefix@) {
            Err(e) => unit_view(r) == Err::<(), Seq<char>>(e),
            Ok(q) => exists|reply: ApiReply| fetched(fetch, q, reply) && unit_view(r) == spec_set_from_reply(reply, prefix@),
        },
{
    let q = match set_hosts_request(cred, hosts, prefix) {
        Err(e) => {
            return Err(e);
        },
        Ok(q) => q,
    };
    let reply = fetch(&q);
    let ghost rv = reply;
    assert(fetched(fetch, pair_views(q@), rv));
    let r = set_outcome_from_reply(reply, prefix);
    assert(fetched(fetch, pair_views(q@), rv) && unit_view(r) == spec_set_from_reply(rv, prefix@));
    r
}

/// setHosts with the hook's own prefix.
pub fn set_hosts(cred: &Credentials, hosts: &Hosts, fetch: impl FnOnce(&Vec<(String, String)>) -> ApiReply) -> (r: Result<(), String>)
    requires
        forall|q: &Vec<(String, String)>|
            #[trigger] call_requires(fetch, (q,))
                <==> spec_set_hosts_request(cred@, record_views(hosts.records@), hosts.email_type@, PREFIX@)
                    == Ok::<_, Seq<char>>(pair_views(q@)),
    ensures
        match spec_set_hosts_request(cred@, record_views(hosts.records@), hosts.email_type@, PREFIX@) {
            Err(e) => unit_view(r) == Err::<(), Seq<char>>(e),
            Ok(q) => exists|reply: ApiReply| fetched(fetch, q, reply) && unit_view(r) == spec_set_from_reply(reply, PREFIX@),
        },
{
    set_hosts_with_prefix(cred, hosts, PREFIX, fetch)
}

// ---------------------------------------------------------------------------
// The set / clear / wait protocol
// ---------------------------------------------------------------------------

/// One hook invocation.
#[derive(Debug, PartialEq, Eq)]
pub enum HookCommand {
    /// Publish TXT `value` at `fqdn` (replacing that name's TXT records).
    SetTxt { fqdn: String, value: String },
    /// Remove that name's TXT records.
    ClearTxt { fqdn: String },
    /// Exit 0 when TXT `value` is published at `fqdn`, else 1.
    WaitTxt { fqdn: String, value: String },
}

pub enum HookCommandView {
    SetTxt { fqdn: Seq<char>, value: Seq<char> },
    ClearTxt { fqdn: Seq<char> },
    WaitTxt { fqdn: Seq<char>, value: Seq<char> },
}

impl HookCommand {
    pub open spec fn view(&self) -> HookCommandView {
        match self {
            HookCommand::SetTxt { fqdn, value } => HookCommandView::SetTxt { fqdn: fqdn@, value: value@ },
            HookCommand::ClearTxt { fqdn } => HookCommandView::ClearTxt { fqdn: fqdn@ },
            HookCommand::WaitTxt { fqdn, value } => HookCommandView::WaitTxt { fqdn: fqdn@, value: value@ },
        }
    }
}

/// The command of the arguments after the program name.
pub open spec fn spec_hook_command(args: Seq<Seq<char>>) -> Result<HookCommandView, Seq<char>> {
    if args.len() == 0 {
        Err(spec_die(PREFIX@, "usage: set|clear|wait ..."@))
    } else if args[0] == "set"@ {
        if args.len() < 3 {
            Err(spec_die(PREFIX@, "set requires <fqdn> <txt_value>"@))
        } else {
            Ok(HookCommandView::SetTxt { fqdn: args[1], value: args[2] })
        }
    } else if args[0] == "clear"@ {
        if args.len() < 2 {
            Err(spec_die(PREFIX@, "clear requires <fqdn>"@))
        } else {
            Ok(HookCommandView::ClearTxt { fqdn: args[1] })
        }
    } else if args[0] == "wait"@ {
        if args.len() < 3 {
            Err(spec_die(PREFIX@, "wait requires <fqdn> <txt_value>"@))
        } else {
            Ok(HookCommandView::WaitTxt { fqdn: args[1], value: args[2] })
        }
    } else {
        Err(spec_die(PREFIX@, "unknown command: "@ + args[0] + " (expected set|clear|wait)"@))
    }
}

/// A record the command for `host` leaves alone: not a TXT record of `host`.
pub open spec fn keeps(r: RecordView, host: Seq<char>) -> bool {
    !(r.record_type == "TXT"@ && r.name == host)
}

/// The records without `host`'s TXT records, in order.
pub open spec fn without_txt(rs: Seq<RecordView>, host: Seq<char>) -> Seq<RecordView>
    decreases rs.len(),
{
    if rs.len() == 0 {
        seq![]
    } else if keeps(rs.last(), host) {
        without_txt(rs.drop_last(), host).push(rs.last())
    } else {
        without_txt(rs.drop_last(), host)
    }
}

/// The TXT record `set` publishes.
pub open spec fn txt_record(host: Seq<char>, value: Seq<char>, ttl: u32) -> RecordView {
    RecordView { name: host, record_type: "TXT"@, address: value, mx_pref: "10"@, ttl: dec(ttl as nat) }
}

/// `set`: `host`'s TXT records replaced by one with `value`, at the end.
pub open spec fn spec_set_txt(rs: Seq<RecordView>, host: Seq<char>, value: Seq<char>, ttl: u32) -> Seq<RecordView> {
    without_txt(rs, host).push(txt_record(host, value, ttl))
}

/// `wait` is ready: a TXT record of `host` with `value`.
pub open spec fn spec_txt_ready(rs: Seq<RecordView>, host: Seq<char>, value: Seq<char>) -> bool {
    exists|i: int| 0 <= i < rs.len() && (#[trigger] rs[i]).record_type == "TXT"@ && rs[i].name == host && rs[i].address == value
}

pub open spec fn has_control(s: Seq<char>) -> bool {
    exists|i: int| 0 <= i < s.len() && is_control(#[trigger] s[i])
}

/// Arguments of `set`: both present, no control characters.
pub open spec fn spec_check_set_args(fqdn: Seq<char>, value: Seq<char>) -> Result<(), Seq<char>> {
    if fqdn.len() == 0 {
        Err(spec_die(PREFIX@, "set: missing fqdn"@))
    } else if value.len() == 0 {
        Err(spec_die(PREFIX@, "set: missing txt_value"@))
    } else if has_control(fqdn) || has_control(value) {
        Err(spec_die(PREFIX@, "set: control characters refused"@))
    } else {
        Ok(())
    }
}

fn arg_is(a: &String, s: &str) -> (r: bool)
    ensures
        r == (a@ == s@),
{
    let v = chars_of(a.as_str());
    let w = chars_of(s);
    eq(v.as_slice(), w.as_slice())
}

/// The command of the arguments after the program name.
pub fn parse_hook_command(args: &Vec<String>) -> (r: Result<HookCommand, String>)
    ensures
        match r {
            Ok(c) => spec_hook_command(views(args@)) == Ok::<HookCommandView, Seq<char>>(c@),
            Err(e) => spec_hook_command(views(args@)) == Err::<HookCommandView, Seq<char>>(e@),
        },
{
    let ghost a = views(args@);
    if args.len() == 0 {
        return Err(die(PREFIX, "usage: set|clear|wait ..."));
    }
    assert(a[0] == args@[0]@);
    if arg_is(&args[0], "set") {
        if args.len() < 3 {
            return Err(die(PREFIX, "set requires <fqdn> <txt_value>"));
        }
        assert(a[1] == args@[1]@ && a[2] == args@[2]@);
        return Ok(HookCommand::SetTxt { fqdn: args[1].clone(), value: args[2].clone() });
    }
    if arg_is(&args[0], "clear") {
        if args.len() < 2 {
            return Err(die(PREFIX, "clear requires <fqdn>"));
        }
        assert(a[1] == args@[1]@);
        return Ok(HookCommand::ClearTxt { fqdn: args[1].clone() });
    }
    if arg_is(&args[0], "wait") {
        if args.len() < 3 {
            return Err(die(PREFIX, "wait requires <fqdn> <txt_value>"));
        }
        assert(a[1] == args@[1]@ && a[2] == args@[2]@);
        return Ok(HookCommand::WaitTxt { fqdn: args[1].clone(), value: args[2].clone() });
    }
    let h = chars_of("unknown command: ");
    let c = chars_of(args[0].as_str());
    let t = chars_of(" (expected set|clear|wait)");
    let x = concat(h.as_slice(), c.as_slice());
    let y = concat(x.as_slice(), t.as_slice());
    let ys = string_of(y.as_slice());
    Err(die(PREFIX, ys.as_str()))
}

fn has_control_exec(s: &str) -> (r: bool)
    ensures
        r == has_control(s@),
{
    let v = chars_of(s);
    any_control_exec(v.as_slice())
}

/// Arguments of `set`: both present, no control characters.
pub fn check_set_args(fqdn: &str, value: &str) -> (r: Result<(), String>)
    ensures
        unit_view(r) == spec_check_set_args(fqdn@, value@),
{
    if fqdn.is_empty() {
        return Err(die(PREFIX, "set: missing fqdn"));
    }
    if value.is_empty() {
        return Err(die(PREFIX, "set: missing txt_value"));
    }
    if has_control_exec(fqdn) || has_control_exec(value) {
        return Err(die(PREFIX, "set: control characters refused"));
    }
    Ok(())
}

/// Argument of `clear`: no control characters.
pub fn check_clear_args(fqdn: &str) -> (r: Result<(), String>)
    ensures
        r is Err <==> has_control(fqdn@),
        r matches Err(e) ==> e@ == spec_die(PREFIX@, "clear: control characters refused"@),
{
    if has_control_exec(fqdn) {
        return Err(die(PREFIX, "clear: control characters refused"));
    }
    Ok(())
}

/// A record is a TXT record of `host`.
fn is_host_txt(r: &Record, host: &str) -> (b: bool)
    ensures
        b == !keeps(r@, host@),
{
    let t = chars_of(r.record_type.as_str());
    let txt = chars_of("TXT");
    let n = chars_of(r.name.as_str());
    let h = chars_of(host);
    eq(t.as_slice(), txt.as_slice()) && eq(n.as_slice(), h.as_slice())
}

/// `clear`: the records without `host`'s TXT records, in order.
pub fn clear_txt(recs: Vec<Record>, host: &str) -> (r: Vec<Record>)
    ensures
        record_views(r@) == without_txt(record_views(recs@), host@),
{
    let ghost rs = record_views(recs@);
    let mut out: Vec<Record> = Vec::new();
    let mut rest = recs;
    let ghost mut k: int = 0;
    assert(rs.take(0) =~= Seq::<RecordView>::empty());
    assert(record_views(out@) =~= Seq::<RecordView>::empty());
    assert(record_views(rest@) =~= rs.skip(0));
    while rest.len() > 0
        invariant
            0 <= k <= rs.len(),
            record_views(rest@) == rs.skip(k),
            record_views(out@) == without_txt(rs.take(k), host@),
        decreases rest.len(),
    {
        let ghost old_rest = rest@;
        let r = rest.remove(0);
        proof {
            assert(record_views(old_rest).len() == old_rest.len());
            assert(k < rs.len());
            assert(rs.skip(k)[0] == r@);
            assert(rest@ =~= old_rest.subrange(1, old_rest.len() as int));
            assert forall|j: int| 0 <= j < rest@.len() implies #[trigger] record_views(rest@)[j] == rs.skip(k + 1)[j] by {
                assert(rest@[j] == old_rest[j + 1]);
                assert(record_views(old_rest)[j + 1] == rs.skip(k)[j + 1]);
            }
            assert(record_views(rest@) =~= rs.skip(k + 1));
            assert(rs.take(k + 1).drop_last() =~= rs.take(k));
            assert(rs.take(k + 1).last() == r@);
        }
        if !is_host_txt(&r, host) {
            let ghost before = record_views(out@);
            let ghost rv = r@;
            out.push(r);
            assert(record_views(out@) =~= before.push(rv));
        }
        proof {
            k = k + 1;
        }
    }
    assert(rs.take(k) =~= rs);
    out
}

/// `set`: `host`'s TXT records replaced by one TXT record with `value`
/// (MXPref 10, the credentials' TTL), appended at the end.
pub fn set_txt(recs: Vec<Record>, host: &str, value: &str, ttl: u32) -> (r: Vec<Record>)
    ensures
        record_views(r@) == spec_set_txt(record_views(recs@), host@, value@, ttl),
{
    let mut out = clear_txt(recs, host);
    let t = dec_exec(ttl as u64);
    let rec = Record {
        name: host.to_owned(),
        record_type: "TXT".to_owned(),
        address: value.to_owned(),
        mx_pref: "10".to_owned(),
        ttl: string_of(t.as_slice()),
    };
    let ghost before = record_views(out@);
    let ghost rv = rec@;
    out.push(rec);
    assert(record_views(out@) =~= before.push(rv));
    out
}

/// `wait`: a TXT record of `host` with `value` is published.
pub fn txt_ready(recs: &Vec<Record>, host: &str, value: &str) -> (r: bool)
    ensures
        r == spec_txt_ready(record_views(recs@), host@, value@),
{
    let ghost rs = record_views(recs@);
    let v = chars_of(value);
    let mut i: usize = 0;
    while i < recs.len()
        invariant
            i <= recs.len(),
            rs == record_views(recs@),
            v@ == value@,
            forall|j: int| 0 <= j < i ==> !((#[trigger] rs[j]).record_type == "TXT"@ && rs[j].name == host@ && rs[j].address == value@),
        decreases recs.len() - i,
    {
        let a = chars_of(recs[i].address.as_str());
        if is_host_txt(&recs[i], host) && eq(a.as_slice(), v.as_slice()) {
            assert(rs[i as int] == recs@[i as int]@);
            return true;
        }
        assert(rs[i as int] == recs@[i as int]@);
        i += 1;
    }
    false
}

/// A zone write never removes every record (the live API would wipe the
/// zone).
pub fn refuse_wipe(recs: &Vec<Record>) -> (r: Result<(), String>)
    ensures
        r is Err <==> recs@.len() == 0,
        r matches Err(e) ==> e@ == spec_die(PREFIX@, no_records_msg()),
{
    if recs.len() == 0 {
        return Err(die(PREFIX, "getHosts returned no records (refuse setHosts wipe)"));
    }
    Ok(())
}

// ---------------------------------------------------------------------------
// Laws of the protocol
// ---------------------------------------------------------------------------

proof fn lemma_without_txt_clean(rs: Seq<RecordView>, host: Seq<char>)
    ensures
        forall|i: int| 0 <= i < without_txt(rs, host).len() ==> keeps(#[trigger] without_txt(rs, host)[i], host),
        without_txt(rs, host).len() <= rs.len(),
    decreases rs.len(),
{
    if rs.len() > 0 {
        lemma_without_txt_clean(rs.drop_last(), host);
    }
}

proof fn lemma_without_txt_of_clean(rs: Seq<RecordView>, host: Seq<char>)
    requires
        forall|i: int| 0 <= i < rs.len() ==> keeps(#[trigger] rs[i], host),
    ensures
        without_txt(rs, host) == rs,
    decreases rs.len(),
{
    if rs.len() > 0 {
        assert forall|i: int| 0 <= i < rs.drop_last().len() implies keeps(#[trigger] rs.drop_last()[i], host) by {
            assert(rs.drop_last()[i] == rs[i]);
        }
        lemma_without_txt_of_clean(rs.drop_last(), host);
        assert(keeps(rs[rs.len() - 1], host));
        assert(rs.drop_last().push(rs.last()) =~= rs);
    }
}

/// After `set`, `wait` for the same name and value is ready.
pub proof fn law_set_then_wait_ready(rs: Seq<RecordView>, host: Seq<char>, value: Seq<char>, ttl: u32)
    ensures
        spec_txt_ready(spec_set_txt(rs, host, value, ttl), host, value),
{
    reveal_strlit("TXT");
    let s = spec_set_txt(rs, host, value, ttl);
    assert(s[s.len() - 1] == txt_record(host, value, ttl));
}

/// After `clear`, `wait` for that name is never ready, whatever the value.
pub proof fn law_clear_then_wait_not_ready(rs: Seq<RecordView>, host: Seq<char>, value: Seq<char>)
    ensures
        !spec_txt_ready(without_txt(rs, host), host, value),
{
    lemma_without_txt_clean(rs, host);
}

/// `set` keeps every other record, in order, and adds exactly one.
pub proof fn law_set_keeps_other_records(rs: Seq<RecordView>, host: Seq<char>, value: Seq<char>, ttl: u32)
    ensures
        spec_set_txt(rs, host, value, ttl).drop_last() == without_txt(rs, host),
        spec_set_txt(rs, host, value, ttl).len() >= 1,
        forall|i: int| 0 <= i < rs.len() && keeps(rs[i], host) ==> spec_set_txt(rs, host, value, ttl).contains(#[trigger] rs[i]),
{
    assert(spec_set_txt(rs, host, value, ttl).drop_last() =~= without_txt(rs, host));
    assert forall|i: int| 0 <= i < rs.len() && keeps(rs[i], host) implies spec_set_txt(rs, host, value, ttl).contains(#[trigger] rs[i]) by {
        lemma_without_txt_keeps(rs, host, i);
        let j = choose|j: int| 0 <= j < without_txt(rs, host).len() && without_txt(rs, host)[j] == rs[i];
        assert(spec_set_txt(rs, host, value, ttl)[j] == rs[i]);
    }
}

proof fn lemma_without_txt_keeps(rs: Seq<RecordView>, host: Seq<char>, i: int)
    requires
        0 <= i < rs.len(),
        keeps(rs[i], host),
    ensures
        exists|j: int| 0 <= j < without_txt(rs, host).len() && without_txt(rs, host)[j] == rs[i],
    decreases rs.len(),
{
    let w = without_txt(rs, host);
    let wd = without_txt(rs.drop_last(), host);
    if i == rs.len() - 1 {
        assert(rs.last() == rs[i]);
        assert(w == wd.push(rs.last()));
        assert(w[wd.len() as int] == rs[i]);
    } else {
        assert(rs.drop_last()[i] == rs[i]);
        lemma_without_txt_keeps(rs.drop_last(), host, i);
        let j = choose|j: int| 0 <= j < wd.len() && wd[j] == rs[i];
        if keeps(rs.last(), host) {
            assert(w == wd.push(rs.last()));
            assert(w[j] == rs[i]);
        } else {
            assert(w == wd);
        }
    }
}

/// Setting the same value twice leaves the zone as setting it once.
pub proof fn law_set_idempotent(rs: Seq<RecordView>, host: Seq<char>, value: Seq<char>, ttl: u32)
    ensures
        spec_set_txt(spec_set_txt(rs, host, value, ttl), host, value, ttl) == spec_set_txt(rs, host, value, ttl),
{
    reveal_strlit("TXT");
    let w = without_txt(rs, host);
    let s = w.push(txt_record(host, value, ttl));
    lemma_without_txt_clean(rs, host);
    lemma_without_txt_of_clean(w, host);
    assert(s.drop_last() =~= w);
    assert(!keeps(s.last(), host));
    assert(without_txt(s, host) == without_txt(w, host));
}

/// `clear` after `set` leaves the zone as `clear` alone.
pub proof fn law_clear_after_set(rs: Seq<RecordView>, host: Seq<char>, value: Seq<char>, ttl: u32)
    ensures
        without_txt(spec_set_txt(rs, host, value, ttl), host) == without_txt(rs, host),
{
    reveal_strlit("TXT");
    let w = without_txt(rs, host);
    let s = w.push(txt_record(host, value, ttl));
    lemma_without_txt_clean(rs, host);
    lemma_without_txt_of_clean(w, host);
    assert(s.drop_last() =~= w);
    assert(!keeps(s.last(), host));
}


proof fn lemma_without_txt_round_trips(rs: Seq<RecordView>, host: Seq<char>)
    requires
        forall|i: int| 0 <= i < rs.len() ==> record_round_trips(#[trigger] rs[i]),
    ensures
        forall|j: int| 0 <= j < without_txt(rs, host).len() ==> record_round_trips(#[trigger] without_txt(rs, host)[j]),
    decreases rs.len(),
{
    if rs.len() > 0 {
        let d = rs.drop_last();
        assert forall|i: int| 0 <= i < d.len() implies record_round_trips(#[trigger] d[i]) by {
            assert(d[i] == rs[i]);
        }
        lemma_without_txt_round_trips(d, host);
        assert(record_round_trips(rs[rs.len() - 1]));
        let w = without_txt(rs, host);
        let wd = without_txt(d, host);
        assert forall|j: int| 0 <= j < w.len() implies record_round_trips(#[trigger] w[j]) by {
            if keeps(rs.last(), host) {
                if j < wd.len() {
                    assert(w[j] == wd[j]);
                } else {
                    assert(w[j] == rs.last());
                }
            } else {
                assert(w[j] == wd[j]);
            }
        }
    }
}

/// The mock zone file: after `set` is written out and the file read back,
/// `wait` for that name and value is ready (for a zone, a name and a value
/// that fit the file format).
pub proof fn law_zone_file_set_then_ready(rs: Seq<RecordView>, host: Seq<char>, value: Seq<char>, ttl: u32)
    requires
        forall|i: int| 0 <= i < rs.len() ==> record_round_trips(#[trigger] rs[i]),
        host.len() > 0,
        host[0] != '#',
        !host.contains('|'),
        !host.contains('\n'),
        !value.contains('|'),
        !value.contains('\n'),
    ensures
        spec_txt_ready(spec_parse_zone(spec_render_zone(spec_set_txt(rs, host, value, ttl))), host, value),
{
    reveal_strlit("TXT");
    reveal_strlit("10");
    let t = txt_record(host, value, ttl);
    lemma_dec_digits(ttl as nat);
    let d = dec(ttl as nat);
    assert(!d.contains('|')) by {
        if d.contains('|') {
            let k = choose|k: int| 0 <= k < d.len() && d[k] == '|';
            assert(is_ascii_digit(d[k]));
        }
    }
    assert(!d.contains('\n')) by {
        if d.contains('\n') {
            let k = choose|k: int| 0 <= k < d.len() && d[k] == '\n';
            assert(is_ascii_digit(d[k]));
        }
    }
    assert(is_ascii_digit(d[d.len() - 1]));
    assert(!"TXT"@.contains('|') && !"TXT"@.contains('\n'));
    assert(!"10"@.contains('|') && !"10"@.contains('\n'));
    assert(record_round_trips(t));
    lemma_without_txt_round_trips(rs, host);
    let s = spec_set_txt(rs, host, value, ttl);
    let w = without_txt(rs, host);
    assert forall|i: int| 0 <= i < s.len() implies record_round_trips(#[trigger] s[i]) by {
        if i < w.len() {
            assert(s[i] == w[i]);
        }
    }
    law_zone_round_trip(s);
    law_set_then_wait_ready(rs, host, value, ttl);
}

/// After `set` with a new value, `wait` for any other value of that name is
/// not ready: the old challenge value is gone.
pub proof fn law_set_replaces_old_value(
    rs: Seq<RecordView>,
    host: Seq<char>,
    value: Seq<char>,
    old_value: Seq<char>,
    ttl: u32,
)
    requires
        old_value != value,
    ensures
        !spec_txt_ready(spec_set_txt(rs, host, value, ttl), host, old_value),
{
    lemma_without_txt_clean(rs, host);
    let s = spec_set_txt(rs, host, value, ttl);
    let w = without_txt(rs, host);
    assert forall|i: int| 0 <= i < s.len() implies !((#[trigger] s[i]).record_type == "TXT"@ && s[i].name == host
        && s[i].address == old_value) by {
        if i < w.len() {
            assert(s[i] == w[i]);
            assert(keeps(w[i], host));
        }
    }
}

/// The text of a refusal read from an API reply, by the reply's markers
/// (ASCII case ignored).
pub open spec fn api_error_marked(xml: Seq<char>) -> bool {
    let low = lower(xml);
    contains(low, "invalid request ip"@) || spec_xml_attr(xml, "Status"@) == Some("ERROR"@) || contains(
        low,
        "status=\"error\""@,
    ) || contains(low, "status='error'"@)
}

/// One of the fixed refusals, each followed by the reply's all-digit
/// `Number` note (or nothing).
pub open spec fn fixed_api_refusal(e: Seq<char>, xml: Seq<char>, prefix: Seq<char>) -> bool {
    let n = number_note(xml);
    ||| e == spec_die(prefix, blocked_ip_msg() + n)
    ||| e == spec_die(prefix, "Namecheap API: zone is not on Namecheap hosted DNS"@ + n)
    ||| e == spec_die(prefix, "Namecheap API: domain not found"@ + n)
    ||| e == spec_die(prefix, "Namecheap API: credentials rejected"@ + n)
    ||| e == spec_die(prefix, "Namecheap API error"@ + n + " (body not logged; check ClientIp and zone)"@)
}

/// An API reply is a refusal exactly when it carries an error marker; an
/// `invalid request ip` reply is the BLOCKED ClientIp refusal; and a
/// refusal's text is one of the fixed texts, holding nothing of the body but
/// an all-digit `Number` value.
pub proof fn law_api_error_text_is_fixed(xml: Seq<char>, prefix: Seq<char>)
    ensures
        spec_api_xml_error(xml, prefix) is Some <==> api_error_marked(xml),
        contains(lower(xml), "invalid request ip"@) ==> spec_api_xml_error(xml, prefix) == Some(
            spec_die(prefix, blocked_ip_msg() + number_note(xml)),
        ),
        spec_api_xml_error(xml, prefix) matches Some(e) ==> fixed_api_refusal(e, xml, prefix),
        number_note(xml).len() == 0 || (number_note(xml).take(8) == " Number="@ && all_digits(number_note(xml).skip(8))),
{
    let num = unwrap_or_empty(spec_xml_attr(xml, "Number"@));
    if num.len() > 0 && all_digits(num) {
        reveal_strlit(" Number=");
        assert((" Number="@ + num).take(8) =~= " Number="@);
        assert((" Number="@ + num).skip(8) =~= num);
    }
}

/// Every record of an accepted getHosts reply has a name, a type, an MX
/// preference (`10` when the reply gave none) and a TTL (`1800` when it gave
/// none), and there is at least one: an empty zone is refused, so it can
/// never be written back as a wipe.
pub proof fn law_get_hosts_records_complete(xml: Seq<char>, prefix: Seq<char>)
    ensures
        spec_parse_get_hosts(xml, prefix) matches Ok((recs, _)) ==> {
            &&& recs.len() > 0
            &&& forall|i: int| 0 <= i < recs.len() ==> {
                &&& (#[trigger] recs[i]).name.len() > 0
                &&& recs[i].record_type.len() > 0
                &&& recs[i].mx_pref.len() > 0
                &&& recs[i].ttl.len() > 0
            }
        },
        spec_api_xml_error(xml, prefix) is None && reply_ok(xml) && host_records(spec_xml_tags(xml, "host"@)).len() == 0
            ==> spec_parse_get_hosts(xml, prefix) == Err::<(Seq<RecordView>, Seq<char>), Seq<char>>(
            spec_die(prefix, no_records_msg()),
        ),
{
    lemma_host_records_complete(spec_xml_tags(xml, "host"@));
}

proof fn lemma_host_records_complete(tags: Seq<Seq<char>>)
    ensures
        forall|i: int| 0 <= i < host_records(tags).len() ==> {
            &&& (#[trigger] host_records(tags)[i]).name.len() > 0
            &&& host_records(tags)[i].record_type.len() > 0
            &&& host_records(tags)[i].mx_pref.len() > 0
            &&& host_records(tags)[i].ttl.len() > 0
        },
    decreases tags.len(),
{
    reveal_strlit("10");
    reveal_strlit("1800");
    if tags.len() > 0 {
        let prev = host_records(tags.drop_last());
        lemma_host_records_complete(tags.drop_last());
        match spec_host_record(tags.last()) {
            Some(r) => {
                assert(host_records(tags) == prev.push(r));
                assert forall|i: int| 0 <= i < host_records(tags).len() implies {
                    &&& (#[trigger] host_records(tags)[i]).name.len() > 0
                    &&& host_records(tags)[i].record_type.len() > 0
                    &&& host_records(tags)[i].mx_pref.len() > 0
                    &&& host_records(tags)[i].ttl.len() > 0
                } by {
                    if i < prev.len() {
                        assert(host_records(tags)[i] == prev[i]);
                    }
                }
            },
            None => {},
        }
    }
}

/// A hook session on one name: `set v1`, then `set v2` with another value,
/// leaves exactly one TXT record of that name, holding `v2`, so `wait v2`
/// is ready and `wait v1` is not; every record that is not a TXT record of
/// that name survives both, in order; and a following `clear` leaves no TXT
/// record of that name while keeping the same others.
pub proof fn law_hook_session(
    rs: Seq<RecordView>,
    host: Seq<char>,
    v1: Seq<char>,
    v2: Seq<char>,
    ttl: u32,
)
    requires
        v1 != v2,
    ensures
        ({
            let s1 = spec_set_txt(rs, host, v1, ttl);
            let s2 = spec_set_txt(s1, host, v2, ttl);
            let s3 = without_txt(s2, host);
            &&& spec_txt_ready(s2, host, v2)
            &&& !spec_txt_ready(s2, host, v1)
            &&& forall|i: int|
                0 <= i < s2.len() && (#[trigger] s2[i]).record_type == "TXT"@ && s2[i].name == host ==> i == s2.len() - 1
            &&& s2.drop_last() == without_txt(rs, host)
            &&& s3 == without_txt(rs, host)
            &&& !spec_txt_ready(s3, host, v1) && !spec_txt_ready(s3, host, v2)
        }),
{
    let s1 = spec_set_txt(rs, host, v1, ttl);
    let s2 = spec_set_txt(s1, host, v2, ttl);
    law_set_then_wait_ready(s1, host, v2, ttl);
    law_set_replaces_old_value(s1, host, v2, v1, ttl);
    lemma_without_txt_clean(s1, host);
    let w = without_txt(s1, host);
    assert forall|i: int|
        0 <= i < s2.len() && (#[trigger] s2[i]).record_type == "TXT"@ && s2[i].name == host implies i == s2.len() - 1 by {
        if i < w.len() {
            assert(s2[i] == w[i]);
            assert(keeps(w[i], host));
        }
    }
    law_clear_after_set(s1, host, v2, ttl);
    law_clear_after_set(rs, host, v1, ttl);
    law_set_keeps_other_records(s1, host, v2, ttl);
    law_clear_then_wait_not_ready(s2, host, v1);
    law_clear_then_wait_not_ready(s2, host, v2);
}

proof fn lemma_replace_keeps(s: Seq<char>, from: Seq<char>, to: Seq<char>)
    requires
        from.len() > 0,
        to.len() > 0,
        forall|i: int| 0 <= i < replace_str(s, from, to).len() ==> replace_str(s, from, to)[i] != to[0],
    ensures
        replace_str(s, from, to) == s,
    decreases s.len(),
{
    if s.len() < from.len() {
    } else if s.take(from.len() as int) == from {
        let r = replace_str(s, from, to);
        assert(r[0] == to[0]);
    } else {
        let r1 = replace_str(s.drop_first(), from, to);
        let r = replace_str(s, from, to);
        assert(r == seq![s[0]] + r1);
        assert forall|i: int| 0 <= i < r1.len() implies r1[i] != to[0] by {
            assert(r[i + 1] == r1[i]);
        }
        lemma_replace_keeps(s.drop_first(), from, to);
        assert(r =~= s);
    }
}

/// Unescaping changes nothing in a value free of the five replacement chars.
proof fn lemma_unescape_plain(raw: Seq<char>, v: Seq<char>)
    requires
        spec_xml_unescape(raw) == v,
        forall|i: int| 0 <= i < v.len() ==> v[i] != '"' && v[i] != '\'' && v[i] != '<' && v[i] != '>' && v[i] != '&',
    ensures
        raw == v,
{
    reveal_strlit("&quot;");
    reveal_strlit("&apos;");
    reveal_strlit("&lt;");
    reveal_strlit("&gt;");
    reveal_strlit("&amp;");
    reveal_strlit("\"");
    reveal_strlit("'");
    reveal_strlit("<");
    reveal_strlit(">");
    reveal_strlit("&");
    let u1 = replace_str(raw, "&quot;"@, "\""@);
    let u2 = replace_str(u1, "&apos;"@, "'"@);
    let u3 = replace_str(u2, "&lt;"@, "<"@);
    let u4 = replace_str(u3, "&gt;"@, ">"@);
    lemma_replace_keeps(u4, "&amp;"@, "&"@);
    lemma_replace_keeps(u3, "&gt;"@, ">"@);
    lemma_replace_keeps(u2, "&lt;"@, "<"@);
    lemma_replace_keeps(u1, "&apos;"@, "'"@);
    lemma_replace_keeps(raw, "&quot;"@, "\""@);
}

proof fn lemma_match_contains(h: Seq<char>, n: Seq<char>, i: int)
    requires
        match_at(h, n, i),
    ensures
        contains(h, n),
{
    lemma_find_first(h, n);
}

proof fn lemma_contains_suffix(h: Seq<char>, a: Seq<char>, k: int)
    requires
        contains(h, a),
        0 <= k <= a.len(),
    ensures
        contains(h, a.skip(k)),
{
    lemma_find_first(h, a);
    let i = find(h, a)->Some_0;
    let b = a.skip(k);
    assert(h.subrange(i + k, i + k + b.len()) =~= b) by {
        assert forall|j: int| 0 <= j < b.len() implies h.subrange(i + k, i + k + b.len())[j] == b[j] by {
            assert(h.subrange(i, i + a.len())[k + j] == a[k + j]);
        }
    }
    lemma_match_contains(h, b, i + k);
}

/// A value `ERROR` read from pattern `m` lies in the lower-cased text as
/// the lower-cased pattern, `error` and the closing quote.
#[verifier::spinoff_prover]
#[verifier::rlimit(60)]
proof fn lemma_attr_error(xml: Seq<char>, pats: Seq<Seq<char>>, k: int)
    requires
        attr_from(xml, pats, k) == Some("ERROR"@),
        forall|m: int| 0 <= m < pats.len() ==> (#[trigger] pats[m]).len() > 0 && !('A' <= pats[m].last() <= 'Z'),
    ensures
        exists|m: int|
            k <= m < pats.len() && contains(lower(xml), #[trigger] lower(pats[m]) + "error"@ + seq![pats[m].last()]),
    decreases pats.len() - k,
{
    reveal_strlit("ERROR");
    reveal_strlit("error");
    if 0 <= k < pats.len() {
        let p = pats[k];
        match spec_find_ci(xml, p) {
            None => lemma_attr_error(xml, pats, k + 1),
            Some(idx) => {
                let low = lower(xml);
                let lp = lower(p);
                lemma_find_first(low, lp);
                let rest = xml.skip(idx + p.len());
                let end = find_char(rest, p.last())->Some_0;
                lemma_find_char(rest, p.last());
                lemma_unescape_plain(rest.take(end), "ERROR"@);
                assert(end == 5);
                let big = lp + "error"@ + seq![p.last()];
                assert(low.len() == xml.len());
                assert(idx + big.len() <= low.len());
                assert(low.subrange(idx, idx + big.len()) =~= big) by {
                    assert forall|j: int| 0 <= j < big.len() implies low.subrange(idx, idx + big.len())[j] == big[j] by {
                        assert(low.subrange(idx, idx + big.len())[j] == low[idx + j]);
                        assert(low[idx + j] == lower_char(xml[idx + j]));
                        if j < lp.len() {
                            assert(low.subrange(idx, idx + lp.len())[j] == lp[j]);
                            assert(big[j] == lp[j]);
                        } else if j < lp.len() + 5 {
                            let t = j - lp.len();
                            assert(rest.take(end)[t] == "ERROR"@[t]);
                            assert(xml[idx + j] == rest[t]);
                            assert(big[j] == "error"@[t]);
                            assert(lower_char('E') == 'e');
                            assert(lower_char('R') == 'r');
                            assert(lower_char('O') == 'o');
                        } else {
                            assert(xml[idx + j] == rest[5]);
                            assert(big[j] == p.last());
                        }
                    }
                }
                assert(big[big.len() - 1] == p.last());
                lemma_match_contains(low, big, idx);
            },
        }
    }
}

#[verifier::spinoff_prover]
#[verifier::rlimit(60)]
proof fn lemma_status_error_shows(xml: Seq<char>)
    requires
        spec_xml_attr(xml, "Status"@) == Some("ERROR"@),
    ensures
        contains(lower(xml), "status=\"error\""@) || contains(lower(xml), "status='error'"@),
{
    let pats = attr_patterns("Status"@);
    reveal_strlit("Status");
    reveal_strlit("=\"");
    reveal_strlit("='");
    reveal_strlit(" ");
    reveal_strlit("error");
    reveal_strlit("status=\"error\"");
    reveal_strlit("status='error'");
    lemma_attr_error(xml, pats, 0);
    let m = choose|m: int|
        0 <= m < pats.len() && contains(lower(xml), #[trigger] lower(pats[m]) + "error"@ + seq![pats[m].last()]);
    let big = lower(pats[m]) + "error"@ + seq![pats[m].last()];
    if m == 0 {
        assert(big =~= "status=\"error\""@);
    } else if m == 1 {
        assert(big =~= "status='error'"@);
    } else if m == 2 {
        lemma_contains_suffix(lower(xml), big, 1);
        assert(big.skip(1) =~= "status=\"error\""@);
    } else {
        lemma_contains_suffix(lower(xml), big, 1);
        assert(big.skip(1) =~= "status='error'"@);
    }
}

/// The refusal markers of an API reply are its lower-cased text alone: a
/// `Status` attribute of `ERROR` always shows as `status="error"` or
/// `status='error'` in the lower-cased reply.
pub proof fn law_api_error_markers(xml: Seq<char>, prefix: Seq<char>)
    ensures
        spec_api_xml_error(xml, prefix) is Some <==> ({
            let low = lower(xml);
            contains(low, "invalid request ip"@) || contains(low, "status=\"error\""@) || contains(
                low,
                "status='error'"@,
            )
        }),
{
    if spec_xml_attr(xml, "Status"@) == Some("ERROR"@) {
        lemma_status_error_shows(xml);
    }
}

proof fn lemma_without_txt_members(rs: Seq<RecordView>, host: Seq<char>)
    ensures
        forall|i: int|
            0 <= i < rs.len() && ((#[trigger] rs[i]).name != host || rs[i].record_type != "TXT"@) ==> without_txt(
                rs,
                host,
            ).contains(rs[i]),
        forall|i: int|
            0 <= i < without_txt(rs, host).len() ==> rs.contains(#[trigger] without_txt(rs, host)[i]) && !(
            without_txt(rs, host)[i].name == host && without_txt(rs, host)[i].record_type == "TXT"@),
    decreases rs.len(),
{
    if rs.len() > 0 {
        let d = rs.drop_last();
        lemma_without_txt_members(d, host);
        let wd = without_txt(d, host);
        let w = without_txt(rs, host);
        let r = rs.last();
        if r.name != host || r.record_type != "TXT"@ {
            assert(w == wd.push(r));
            assert(w[wd.len() as int] == r);
        } else {
            assert(w == wd);
        }
        assert forall|i: int|
            0 <= i < rs.len() && ((#[trigger] rs[i]).name != host || rs[i].record_type != "TXT"@) implies w.contains(
            rs[i],
        ) by {
            if i < d.len() {
                assert(d[i] == rs[i]);
                let j = choose|j: int| 0 <= j < wd.len() && wd[j] == d[i];
                assert(w[j] == wd[j]);
            }
        }
        assert forall|i: int| 0 <= i < w.len() implies rs.contains(#[trigger] w[i]) && !(w[i].name == host
            && w[i].record_type == "TXT"@) by {
            if i < wd.len() {
                assert(w[i] == wd[i]);
                let j = choose|j: int| 0 <= j < d.len() && d[j] == wd[i];
                assert(rs[j] == d[j]);
            } else {
                assert(rs[rs.len() - 1] == w[i]);
            }
        }
    }
}

proof fn lemma_without_txt_filter(rs: Seq<RecordView>, host: Seq<char>)
    ensures
        without_txt(rs, host) == rs.filter(|r: RecordView| !(r.name == host && r.record_type == "TXT"@)),
    decreases rs.len(),
{
    reveal(Seq::filter);
    if rs.len() > 0 {
        lemma_without_txt_filter(rs.drop_last(), host);
    }
}

/// `set` and `clear` touch only the TXT records of the challenge name:
/// every record of another name (TXT records such as the apex SPF record
/// included) and every non-TXT record of that name is kept; every record
/// they keep came from the zone, in the zone's order; after `clear` no TXT
/// record of the name is left, and after `set` the only TXT record of the
/// name is the one set (last, with the value, MX preference 10 and the TTL).
pub proof fn law_txt_commands_touch_only_challenge_txt(
    rs: Seq<RecordView>,
    host: Seq<char>,
    value: Seq<char>,
    ttl: u32,
)
    ensures
        forall|i: int|
            0 <= i < rs.len() && ((#[trigger] rs[i]).name != host || rs[i].record_type != "TXT"@) ==> without_txt(
                rs,
                host,
            ).contains(rs[i]) && spec_set_txt(rs, host, value, ttl).contains(rs[i]),
        forall|i: int|
            0 <= i < without_txt(rs, host).len() ==> rs.contains(#[trigger] without_txt(rs, host)[i]) && !(
            without_txt(rs, host)[i].name == host && without_txt(rs, host)[i].record_type == "TXT"@),
        forall|i: int|
            0 <= i < spec_set_txt(rs, host, value, ttl).len() && (#[trigger] spec_set_txt(rs, host, value, ttl)[i]).name
                == host && spec_set_txt(rs, host, value, ttl)[i].record_type == "TXT"@ ==> i == spec_set_txt(
                rs,
                host,
                value,
                ttl,
            ).len() - 1 && spec_set_txt(rs, host, value, ttl)[i].address == value,
        spec_set_txt(rs, host, value, ttl).len() == without_txt(rs, host).len() + 1,
        without_txt(rs, host) == rs.filter(|r: RecordView| !(r.name == host && r.record_type == "TXT"@)),
        spec_set_txt(rs, host, value, ttl).drop_last() == rs.filter(
            |r: RecordView| !(r.name == host && r.record_type == "TXT"@),
        ),
        ({
            let t = spec_set_txt(rs, host, value, ttl).last();
            t.name == host && t.record_type == "TXT"@ && t.address == value && t.mx_pref == "10"@ && t.ttl == dec(
                ttl as nat,
            )
        }),
{
    lemma_without_txt_filter(rs, host);
    lemma_without_txt_members(rs, host);
    let w = without_txt(rs, host);
    let s = spec_set_txt(rs, host, value, ttl);
    reveal_strlit("TXT");
    assert forall|i: int|
        0 <= i < rs.len() && ((#[trigger] rs[i]).name != host || rs[i].record_type != "TXT"@) implies s.contains(
        rs[i],
    ) by {
        let j = choose|j: int| 0 <= j < w.len() && w[j] == rs[i];
        assert(s[j] == w[j]);
    }
    assert forall|i: int|
        0 <= i < s.len() && (#[trigger] s[i]).name == host && s[i].record_type == "TXT"@ implies i == s.len() - 1
            && s[i].address == value by {
        if i < w.len() {
            assert(s[i] == w[i]);
        }
    }
}

/// What a host tag of a getHosts reply becomes: a record exactly when its
/// `Name` and `Type` attributes are non-empty, holding the tag's name, type
/// and address, its `MXPref` (10 only when that attribute is absent or
/// empty) and its `TTL` (1800 only when absent or empty), so setHosts
/// writes every record back as the reply gave it.
pub proof fn law_host_tag_record(tag: Seq<char>)
    ensures
        ({
            let name = unwrap_or_empty(spec_xml_attr(tag, "Name"@));
            let typ = unwrap_or_empty(spec_xml_attr(tag, "Type"@));
            let mx = unwrap_or_empty(spec_xml_attr(tag, "MXPref"@));
            let ttl = unwrap_or_empty(spec_xml_attr(tag, "TTL"@));
            &&& spec_host_record(tag) is Some <==> (name.len() > 0 && typ.len() > 0)
            &&& spec_host_record(tag) matches Some(r) ==> {
                &&& r.name == name
                &&& r.record_type == typ
                &&& r.address == unwrap_or_empty(spec_xml_attr(tag, "Address"@))
                &&& mx.len() > 0 ==> r.mx_pref == mx
                &&& mx.len() == 0 ==> r.mx_pref == "10"@
                &&& ttl.len() > 0 ==> r.ttl == ttl
                &&& ttl.len() == 0 ==> r.ttl == "1800"@
            }
        }),
{
}

proof fn lemma_host_records_tags(tags: Seq<Seq<char>>)
    ensures
        forall|i: int|
            #![trigger host_records(tags)[i]]
            0 <= i < host_records(tags).len() ==> exists|j: int|
                0 <= j < tags.len() && spec_host_record(#[trigger] tags[j]) == Some(host_records(tags)[i]),
        forall|j: int|
            0 <= j < tags.len() && (#[trigger] spec_host_record(tags[j])) is Some ==> host_records(tags).contains(
                spec_host_record(tags[j])->Some_0,
            ),
    decreases tags.len(),
{
    if tags.len() > 0 {
        let d = tags.drop_last();
        lemma_host_records_tags(d);
        let hd = host_records(d);
        let h = host_records(tags);
        match spec_host_record(tags.last()) {
            Some(r) => {
                assert(h == hd.push(r));
                assert(h[hd.len() as int] == r);
            },
            None => {
                assert(h == hd);
            },
        }
        assert forall|i: int| #![trigger h[i]] 0 <= i < h.len() implies exists|j: int|
            0 <= j < tags.len() && spec_host_record(#[trigger] tags[j]) == Some(h[i]) by {
            if i < hd.len() {
                assert(h[i] == hd[i]);
                let j = choose|j: int| 0 <= j < d.len() && spec_host_record(#[trigger] d[j]) == Some(hd[i]);
                assert(tags[j] == d[j]);
            } else {
                assert(tags[tags.len() - 1] == tags.last());
            }
        }
        assert forall|j: int| 0 <= j < tags.len() && (#[trigger] spec_host_record(tags[j])) is Some implies h.contains(
            spec_host_record(tags[j])->Some_0,
        ) by {
            if j < d.len() {
                assert(d[j] == tags[j]);
                let k = choose|k: int| 0 <= k < hd.len() && hd[k] == spec_host_record(d[j])->Some_0;
                assert(h[k] == hd[k]);
            } else {
                assert(tags[j] == tags.last());
            }
        }
    }
}

/// An accepted getHosts reply gives exactly the records of its host tags:
/// each record is what one host tag says (its MX preference and TTL as the
/// tag gives them, defaults only when absent), and every host tag with a
/// name and a type is among the records.
pub proof fn law_get_hosts_records_from_tags(xml: Seq<char>, prefix: Seq<char>)
    ensures
        spec_parse_get_hosts(xml, prefix) matches Ok((recs, _)) ==> {
            let tags = spec_xml_tags(xml, "host"@);
            &&& forall|i: int|
                #![trigger recs[i]]
                0 <= i < recs.len() ==> exists|j: int|
                    0 <= j < tags.len() && spec_host_record(#[trigger] tags[j]) == Some(recs[i])
            &&& forall|j: int|
                0 <= j < tags.len() && (#[trigger] spec_host_record(tags[j])) is Some ==> recs.contains(
                    spec_host_record(tags[j])->Some_0,
                )
        },
{
    lemma_host_records_tags(spec_xml_tags(xml, "host"@));
}

} // verus!
