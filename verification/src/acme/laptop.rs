//! Laptop Let's Encrypt renew (DNS-01) planning. Host ACME stays off.
//!
//! This module reads the command line, checks the Namecheap env and host
//! profile texts and file facts, fixes the domain list, and plans the
//! steps; the caller runs the processes and touches the files.

use vstd::prelude::*;
use crate::text::{is_ws, trim_end, trim_start, chars_of, own, concat, contains, contains_exec, dec, dec_exec, ends_with, ends_with_exec, eq, extend, find_char, find_char_exec, join, join_exec, lower, lower_vec, opt_view, parse_unsigned, parse_unsigned_exec, replace_char, replace_char_exec, slice_of, split_char, split_char_exec, starts_with, starts_with_exec, string_of, trim, trim_end_char, trim_end_char_vec, trim_str, trim_vec, unit_view, views};
use crate::tls::{LinkMeta};
use crate::acme::cred::{die, oct, oct_exec, spec_die, strip_quotes};

verus! {

/// Error prefix of the renew tool.
pub const LAPTOP_PREFIX: &'static str = "laptop-renew-cert";

pub const PRODUCTION: &'static str = "https://acme-v02.api.letsencrypt.org/directory";
pub const STAGING: &'static str = "https://acme-staging-v02.api.letsencrypt.org/directory";

/// Domains when neither `--domains` nor a host profile gives any.
pub const DEFAULT_DOMAINS: &'static str = "services.surmount.systems,mail.surmount.systems,surmount.systems,www.surmount.systems,mta-sts.surmount.systems";

/// Intended production leaf (web + mail), in order.
pub open spec fn intended_leaf() -> Seq<Seq<char>> {
    seq![
        "surmount.systems"@,
        "www.surmount.systems"@,
        "mail.surmount.systems"@,
        "services.surmount.systems"@,
        "mta-sts.surmount.systems"@,
        "baxterartworks.com"@,
        "www.baxterartworks.com"@,
        "btcfur.com"@,
        "www.btcfur.com"@,
        "exophiles.org"@,
        "www.exophiles.org"@,
        "iantuckerstudios.com"@,
        "www.iantuckerstudios.com"@,
        "nostrfurs.com"@,
        "www.nostrfurs.com"@,
        "yiffa.app"@,
        "www.yiffa.app"@,
        "cryptoquick.com"@,
        "www.cryptoquick.com"@,
        "mail.cryptoquick.com"@,
    ]
}

/// Zones served by Cloudflare, never on this leaf.
pub open spec fn cloudflare_extra_zones() -> Seq<Seq<char>> {
    seq!["btcdragonlord.com"@, "www.btcdragonlord.com"@, "btckitties.com"@, "www.btckitties.com"@]
}

/// `"laptop-renew-cert: BLOCKED: {msg}"`.
pub open spec fn spec_blocked(msg: Seq<char>) -> Seq<char> {
    spec_die(LAPTOP_PREFIX@, "BLOCKED: "@ + msg)
}

/// Trimmed, trailing dots removed, ASCII lower-case.
pub open spec fn spec_normalize_name(d: Seq<char>) -> Seq<char> {
    lower(trim_end_char(trim(d), '.'))
}

/// Normalized names of a comma list, blanks dropped, in order.
pub open spec fn names_of(parts: Seq<Seq<char>>) -> Seq<Seq<char>>
    decreases parts.len(),
{
    if parts.len() == 0 {
        seq![]
    } else if spec_normalize_name(parts.last()).len() == 0 {
        names_of(parts.drop_last())
    } else {
        names_of(parts.drop_last()).push(spec_normalize_name(parts.last()))
    }
}

pub open spec fn spec_parse_domain_list(domains: Seq<char>) -> Seq<Seq<char>> {
    names_of(split_char(domains, ','))
}

/// Outside the primary zone.
pub open spec fn is_extra_zone(d: Seq<char>) -> bool {
    d != "surmount.systems"@ && !ends_with(d, ".surmount.systems"@)
}

/// Some listed name is outside the primary zone (needs the dispatcher).
pub open spec fn spec_extra_namecheap_zones(domains: Seq<char>) -> bool {
    exists|i: int| 0 <= i < spec_parse_domain_list(domains).len() && is_extra_zone(#[trigger] spec_parse_domain_list(domains)[i])
}

/// The intended leaf, then the profile's names that are new and not
/// Cloudflare's, as a comma list.
pub open spec fn floor_from(out: Seq<Seq<char>>, profile: Seq<Seq<char>>) -> Seq<Seq<char>>
    decreases profile.len(),
{
    if profile.len() == 0 {
        out
    } else {
        let d = spec_normalize_name(profile[0]);
        if d.len() == 0 || cloudflare_extra_zones().contains(d) || out.contains(d) {
            floor_from(out, profile.drop_first())
        } else {
            floor_from(out.push(d), profile.drop_first())
        }
    }
}

pub open spec fn spec_floor_intended_leaf(profile: Seq<Seq<char>>) -> Seq<char> {
    join(floor_from(intended_leaf(), profile), ","@)
}

/// The intended names missing from `have`, in the leaf's order.
pub open spec fn missing_from(want: Seq<Seq<char>>, have: Seq<Seq<char>>) -> Seq<Seq<char>>
    decreases want.len(),
{
    if want.len() == 0 {
        seq![]
    } else if have.contains(want.last()) {
        missing_from(want.drop_last(), have)
    } else {
        missing_from(want.drop_last(), have).push(want.last())
    }
}

/// Production issue that names an intended extra zone must keep the whole
/// intended leaf.
pub open spec fn spec_refuse_dropped_intended_leaf(domains: Seq<char>) -> Result<(), Seq<char>> {
    let have = spec_parse_domain_list(domains);
    let extras = exists|i: int| 0 <= i < have.len() && intended_leaf().contains(#[trigger] have[i]) && is_extra_zone(have[i]);
    let missing = missing_from(intended_leaf(), have);
    if !extras || missing.len() == 0 {
        Ok(())
    } else {
        Err(spec_blocked("production extra-zone issue must keep the intended 20-name leaf (missing "@ + join(missing, ","@)
            + "); do not drop Namecheap static zones such as exophiles.org"@))
    }
}

/// Single-quoted for `sh`.
pub open spec fn spec_sh_quote(s: Seq<char>) -> Seq<char> {
    "'"@ + replace_char(s, '\'', "'\\''"@) + "'"@
}

/// Trimmed, without one pair of matching surrounding quotes.
pub open spec fn spec_unquote(v: Seq<char>) -> Seq<char> {
    strip_quotes(trim(v))
}

/// `str::lines`: pieces between newlines, without a last empty one.
pub open spec fn str_lines(t: Seq<char>) -> Seq<Seq<char>> {
    let p = split_char(t, '\n');
    if p.len() > 0 && p.last().len() == 0 { p.drop_last() } else { p }
}

/// First `key=value` line's value (`\r` trimmed, blank and `#` lines
/// skipped).
pub open spec fn key_in_lines(ls: Seq<Seq<char>>, key: Seq<char>) -> Option<Seq<char>>
    decreases ls.len(),
{
    if ls.len() == 0 {
        None
    } else {
        let l = trim_end_char(ls[0], '\r');
        if l.len() > 0 && l[0] != '#' && starts_with(l, key + "="@) {
            Some(l.skip(key.len() as int + 1))
        } else {
            key_in_lines(ls.drop_first(), key)
        }
    }
}

/// `SettleSeconds` (or another key) of a Namecheap env text.
pub open spec fn spec_env_file_key(text: Seq<char>, key: Seq<char>) -> Option<Seq<char>> {
    key_in_lines(str_lines(text), key)
}


// ---------------------------------------------------------------------------
// Names and lists
// ---------------------------------------------------------------------------

pub open spec fn vviews(v: Seq<Vec<char>>) -> Seq<Seq<char>> {
    v.map_values(|x: Vec<char>| x@)
}

/// `"laptop-renew-cert: BLOCKED: {msg}"`.
pub fn blocked(msg: &[char]) -> (r: String)
    ensures
        r@ == spec_blocked(msg@),
{
    let h = chars_of("BLOCKED: ");
    let m = concat(h.as_slice(), msg);
    die(LAPTOP_PREFIX, string_of(m.as_slice()).as_str())
}

/// The intended leaf names, in order.
fn leaf_names() -> (r: Vec<Vec<char>>)
    ensures
        vviews(r@) == intended_leaf(),
{
    let leaf: [&str; 20] = [
        "surmount.systems",
        "www.surmount.systems",
        "mail.surmount.systems",
        "services.surmount.systems",
        "mta-sts.surmount.systems",
        "baxterartworks.com",
        "www.baxterartworks.com",
        "btcfur.com",
        "www.btcfur.com",
        "exophiles.org",
        "www.exophiles.org",
        "iantuckerstudios.com",
        "www.iantuckerstudios.com",
        "nostrfurs.com",
        "www.nostrfurs.com",
        "yiffa.app",
        "www.yiffa.app",
        "cryptoquick.com",
        "www.cryptoquick.com",
        "mail.cryptoquick.com",
    ];
    let mut r: Vec<Vec<char>> = Vec::new();
    let mut i: usize = 0;
    while i < 20
        invariant
            i <= 20,
            leaf@.len() == 20,
            forall|j: int| 0 <= j < 20 ==> (#[trigger] leaf@[j])@ == intended_leaf()[j],
            vviews(r@) == intended_leaf().take(i as int),
        decreases 20 - i,
    {
        let ghost before = vviews(r@);
        r.push(chars_of(leaf[i]));
        assert(vviews(r@) =~= before.push(intended_leaf()[i as int]));
        assert(intended_leaf().take(i + 1) =~= intended_leaf().take(i as int).push(intended_leaf()[i as int]));
        i += 1;
    }
    assert(intended_leaf().take(20) =~= intended_leaf());
    r
}

/// `views(v).contains(x)` on char vectors.
fn vcontains(v: &Vec<Vec<char>>, x: &[char]) -> (r: bool)
    ensures
        r == vviews(v@).contains(x@),
{
    let mut i: usize = 0;
    while i < v.len()
        invariant
            i <= v.len(),
            forall|j: int| 0 <= j < i ==> vviews(v@)[j] != x@,
        decreases v.len() - i,
    {
        if eq(v[i].as_slice(), x) {
            assert(vviews(v@)[i as int] == x@);
            return true;
        }
        i += 1;
    }
    false
}

/// Trimmed, trailing dots removed, ASCII lower-case.
fn normalize_name(d: &[char]) -> (r: Vec<char>)
    ensures
        r@ == spec_normalize_name(d@),
{
    let t = trim_vec(d);
    let u = trim_end_char_vec(t.as_slice(), '.');
    lower_vec(u.as_slice())
}

/// Normalized names of a comma list, blanks dropped, in order.
fn parse_domain_list(domains: &str) -> (r: Vec<Vec<char>>)
    ensures
        vviews(r@) == spec_parse_domain_list(domains@),
{
    let dv = chars_of(domains);
    let parts = split_char_exec(dv.as_slice(), ',');
    let ghost ps = vviews(parts@);
    let mut out: Vec<Vec<char>> = Vec::new();
    let mut k: usize = 0;
    assert(ps.take(0) =~= Seq::<Seq<char>>::empty());
    assert(vviews(out@) =~= Seq::<Seq<char>>::empty());
    while k < parts.len()
        invariant
            k <= parts.len(),
            ps == vviews(parts@),
            ps == split_char(domains@, ','),
            vviews(out@) == names_of(ps.take(k as int)),
        decreases parts.len() - k,
    {
        proof {
            assert(ps.take(k + 1).drop_last() =~= ps.take(k as int));
            assert(ps.take(k + 1).last() == parts@[k as int]@);
        }
        let n = normalize_name(parts[k].as_slice());
        if n.len() > 0 {
            let ghost before = vviews(out@);
            let ghost nv = n@;
            out.push(n);
            assert(vviews(out@) =~= before.push(nv));
        }
        k += 1;
    }
    assert(ps.take(parts.len() as int) =~= ps);
    out
}

/// One of the Cloudflare zones.
fn is_cloudflare_extra(name: &[char]) -> (r: bool)
    ensures
        r == cloudflare_extra_zones().contains(name@),
{
    let zones: [&str; 4] = ["btcdragonlord.com", "www.btcdragonlord.com", "btckitties.com", "www.btckitties.com"];
    let mut i: usize = 0;
    while i < 4
        invariant
            i <= 4,
            zones@.len() == 4,
            forall|j: int| 0 <= j < 4 ==> (#[trigger] zones@[j])@ == cloudflare_extra_zones()[j],
            forall|j: int| 0 <= j < i ==> cloudflare_extra_zones()[j] != name@,
        decreases 4 - i,
    {
        let z = chars_of(zones[i]);
        if eq(z.as_slice(), name) {
            assert(cloudflare_extra_zones()[i as int] == name@);
            return true;
        }
        i += 1;
    }
    false
}

fn is_extra_zone_exec(d: &[char]) -> (r: bool)
    ensures
        r == is_extra_zone(d@),
{
    let z = chars_of("surmount.systems");
    let dz = chars_of(".surmount.systems");
    !eq(d, z.as_slice()) && !ends_with_exec(d, dz.as_slice())
}

/// Some listed name is outside the primary zone.
pub fn extra_namecheap_zones(domains: &str) -> (r: bool)
    ensures
        r == spec_extra_namecheap_zones(domains@),
{
    let names = parse_domain_list(domains);
    let ghost ns = vviews(names@);
    let mut i: usize = 0;
    while i < names.len()
        invariant
            i <= names.len(),
            ns == vviews(names@),
            ns == spec_parse_domain_list(domains@),
            forall|j: int| 0 <= j < i ==> !is_extra_zone(#[trigger] ns[j]),
        decreases names.len() - i,
    {
        if is_extra_zone_exec(names[i].as_slice()) {
            assert(is_extra_zone(ns[i as int]));
            return true;
        }
        i += 1;
    }
    false
}

/// The intended leaf, then the profile's new names (not Cloudflare's), as
/// a comma list.
pub fn floor_intended_leaf(profile_domains: &Vec<String>) -> (r: String)
    ensures
        r@ == spec_floor_intended_leaf(views(profile_domains@)),
{
    let ghost pd = views(profile_domains@);
    let mut out = leaf_names();
    let mut k: usize = 0;
    assert(pd.skip(0) =~= pd);
    while k < profile_domains.len()
        invariant
            k <= profile_domains.len(),
            pd == views(profile_domains@),
            floor_from(intended_leaf(), pd) == floor_from(vviews(out@), pd.skip(k as int)),
        decreases profile_domains.len() - k,
    {
        proof {
            assert(pd.skip(k as int)[0] == profile_domains@[k as int]@);
            assert(pd.skip(k as int).drop_first() =~= pd.skip(k + 1));
        }
        let raw = chars_of(profile_domains[k].as_str());
        let d = normalize_name(raw.as_slice());
        if !(d.len() == 0 || is_cloudflare_extra(d.as_slice()) || vcontains(&out, d.as_slice())) {
            let ghost before = vviews(out@);
            let ghost dv = d@;
            out.push(d);
            assert(vviews(out@) =~= before.push(dv));
        }
        k += 1;
    }
    assert(pd.skip(profile_domains.len() as int) =~= Seq::<Seq<char>>::empty());
    let comma = chars_of(",");
    let j = join_exec(out.as_slice(), comma.as_slice());
    string_of(j.as_slice())
}

/// Production issue naming an intended extra zone must keep the whole
/// intended leaf.
pub fn refuse_dropped_intended_leaf(domains: &str) -> (r: Result<(), String>)
    ensures
        unit_view(r) == spec_refuse_dropped_intended_leaf(domains@),
{
    let have = parse_domain_list(domains);
    let ghost hv = vviews(have@);
    let leaf = leaf_names();
    let mut extras = false;
    let mut i: usize = 0;
    while i < have.len()
        invariant
            i <= have.len(),
            hv == vviews(have@),
            vviews(leaf@) == intended_leaf(),
            extras == exists|j: int| 0 <= j < i && intended_leaf().contains(#[trigger] hv[j]) && is_extra_zone(hv[j]),
        decreases have.len() - i,
    {
        if vcontains(&leaf, have[i].as_slice()) && is_extra_zone_exec(have[i].as_slice()) {
            assert(intended_leaf().contains(hv[i as int]) && is_extra_zone(hv[i as int]));
            extras = true;
        }
        i += 1;
    }
    if !extras {
        return Ok(());
    }
    let mut missing: Vec<Vec<char>> = Vec::new();
    let mut j: usize = 0;
    assert(intended_leaf().take(0) =~= Seq::<Seq<char>>::empty());
    assert(vviews(missing@) =~= Seq::<Seq<char>>::empty());
    while j < leaf.len()
        invariant
            j <= leaf.len(),
            vviews(leaf@) == intended_leaf(),
            hv == vviews(have@),
            vviews(missing@) == missing_from(intended_leaf().take(j as int), hv),
        decreases leaf.len() - j,
    {
        proof {
            assert(intended_leaf().take(j + 1).drop_last() =~= intended_leaf().take(j as int));
            assert(intended_leaf().take(j + 1).last() == leaf@[j as int]@);
        }
        if !vcontains(&have, leaf[j].as_slice()) {
            let ghost before = vviews(missing@);
            let x = slice_of(leaf[j].as_slice(), 0, leaf[j].len());
            assert(x@ =~= leaf@[j as int]@);
            missing.push(x);
            assert(vviews(missing@) =~= before.push(leaf@[j as int]@));
        }
        j += 1;
    }
    assert(intended_leaf().take(leaf.len() as int) =~= intended_leaf());
    if missing.len() == 0 {
        return Ok(());
    }
    let comma = chars_of(",");
    let m = join_exec(missing.as_slice(), comma.as_slice());
    let h = chars_of("production extra-zone issue must keep the intended 20-name leaf (missing ");
    let t = chars_of("); do not drop Namecheap static zones such as exophiles.org");
    let a = concat(h.as_slice(), m.as_slice());
    let b = concat(a.as_slice(), t.as_slice());
    Err(blocked(b.as_slice()))
}

/// Single-quoted for `sh`.
pub fn sh_quote(s: &str) -> (r: String)
    ensures
        r@ == spec_sh_quote(s@),
{
    let v = chars_of(s);
    let rep = chars_of("'\\''");
    let body = replace_char_exec(v.as_slice(), '\'', rep.as_slice());
    let q = chars_of("'");
    let a = concat(q.as_slice(), body.as_slice());
    let b = concat(a.as_slice(), q.as_slice());
    string_of(b.as_slice())
}

/// Trimmed, without one pair of matching surrounding quotes.
pub fn unquote(v: &str) -> (r: String)
    ensures
        r@ == spec_unquote(v@),
{
    let t = trim_str(v);
    let n = t.len();
    let r = if n >= 2 && ((t[0] == '"' && t[n - 1] == '"') || (t[0] == '\'' && t[n - 1] == '\'')) {
        slice_of(t.as_slice(), 1, n - 1)
    } else {
        t
    };
    string_of(r.as_slice())
}

/// `key`'s value in a Namecheap env text (first `key=` line).
pub fn env_file_key(text: &str, key: &str) -> (r: Option<String>)
    ensures
        opt_view(r) == spec_env_file_key(text@, key@),
{
    let tv = chars_of(text);
    let parts = split_char_exec(tv.as_slice(), '\n');
    let ghost ps = vviews(parts@);
    let n: usize = if parts.len() > 0 && parts[parts.len() - 1].len() == 0 { parts.len() - 1 } else { parts.len() };
    let ghost ls = str_lines(text@);
    assert(ls =~= ps.take(n as int));
    let kv = chars_of(key);
    let eqs = chars_of("=");
    let pat = concat(kv.as_slice(), eqs.as_slice());
    proof {
        reveal_strlit("=");
    }
    let mut i: usize = 0;
    assert(ls.skip(0) =~= ls);
    while i < n
        invariant
            i <= n,
            n <= parts.len(),
            ps == vviews(parts@),
            ls == ps.take(n as int),
            ls == str_lines(text@),
            pat@ == key@ + "="@,
            pat@.len() == key@.len() + 1,
            key_in_lines(ls, key@) == key_in_lines(ls.skip(i as int), key@),
        decreases n - i,
    {
        proof {
            assert(ls.skip(i as int)[0] == parts@[i as int]@);
            assert(ls.skip(i as int).drop_first() =~= ls.skip(i + 1));
        }
        let l = trim_end_char_vec(parts[i].as_slice(), '\r');
        if l.len() > 0 && l[0] != '#' && starts_with_exec(l.as_slice(), pat.as_slice()) {
            let v = slice_of(l.as_slice(), pat.len(), l.len());
            assert(v@ =~= l@.skip(key@.len() as int + 1));
            return Some(string_of(v.as_slice()));
        }
        i += 1;
    }
    None
}


// ---------------------------------------------------------------------------
// Host profile
// ---------------------------------------------------------------------------

/// The ACME part of a host profile.
#[derive(Debug, PartialEq, Eq)]
pub struct HostProfileAcme {
    pub host_id: String,
    pub email: String,
    pub domains: Vec<String>,
}

pub struct ProfileView {
    pub host_id: Seq<char>,
    pub email: Seq<char>,
    pub domains: Seq<Seq<char>>,
}

impl HostProfileAcme {
    pub open spec fn view(&self) -> ProfileView {
        ProfileView { host_id: self.host_id@, email: self.email@, domains: views(self.domains@) }
    }
}

/// Unquoted non-empty items of `[a, "b", ...]`'s inside.
pub open spec fn list_items(parts: Seq<Seq<char>>) -> Seq<Seq<char>>
    decreases parts.len(),
{
    if parts.len() == 0 {
        seq![]
    } else if spec_unquote(parts.last()).len() == 0 {
        list_items(parts.drop_last())
    } else {
        list_items(parts.drop_last()).push(spec_unquote(parts.last()))
    }
}

/// One profile line applied to `(inside a domains list, profile so far)`.
pub open spec fn profile_line(st: (bool, ProfileView), raw: Seq<char>) -> (bool, ProfileView) {
    let line = trim_end_char(trim(raw), '\r');
    let (in_domains, p) = st;
    if line.len() == 0 || line[0] == '#' {
        st
    } else if in_domains {
        if line == "]"@ {
            (false, p)
        } else {
            let val = spec_unquote(trim(trim_end_char(line, ',')));
            if val.len() > 0 { (true, ProfileView { domains: p.domains.push(val), ..p }) } else { st }
        }
    } else {
        match split_once_char(line, '=') {
            None => st,
            Some((k, v)) => {
                let key = trim(k);
                let val = trim(v);
                if key == "acme_domains"@ {
                    if val == "["@ {
                        (true, p)
                    } else if val.len() > 0 && val[0] == '[' && val.last() == ']' {
                        (false, ProfileView { domains: p.domains + list_items(split_char(val.subrange(1, val.len() - 1), ',')), ..p })
                    } else {
                        st
                    }
                } else if key == "acme_email"@ {
                    (false, ProfileView { email: spec_unquote(val), ..p })
                } else if key == "host_id"@ {
                    (false, ProfileView { host_id: spec_unquote(val), ..p })
                } else {
                    st
                }
            },
        }
    }
}

/// `str::split_once(c)`.
pub open spec fn split_once_char(s: Seq<char>, c: char) -> Option<(Seq<char>, Seq<char>)> {
    match find_char(s, c) {
        Some(i) => Some((s.take(i), s.skip(i + 1))),
        None => None,
    }
}

pub open spec fn profile_lines(ls: Seq<Seq<char>>) -> (bool, ProfileView)
    decreases ls.len(),
{
    if ls.len() == 0 {
        (false, ProfileView { host_id: seq![], email: seq![], domains: seq![] })
    } else {
        profile_line(profile_lines(ls.drop_last()), ls.last())
    }
}

/// `host_id`, `acme_email` and `acme_domains` of a host profile text
/// (`key = value` lines; the domain list inline or one item per line).
pub open spec fn spec_parse_host_profile(text: Seq<char>) -> ProfileView {
    profile_lines(str_lines(text)).1
}

fn unquote_chars(v: &[char]) -> (r: Vec<char>)
    ensures
        r@ == spec_unquote(v@),
{
    let t = trim_vec(v);
    let n = t.len();
    if n >= 2 && ((t[0] == '"' && t[n - 1] == '"') || (t[0] == '\'' && t[n - 1] == '\'')) {
        slice_of(t.as_slice(), 1, n - 1)
    } else {
        t
    }
}

fn eq_lit(v: &[char], s: &str) -> (r: bool)
    ensures
        r == (v@ == s@),
{
    let w = chars_of(s);
    eq(v, w.as_slice())
}

/// One profile line (see [`profile_line`]).
fn profile_line_exec(in_domains: &mut bool, p: &mut HostProfileAcme, raw: &[char])
    ensures
        (*final(in_domains), final(p)@) == profile_line((*old(in_domains), old(p)@), raw@),
{
    let t = trim_vec(raw);
    let line = trim_end_char_vec(t.as_slice(), '\r');
    if line.len() == 0 || line[0] == '#' {
        return;
    }
    if *in_domains {
        if eq_lit(line.as_slice(), "]") {
            *in_domains = false;
            return;
        }
        let a = trim_end_char_vec(line.as_slice(), ',');
        let b = trim_vec(a.as_slice());
        let val = unquote_chars(b.as_slice());
        if val.len() > 0 {
            let ghost before = views(p.domains@);
            p.domains.push(string_of(val.as_slice()));
            assert(views(p.domains@) =~= before.push(val@));
        }
        return;
    }
    let i = match find_char_exec(line.as_slice(), '=') {
        None => {
            return;
        },
        Some(i) => i,
    };
    let ln = line.len();
    let k = slice_of(line.as_slice(), 0, i);
    let v = slice_of(line.as_slice(), i + 1, ln);
    assert(k@ =~= line@.take(i as int));
    assert(v@ =~= line@.skip(i + 1));
    let key = trim_vec(k.as_slice());
    let val = trim_vec(v.as_slice());
    if eq_lit(key.as_slice(), "acme_domains") {
        let n = val.len();
        if eq_lit(val.as_slice(), "[") {
            *in_domains = true;
        } else if n > 0 && val[0] == '[' && val[n - 1] == ']' {
            let inner = slice_of(val.as_slice(), 1, n - 1);
            let parts = split_char_exec(inner.as_slice(), ',');
            let ghost ps = vviews(parts@);
            let ghost d0 = views(p.domains@);
            let mut j: usize = 0;
            assert(ps.take(0) =~= Seq::<Seq<char>>::empty());
            assert(views(p.domains@) =~= d0 + list_items(ps.take(0)));
            while j < parts.len()
                invariant
                    j <= parts.len(),
                    ps == vviews(parts@),
                    views(p.domains@) == d0 + list_items(ps.take(j as int)),
                    p.host_id == old(p).host_id,
                    p.email == old(p).email,
                decreases parts.len() - j,
            {
                proof {
                    assert(ps.take(j + 1).drop_last() =~= ps.take(j as int));
                    assert(ps.take(j + 1).last() == parts@[j as int]@);
                }
                let u = unquote_chars(parts[j].as_slice());
                if u.len() > 0 {
                    let ghost before = views(p.domains@);
                    p.domains.push(string_of(u.as_slice()));
                    assert(views(p.domains@) =~= before.push(u@));
                    assert(d0 + list_items(ps.take(j + 1)) =~= (d0 + list_items(ps.take(j as int))).push(u@));
                }
                j += 1;
            }
            assert(ps.take(parts.len() as int) =~= ps);
        }
        return;
    }
    if eq_lit(key.as_slice(), "acme_email") {
        p.email = string_of(unquote_chars(val.as_slice()).as_slice());
        return;
    }
    if eq_lit(key.as_slice(), "host_id") {
        p.host_id = string_of(unquote_chars(val.as_slice()).as_slice());
        return;
    }
}

/// `host_id`, `acme_email` and `acme_domains` of a host profile text.
pub fn parse_host_profile(text: &str) -> (r: HostProfileAcme)
    ensures
        r@ == spec_parse_host_profile(text@),
{
    let tv = chars_of(text);
    let parts = split_char_exec(tv.as_slice(), '\n');
    let ghost ps = vviews(parts@);
    let n: usize = if parts.len() > 0 && parts[parts.len() - 1].len() == 0 { parts.len() - 1 } else { parts.len() };
    let ghost ls = str_lines(text@);
    assert(ls =~= ps.take(n as int));
    let mut p = HostProfileAcme { host_id: String::new(), email: String::new(), domains: Vec::new() };
    let mut in_domains = false;
    let mut i: usize = 0;
    assert(ls.take(0) =~= Seq::<Seq<char>>::empty());
    assert(views(p.domains@) =~= Seq::<Seq<char>>::empty());
    while i < n
        invariant
            i <= n,
            n <= parts.len(),
            ps == vviews(parts@),
            ls == ps.take(n as int),
            (in_domains, p@) == profile_lines(ls.take(i as int)),
        decreases n - i,
    {
        proof {
            assert(ls.take(i + 1).drop_last() =~= ls.take(i as int));
            assert(ls.take(i + 1).last() == parts@[i as int]@);
        }
        profile_line_exec(&mut in_domains, &mut p, parts[i].as_slice());
        i += 1;
    }
    assert(ls.take(n as int) =~= ls);
    p
}


// ---------------------------------------------------------------------------
// Command line
// ---------------------------------------------------------------------------

/// Options of the renew tool after the command line.
#[derive(Debug, PartialEq, Eq)]
pub struct LaptopOpts {
    pub issue: bool,
    pub install: bool,
    pub check: bool,
    pub live: bool,
    pub install_timer: bool,
    pub restart_ui: bool,
    pub directory_arg: String,
    pub namecheap: Option<String>,
    pub domains: String,
    pub domains_from_cli: bool,
    pub email: String,
    pub work_dir: Option<String>,
    pub ui_bin: Option<String>,
    pub hook: Option<String>,
    pub host_profile: Option<String>,
    pub timeout_secs: u64,
    pub renew_days: u64,
    pub secrets_install: String,
    pub host_id: String,
    pub host_id_set: bool,
    pub target: String,
    pub listen: String,
    pub ssh_cmd: String,
}

pub struct OptsView {
    pub issue: bool,
    pub install: bool,
    pub check: bool,
    pub live: bool,
    pub install_timer: bool,
    pub restart_ui: bool,
    pub directory_arg: Seq<char>,
    pub namecheap: Option<Seq<char>>,
    pub domains: Seq<char>,
    pub domains_from_cli: bool,
    pub email: Seq<char>,
    pub work_dir: Option<Seq<char>>,
    pub ui_bin: Option<Seq<char>>,
    pub hook: Option<Seq<char>>,
    pub host_profile: Option<Seq<char>>,
    pub timeout_secs: u64,
    pub renew_days: u64,
    pub secrets_install: Seq<char>,
    pub host_id: Seq<char>,
    pub host_id_set: bool,
    pub target: Seq<char>,
    pub listen: Seq<char>,
    pub ssh_cmd: Seq<char>,
}

impl LaptopOpts {
    pub open spec fn view(&self) -> OptsView {
        OptsView {
            issue: self.issue,
            install: self.install,
            check: self.check,
            live: self.live,
            install_timer: self.install_timer,
            restart_ui: self.restart_ui,
            directory_arg: self.directory_arg@,
            namecheap: opt_view(self.namecheap),
            domains: self.domains@,
            domains_from_cli: self.domains_from_cli,
            email: self.email@,
            work_dir: opt_view(self.work_dir),
            ui_bin: opt_view(self.ui_bin),
            hook: opt_view(self.hook),
            host_profile: opt_view(self.host_profile),
            timeout_secs: self.timeout_secs,
            renew_days: self.renew_days,
            secrets_install: self.secrets_install@,
            host_id: self.host_id@,
            host_id_set: self.host_id_set,
            target: self.target@,
            listen: self.listen@,
            ssh_cmd: self.ssh_cmd@,
        }
    }
}

/// Options before any argument; the Namecheap env path from the
/// environment when set and not empty.
pub open spec fn opts_start(env_namecheap: Option<Seq<char>>) -> OptsView {
    OptsView {
        issue: false,
        install: false,
        check: false,
        live: false,
        install_timer: false,
        restart_ui: false,
        directory_arg: seq![],
        namecheap: match env_namecheap {
            Some(v) => if v.len() > 0 { Some(v) } else { None },
            None => None,
        },
        domains: seq![],
        domains_from_cli: false,
        email: seq![],
        work_dir: None,
        ui_bin: None,
        hook: None,
        host_profile: None,
        timeout_secs: 300,
        renew_days: 30,
        secrets_install: "secrets-install-host.sh"@,
        host_id: "surmount-1"@,
        host_id_set: false,
        target: seq![],
        listen: seq![],
        ssh_cmd: "ssh"@,
    }
}

pub open spec fn or_empty(o: Option<Seq<char>>) -> Seq<char> {
    match o {
        Some(v) => v,
        None => seq![],
    }
}

/// `--timeout-secs` / `--renew-days` value, or the default.
pub open spec fn num_or(o: Option<Seq<char>>, d: u64) -> u64 {
    match o {
        Some(v) => match parse_unsigned(v, u64::MAX as nat) {
            Some(n) => n as u64,
            None => d,
        },
        None => d,
    }
}

/// Options that take a value and are ignored here.
pub open spec fn ignored_with_value(a: Seq<char>) -> bool {
    a == "--settle-seconds"@ || a == "--timer-dir"@ || a == "--health-url"@ || a == "--prove-host"@ || a
        == "--systemctl-cmd"@ || a == "--point-stalwart"@ || a == "--curl-cmd"@ || a == "--openssl-cmd"@
}

/// Argument `i` applied to the options; the value argument, when the
/// option takes one, is `next`.
pub open spec fn opt_step(st: OptsView, a: Seq<char>, next: Option<Seq<char>>) -> Result<(OptsView, bool), Seq<char>> {
    if a == "--dry-run"@ || a == "--print-only"@ {
        Ok((st, false))
    } else if a == "--issue"@ {
        Ok((OptsView { issue: true, ..st }, false))
    } else if a == "--install"@ {
        Ok((OptsView { install: true, ..st }, false))
    } else if a == "--check"@ {
        Ok((OptsView { check: true, ..st }, false))
    } else if a == "--restart-ui"@ {
        Ok((OptsView { restart_ui: true, ..st }, false))
    } else if a == "--live"@ {
        Ok((OptsView { live: true, install: true, ..st }, false))
    } else if a == "--install-timer"@ {
        Ok((OptsView { install_timer: true, ..st }, false))
    } else if a == "--directory"@ {
        Ok((OptsView { directory_arg: or_empty(next), ..st }, true))
    } else if a == "--namecheap-env"@ {
        Ok((OptsView { namecheap: next, ..st }, true))
    } else if a == "--domains"@ {
        Ok((OptsView { domains: or_empty(next), domains_from_cli: trim(or_empty(next)).len() > 0, ..st }, true))
    } else if a == "--email"@ {
        Ok((OptsView { email: or_empty(next), ..st }, true))
    } else if a == "--work-dir"@ {
        Ok((OptsView { work_dir: next, ..st }, true))
    } else if a == "--ui-bin"@ {
        Ok((OptsView { ui_bin: next, ..st }, true))
    } else if a == "--hook"@ {
        Ok((OptsView { hook: if or_empty(next).len() > 0 { next } else { None }, ..st }, true))
    } else if a == "--host-profile"@ {
        Ok((OptsView { host_profile: next, ..st }, true))
    } else if a == "--timeout-secs"@ {
        Ok((OptsView { timeout_secs: num_or(next, 300), ..st }, true))
    } else if a == "--renew-days"@ {
        Ok((OptsView { renew_days: num_or(next, 30), ..st }, true))
    } else if a == "--secrets-install"@ {
        Ok((OptsView { secrets_install: match next { Some(v) => v, None => st.secrets_install }, ..st }, true))
    } else if a == "--host-id"@ {
        Ok((OptsView { host_id: match next { Some(v) => v, None => st.host_id }, host_id_set: true, ..st }, true))
    } else if a == "--target"@ {
        Ok((OptsView { target: or_empty(next), ..st }, true))
    } else if a == "--listen"@ {
        Ok((OptsView { listen: or_empty(next), ..st }, true))
    } else if a == "--ssh-cmd"@ {
        Ok((OptsView { ssh_cmd: match next { Some(v) => v, None => "ssh"@ }, ..st }, true))
    } else if ignored_with_value(a) {
        Ok((st, true))
    } else {
        Err(spec_die(LAPTOP_PREFIX@, "unknown argument: "@ + a))
    }
}

/// The arguments from `i` on applied to the options.
pub open spec fn opts_from(args: Seq<Seq<char>>, i: int, st: OptsView) -> Result<OptsView, Seq<char>>
    decreases args.len() - i,
{
    if i < 0 || i >= args.len() {
        Ok(st)
    } else {
        let next = if i + 1 < args.len() { Some(args[i + 1]) } else { None };
        match opt_step(st, args[i], next) {
            Err(e) => Err(e),
            Ok((st2, takes)) => opts_from(args, if takes && i + 2 <= args.len() { i + 2 } else if takes { args.len() as int } else { i + 1 }, st2),
        }
    }
}

/// Help is asked for, or there is nothing to do.
pub open spec fn wants_help(args: Seq<Seq<char>>) -> bool {
    args.len() == 0 || exists|i: int| 0 <= i < args.len() && (args[i] == "--help"@ || args[i] == "-h"@)
}

/// The renew tool's command line, after the program name.
pub enum LaptopCli {
    Help,
    Run(LaptopOpts),
}

pub open spec fn cli_view(r: Result<LaptopCli, String>) -> Result<Option<OptsView>, Seq<char>> {
    match r {
        Ok(LaptopCli::Help) => Ok(None),
        Ok(LaptopCli::Run(o)) => Ok(Some(o@)),
        Err(e) => Err(e@),
    }
}

pub open spec fn spec_laptop_cli(args: Seq<Seq<char>>, env_namecheap: Option<Seq<char>>) -> Result<Option<OptsView>, Seq<char>> {
    if wants_help(args) {
        Ok(None)
    } else {
        match opts_from(args, 0, opts_start(env_namecheap)) {
            Ok(o) => Ok(Some(o)),
            Err(e) => Err(e),
        }
    }
}

fn next_arg(args: &Vec<String>, i: usize) -> (r: Option<String>)
    ensures
        opt_view(r) == if i + 1 < args@.len() { Some(args@[i + 1]@) } else { None::<Seq<char>> },
{
    if i < args.len() && i + 1 < args.len() {
        Some(args[i + 1].clone())
    } else {
        None
    }
}

fn or_empty_exec(o: &Option<String>) -> (r: String)
    ensures
        r@ == or_empty(opt_view(*o)),
{
    match o {
        Some(v) => v.clone(),
        None => String::new(),
    }
}

fn num_or_exec(o: &Option<String>, d: u64) -> (r: u64)
    ensures
        r == num_or(opt_view(*o), d),
{
    match o {
        Some(v) => {
            let c = chars_of(v.as_str());
            match parse_unsigned_exec(c.as_slice(), u64::MAX) {
                Some(n) => n,
                None => d,
            }
        },
        None => d,
    }
}

/// One option applied (see [`opt_step`]); whether it took a value.
#[verifier::rlimit(80)]
fn opt_step_exec(st: &mut LaptopOpts, a: &String, next: Option<String>) -> (r: Result<bool, String>)
    ensures
        match opt_step(old(st)@, a@, opt_view(next)) {
            Ok((v, takes)) => r == Ok::<bool, String>(takes) && final(st)@ == v,
            Err(e) => r matches Err(x) && x@ == e,
        },
{
    let av = chars_of(a.as_str());
    let s = av.as_slice();
    if eq_lit(s, "--dry-run") || eq_lit(s, "--print-only") {
        return Ok(false);
    }
    if eq_lit(s, "--issue") {
        st.issue = true;
        return Ok(false);
    }
    if eq_lit(s, "--install") {
        st.install = true;
        return Ok(false);
    }
    if eq_lit(s, "--check") {
        st.check = true;
        return Ok(false);
    }
    if eq_lit(s, "--restart-ui") {
        st.restart_ui = true;
        return Ok(false);
    }
    if eq_lit(s, "--live") {
        st.live = true;
        st.install = true;
        return Ok(false);
    }
    if eq_lit(s, "--install-timer") {
        st.install_timer = true;
        return Ok(false);
    }
    if eq_lit(s, "--directory") {
        st.directory_arg = or_empty_exec(&next);
        return Ok(true);
    }
    if eq_lit(s, "--namecheap-env") {
        st.namecheap = next;
        return Ok(true);
    }
    if eq_lit(s, "--domains") {
        st.domains = or_empty_exec(&next);
        let t = trim_str(st.domains.as_str());
        st.domains_from_cli = t.len() > 0;
        return Ok(true);
    }
    if eq_lit(s, "--email") {
        st.email = or_empty_exec(&next);
        return Ok(true);
    }
    if eq_lit(s, "--work-dir") {
        st.work_dir = next;
        return Ok(true);
    }
    if eq_lit(s, "--ui-bin") {
        st.ui_bin = next;
        return Ok(true);
    }
    if eq_lit(s, "--hook") {
        let e = or_empty_exec(&next);
        st.hook = if e.as_str().is_empty() { None } else { next };
        return Ok(true);
    }
    if eq_lit(s, "--host-profile") {
        st.host_profile = next;
        return Ok(true);
    }
    if eq_lit(s, "--timeout-secs") {
        st.timeout_secs = num_or_exec(&next, 300);
        return Ok(true);
    }
    if eq_lit(s, "--renew-days") {
        st.renew_days = num_or_exec(&next, 30);
        return Ok(true);
    }
    if eq_lit(s, "--secrets-install") {
        match next {
            Some(v) => {
                st.secrets_install = v;
            },
            None => {},
        }
        return Ok(true);
    }
    if eq_lit(s, "--host-id") {
        match next {
            Some(v) => {
                st.host_id = v;
            },
            None => {},
        }
        st.host_id_set = true;
        return Ok(true);
    }
    if eq_lit(s, "--target") {
        st.target = or_empty_exec(&next);
        return Ok(true);
    }
    if eq_lit(s, "--listen") {
        st.listen = or_empty_exec(&next);
        return Ok(true);
    }
    if eq_lit(s, "--ssh-cmd") {
        st.ssh_cmd = match next {
            Some(v) => v,
            None => "ssh".to_owned(),
        };
        return Ok(true);
    }
    if eq_lit(s, "--settle-seconds") || eq_lit(s, "--timer-dir") || eq_lit(s, "--health-url") || eq_lit(s, "--prove-host")
        || eq_lit(s, "--systemctl-cmd") || eq_lit(s, "--point-stalwart") || eq_lit(s, "--curl-cmd") || eq_lit(
        s,
        "--openssl-cmd",
    ) {
        return Ok(true);
    }
    let h = chars_of("unknown argument: ");
    let m = concat(h.as_slice(), s);
    Err(die(LAPTOP_PREFIX, string_of(m.as_slice()).as_str()))
}

/// The renew tool's command line after the program name: help, or the
/// options (an unknown argument refused). `env_namecheap` is
/// `SURMOUNT_ACME_DNS_NAMECHEAP_ENV`.
pub fn parse_laptop_cli(args: &Vec<String>, env_namecheap: Option<String>) -> (r: Result<LaptopCli, String>)
    ensures
        cli_view(r) == spec_laptop_cli(views(args@), opt_view(env_namecheap)),
{
    let ghost a = views(args@);
    let mut k: usize = 0;
    while k < args.len()
        invariant
            k <= args.len(),
            a == views(args@),
            forall|j: int| 0 <= j < k ==> !(a[j] == "--help"@ || a[j] == "-h"@),
        decreases args.len() - k,
    {
        if arg_eq(&args[k], "--help") || arg_eq(&args[k], "-h") {
            assert(a[k as int] == "--help"@ || a[k as int] == "-h"@);
            return Ok(LaptopCli::Help);
        }
        k += 1;
    }
    if args.len() == 0 {
        return Ok(LaptopCli::Help);
    }
    let namecheap = match env_namecheap {
        Some(v) => if v.as_str().is_empty() {
            None
        } else {
            Some(v)
        },
        None => None,
    };
    let mut st = LaptopOpts {
        issue: false,
        install: false,
        check: false,
        live: false,
        install_timer: false,
        restart_ui: false,
        directory_arg: String::new(),
        namecheap,
        domains: String::new(),
        domains_from_cli: false,
        email: String::new(),
        work_dir: None,
        ui_bin: None,
        hook: None,
        host_profile: None,
        timeout_secs: 300,
        renew_days: 30,
        secrets_install: "secrets-install-host.sh".to_owned(),
        host_id: "surmount-1".to_owned(),
        host_id_set: false,
        target: String::new(),
        listen: String::new(),
        ssh_cmd: "ssh".to_owned(),
    };
    let mut i: usize = 0;
    while i < args.len()
        invariant
            i <= args.len(),
            a == views(args@),
            !wants_help(a),
            opts_from(a, 0, opts_start(opt_view(env_namecheap))) == opts_from(a, i as int, st@),
        decreases args.len() - i,
    {
        let next = next_arg(args, i);
        assert(a[i as int] == args@[i as int]@);
        assert(i + 1 < a.len() ==> a[i + 1] == args@[i + 1]@);
        match opt_step_exec(&mut st, &args[i], next) {
            Err(e) => {
                return Err(e);
            },
            Ok(takes) => {
                if takes {
                    i = if i < args.len() - 1 { i + 2 } else { args.len() };
                } else {
                    i += 1;
                }
            },
        }
    }
    Ok(LaptopCli::Run(st))
}

fn arg_eq(a: &String, s: &str) -> (r: bool)
    ensures
        r == (a@ == s@),
{
    let v = chars_of(a.as_str());
    eq_lit(v.as_slice(), s)
}


// ---------------------------------------------------------------------------
// Preflight and plan
// ---------------------------------------------------------------------------

/// ACME directory URL and its label.
pub open spec fn spec_resolve_directory(d: Seq<char>) -> Result<(Seq<char>, Seq<char>), Seq<char>> {
    if d.len() == 0 {
        Err(spec_blocked("missing --directory (never silent staging/prod)"@))
    } else if d == "production"@ {
        Ok((PRODUCTION@, "production"@))
    } else if d == "staging"@ {
        Ok((STAGING@, "staging"@))
    } else if starts_with(d, "https://"@) && contains(d, "acme-v02"@) {
        Ok((d, "production"@))
    } else if starts_with(d, "https://"@) && contains(d, "staging"@) {
        Ok((d, "staging"@))
    } else if starts_with(d, "https://"@) {
        Ok((d, "custom"@))
    } else {
        Err(spec_die(LAPTOP_PREFIX@, "unknown --directory "@ + d + " (use production, staging, or https:// URL)"@))
    }
}

/// The ACME directory (`--directory` is never implicit): its URL and
/// label.
pub fn resolve_directory(d: &str) -> (r: Result<(String, String), String>)
    ensures
        match r {
            Ok((u, l)) => spec_resolve_directory(d@) == Ok::<(Seq<char>, Seq<char>), Seq<char>>((u@, l@)),
            Err(e) => spec_resolve_directory(d@) == Err::<(Seq<char>, Seq<char>), Seq<char>>(e@),
        },
{
    let v = chars_of(d);
    if v.len() == 0 {
        return Err(blocked(chars_of("missing --directory (never silent staging/prod)").as_slice()));
    }
    if eq_lit(v.as_slice(), "production") {
        return Ok((PRODUCTION.to_owned(), "production".to_owned()));
    }
    if eq_lit(v.as_slice(), "staging") {
        return Ok((STAGING.to_owned(), "staging".to_owned()));
    }
    let https = starts_with_exec(v.as_slice(), chars_of("https://").as_slice());
    if https && contains_exec(v.as_slice(), chars_of("acme-v02").as_slice()) {
        return Ok((d.to_owned(), "production".to_owned()));
    }
    if https && contains_exec(v.as_slice(), chars_of("staging").as_slice()) {
        return Ok((d.to_owned(), "staging".to_owned()));
    }
    if https {
        return Ok((d.to_owned(), "custom".to_owned()));
    }
    let h = chars_of("unknown --directory ");
    let t = chars_of(" (use production, staging, or https:// URL)");
    let a = concat(h.as_slice(), v.as_slice());
    let b = concat(a.as_slice(), t.as_slice());
    Err(die(LAPTOP_PREFIX, string_of(b.as_slice()).as_str()))
}

/// The Namecheap env path is required (laptop custody).
pub fn require_namecheap_path(namecheap: &Option<String>) -> (r: Result<String, String>)
    ensures
        match r {
            Ok(p) => opt_view(*namecheap) == Some(p@),
            Err(e) => namecheap is None && e@ == spec_blocked("missing Namecheap env (laptop custody; ClientIp is laptop egress)"@),
        },
{
    match namecheap {
        Some(p) => Ok(p.clone()),
        None => Err(blocked(chars_of("missing Namecheap env (laptop custody; ClientIp is laptop egress)").as_slice())),
    }
}

/// The Namecheap env file by what `symlink_metadata` said: an owner-only
/// regular file.
pub open spec fn spec_check_namecheap_env(path: Seq<char>, meta: LinkMeta) -> Result<(), Seq<char>> {
    match meta {
        LinkMeta::Symlink => Err(spec_die(LAPTOP_PREFIX@, "Namecheap env must be a regular file (symlink refused): "@ + path)),
        LinkMeta::Regular { mode } => if (mode % 512) % 64 != 0 {
            Err(spec_blocked("Namecheap env must be owner-only (mode 0600): "@ + path + " (mode "@ + oct((mode % 512) as nat) + ")"@))
        } else {
            Ok(())
        },
        _ => Err(spec_blocked("missing Namecheap env (laptop custody): "@ + path)),
    }
}

/// The Namecheap env file must be an owner-only regular file.
pub fn check_namecheap_env(path: &str, meta: &LinkMeta) -> (r: Result<(), String>)
    ensures
        unit_view(r) == spec_check_namecheap_env(path@, *meta),
{
    let p = chars_of(path);
    match meta {
        LinkMeta::Symlink => {
            let h = chars_of("Namecheap env must be a regular file (symlink refused): ");
            let m = concat(h.as_slice(), p.as_slice());
            Err(die(LAPTOP_PREFIX, string_of(m.as_slice()).as_str()))
        },
        LinkMeta::Regular { mode } => {
            let md = *mode;
            assert(md & 511 == md % 512) by (bit_vector);
            let bits = md & 511;
            assert(bits & 63 == bits % 64) by (bit_vector);
            if bits & 63 != 0 {
                let h = chars_of("Namecheap env must be owner-only (mode 0600): ");
                let mid = chars_of(" (mode ");
                let o = oct_exec(bits);
                let close = chars_of(")");
                let a = concat(h.as_slice(), p.as_slice());
                let b = concat(a.as_slice(), mid.as_slice());
                let c = concat(b.as_slice(), o.as_slice());
                let d = concat(c.as_slice(), close.as_slice());
                Err(blocked(d.as_slice()))
            } else {
                Ok(())
            }
        },
        _ => {
            let h = chars_of("missing Namecheap env (laptop custody): ");
            let m = concat(h.as_slice(), p.as_slice());
            Err(blocked(m.as_slice()))
        },
    }
}

/// `SettleSeconds` against the floor (120 for production, else 30);
/// production `--issue` needs it set.
pub open spec fn spec_check_settle(settle: Option<Seq<char>>, label: Seq<char>, issue: bool) -> Result<(), Seq<char>> {
    let floor: nat = if label == "production"@ { 120 } else { 30 };
    match settle {
        Some(s) => match parse_unsigned(s, u64::MAX as nat) {
            None => Err(spec_blocked("SettleSeconds in Namecheap env is not an integer (value not logged)."@)),
            Some(n) => if n < floor {
                Err(spec_blocked("SettleSeconds is below floor "@ + dec(floor) + " for "@ + label
                    + ". Prior production issue needed 120 because hook wait sees Namecheap API, not public NS."@))
            } else {
                Ok(())
            },
        },
        None => if issue && label == "production"@ {
            Err(spec_blocked("production --issue requires SettleSeconds>="@ + dec(floor) + " in Namecheap env (hook wait is API-only)."@))
        } else {
            Ok(())
        },
    }
}

/// `SettleSeconds` of the Namecheap env against the directory's floor.
pub fn check_settle(settle: &Option<String>, label: &str, issue: bool) -> (r: Result<(), String>)
    ensures
        unit_view(r) == spec_check_settle(opt_view(*settle), label@, issue),
{
    let lv = chars_of(label);
    let prod = eq_lit(lv.as_slice(), "production");
    let floor: u64 = if prod { 120 } else { 30 };
    let fd = dec_exec(floor);
    match settle {
        Some(s) => {
            let sv = chars_of(s.as_str());
            match parse_unsigned_exec(sv.as_slice(), u64::MAX) {
                None => Err(blocked(chars_of("SettleSeconds in Namecheap env is not an integer (value not logged).").as_slice())),
                Some(n) => if n < floor {
                    let a = concat(chars_of("SettleSeconds is below floor ").as_slice(), fd.as_slice());
                    let b = concat(a.as_slice(), chars_of(" for ").as_slice());
                    let c = concat(b.as_slice(), lv.as_slice());
                    let d = concat(
                        c.as_slice(),
                        chars_of(". Prior production issue needed 120 because hook wait sees Namecheap API, not public NS.").as_slice(),
                    );
                    Err(blocked(d.as_slice()))
                } else {
                    Ok(())
                },
            }
        },
        None => if issue && prod {
            let a = concat(chars_of("production --issue requires SettleSeconds>=").as_slice(), fd.as_slice());
            let b = concat(a.as_slice(), chars_of(" in Namecheap env (hook wait is API-only).").as_slice());
            Err(blocked(b.as_slice()))
        } else {
            Ok(())
        },
    }
}

/// `--install-timer` needs `--target`.
pub fn check_install_timer(install_timer: bool, target: &str) -> (r: Result<(), String>)
    ensures
        r is Err <==> (install_timer && target@.len() == 0),
        r matches Err(e) ==> e@ == spec_blocked("--install-timer requires --target so weekly --live can install PEMs"@),
{
    if install_timer && target.is_empty() {
        return Err(blocked(chars_of("--install-timer requires --target so weekly --live can install PEMs").as_slice()));
    }
    Ok(())
}

/// The host profile file by what `symlink_metadata` said (missing ones
/// blocked, symlinks refused).
pub fn check_host_profile_meta(path: &str, meta: &LinkMeta) -> (r: Result<(), String>)
    ensures
        unit_view(r) == match *meta {
            LinkMeta::NotFound => Err(spec_blocked("host-profile missing: "@ + path@)),
            LinkMeta::Error(_) => Err(spec_blocked("host-profile missing: "@ + path@)),
            LinkMeta::Symlink => Err(spec_die(LAPTOP_PREFIX@, "host-profile must be a regular file (symlink refused): "@ + path@)),
            _ => Ok(()),
        },
{
    let p = chars_of(path);
    match meta {
        LinkMeta::NotFound | LinkMeta::Error(_) => {
            let m = concat(chars_of("host-profile missing: ").as_slice(), p.as_slice());
            Err(blocked(m.as_slice()))
        },
        LinkMeta::Symlink => {
            let m = concat(chars_of("host-profile must be a regular file (symlink refused): ").as_slice(), p.as_slice());
            Err(die(LAPTOP_PREFIX, string_of(m.as_slice()).as_str()))
        },
        _ => Ok(()),
    }
}

/// The options after the host profile (domains floored to the intended
/// leaf unless given on the command line; email and host id filled in),
/// the default domains, and the intended-leaf check for `--issue` and
/// `--live`.
pub open spec fn spec_finalize(o: OptsView, profile: Option<ProfileView>) -> Result<OptsView, Seq<char>> {
    let o1 = match profile {
        Some(p) => OptsView {
            domains: if !o.domains_from_cli { spec_floor_intended_leaf(p.domains) } else { o.domains },
            email: if o.email.len() == 0 { p.email } else { o.email },
            host_id: if !o.host_id_set && p.host_id.len() > 0 { p.host_id } else { o.host_id },
            ..o
        },
        None => o,
    };
    let o2 = if o1.domains.len() == 0 { OptsView { domains: DEFAULT_DOMAINS@, ..o1 } } else { o1 };
    if (o2.issue || o2.live) && spec_refuse_dropped_intended_leaf(o2.domains) is Err {
        Err(spec_refuse_dropped_intended_leaf(o2.domains)->Err_0)
    } else {
        Ok(o2)
    }
}

/// Merges the host profile, fills the default domains, and refuses a
/// production issue that drops an intended name.
pub fn finalize_opts(opts: LaptopOpts, profile: Option<HostProfileAcme>) -> (r: Result<LaptopOpts, String>)
    ensures
        match r {
            Ok(o) => spec_finalize(opts@, match profile { Some(p) => Some(p@), None => None }) == Ok::<OptsView, Seq<char>>(o@),
            Err(e) => spec_finalize(opts@, match profile { Some(p) => Some(p@), None => None }) == Err::<OptsView, Seq<char>>(e@),
        },
{
    let mut o = opts;
    match profile {
        Some(p) => {
            if !o.domains_from_cli {
                o.domains = floor_intended_leaf(&p.domains);
            }
            if o.email.as_str().is_empty() {
                o.email = p.email;
            }
            if !o.host_id_set && !p.host_id.as_str().is_empty() {
                o.host_id = p.host_id;
            }
        },
        None => {},
    }
    if o.domains.as_str().is_empty() {
        o.domains = DEFAULT_DOMAINS.to_owned();
    }
    if o.issue || o.live {
        match refuse_dropped_intended_leaf(o.domains.as_str()) {
            Err(e) => {
                return Err(e);
            },
            Ok(()) => {},
        }
    }
    Ok(o)
}

/// One step of a renew run.
#[derive(Debug, PartialEq, Eq)]
pub enum LaptopStep {
    /// Report whether the leaf is due (never issues).
    Check,
    /// Issue a fresh leaf.
    Issue,
    /// Install the PEMs on the target.
    Install,
    /// Restart the UI on the target.
    RestartUi,
    /// Print what would happen.
    PrintOnly,
}

/// The steps of a run, in order.
pub open spec fn spec_laptop_steps(o: OptsView) -> Seq<LaptopStep> {
    if o.check {
        seq![LaptopStep::Check]
    } else {
        let s1: Seq<LaptopStep> = if o.issue { seq![LaptopStep::Issue] } else { seq![] };
        if o.issue && !o.install && !o.restart_ui {
            s1
        } else {
            let s2 = if o.install && (o.issue || !o.live) { s1.push(LaptopStep::Install) } else { s1 };
            if o.restart_ui {
                s2.push(LaptopStep::RestartUi)
            } else if o.issue || o.install {
                s2
            } else {
                s2.push(LaptopStep::PrintOnly)
            }
        }
    }
}

/// The steps of a run: `--check` alone; else issue, install (not on a
/// `--live` run that did not issue), restart; print-only when nothing else.
pub fn laptop_steps(o: &LaptopOpts) -> (r: Vec<LaptopStep>)
    ensures
        r@ == spec_laptop_steps(o@),
{
    let mut s: Vec<LaptopStep> = Vec::new();
    if o.check {
        s.push(LaptopStep::Check);
        return s;
    }
    if o.issue {
        s.push(LaptopStep::Issue);
        if !o.install && !o.restart_ui {
            return s;
        }
    }
    if o.install && (o.issue || !o.live) {
        s.push(LaptopStep::Install);
    }
    if o.restart_ui {
        s.push(LaptopStep::RestartUi);
        return s;
    }
    if o.issue || o.install {
        return s;
    }
    s.push(LaptopStep::PrintOnly);
    s
}


// ---------------------------------------------------------------------------
// Issue, install and restart helpers
// ---------------------------------------------------------------------------

/// The DNS-01 wrap script: exports the Namecheap env, `HOME` and (when
/// known) the dispatcher's inner hook, then execs the hook with stderr
/// appended to the hook log. Every value is `sh`-quoted.
pub open spec fn spec_wrap_script(namecheap_env: Seq<char>, home: Seq<char>, hook: Seq<char>, inner: Option<Seq<char>>, hook_log: Seq<char>) -> Seq<char> {
    "#!/bin/sh\nset -eu\n"@ + "export SURMOUNT_ACME_DNS_NAMECHEAP_ENV="@ + spec_sh_quote(namecheap_env) + "\n"@ + "export HOME="@
        + spec_sh_quote(home) + "\n"@ + match inner {
        Some(i) => "export SURMOUNT_ACME_DNS_DISPATCH_INNER_HOOK="@ + spec_sh_quote(i) + "\n"@,
        None => seq![],
    } + "exec "@ + spec_sh_quote(hook) + " \"$@\" 2>>"@ + spec_sh_quote(hook_log) + "\n"@
}

/// The DNS-01 wrap script (see [`spec_wrap_script`]).
pub fn wrap_script(namecheap_env: &str, home: &str, hook: &str, inner: Option<&str>, hook_log: &str) -> (r: String)
    ensures
        r@ == spec_wrap_script(namecheap_env@, home@, hook@, match inner { Some(i) => Some(i@), None => None }, hook_log@),
{
    let mut s = chars_of("#!/bin/sh\nset -eu\n");
    extend(&mut s, chars_of("export SURMOUNT_ACME_DNS_NAMECHEAP_ENV=").as_slice());
    extend(&mut s, chars_of(sh_quote(namecheap_env).as_str()).as_slice());
    extend(&mut s, chars_of("\n").as_slice());
    extend(&mut s, chars_of("export HOME=").as_slice());
    extend(&mut s, chars_of(sh_quote(home).as_str()).as_slice());
    extend(&mut s, chars_of("\n").as_slice());
    let ghost mid = s@;
    match inner {
        Some(i) => {
            extend(&mut s, chars_of("export SURMOUNT_ACME_DNS_DISPATCH_INNER_HOOK=").as_slice());
            extend(&mut s, chars_of(sh_quote(i).as_str()).as_slice());
            extend(&mut s, chars_of("\n").as_slice());
        },
        None => {
            assert(mid + Seq::<char>::empty() =~= mid);
        },
    }
    extend(&mut s, chars_of("exec ").as_slice());
    extend(&mut s, chars_of(sh_quote(hook).as_str()).as_slice());
    extend(&mut s, chars_of(" \"$@\" 2>>").as_slice());
    extend(&mut s, chars_of(sh_quote(hook_log).as_str()).as_slice());
    extend(&mut s, chars_of("\n").as_slice());
    proof {
        let ins = match inner {
            Some(i) => "export SURMOUNT_ACME_DNS_DISPATCH_INNER_HOOK="@ + spec_sh_quote(i@) + "\n"@,
            None => Seq::<char>::empty(),
        };
        assert(s@ =~= spec_wrap_script(namecheap_env@, home@, hook@, match inner { Some(i) => Some(i@), None => None }, hook_log@));
    }
    string_of(s.as_slice())
}

/// Hook program when `--hook` is not given: the dispatcher when a zone
/// besides the primary one is listed, else the plain hook.
pub fn default_hook_name(domains: &str) -> (r: &'static str)
    ensures
        r@ == if spec_extra_namecheap_zones(domains@) { "acme-dns-hook-namecheap-dispatch"@ } else { "acme-dns-hook-namecheap"@ },
{
    if extra_namecheap_zones(domains) {
        "acme-dns-hook-namecheap-dispatch"
    } else {
        "acme-dns-hook-namecheap"
    }
}

/// `--hook` must name a regular file (symlinks refused).
pub fn validate_hook_file(path: &str, meta: &LinkMeta) -> (r: Result<(), String>)
    ensures
        unit_view(r) == match *meta {
            LinkMeta::NotFound => Err(spec_die(LAPTOP_PREFIX@, "--hook missing: "@ + path@)),
            LinkMeta::Error(_) => Err(spec_die(LAPTOP_PREFIX@, "--hook missing: "@ + path@)),
            LinkMeta::Symlink => Err(spec_die(LAPTOP_PREFIX@, "--hook must be a regular file (symlink refused): "@ + path@)),
            LinkMeta::NotRegular => Err(spec_die(LAPTOP_PREFIX@, "--hook must be a regular file: "@ + path@)),
            LinkMeta::Regular { .. } => Ok(()),
        },
{
    let p = chars_of(path);
    let h = match meta {
        LinkMeta::Regular { .. } => {
            return Ok(());
        },
        LinkMeta::NotFound | LinkMeta::Error(_) => chars_of("--hook missing: "),
        LinkMeta::Symlink => chars_of("--hook must be a regular file (symlink refused): "),
        LinkMeta::NotRegular => chars_of("--hook must be a regular file: "),
    };
    let m = concat(h.as_slice(), p.as_slice());
    Err(die(LAPTOP_PREFIX, string_of(m.as_slice()).as_str()))
}

/// Refusal of a failed issue: the ClientIp whitelist when the hook log
/// says so, else `msg`.
pub fn issue_fail(hook_log: Option<&str>, msg: &str) -> (r: String)
    ensures
        r@ == match hook_log {
            Some(t) if contains(lower(t@), "invalid request ip"@) => spec_blocked(
                "Invalid request IP (Namecheap API ClientIp whitelist of laptop egress)"@,
            ),
            _ => spec_die(LAPTOP_PREFIX@, msg@),
        },
{
    match hook_log {
        Some(t) => {
            let tv = chars_of(t);
            let low = lower_vec(tv.as_slice());
            if contains_exec(low.as_slice(), chars_of("invalid request ip").as_slice()) {
                return blocked(chars_of("Invalid request IP (Namecheap API ClientIp whitelist of laptop egress)").as_slice());
            }
        },
        None => {},
    }
    die(LAPTOP_PREFIX, msg)
}

/// `--restart-ui` needs `--target`.
pub fn check_restart_target(target: &str) -> (r: Result<(), String>)
    ensures
        r is Err <==> target@.len() == 0,
        r matches Err(e) ==> e@ == spec_blocked("--restart-ui requires --target USER@HOST (host ACME stays off)"@),
{
    if target.is_empty() {
        return Err(blocked(chars_of("--restart-ui requires --target USER@HOST (host ACME stays off)").as_slice()));
    }
    Ok(())
}

/// Seconds before expiry that make the leaf due (`renew_days` days,
/// saturating).
pub fn checkend_secs(renew_days: u64) -> (r: u64)
    ensures
        r == if renew_days * 86400 > u64::MAX { u64::MAX as int } else { renew_days * 86400 },
{
    match renew_days.checked_mul(86400) {
        Some(v) => v,
        None => u64::MAX,
    }
}

/// The `secrets-install` arguments: both TLS kinds, the host id, then
/// the staging dir, target and ssh command when present.
pub open spec fn spec_install_args(host_id: Seq<char>, staging: Option<Seq<char>>, target: Seq<char>, ssh_cmd: Seq<char>) -> Seq<Seq<char>> {
    seq!["--require-kind"@, "tls-cert"@, "--require-kind"@, "tls-key"@, "--host-id"@, host_id] + match staging {
        Some(d) => seq!["--from-staging"@, d],
        None => seq![],
    } + if target.len() > 0 { seq!["--target"@, target] } else { seq![] } + if ssh_cmd.len() > 0 {
        seq!["--ssh-cmd"@, ssh_cmd]
    } else {
        seq![]
    }
}

/// The `secrets-install` arguments (see [`spec_install_args`]).
pub fn install_args(host_id: &str, staging: Option<&str>, target: &str, ssh_cmd: &str) -> (r: Vec<String>)
    ensures
        views(r@) == spec_install_args(host_id@, match staging { Some(d) => Some(d@), None => None }, target@, ssh_cmd@),
{
    let mut a: Vec<String> = Vec::new();
    a.push("--require-kind".to_owned());
    a.push("tls-cert".to_owned());
    a.push("--require-kind".to_owned());
    a.push("tls-key".to_owned());
    a.push("--host-id".to_owned());
    a.push(host_id.to_owned());
    let ghost s0 = views(a@);
    match staging {
        Some(d) => {
            a.push("--from-staging".to_owned());
            a.push(d.to_owned());
        },
        None => {},
    }
    let ghost s1 = views(a@);
    if !target.is_empty() {
        a.push("--target".to_owned());
        a.push(target.to_owned());
    }
    let ghost s2 = views(a@);
    if !ssh_cmd.is_empty() {
        a.push("--ssh-cmd".to_owned());
        a.push(ssh_cmd.to_owned());
    }
    assert(views(a@) =~= spec_install_args(host_id@, match staging { Some(d) => Some(d@), None => None }, target@, ssh_cmd@));
    a
}

/// The `attributes` file of one staged secret.
pub fn stage_attributes(kind: &str, host: &str, hpath: &str) -> (r: String)
    ensures
        r@ == "surmount.kind="@ + kind@ + "\nsurmount.host="@ + host@ + "\nsurmount.path="@ + hpath@ + "\n"@,
{
    let mut s = chars_of("surmount.kind=");
    extend(&mut s, chars_of(kind).as_slice());
    extend(&mut s, chars_of("\nsurmount.host=").as_slice());
    extend(&mut s, chars_of(host).as_slice());
    extend(&mut s, chars_of("\nsurmount.path=").as_slice());
    extend(&mut s, chars_of(hpath).as_slice());
    extend(&mut s, chars_of("\n").as_slice());
    string_of(s.as_slice())
}


// ---------------------------------------------------------------------------
// Issued certificate names
// ---------------------------------------------------------------------------

pub open spec fn is_san_sep(c: char) -> bool {
    c == ',' || c == '\n' || c == ' '
}

/// Index of the first `,`, newline or space.
pub open spec fn first_sep(s: Seq<char>) -> Option<int>
    decreases s.len(),
{
    if s.len() == 0 {
        None
    } else if is_san_sep(s[0]) {
        Some(0)
    } else {
        match first_sep(s.drop_first()) {
            Some(i) => Some(i + 1),
            None => None,
        }
    }
}

pub proof fn lemma_first_sep(s: Seq<char>)
    ensures
        match first_sep(s) {
            Some(i) => 0 <= i < s.len() && is_san_sep(s[i]) && forall|j: int| 0 <= j < i ==> !is_san_sep(s[j]),
            None => forall|j: int| 0 <= j < s.len() ==> !is_san_sep(s[j]),
        },
    decreases s.len(),
{
    if s.len() > 0 && !is_san_sep(s[0]) {
        lemma_first_sep(s.drop_first());
        assert forall|j: int| 1 <= j < s.len() implies s[j] == s.drop_first()[j - 1] by {}
    }
}

/// `str::split([',', '\n', ' '])`.
pub open spec fn split_seps(s: Seq<char>) -> Seq<Seq<char>>
    decreases s.len(),
{
    match first_sep(s) {
        None => seq![s],
        Some(i) => {
            proof {
                lemma_first_sep(s);
            }
            seq![s.take(i)] + split_seps(s.skip(i + 1))
        },
    }
}

/// The name a token gives, if it is `dns:<name>`.
pub open spec fn san_of(tok: Seq<char>) -> Option<Seq<char>> {
    let t = trim_end_char(trim(tok), ',');
    if starts_with(t, "dns:"@) {
        let n = trim_end_char(t.skip(4), '.');
        if n.len() > 0 { Some(n) } else { None }
    } else {
        None
    }
}

pub open spec fn sans_of(toks: Seq<Seq<char>>) -> Seq<Seq<char>>
    decreases toks.len(),
{
    if toks.len() == 0 {
        seq![]
    } else {
        match san_of(toks.last()) {
            Some(n) => sans_of(toks.drop_last()).push(n),
            None => sans_of(toks.drop_last()),
        }
    }
}

/// Names of the issued certificate (openssl's `subjectAltName` text).
pub open spec fn spec_sans(text: Seq<char>) -> Seq<Seq<char>> {
    sans_of(split_seps(lower(text)))
}

/// Requested names the issued certificate omits, in request order.
pub open spec fn omitted(want: Seq<Seq<char>>, sans: Seq<Seq<char>>) -> Seq<Seq<char>>
    decreases want.len(),
{
    if want.len() == 0 {
        seq![]
    } else if sans.contains(want.last()) {
        omitted(want.drop_last(), sans)
    } else {
        omitted(want.drop_last(), sans).push(want.last())
    }
}

/// The issued certificate covers every requested name: `None` when the
/// text lists no DNS names (nothing to check), else the number of names,
/// or the refusal naming the omitted ones.
pub open spec fn spec_check_issued_sans(text: Seq<char>, domains: Seq<char>) -> Result<Option<nat>, Seq<char>> {
    if !contains(lower(text), "dns:"@) {
        Ok(None)
    } else {
        let miss = omitted(spec_parse_domain_list(domains), spec_sans(text));
        if miss.len() == 0 {
            Ok(Some(spec_sans(text).len()))
        } else {
            Err(spec_die(LAPTOP_PREFIX@, "issued certificate omitted requested hostnames: "@ + join(miss, ","@)))
        }
    }
}

fn split_seps_exec(v: &[char]) -> (r: Vec<Vec<char>>)
    ensures
        vviews(r@) == split_seps(v@),
{
    let mut out: Vec<Vec<char>> = Vec::new();
    let mut start: usize = 0;
    let mut i: usize = 0;
    assert(v@.skip(0) =~= v@);
    while i < v.len()
        invariant
            start <= i <= v.len(),
            forall|j: int| start <= j < i ==> !is_san_sep(#[trigger] v@[j]),
            vviews(out@) + split_seps(v@.skip(start as int)) == split_seps(v@),
        decreases v.len() - i,
    {
        if v[i] == ',' || v[i] == '\n' || v[i] == ' ' {
            let piece = slice_of(v, start, i);
            proof {
                let rest = v@.skip(start as int);
                lemma_first_sep(rest);
                let k = first_sep(rest);
                assert forall|j: int| 0 <= j < i - start implies !is_san_sep(#[trigger] rest[j]) by {
                    assert(rest[j] == v@[start + j]);
                }
                assert(rest[i - start] == v@[i as int]);
                match k {
                    Some(kk) => {
                        if kk < i - start {
                            assert(!is_san_sep(rest[kk]));
                        }
                        if kk > i - start {
                            assert(!is_san_sep(rest[i - start]));
                        }
                    },
                    None => {},
                }
                assert(piece@ =~= rest.take(i - start));
                assert(rest.skip(i - start + 1) =~= v@.skip(i + 1));
            }
            let ghost before = vviews(out@);
            out.push(piece);
            assert(vviews(out@) =~= before.push(piece@));
            assert(before + (seq![piece@] + split_seps(v@.skip(i + 1))) =~= before.push(piece@) + split_seps(v@.skip(i + 1)));
            start = i + 1;
        }
        i += 1;
    }
    let last = slice_of(v, start, v.len());
    proof {
        let rest = v@.skip(start as int);
        lemma_first_sep(rest);
        assert forall|j: int| 0 <= j < rest.len() implies !is_san_sep(#[trigger] rest[j]) by {
            assert(rest[j] == v@[start + j]);
        }
        if let Some(kk) = first_sep(rest) {
            assert(!is_san_sep(rest[kk]));
        }
        assert(last@ =~= rest);
    }
    let ghost before = vviews(out@);
    out.push(last);
    assert(vviews(out@) =~= before.push(v@.skip(start as int)));
    out
}

fn san_of_exec(tok: &[char]) -> (r: Option<Vec<char>>)
    ensures
        match r {
            Some(n) => san_of(tok@) == Some(n@),
            None => san_of(tok@) is None,
        },
{
    let a = trim_vec(tok);
    let t = trim_end_char_vec(a.as_slice(), ',');
    let pre = chars_of("dns:");
    proof {
        reveal_strlit("dns:");
    }
    if !starts_with_exec(t.as_slice(), pre.as_slice()) {
        return None;
    }
    let rest = slice_of(t.as_slice(), 4, t.len());
    assert(rest@ =~= t@.skip(4));
    let n = trim_end_char_vec(rest.as_slice(), '.');
    if n.len() > 0 {
        Some(n)
    } else {
        None
    }
}

/// The issued certificate covers every requested name (see
/// [`spec_check_issued_sans`]).
pub fn check_issued_sans(openssl_text: &str, domains: &str) -> (r: Result<Option<usize>, String>)
    ensures
        match r {
            Ok(Some(n)) => spec_check_issued_sans(openssl_text@, domains@) == Ok::<Option<nat>, Seq<char>>(Some(n as nat)),
            Ok(None) => spec_check_issued_sans(openssl_text@, domains@) == Ok::<Option<nat>, Seq<char>>(None),
            Err(e) => spec_check_issued_sans(openssl_text@, domains@) == Err::<Option<nat>, Seq<char>>(e@),
        },
{
    let tv = chars_of(openssl_text);
    let low = lower_vec(tv.as_slice());
    if !contains_exec(low.as_slice(), chars_of("dns:").as_slice()) {
        return Ok(None);
    }
    let toks = split_seps_exec(low.as_slice());
    let ghost ts = vviews(toks@);
    let mut sans: Vec<Vec<char>> = Vec::new();
    let mut k: usize = 0;
    assert(ts.take(0) =~= Seq::<Seq<char>>::empty());
    assert(vviews(sans@) =~= Seq::<Seq<char>>::empty());
    while k < toks.len()
        invariant
            k <= toks.len(),
            ts == vviews(toks@),
            vviews(sans@) == sans_of(ts.take(k as int)),
        decreases toks.len() - k,
    {
        proof {
            assert(ts.take(k + 1).drop_last() =~= ts.take(k as int));
            assert(ts.take(k + 1).last() == toks@[k as int]@);
        }
        match san_of_exec(toks[k].as_slice()) {
            Some(n) => {
                let ghost before = vviews(sans@);
                let ghost nv = n@;
                sans.push(n);
                assert(vviews(sans@) =~= before.push(nv));
            },
            None => {},
        }
        k += 1;
    }
    assert(ts.take(toks.len() as int) =~= ts);
    let want = parse_domain_list(domains);
    let mut miss: Vec<Vec<char>> = Vec::new();
    let mut j: usize = 0;
    assert(vviews(want@).take(0) =~= Seq::<Seq<char>>::empty());
    assert(vviews(miss@) =~= Seq::<Seq<char>>::empty());
    while j < want.len()
        invariant
            j <= want.len(),
            vviews(sans@) == spec_sans(openssl_text@),
            vviews(miss@) == omitted(vviews(want@).take(j as int), vviews(sans@)),
        decreases want.len() - j,
    {
        proof {
            assert(vviews(want@).take(j + 1).drop_last() =~= vviews(want@).take(j as int));
            assert(vviews(want@).take(j + 1).last() == want@[j as int]@);
        }
        if !vcontains(&sans, want[j].as_slice()) {
            let x = slice_of(want[j].as_slice(), 0, want[j].len());
            assert(x@ =~= want@[j as int]@);
            let ghost before = vviews(miss@);
            miss.push(x);
            assert(vviews(miss@) =~= before.push(want@[j as int]@));
        }
        j += 1;
    }
    assert(vviews(want@).take(want.len() as int) =~= vviews(want@));
    if miss.len() == 0 {
        return Ok(Some(sans.len()));
    }
    let m = join_exec(miss.as_slice(), chars_of(",").as_slice());
    let h = chars_of("issued certificate omitted requested hostnames: ");
    let x = concat(h.as_slice(), m.as_slice());
    Err(die(LAPTOP_PREFIX, string_of(x.as_slice()).as_str()))
}


// ---------------------------------------------------------------------------
// Running the issue, and the exit code
// ---------------------------------------------------------------------------

/// Exit code of a failed run: 2 when the refusal says `BLOCKED`, else 1.
pub fn exit_code(err_text: &str) -> (r: u8)
    ensures
        r == (if contains(err_text@, "BLOCKED"@) { 2u8 } else { 1u8 }),
{
    let v = chars_of(err_text);
    if contains_exec(v.as_slice(), chars_of("BLOCKED").as_slice()) {
        2
    } else {
        1
    }
}

/// Listen address of the issuing UI child: the given one, or
/// `127.0.0.1:18780` when empty.
pub open spec fn spec_issue_listen(listen: Seq<char>) -> Seq<char> {
    if listen.len() == 0 { "127.0.0.1:18780"@ } else { listen }
}

/// The environment set on the issuing UI child, in order: ACME on for this
/// one run, the directory URL, the names, the wrapped DNS hook (600 s), the
/// account file, the PEM paths, HTTPS on the listen address, console auth
/// off, and the contact email when there is one.
pub open spec fn spec_issue_env(
    url: Seq<char>,
    domains: Seq<char>,
    wrap: Seq<char>,
    account: Seq<char>,
    cert: Seq<char>,
    key: Seq<char>,
    listen: Seq<char>,
    email: Seq<char>,
) -> Seq<(Seq<char>, Seq<char>)> {
    let base = seq![
        ("SURMOUNT_ACME_ENABLE"@, "1"@),
        ("SURMOUNT_ACME_DIRECTORY"@, url),
        ("SURMOUNT_ACME_DOMAINS"@, domains),
        ("SURMOUNT_ACME_DNS_PROVIDER"@, "external-hook"@),
        ("SURMOUNT_ACME_DNS_HOOK"@, wrap),
        ("SURMOUNT_ACME_DNS_HOOK_TIMEOUT_SECS"@, "600"@),
        ("SURMOUNT_ACME_ACCOUNT_CREDENTIALS_PATH"@, account),
        ("SURMOUNT_TLS_CERT"@, cert),
        ("SURMOUNT_TLS_KEY"@, key),
        ("SURMOUNT_LISTEN_MODE"@, "https"@),
        ("SURMOUNT_LISTEN"@, spec_issue_listen(listen)),
        ("SURMOUNT_AUTH_MODE"@, "off"@),
    ];
    if email.len() == 0 { base } else { base.push(("SURMOUNT_ACME_EMAIL"@, email)) }
}

pub open spec fn env_views(v: Seq<(String, String)>) -> Seq<(Seq<char>, Seq<char>)> {
    v.map_values(|e: (String, String)| (e.0@, e.1@))
}

fn env_pair(k: &str, v: &str) -> (r: (String, String))
    ensures
        r.0@ == k@,
        r.1@ == v@,
{
    (k.to_owned(), v.to_owned())
}

/// The environment set on the issuing UI child (see [`spec_issue_env`]).
/// `SURMOUNT_ACME_DNS_NAMECHEAP_ENV` is removed from it as well: the wrap
/// script sets it for the hook only.
pub fn issue_env(
    url: &str,
    domains: &str,
    wrap: &str,
    account: &str,
    cert: &str,
    key: &str,
    listen: &str,
    email: &str,
) -> (r: Vec<(String, String)>)
    ensures
        env_views(r@) == spec_issue_env(url@, domains@, wrap@, account@, cert@, key@, listen@, email@),
{
    let mut v: Vec<(String, String)> = Vec::new();
    v.push(env_pair("SURMOUNT_ACME_ENABLE", "1"));
    v.push(env_pair("SURMOUNT_ACME_DIRECTORY", url));
    v.push(env_pair("SURMOUNT_ACME_DOMAINS", domains));
    v.push(env_pair("SURMOUNT_ACME_DNS_PROVIDER", "external-hook"));
    v.push(env_pair("SURMOUNT_ACME_DNS_HOOK", wrap));
    v.push(env_pair("SURMOUNT_ACME_DNS_HOOK_TIMEOUT_SECS", "600"));
    v.push(env_pair("SURMOUNT_ACME_ACCOUNT_CREDENTIALS_PATH", account));
    v.push(env_pair("SURMOUNT_TLS_CERT", cert));
    v.push(env_pair("SURMOUNT_TLS_KEY", key));
    v.push(env_pair("SURMOUNT_LISTEN_MODE", "https"));
    let l = if listen.is_empty() { "127.0.0.1:18780" } else { listen };
    v.push(env_pair("SURMOUNT_LISTEN", l));
    v.push(env_pair("SURMOUNT_AUTH_MODE", "off"));
    let ghost base = env_views(v@);
    if !email.is_empty() {
        v.push(env_pair("SURMOUNT_ACME_EMAIL", email));
        assert(env_views(v@) =~= base.push(("SURMOUNT_ACME_EMAIL"@, email@)));
    }
    assert(base =~= seq![
        ("SURMOUNT_ACME_ENABLE"@, "1"@),
        ("SURMOUNT_ACME_DIRECTORY"@, url@),
        ("SURMOUNT_ACME_DOMAINS"@, domains@),
        ("SURMOUNT_ACME_DNS_PROVIDER"@, "external-hook"@),
        ("SURMOUNT_ACME_DNS_HOOK"@, wrap@),
        ("SURMOUNT_ACME_DNS_HOOK_TIMEOUT_SECS"@, "600"@),
        ("SURMOUNT_ACME_ACCOUNT_CREDENTIALS_PATH"@, account@),
        ("SURMOUNT_TLS_CERT"@, cert@),
        ("SURMOUNT_TLS_KEY"@, key@),
        ("SURMOUNT_LISTEN_MODE"@, "https"@),
        ("SURMOUNT_LISTEN"@, spec_issue_listen(listen@)),
        ("SURMOUNT_AUTH_MODE"@, "off"@),
    ]);
    v
}

/// What a poll of the issuing child saw.
#[derive(Debug, PartialEq, Eq)]
pub enum ChildState {
    Running,
    /// Exited; `code` is the exit code when there is one.
    Exited { success: bool, code: Option<i32> },
    /// Waiting on the child failed with this error text.
    WaitFailed(String),
}

/// What the issue loop does after one poll.
#[derive(Debug, PartialEq, Eq)]
pub enum IssueStep {
    /// Sleep 50 ms and poll again.
    Wait,
    /// The PEMs are there: stop the child when `kill_child`, then check the
    /// issued names.
    Done { kill_child: bool },
    /// Give up through [`issue_fail`] with this message.
    Fail { kill_child: bool, msg: String },
    /// Give up with this refusal as it stands.
    Refuse { kill_child: bool, err: String },
}

/// Decimal text of a signed code.
pub open spec fn signed_dec(n: int) -> Seq<char> {
    if n < 0 { seq!['-'] + dec((-n) as nat) } else { dec(n as nat) }
}

/// Spec view of [`IssueStep`].
pub enum StepView {
    Wait,
    Done { kill_child: bool },
    Fail { kill_child: bool, msg: Seq<char> },
    Refuse { kill_child: bool, err: Seq<char> },
}

impl IssueStep {
    pub open spec fn view(&self) -> StepView {
        match self {
            IssueStep::Wait => StepView::Wait,
            IssueStep::Done { kill_child } => StepView::Done { kill_child: *kill_child },
            IssueStep::Fail { kill_child, msg } => StepView::Fail { kill_child: *kill_child, msg: msg@ },
            IssueStep::Refuse { kill_child, err } => StepView::Refuse { kill_child: *kill_child, err: err@ },
        }
    }
}

/// One turn of the issue loop: past the deadline the child is stopped and
/// the issue fails; an exited child succeeded only if the PEMs are there
/// (else its exit code, or that it left before the PEMs, is the failure);
/// a running child with both PEMs written is stopped; a wait error stops it
/// and is the refusal.
pub open spec fn spec_issue_step(deadline_passed: bool, child: ChildState, pems_present: bool) -> StepView {
    if deadline_passed {
        StepView::Fail { kill_child: true, msg: "issue timed out waiting for PEMs"@ }
    } else {
        match child {
            ChildState::Exited { success, code } => if pems_present {
                StepView::Done { kill_child: false }
            } else if !success {
                StepView::Fail {
                    kill_child: false,
                    msg: "ui-bin/hook child exited non-zero ("@ + signed_dec(match code {
                        Some(c) => c as int,
                        None => -1,
                    }) + ")"@,
                }
            } else {
                StepView::Fail { kill_child: false, msg: "ui-bin exited before PEMs"@ }
            },
            ChildState::Running => if pems_present {
                StepView::Done { kill_child: true }
            } else {
                StepView::Wait
            },
            ChildState::WaitFailed(e) => StepView::Refuse {
                kill_child: true,
                err: spec_die(LAPTOP_PREFIX@, "ui-bin wait: "@ + e@),
            },
        }
    }
}

fn signed_dec_exec(n: i32) -> (r: Vec<char>)
    ensures
        r@ == signed_dec(n as int),
{
    if n < 0 {
        let m: i64 = n as i64;
        let a: u64 = (0i64 - m) as u64;
        let mut r: Vec<char> = Vec::new();
        r.push('-');
        let d = dec_exec(a);
        extend(&mut r, d.as_slice());
        r
    } else {
        dec_exec(n as u64)
    }
}

/// One turn of the issue loop (see [`spec_issue_step`]).
pub fn issue_step(deadline_passed: bool, child: &ChildState, pems_present: bool) -> (r: IssueStep)
    ensures
        r@ == spec_issue_step(deadline_passed, *child, pems_present),
{
    if deadline_passed {
        return IssueStep::Fail { kill_child: true, msg: "issue timed out waiting for PEMs".to_owned() };
    }
    match child {
        ChildState::Exited { success, code } => {
            if pems_present {
                IssueStep::Done { kill_child: false }
            } else if !*success {
                let c: i32 = match code {
                    Some(c) => *c,
                    None => -1,
                };
                let mut m = chars_of("ui-bin/hook child exited non-zero (");
                let d = signed_dec_exec(c);
                extend(&mut m, d.as_slice());
                extend(&mut m, chars_of(")").as_slice());
                IssueStep::Fail { kill_child: false, msg: string_of(m.as_slice()) }
            } else {
                IssueStep::Fail { kill_child: false, msg: "ui-bin exited before PEMs".to_owned() }
            }
        },
        ChildState::Running => {
            if pems_present {
                IssueStep::Done { kill_child: true }
            } else {
                IssueStep::Wait
            }
        },
        ChildState::WaitFailed(e) => {
            let mut m = chars_of("ui-bin wait: ");
            extend(&mut m, chars_of(e.as_str()).as_slice());
            IssueStep::Refuse { kill_child: true, err: die(LAPTOP_PREFIX, string_of(m.as_slice()).as_str()) }
        },
    }
}

/// What `--check` reports: the leaf is due when it is missing or when
/// `openssl x509 -checkend` did not pass.
pub fn check_report(leaf_present: bool, checkend_passed: bool) -> (r: &'static str)
    ensures
        !leaf_present ==> r@ == "laptop-renew-cert: renew_needed=yes (leaf missing)"@,
        leaf_present && checkend_passed ==> r@ == "laptop-renew-cert: renew_needed=no (not due; issue not needed)"@,
        leaf_present && !checkend_passed ==> r@ == "laptop-renew-cert: renew_needed=yes (due; issue needed)"@,
{
    if !leaf_present {
        "laptop-renew-cert: renew_needed=yes (leaf missing)"
    } else if checkend_passed {
        "laptop-renew-cert: renew_needed=no (not due; issue not needed)"
    } else {
        "laptop-renew-cert: renew_needed=yes (due; issue needed)"
    }
}

/// `PathBuf::join` onto the working directory for a relative path; an
/// absolute path (leading `/`) stays.
pub open spec fn spec_absolutize(p: Seq<char>, cwd: Seq<char>) -> Seq<char> {
    if starts_with(p, "/"@) {
        p
    } else if cwd.len() == 0 || ends_with(cwd, "/"@) {
        cwd + p
    } else {
        cwd + "/"@ + p
    }
}

/// `p` made absolute against the working directory `cwd` (see
/// [`spec_absolutize`]).
pub fn absolutize(p: &str, cwd: &str) -> (r: String)
    ensures
        r@ == spec_absolutize(p@, cwd@),
{
    let pv = chars_of(p);
    let slash = chars_of("/");
    if starts_with_exec(pv.as_slice(), slash.as_slice()) {
        return own(p);
    }
    let cv = chars_of(cwd);
    let mut out = slice_of(cv.as_slice(), 0, cv.len());
    assert(out@ =~= cv@);
    if !(cv.len() == 0 || ends_with_exec(cv.as_slice(), slash.as_slice())) {
        out.push('/');
        proof {
            reveal_strlit("/");
        }
        assert(out@ =~= cwd@ + "/"@);
    }
    extend(&mut out, pv.as_slice());
    string_of(out.as_slice())
}


// ---------------------------------------------------------------------------
// The floored leaf is never refused
// ---------------------------------------------------------------------------

/// A name already in normal form with no comma: not empty, no ASCII
/// upper-case letter, no comma or whitespace, no trailing dot.
pub open spec fn plain_name(a: Seq<char>) -> bool {
    &&& a.len() > 0
    &&& a.last() != '.'
    &&& forall|i: int| 0 <= i < a.len() ==> !('A' <= #[trigger] a[i] && a[i] <= 'Z') && a[i] != ',' && !is_ws(a[i])
}

proof fn lemma_plain_name_normal(a: Seq<char>)
    requires
        plain_name(a),
    ensures
        spec_normalize_name(a) == a,
        !a.contains(','),
{
    assert(!is_ws(a[0]));
    assert(!is_ws(a[a.len() - 1]));
    assert(trim_start(a) == a);
    assert(trim_end(a) == a);
    assert(trim(a) == a);
    assert(trim_end_char(a, '.') == a);
    assert(lower(a) =~= a);
}

proof fn lemma_intended_leaf_plain()
    ensures
        forall|k: int| 0 <= k < intended_leaf().len() ==> plain_name(#[trigger] intended_leaf()[k]),
{
    reveal_strlit("surmount.systems");
    reveal_strlit("www.surmount.systems");
    reveal_strlit("mail.surmount.systems");
    reveal_strlit("services.surmount.systems");
    reveal_strlit("mta-sts.surmount.systems");
    reveal_strlit("baxterartworks.com");
    reveal_strlit("www.baxterartworks.com");
    reveal_strlit("btcfur.com");
    reveal_strlit("www.btcfur.com");
    reveal_strlit("exophiles.org");
    reveal_strlit("www.exophiles.org");
    reveal_strlit("iantuckerstudios.com");
    reveal_strlit("www.iantuckerstudios.com");
    reveal_strlit("nostrfurs.com");
    reveal_strlit("www.nostrfurs.com");
    reveal_strlit("yiffa.app");
    reveal_strlit("www.yiffa.app");
    reveal_strlit("cryptoquick.com");
    reveal_strlit("www.cryptoquick.com");
    reveal_strlit("mail.cryptoquick.com");
    let leaf = intended_leaf();
    assert(plain_name(leaf[0]));
    assert(plain_name(leaf[1]));
    assert(plain_name(leaf[2]));
    assert(plain_name(leaf[3]));
    assert(plain_name(leaf[4]));
    assert(plain_name(leaf[5]));
    assert(plain_name(leaf[6]));
    assert(plain_name(leaf[7]));
    assert(plain_name(leaf[8]));
    assert(plain_name(leaf[9]));
    assert(plain_name(leaf[10]));
    assert(plain_name(leaf[11]));
    assert(plain_name(leaf[12]));
    assert(plain_name(leaf[13]));
    assert(plain_name(leaf[14]));
    assert(plain_name(leaf[15]));
    assert(plain_name(leaf[16]));
    assert(plain_name(leaf[17]));
    assert(plain_name(leaf[18]));
    assert(plain_name(leaf[19]));
}

proof fn lemma_floor_prefix(out: Seq<Seq<char>>, profile: Seq<Seq<char>>)
    ensures
        floor_from(out, profile).len() >= out.len(),
        floor_from(out, profile).take(out.len() as int) == out,
    decreases profile.len(),
{
    if profile.len() > 0 {
        let d = spec_normalize_name(profile[0]);
        if d.len() == 0 || cloudflare_extra_zones().contains(d) || out.contains(d) {
            lemma_floor_prefix(out, profile.drop_first());
        } else {
            lemma_floor_prefix(out.push(d), profile.drop_first());
            let f = floor_from(out.push(d), profile.drop_first());
            assert(f.take(out.len() as int) =~= f.take(out.len() as int + 1).take(out.len() as int));
            assert(out.push(d).take(out.len() as int) =~= out);
        }
    }
}

proof fn lemma_join_concat(a: Seq<Seq<char>>, b: Seq<Seq<char>>, sep: Seq<char>)
    requires
        a.len() > 0,
        b.len() > 0,
    ensures
        join(a + b, sep) == join(a, sep) + sep + join(b, sep),
    decreases b.len(),
{
    let ab = a + b;
    assert(ab.drop_last() =~= a + b.drop_last());
    assert(ab.last() == b.last());
    if b.len() == 1 {
        assert(a + b.drop_last() =~= a);
    } else {
        lemma_join_concat(a, b.drop_last(), sep);
        assert(join(ab, sep) =~= join(a, sep) + sep + join(b, sep));
    }
}

proof fn lemma_split_concat(u: Seq<char>, c: char, w: Seq<char>)
    ensures
        split_char(u + seq![c] + w, c) == split_char(u, c) + split_char(w, c),
    decreases u.len(),
{
    let t = u + seq![c] + w;
    crate::text::lemma_find_char(u, c);
    match find_char(u, c) {
        None => {
            assert forall|j: int| 0 <= j < u.len() implies t[j] != c by {
                assert(t[j] == u[j]);
            }
            crate::text::lemma_find_char_is(t, c, u.len() as int);
            assert(t.take(u.len() as int) =~= u);
            assert(t.skip(u.len() as int + 1) =~= w);
        },
        Some(i) => {
            assert forall|j: int| 0 <= j < i implies t[j] != c by {
                assert(t[j] == u[j]);
            }
            assert(t[i] == u[i]);
            crate::text::lemma_find_char_is(t, c, i);
            assert(t.take(i) =~= u.take(i));
            assert(t.skip(i + 1) =~= u.skip(i + 1) + seq![c] + w);
            lemma_split_concat(u.skip(i + 1), c, w);
        },
    }
}

proof fn lemma_split_join(a: Seq<Seq<char>>)
    requires
        a.len() > 0,
        forall|k: int| 0 <= k < a.len() ==> !(#[trigger] a[k]).contains(','),
    ensures
        split_char(join(a, ","@), ',') == a,
    decreases a.len(),
{
    reveal_strlit(",");
    let last = a.last();
    crate::text::lemma_find_char(last, ',');
    if let Some(i) = find_char(last, ',') {
        assert(last[i] == ',');
    }
    if a.len() == 1 {
        assert(join(a, ","@) == a[0]);
        assert(split_char(a[0], ',') =~= seq![a[0]]);
    } else {
        let d = a.drop_last();
        assert forall|k: int| 0 <= k < d.len() implies !(#[trigger] d[k]).contains(',') by {
            assert(d[k] == a[k]);
        }
        lemma_split_join(d);
        assert(","@ =~= seq![',']);
        lemma_split_concat(join(d, ","@), ',', last);
        assert(split_char(last, ',') =~= seq![last]);
        assert(d + seq![last] =~= a);
    }
}

proof fn lemma_names_of_concat(x: Seq<Seq<char>>, y: Seq<Seq<char>>)
    ensures
        names_of(x + y) == names_of(x) + names_of(y),
    decreases y.len(),
{
    if y.len() == 0 {
        assert(x + y =~= x);
        assert(names_of(x) + names_of(y) =~= names_of(x));
    } else {
        assert((x + y).drop_last() =~= x + y.drop_last());
        assert((x + y).last() == y.last());
        lemma_names_of_concat(x, y.drop_last());
        if spec_normalize_name(y.last()).len() == 0 {
        } else {
            assert(names_of(x + y) =~= names_of(x) + names_of(y));
        }
    }
}

proof fn lemma_names_of_normal(a: Seq<Seq<char>>)
    requires
        forall|k: int| 0 <= k < a.len() ==> plain_name(#[trigger] a[k]),
    ensures
        names_of(a) == a,
    decreases a.len(),
{
    if a.len() > 0 {
        let d = a.drop_last();
        assert forall|k: int| 0 <= k < d.len() implies plain_name(#[trigger] d[k]) by {
            assert(d[k] == a[k]);
        }
        lemma_names_of_normal(d);
        assert(plain_name(a[a.len() - 1]));
        lemma_plain_name_normal(a.last());
        assert(d.push(a.last()) =~= a);
    }
}

proof fn lemma_missing_none(want: Seq<Seq<char>>, have: Seq<Seq<char>>)
    requires
        forall|k: int| 0 <= k < want.len() ==> have.contains(#[trigger] want[k]),
    ensures
        missing_from(want, have).len() == 0,
    decreases want.len(),
{
    if want.len() > 0 {
        let d = want.drop_last();
        assert forall|k: int| 0 <= k < d.len() implies have.contains(#[trigger] d[k]) by {
            assert(d[k] == want[k]);
        }
        lemma_missing_none(d, have);
        assert(have.contains(want[want.len() - 1]));
    }
}

proof fn lemma_missing_from_contains(want: Seq<Seq<char>>, have: Seq<Seq<char>>, x: Seq<char>)
    ensures
        missing_from(want, have).contains(x) <==> (want.contains(x) && !have.contains(x)),
    decreases want.len(),
{
    if want.len() > 0 {
        let d = want.drop_last();
        lemma_missing_from_contains(d, have, x);
        let m = missing_from(d, have);
        if want.contains(x) && !have.contains(x) {
            let k = choose|k: int| 0 <= k < want.len() && want[k] == x;
            if k < d.len() {
                assert(d[k] == x);
            }
        }
        if d.contains(x) {
            let k = choose|k: int| 0 <= k < d.len() && d[k] == x;
            assert(want[k] == x);
        }
        if !have.contains(want.last()) {
            assert(missing_from(want, have) == m.push(want.last()));
            if m.push(want.last()).contains(x) {
                let k = choose|k: int| 0 <= k < m.len() + 1 && m.push(want.last())[k] == x;
                if k < m.len() {
                    assert(m[k] == x);
                }
            }
            if m.contains(x) {
                let k = choose|k: int| 0 <= k < m.len() && m[k] == x;
                assert(m.push(want.last())[k] == x);
            }
            assert(m.push(want.last())[m.len() as int] == want.last());
        }
    }
}

proof fn lemma_missing_from_filter(want: Seq<Seq<char>>, have: Seq<Seq<char>>)
    ensures
        missing_from(want, have) == want.filter(|x: Seq<char>| !have.contains(x)),
    decreases want.len(),
{
    reveal(Seq::filter);
    if want.len() > 0 {
        lemma_missing_from_filter(want.drop_last(), have);
    }
}

/// A production issue list is refused as a dropped intended leaf exactly
/// when it names an intended name outside the primary zone and yet lacks
/// some intended name; the names reported missing are exactly the intended
/// names the list lacks, in the leaf's order.
pub proof fn law_dropped_leaf_refusal(domains: Seq<char>)
    ensures
        ({
            let have = spec_parse_domain_list(domains);
            let leaf = intended_leaf();
            &&& spec_refuse_dropped_intended_leaf(domains) is Ok <==> (!(exists|i: int|
                0 <= i < have.len() && leaf.contains(#[trigger] have[i]) && is_extra_zone(have[i])) || (forall|k: int|
                0 <= k < leaf.len() ==> have.contains(#[trigger] leaf[k])))
            &&& forall|x: Seq<char>|
                #[trigger] missing_from(leaf, have).contains(x) <==> (leaf.contains(x) && !have.contains(x))
            &&& missing_from(leaf, have) == leaf.filter(|x: Seq<char>| !have.contains(x))
        }),
{
    lemma_missing_from_filter(intended_leaf(), spec_parse_domain_list(domains));
    let have = spec_parse_domain_list(domains);
    let leaf = intended_leaf();
    assert forall|x: Seq<char>| #[trigger] missing_from(leaf, have).contains(x) <==> (leaf.contains(x) && !have.contains(x)) by {
        lemma_missing_from_contains(leaf, have, x);
    }
    if forall|k: int| 0 <= k < leaf.len() ==> have.contains(#[trigger] leaf[k]) {
        lemma_missing_none(leaf, have);
    } else {
        let k = choose|k: int| 0 <= k < leaf.len() && !have.contains(#[trigger] leaf[k]);
        lemma_missing_from_contains(leaf, have, leaf[k]);
        assert(leaf.contains(leaf[k]));
        assert(missing_from(leaf, have).len() > 0);
    }
}

/// The leaf floored from a host profile is never refused as a dropped
/// intended leaf: it names every intended name, whatever the profile held.
pub proof fn law_floored_leaf_never_refused(profile: Seq<Seq<char>>)
    ensures
        spec_refuse_dropped_intended_leaf(spec_floor_intended_leaf(profile)) == Ok::<(), Seq<char>>(()),
{
    let leaf = intended_leaf();
    lemma_intended_leaf_plain();
    let f = floor_from(leaf, profile);
    lemma_floor_prefix(leaf, profile);
    let rest = f.skip(leaf.len() as int);
    assert(leaf + rest =~= f);
    assert forall|k: int| 0 <= k < leaf.len() implies !(#[trigger] leaf[k]).contains(',') by {
        lemma_plain_name_normal(leaf[k]);
    }
    lemma_split_join(leaf);
    lemma_names_of_normal(leaf);
    let pieces = split_char(join(f, ","@), ',');
    if rest.len() == 0 {
        assert(f =~= leaf);
        assert(pieces == leaf);
        assert(names_of(pieces) == leaf);
    } else {
        lemma_join_concat(leaf, rest, ","@);
        reveal_strlit(",");
        assert(","@ =~= seq![',']);
        lemma_split_concat(join(leaf, ","@), ',', join(rest, ","@));
        lemma_names_of_concat(leaf, split_char(join(rest, ","@), ','));
    }
    let have = spec_parse_domain_list(spec_floor_intended_leaf(profile));
    assert(have.take(leaf.len() as int) =~= leaf);
    assert forall|k: int| 0 <= k < leaf.len() implies have.contains(#[trigger] leaf[k]) by {
        assert(have[k] == leaf[k]);
    }
    lemma_missing_none(leaf, have);
}

// ---------------------------------------------------------------------------
// Preflight
// ---------------------------------------------------------------------------

/// What the preflight settles: the final options, the ACME directory URL
/// and label, and the Namecheap env path.
pub struct Preflight {
    pub opts: LaptopOpts,
    pub url: String,
    pub label: String,
    pub namecheap: String,
}

pub open spec fn spec_host_profile_meta(path: Seq<char>, meta: LinkMeta) -> Result<(), Seq<char>> {
    match meta {
        LinkMeta::NotFound => Err(spec_blocked("host-profile missing: "@ + path)),
        LinkMeta::Error(_) => Err(spec_blocked("host-profile missing: "@ + path)),
        LinkMeta::Symlink => Err(spec_die(LAPTOP_PREFIX@, "host-profile must be a regular file (symlink refused): "@ + path)),
        _ => Ok(()),
    }
}

/// The preflight refusals of a run, in order: the ACME directory, the
/// Namecheap env path and its file, its settle time, `--install-timer`
/// without a target, the host profile (metadata, then its text), then the
/// final options. `namecheap_text` is the env file's text when readable;
/// `profile_text` the host profile's text when readable.
pub open spec fn spec_preflight(
    o: OptsView,
    namecheap_meta: LinkMeta,
    namecheap_text: Option<Seq<char>>,
    profile_meta: LinkMeta,
    profile_text: Option<Seq<char>>,
) -> Result<(OptsView, Seq<char>, Seq<char>, Seq<char>), Seq<char>> {
    match spec_resolve_directory(o.directory_arg) {
        Err(e) => Err(e),
        Ok((url, label)) => match o.namecheap {
            None => Err(spec_blocked("missing Namecheap env (laptop custody; ClientIp is laptop egress)"@)),
            Some(nc) => match spec_check_namecheap_env(nc, namecheap_meta) {
                Err(e) => Err(e),
                Ok(_) => {
                    let settle = match namecheap_text {
                        Some(t) => spec_env_file_key(t, "SettleSeconds"@),
                        None => None,
                    };
                    match spec_check_settle(settle, label, o.issue) {
                        Err(e) => Err(e),
                        Ok(_) => if o.install_timer && o.target.len() == 0 {
                            Err(spec_blocked("--install-timer requires --target so weekly --live can install PEMs"@))
                        } else {
                            let fin = match o.host_profile {
                                None => spec_finalize(o, None),
                                Some(p) => match spec_host_profile_meta(p, profile_meta) {
                                    Err(e) => Err(e),
                                    Ok(_) => match profile_text {
                                        None => Err(spec_blocked("host-profile unreadable: "@ + p)),
                                        Some(t) => spec_finalize(o, Some(spec_parse_host_profile(t))),
                                    },
                                },
                            };
                            match fin {
                                Err(e) => Err(e),
                                Ok(f) => Ok((f, url, label, nc)),
                            }
                        },
                    }
                },
            },
        },
    }
}

/// Runs the preflight over what the caller found on disk (see
/// [`spec_preflight`]); the first refusal wins.
pub fn laptop_preflight(
    opts: LaptopOpts,
    namecheap_meta: &LinkMeta,
    namecheap_text: Option<&str>,
    profile_meta: &LinkMeta,
    profile_text: Option<&str>,
) -> (r: Result<Preflight, String>)
    ensures
        ({
            let s = spec_preflight(
                opts@,
                *namecheap_meta,
                match namecheap_text {
                    Some(t) => Some(t@),
                    None => None,
                },
                *profile_meta,
                match profile_text {
                    Some(t) => Some(t@),
                    None => None,
                },
            );
            match r {
                Ok(p) => s == Ok::<(OptsView, Seq<char>, Seq<char>, Seq<char>), Seq<char>>(
                    (p.opts@, p.url@, p.label@, p.namecheap@),
                ),
                Err(e) => s == Err::<(OptsView, Seq<char>, Seq<char>, Seq<char>), Seq<char>>(e@),
            }
        }),
{
    let (url, label) = match resolve_directory(opts.directory_arg.as_str()) {
        Err(e) => return Err(e),
        Ok(x) => x,
    };
    let namecheap = match require_namecheap_path(&opts.namecheap) {
        Err(e) => return Err(e),
        Ok(p) => p,
    };
    match check_namecheap_env(namecheap.as_str(), namecheap_meta) {
        Err(e) => return Err(e),
        Ok(()) => {},
    }
    let settle = match namecheap_text {
        Some(t) => env_file_key(t, "SettleSeconds"),
        None => None,
    };
    match check_settle(&settle, label.as_str(), opts.issue) {
        Err(e) => return Err(e),
        Ok(()) => {},
    }
    match check_install_timer(opts.install_timer, opts.target.as_str()) {
        Err(e) => return Err(e),
        Ok(()) => {},
    }
    let profile = match &opts.host_profile {
        None => None,
        Some(p) => {
            match check_host_profile_meta(p.as_str(), profile_meta) {
                Err(e) => return Err(e),
                Ok(()) => {},
            }
            match profile_text {
                None => {
                    let h = chars_of("host-profile unreadable: ");
                    let pv = chars_of(p.as_str());
                    let m = concat(h.as_slice(), pv.as_slice());
                    return Err(blocked(m.as_slice()));
                },
                Some(t) => Some(parse_host_profile(t)),
            }
        },
    };
    match finalize_opts(opts, profile) {
        Err(e) => Err(e),
        Ok(o) => Ok(Preflight { opts: o, url, label, namecheap }),
    }
}

} // verus!
