//! Namecheap `KEY=value` credentials. Never logs the ApiKey.
//!
//! The file's owner-only check works on what `symlink_metadata` said
//! ([`LinkMeta`]); the lines are read by the caller and handed in, each as
//! its text or `None` where reading failed.

use vstd::prelude::*;
use crate::text::{chars_of, concat, digit_char, digit_exec, ends_with, ends_with_exec, eq, find_char, find_char_exec, opt_view, parse_unsigned, parse_unsigned_exec, res_view, slice_of, string_of, trim, trim_end_char, trim_end_char_vec, trim_vec, unit_view};
use crate::tls::{LinkMeta};

verus! {

pub const DEFAULT_CRED_PATH: &'static str = "/var/lib/surmount/secrets/acme/namecheap.env";

/// Namecheap API credentials and hook knobs (no `Debug`: the key stays out
/// of logs).
pub struct Credentials {
    pub api_user: String,
    pub api_key: String,
    pub user_name: String,
    pub client_ip: String,
    pub sld: String,
    pub tld: String,
    pub settle_secs: u64,
    pub txt_ttl: u32,
    pub path: String,
}

/// Spec view of [`Credentials`].
pub struct CredView {
    pub api_user: Seq<char>,
    pub api_key: Seq<char>,
    pub user_name: Seq<char>,
    pub client_ip: Seq<char>,
    pub sld: Seq<char>,
    pub tld: Seq<char>,
    pub settle_secs: u64,
    pub txt_ttl: u32,
    pub path: Seq<char>,
}

impl Credentials {
    pub open spec fn view(&self) -> CredView {
        CredView {
            api_user: self.api_user@,
            api_key: self.api_key@,
            user_name: self.user_name@,
            client_ip: self.client_ip@,
            sld: self.sld@,
            tld: self.tld@,
            settle_secs: self.settle_secs,
            txt_ttl: self.txt_ttl,
            path: self.path@,
        }
    }
}

// ---------------------------------------------------------------------------
// Spec model
// ---------------------------------------------------------------------------

/// `"{prefix}: {msg}"`.
pub open spec fn spec_die(prefix: Seq<char>, msg: Seq<char>) -> Seq<char> {
    prefix + ": "@ + msg
}

/// `{:o}` of a natural number.
pub open spec fn oct(n: nat) -> Seq<char>
    decreases n,
{
    if n < 8 {
        seq![digit_char(n)]
    } else {
        oct(n / 8).push(digit_char(n % 8))
    }
}

/// The credentials file must be an owner-only regular file.
pub open spec fn spec_require_owner_only(path: Seq<char>, prefix: Seq<char>, meta: LinkMeta) -> Result<(), Seq<char>> {
    if path.len() == 0 {
        Err(spec_die(prefix, "credentials path empty"@))
    } else {
        match meta {
            LinkMeta::NotFound => Err(spec_die(prefix, "credentials file missing: "@ + path)),
            LinkMeta::Error(_) => Err(spec_die(prefix, "credentials file missing: "@ + path)),
            LinkMeta::Symlink => Err(spec_die(prefix, "credentials path must be a regular file (symlink refused): "@ + path)),
            LinkMeta::NotRegular => Err(spec_die(prefix, "credentials file missing: "@ + path)),
            LinkMeta::Regular { mode } => if (mode % 512) % 64 != 0 {
                Err(spec_die(
                    prefix,
                    "credentials file must be owner-only (mode 0600; refuse group/world bits): "@ + path + " (mode "@
                        + oct((mode % 512) as nat) + ")"@,
                ))
            } else {
                Ok(())
            },
        }
    }
}

/// A value without one pair of matching surrounding quotes.
pub open spec fn strip_quotes(v: Seq<char>) -> Seq<char> {
    if v.len() >= 2 && ((v[0] == '"' && v.last() == '"') || (v[0] == '\'' && v.last() == '\'')) {
        v.subrange(1, v.len() - 1)
    } else {
        v
    }
}

/// The line without one trailing `\r`.
pub open spec fn strip_cr(l: Seq<char>) -> Seq<char> {
    if l.len() > 0 && l.last() == '\r' { l.drop_last() } else { l }
}

/// Credentials before any line: all empty, no settle time, TTL 60.
pub open spec fn cred_start(path: Seq<char>) -> CredView {
    CredView {
        api_user: seq![],
        api_key: seq![],
        user_name: seq![],
        client_ip: seq![],
        sld: seq![],
        tld: seq![],
        settle_secs: 0,
        txt_ttl: 60,
        path: path,
    }
}

/// One line of the file applied to the credentials read so far.
pub open spec fn spec_cred_line(st: CredView, line: Option<Seq<char>>, prefix: Seq<char>) -> Result<CredView, Seq<char>> {
    match line {
        None => Err(spec_die(prefix, "credentials unreadable: "@ + st.path)),
        Some(raw) => {
            let l = strip_cr(raw);
            let t = trim(l);
            if t.len() == 0 || t[0] == '#' {
                Ok(st)
            } else {
                match find_char(l, '=') {
                    None => Err(spec_die(prefix, "credentials line must be KEY=value (file="@ + st.path + ")"@)),
                    Some(i) => {
                        let key = trim(l.take(i));
                        let val = strip_quotes(l.skip(i + 1));
                        if key == "ApiUser"@ || key == "API_USER"@ {
                            Ok(CredView { api_user: val, ..st })
                        } else if key == "ApiKey"@ || key == "API_KEY"@ {
                            Ok(CredView { api_key: val, ..st })
                        } else if key == "UserName"@ || key == "Username"@ || key == "USER_NAME"@ {
                            Ok(CredView { user_name: val, ..st })
                        } else if key == "ClientIp"@ || key == "CLIENT_IP"@ || key == "SourceIp"@ || key == "SOURCE_IP"@ {
                            Ok(CredView { client_ip: val, ..st })
                        } else if key == "SLD"@ || key == "sld"@ {
                            Ok(CredView { sld: val, ..st })
                        } else if key == "TLD"@ || key == "tld"@ {
                            Ok(CredView { tld: val, ..st })
                        } else if key == "SettleSeconds"@ || key == "SETTLE_SECONDS"@ {
                            match parse_unsigned(val, u64::MAX as nat) {
                                Some(n) => Ok(CredView { settle_secs: n as u64, ..st }),
                                None => Err(spec_die(prefix, "SettleSeconds must be a non-negative integer"@)),
                            }
                        } else if key == "TxtTtl"@ || key == "TXT_TTL"@ || key == "TTL"@ {
                            match parse_unsigned(val, u32::MAX as nat) {
                                Some(n) => Ok(CredView { txt_ttl: n as u32, ..st }),
                                None => Err(spec_die(prefix, "TxtTtl must be an integer >= 60"@)),
                            }
                        } else {
                            Ok(st)
                        }
                    },
                }
            }
        },
    }
}

/// All lines, in order; the first refusal wins.
pub open spec fn spec_cred_lines(lines: Seq<Option<Seq<char>>>, path: Seq<char>, prefix: Seq<char>) -> Result<CredView, Seq<char>>
    decreases lines.len(),
{
    if lines.len() == 0 {
        Ok(cred_start(path))
    } else {
        match spec_cred_lines(lines.drop_last(), path, prefix) {
            Err(e) => Err(e),
            Ok(st) => spec_cred_line(st, lines.last(), prefix),
        }
    }
}

/// `credentials missing {field} (file={path})`.
pub open spec fn missing_msg(field: Seq<char>, path: Seq<char>) -> Seq<char> {
    "credentials missing "@ + field + " (file="@ + path + ")"@
}

/// The credentials a file's lines give: ApiUser, ApiKey, SLD and TLD
/// required, TxtTtl at least 60, UserName defaulting to ApiUser.
pub open spec fn spec_parse_credentials(lines: Seq<Option<Seq<char>>>, path: Seq<char>, prefix: Seq<char>) -> Result<CredView, Seq<char>> {
    match spec_cred_lines(lines, path, prefix) {
        Err(e) => Err(e),
        Ok(st) => if st.api_user.len() == 0 {
            Err(spec_die(prefix, missing_msg("ApiUser"@, path)))
        } else if st.api_key.len() == 0 {
            Err(spec_die(prefix, missing_msg("ApiKey"@, path)))
        } else if st.sld.len() == 0 {
            Err(spec_die(prefix, missing_msg("SLD"@, path)))
        } else if st.tld.len() == 0 {
            Err(spec_die(prefix, missing_msg("TLD"@, path)))
        } else if st.txt_ttl < 60 {
            Err(spec_die(prefix, "TxtTtl must be an integer >= 60"@))
        } else if st.user_name.len() == 0 {
            Ok(CredView { user_name: st.api_user, ..st })
        } else {
            Ok(st)
        }
    }
}

/// Host label of a challenge name under `sld.tld` (`@` for the apex).
pub open spec fn spec_fqdn_to_hostname(fqdn: Seq<char>, sld: Seq<char>, tld: Seq<char>) -> Result<Seq<char>, Seq<char>> {
    let f = trim_end_char(fqdn, '.');
    let suffix = sld + "."@ + tld;
    let dotted = "."@ + suffix;
    if f.len() == 0 {
        Err(spec_die("acme-dns-hook-namecheap"@, "empty fqdn"@))
    } else if f == suffix {
        Ok("@"@)
    } else if ends_with(f, dotted) {
        let host = f.take(f.len() - dotted.len());
        if host.len() == 0 { Ok("@"@) } else { Ok(host) }
    } else {
        Err(spec_die("acme-dns-hook-namecheap"@, "fqdn "@ + f + " is not under "@ + suffix + " (check SLD/TLD in credentials)"@))
    }
}

pub open spec fn cred_result_view(r: Result<Credentials, String>) -> Result<CredView, Seq<char>> {
    match r {
        Ok(c) => Ok(c@),
        Err(e) => Err(e@),
    }
}

pub open spec fn line_views(lines: Seq<Option<String>>) -> Seq<Option<Seq<char>>> {
    lines.map_values(|l: Option<String>| opt_view(l))
}


// ---------------------------------------------------------------------------
// Executable functions
// ---------------------------------------------------------------------------

/// `"{prefix}: {msg}"`, the error text every helper here reports.
pub fn die(prefix: &str, msg: &str) -> (r: String)
    ensures
        r@ == spec_die(prefix@, msg@),
{
    let a = chars_of(prefix);
    let b = chars_of(": ");
    let c = chars_of(msg);
    let x = concat(a.as_slice(), b.as_slice());
    let y = concat(x.as_slice(), c.as_slice());
    string_of(y.as_slice())
}

/// `{:o}` rendering.
pub fn oct_exec(n: u32) -> (r: Vec<char>)
    ensures
        r@ == oct(n as nat),
    decreases n,
{
    if n < 8 {
        let mut r: Vec<char> = Vec::new();
        r.push(digit_exec(n as u64));
        r
    } else {
        let mut r = oct_exec(n / 8);
        r.push(digit_exec((n % 8) as u64));
        r
    }
}

/// The credentials file must be an owner-only regular file (symlinks and
/// group/world bits refused).
pub fn require_owner_only(path: &str, prefix: &str, meta: &LinkMeta) -> (r: Result<(), String>)
    ensures
        unit_view(r) == spec_require_owner_only(path@, prefix@, *meta),
{
    let p = chars_of(path);
    if path.is_empty() {
        return Err(die(prefix, "credentials path empty"));
    }
    let missing = chars_of("credentials file missing: ");
    match meta {
        LinkMeta::NotFound | LinkMeta::Error(_) | LinkMeta::NotRegular => {
            let m = concat(missing.as_slice(), p.as_slice());
            let ms = string_of(m.as_slice());
            Err(die(prefix, ms.as_str()))
        },
        LinkMeta::Symlink => {
            let h = chars_of("credentials path must be a regular file (symlink refused): ");
            let m = concat(h.as_slice(), p.as_slice());
            let ms = string_of(m.as_slice());
            Err(die(prefix, ms.as_str()))
        },
        LinkMeta::Regular { mode } => {
            let md = *mode;
            assert(md & 511 == md % 512) by (bit_vector);
            let bits = md & 511;
            assert(bits & 63 == bits % 64) by (bit_vector);
            if bits & 63 != 0 {
                let h = chars_of("credentials file must be owner-only (mode 0600; refuse group/world bits): ");
                let mid = chars_of(" (mode ");
                let o = oct_exec(bits);
                let close = chars_of(")");
                let a = concat(h.as_slice(), p.as_slice());
                let b = concat(a.as_slice(), mid.as_slice());
                let c = concat(b.as_slice(), o.as_slice());
                let d = concat(c.as_slice(), close.as_slice());
                let ms = string_of(d.as_slice());
                Err(die(prefix, ms.as_str()))
            } else {
                Ok(())
            }
        },
    }
}

fn strip_quotes_exec(v: &[char]) -> (r: Vec<char>)
    ensures
        r@ == strip_quotes(v@),
{
    let n = v.len();
    if n >= 2 && ((v[0] == '"' && v[n - 1] == '"') || (v[0] == '\'' && v[n - 1] == '\'')) {
        slice_of(v, 1, n - 1)
    } else {
        slice_of(v, 0, n)
    }
}

fn strip_cr_exec(v: &[char]) -> (r: Vec<char>)
    ensures
        r@ == strip_cr(v@),
{
    let n = v.len();
    if n > 0 && v[n - 1] == '\r' {
        slice_of(v, 0, n - 1)
    } else {
        slice_of(v, 0, n)
    }
}

/// Key equals `name`.
fn key_eq(key: &[char], name: &str) -> (r: bool)
    ensures
        r == (key@ == name@),
{
    let n = chars_of(name);
    eq(key, n.as_slice())
}

/// One line applied to the credentials read so far.
fn cred_line(st: &mut Credentials, line: &Option<String>, prefix: &str) -> (r: Result<(), String>)
    ensures
        match spec_cred_line(old(st)@, opt_view(*line), prefix@) {
            Ok(v) => r is Ok && final(st)@ == v,
            Err(e) => r matches Err(x) && x@ == e,
        },
{
    let raw = match line {
        None => {
            let h = chars_of("credentials unreadable: ");
            let p = chars_of(st.path.as_str());
            let m = concat(h.as_slice(), p.as_slice());
            let ms = string_of(m.as_slice());
            return Err(die(prefix, ms.as_str()));
        },
        Some(r) => r,
    };
    let rv = chars_of(raw.as_str());
    let l = strip_cr_exec(rv.as_slice());
    let t = trim_vec(l.as_slice());
    if t.len() == 0 || t[0] == '#' {
        return Ok(());
    }
    let found = find_char_exec(l.as_slice(), '=');
    let i = match found {
        None => {
            let h = chars_of("credentials line must be KEY=value (file=");
            let p = chars_of(st.path.as_str());
            let c = chars_of(")");
            let a = concat(h.as_slice(), p.as_slice());
            let b = concat(a.as_slice(), c.as_slice());
            let ms = string_of(b.as_slice());
            return Err(die(prefix, ms.as_str()));
        },
        Some(i) => i,
    };
    let ln = l.len();
    assert(i < ln);
    let kraw = slice_of(l.as_slice(), 0, i);
    let key = trim_vec(kraw.as_slice());
    let vraw = slice_of(l.as_slice(), i + 1, ln);
    let val = strip_quotes_exec(vraw.as_slice());
    proof {
        assert(kraw@ =~= l@.take(i as int));
        assert(vraw@ =~= l@.skip(i + 1));
    }
    let vs = string_of(val.as_slice());
    if (key_eq(key.as_slice(), "ApiUser") || key_eq(key.as_slice(), "API_USER")) {
        st.api_user = vs;
    } else if (key_eq(key.as_slice(), "ApiKey") || key_eq(key.as_slice(), "API_KEY")) {
        st.api_key = vs;
    } else if (key_eq(key.as_slice(), "UserName") || key_eq(key.as_slice(), "Username") || key_eq(key.as_slice(), "USER_NAME")) {
        st.user_name = vs;
    } else if (key_eq(key.as_slice(), "ClientIp") || key_eq(key.as_slice(), "CLIENT_IP") || key_eq(key.as_slice(), "SourceIp") || key_eq(key.as_slice(), "SOURCE_IP")) {
        st.client_ip = vs;
    } else if (key_eq(key.as_slice(), "SLD") || key_eq(key.as_slice(), "sld")) {
        st.sld = vs;
    } else if (key_eq(key.as_slice(), "TLD") || key_eq(key.as_slice(), "tld")) {
        st.tld = vs;
    } else if (key_eq(key.as_slice(), "SettleSeconds") || key_eq(key.as_slice(), "SETTLE_SECONDS")) {
        match parse_unsigned_exec(val.as_slice(), u64::MAX) {
            Some(n) => {
                st.settle_secs = n;
            },
            None => {
                return Err(die(prefix, "SettleSeconds must be a non-negative integer"));
            },
        }
    } else if (key_eq(key.as_slice(), "TxtTtl") || key_eq(key.as_slice(), "TXT_TTL") || key_eq(key.as_slice(), "TTL")) {
        match parse_unsigned_exec(val.as_slice(), u32::MAX as u64) {
            Some(n) => {
                st.txt_ttl = n as u32;
            },
            None => {
                return Err(die(prefix, "TxtTtl must be an integer >= 60"));
            },
        }
    }
    Ok(())
}


proof fn lemma_cred_lines_err(lines: Seq<Option<Seq<char>>>, path: Seq<char>, prefix: Seq<char>, k: int, e: Seq<char>)
    requires
        0 <= k <= lines.len(),
        spec_cred_lines(lines.take(k), path, prefix) == Err::<CredView, Seq<char>>(e),
    ensures
        spec_cred_lines(lines, path, prefix) == Err::<CredView, Seq<char>>(e),
    decreases lines.len() - k,
{
    if k == lines.len() {
        assert(lines.take(k) =~= lines);
    } else {
        assert(lines.drop_last().take(k) =~= lines.take(k));
        lemma_cred_lines_err(lines.drop_last(), path, prefix, k, e);
    }
}

fn missing_field(prefix: &str, field: &str, path: &str) -> (r: String)
    ensures
        r@ == spec_die(prefix@, missing_msg(field@, path@)),
{
    let a = chars_of("credentials missing ");
    let f = chars_of(field);
    let b = chars_of(" (file=");
    let p = chars_of(path);
    let c = chars_of(")");
    let x = concat(a.as_slice(), f.as_slice());
    let y = concat(x.as_slice(), b.as_slice());
    let z = concat(y.as_slice(), p.as_slice());
    let w = concat(z.as_slice(), c.as_slice());
    let ws = string_of(w.as_slice());
    die(prefix, ws.as_str())
}

/// Credentials from the file's lines (each its text, or `None` where
/// reading failed): blank and `#` lines skipped, `KEY=value` with
/// optional matching quotes, the first refusal wins; ApiUser, ApiKey, SLD
/// and TLD are required, TxtTtl is at least 60, UserName defaults to
/// ApiUser.
pub fn parse_credentials(lines: &Vec<Option<String>>, path: &str, prefix: &str) -> (r: Result<Credentials, String>)
    ensures
        cred_result_view(r) == spec_parse_credentials(line_views(lines@), path@, prefix@),
{
    let ghost lv = line_views(lines@);
    let mut st = Credentials {
        api_user: String::new(),
        api_key: String::new(),
        user_name: String::new(),
        client_ip: String::new(),
        sld: String::new(),
        tld: String::new(),
        settle_secs: 0,
        txt_ttl: 60,
        path: path.to_owned(),
    };
    let mut k: usize = 0;
    assert(lv.take(0) =~= Seq::<Option<Seq<char>>>::empty());
    assert(st@ == cred_start(path@));
    while k < lines.len()
        invariant
            k <= lines.len(),
            lv == line_views(lines@),
            spec_cred_lines(lv.take(k as int), path@, prefix@) == Ok::<CredView, Seq<char>>(st@),
        decreases lines.len() - k,
    {
        proof {
            assert(lv.take(k + 1).drop_last() =~= lv.take(k as int));
            assert(lv.take(k + 1).last() == opt_view(lines@[k as int]));
        }
        match cred_line(&mut st, &lines[k], prefix) {
            Err(e) => {
                proof {
                    lemma_cred_lines_err(lv, path@, prefix@, k + 1, e@);
                }
                return Err(e);
            },
            Ok(()) => {},
        }
        k += 1;
    }
    assert(lv.take(lines.len() as int) =~= lv);
    if st.api_user.as_str().is_empty() {
        return Err(missing_field(prefix, "ApiUser", path));
    }
    if st.api_key.as_str().is_empty() {
        return Err(missing_field(prefix, "ApiKey", path));
    }
    if st.sld.as_str().is_empty() {
        return Err(missing_field(prefix, "SLD", path));
    }
    if st.tld.as_str().is_empty() {
        return Err(missing_field(prefix, "TLD", path));
    }
    if st.txt_ttl < 60 {
        return Err(die(prefix, "TxtTtl must be an integer >= 60"));
    }
    if st.user_name.as_str().is_empty() {
        st.user_name = st.api_user.clone();
    }
    Ok(st)
}

/// Host label of a challenge name under `sld.tld`: `@` for the apex,
/// refused when empty or outside the zone.
pub fn fqdn_to_hostname(fqdn: &str, sld: &str, tld: &str) -> (r: Result<String, String>)
    ensures
        res_view(r) == spec_fqdn_to_hostname(fqdn@, sld@, tld@),
{
    let fv = chars_of(fqdn);
    let f = trim_end_char_vec(fv.as_slice(), '.');
    if f.len() == 0 {
        return Err(die("acme-dns-hook-namecheap", "empty fqdn"));
    }
    let s = chars_of(sld);
    let dot = chars_of(".");
    let t = chars_of(tld);
    let a = concat(s.as_slice(), dot.as_slice());
    let suffix = concat(a.as_slice(), t.as_slice());
    if eq(f.as_slice(), suffix.as_slice()) {
        return Ok("@".to_owned());
    }
    let dotted = concat(dot.as_slice(), suffix.as_slice());
    if ends_with_exec(f.as_slice(), dotted.as_slice()) {
        let host = slice_of(f.as_slice(), 0, f.len() - dotted.len());
        if host.len() == 0 {
            return Ok("@".to_owned());
        }
        return Ok(string_of(host.as_slice()));
    }
    let h = chars_of("fqdn ");
    let m = chars_of(" is not under ");
    let tail = chars_of(" (check SLD/TLD in credentials)");
    let x = concat(h.as_slice(), f.as_slice());
    let y = concat(x.as_slice(), m.as_slice());
    let z = concat(y.as_slice(), suffix.as_slice());
    let w = concat(z.as_slice(), tail.as_slice());
    let ws = string_of(w.as_slice());
    Err(die("acme-dns-hook-namecheap", ws.as_str()))
}

/// Loads the credentials file: the owner-only check on what
/// `symlink_metadata` said of `path`, then the file's lines (`None` when the
/// file could not be opened; a line is `None` where reading it failed).
pub fn load_credentials(
    path: &str,
    prefix: &str,
    meta: &LinkMeta,
    file_lines: Option<&Vec<Option<String>>>,
) -> (r: Result<Credentials, String>)
    ensures
        match file_lines {
            Some(ls) => cred_result_view(r) == spec_load_credentials(path@, prefix@, *meta, line_views(ls@)),
            None => match spec_require_owner_only(path@, prefix@, *meta) {
                Err(e) => cred_result_view(r) == Err::<CredView, Seq<char>>(e),
                Ok(_) => cred_result_view(r) == Err::<CredView, Seq<char>>(
                    spec_die(prefix@, "credentials file unreadable: "@ + path@),
                ),
            },
        },
{
    match require_owner_only(path, prefix, meta) {
        Err(e) => Err(e),
        Ok(()) => match file_lines {
            None => {
                let m = chars_of("credentials file unreadable: ");
                let pv = chars_of(path);
                let msg = concat(m.as_slice(), pv.as_slice());
                Err(die(prefix, string_of(msg.as_slice()).as_str()))
            },
            Some(ls) => parse_credentials(ls, path, prefix),
        },
    }
}

// ---------------------------------------------------------------------------
// Laws
// ---------------------------------------------------------------------------

/// Loading the credentials file: the owner-only check on what
/// `symlink_metadata` said, then the file's lines.
pub open spec fn spec_load_credentials(
    path: Seq<char>,
    prefix: Seq<char>,
    meta: LinkMeta,
    lines: Seq<Option<Seq<char>>>,
) -> Result<CredView, Seq<char>> {
    match spec_require_owner_only(path, prefix, meta) {
        Err(e) => Err(e),
        Ok(_) => spec_parse_credentials(lines, path, prefix),
    }
}

/// A refusal while reading the lines: a fixed text, or one that names only
/// the file's path.
pub open spec fn cred_line_refusal(e: Seq<char>, prefix: Seq<char>, path: Seq<char>) -> bool {
    ||| e == spec_die(prefix, "credentials unreadable: "@ + path)
    ||| e == spec_die(prefix, "credentials line must be KEY=value (file="@ + path + ")"@)
    ||| e == spec_die(prefix, "SettleSeconds must be a non-negative integer"@)
    ||| e == spec_die(prefix, "TxtTtl must be an integer >= 60"@)
}

/// Every refusal of a credentials load: fixed texts that name at most the
/// path, a missing field or the file's mode, never a value from the file.
pub open spec fn cred_refusal(e: Seq<char>, prefix: Seq<char>, path: Seq<char>) -> bool {
    ||| cred_line_refusal(e, prefix, path)
    ||| e == spec_die(prefix, "credentials path empty"@)
    ||| e == spec_die(prefix, "credentials file missing: "@ + path)
    ||| e == spec_die(prefix, "credentials path must be a regular file (symlink refused): "@ + path)
    ||| exists|m: nat|
        e == spec_die(
            prefix,
            "credentials file must be owner-only (mode 0600; refuse group/world bits): "@ + path + " (mode "@
                + #[trigger] oct(m) + ")"@,
        )
    ||| e == spec_die(prefix, missing_msg("ApiUser"@, path))
    ||| e == spec_die(prefix, missing_msg("ApiKey"@, path))
    ||| e == spec_die(prefix, missing_msg("SLD"@, path))
    ||| e == spec_die(prefix, missing_msg("TLD"@, path))
}

proof fn lemma_cred_lines(lines: Seq<Option<Seq<char>>>, path: Seq<char>, prefix: Seq<char>)
    ensures
        spec_cred_lines(lines, path, prefix) matches Ok(st) ==> st.path == path,
        spec_cred_lines(lines, path, prefix) matches Err(e) ==> cred_line_refusal(e, prefix, path),
    decreases lines.len(),
{
    if lines.len() > 0 {
        lemma_cred_lines(lines.drop_last(), path, prefix);
    }
}

/// A credentials load succeeds only for an owner-only regular file, and then
/// gives an ApiUser, ApiKey, SLD and TLD, a TXT TTL of at least 60 and a
/// UserName (the ApiUser when the file sets none); a file with group or
/// world bits is refused as not owner-only; and no refusal holds a value
/// read from the file.
pub proof fn law_credentials_load(path: Seq<char>, prefix: Seq<char>, meta: LinkMeta, lines: Seq<Option<Seq<char>>>)
    ensures
        spec_load_credentials(path, prefix, meta, lines) matches Ok(c) ==> {
            &&& path.len() > 0
            &&& meta matches LinkMeta::Regular { mode } && (mode % 512) % 64 == 0
            &&& c.api_user.len() > 0 && c.api_key.len() > 0 && c.sld.len() > 0 && c.tld.len() > 0
            &&& c.txt_ttl >= 60
            &&& c.path == path
            &&& spec_cred_lines(lines, path, prefix) matches Ok(st) && c.user_name == (if st.user_name.len() == 0 {
                c.api_user
            } else {
                st.user_name
            })
        },
        path.len() > 0 ==> match meta {
            LinkMeta::Regular { mode } => (mode % 512) % 64 != 0 ==> spec_load_credentials(path, prefix, meta, lines)
                == Err::<CredView, Seq<char>>(
                spec_die(
                    prefix,
                    "credentials file must be owner-only (mode 0600; refuse group/world bits): "@ + path
                        + " (mode "@ + oct((mode % 512) as nat) + ")"@,
                ),
            ),
            _ => true,
        },
        spec_load_credentials(path, prefix, meta, lines) matches Err(e) ==> cred_refusal(e, prefix, path),
{
    lemma_cred_lines(lines, path, prefix);
    if let LinkMeta::Regular { mode } = meta {
        if path.len() > 0 && (mode % 512) % 64 != 0 {
            let m = (mode % 512) as nat;
            assert(spec_require_owner_only(path, prefix, meta) == Err::<(), Seq<char>>(spec_die(
                prefix,
                "credentials file must be owner-only (mode 0600; refuse group/world bits): "@ + path + " (mode "@
                    + oct(m) + ")"@,
            )));
        }
    }
}

} // verus!
