//! Maps a challenge FQDN to its per-zone Namecheap env, for the inner hook.
//!
//! The caller probes the candidate files (`symlink_metadata`) and execs
//! the inner hook; this module orders the candidates and decides.

use vstd::prelude::*;
use crate::text::{any_control, any_control_exec, chars_of, concat, contains, ends_with, ends_with_exec, eq, join, join_exec, lower, lower_vec, res_view, slice_of, split_char, split_char_exec, str_views, string_of, trim_end_char, trim_end_char_vec, unit_view, views};
use crate::tls::{LinkMeta};
use crate::acme::cred::{die, oct, oct_exec, spec_die};

verus! {

/// Error prefix of the dispatcher.
pub const DISPATCH_PREFIX: &'static str = "acme-dns-hook-namecheap-dispatch";

/// Default inner hook (looked up on `PATH`).
pub const DEFAULT_INNER_HOOK: &'static str = "acme-dns-hook-namecheap";

// ---------------------------------------------------------------------------
// Spec model
// ---------------------------------------------------------------------------

/// Lower-case, trailing dots removed.
pub open spec fn spec_normalize_fqdn(f: Seq<char>) -> Seq<char> {
    trim_end_char(lower(f), '.')
}

/// The dispatcher's command line (after the program name): a command and
/// a challenge FQDN without control characters; gives the normalized FQDN.
pub open spec fn spec_dispatch_args(args: Seq<Seq<char>>) -> Result<Seq<char>, Seq<char>> {
    if args.len() == 0 {
        Err(spec_die(DISPATCH_PREFIX@, "usage: set|clear|wait <fqdn> ..."@))
    } else if !(args[0] == "set"@ || args[0] == "clear"@ || args[0] == "wait"@) {
        Err(spec_die(DISPATCH_PREFIX@, "unknown command: "@ + args[0] + " (expected set|clear|wait)"@))
    } else if args.len() < 2 {
        Err(spec_die(DISPATCH_PREFIX@, args[0] + " requires <fqdn>"@))
    } else if args[1].len() == 0 || any_control(args[1]) {
        Err(spec_die(DISPATCH_PREFIX@, "fqdn empty or contains control characters"@))
    } else {
        Ok(spec_normalize_fqdn(args[1]))
    }
}

/// The primary zone and its names.
pub open spec fn spec_is_primary_zone(fqdn: Seq<char>) -> bool {
    fqdn == "surmount.systems"@ || ends_with(fqdn, ".surmount.systems"@)
}

/// Env files for the primary zone, in order.
pub open spec fn spec_primary_candidates(xdg_home: Seq<char>, home_share: Seq<char>) -> Seq<Seq<char>> {
    seq![
        xdg_home + "/surmount/issue-le-prod/namecheap.env"@,
        home_share + "/surmount/issue-le-prod/namecheap.env"@,
    ]
}

/// Env files for the suffixes of `labels` from `i` on, each suffix with at
/// least two labels, longest first.
pub open spec fn suffix_candidates(labels: Seq<Seq<char>>, i: int, xdg_home: Seq<char>, home_share: Seq<char>) -> Seq<Seq<char>>
    decreases labels.len() - i,
{
    if i < 0 || i + 2 > labels.len() {
        seq![]
    } else {
        let suffix = join(labels.skip(i), "."@);
        seq![
            xdg_home + "/surmount/namecheap/"@ + suffix + ".env"@,
            home_share + "/surmount/namecheap/"@ + suffix + ".env"@,
        ] + suffix_candidates(labels, i + 1, xdg_home, home_share)
    }
}

/// Env files for a zone other than the primary one, in order.
pub open spec fn spec_extra_candidates(fqdn: Seq<char>, xdg_home: Seq<char>, home_share: Seq<char>) -> Seq<Seq<char>> {
    suffix_candidates(split_char(fqdn, '.'), 0, xdg_home, home_share)
}

/// One candidate env file, by what `symlink_metadata` said: absent ones
/// are skipped, a symlink, a non-regular file or group/world bits refused.
pub open spec fn spec_accept_zone_env(path: Seq<char>, meta: LinkMeta) -> Result<bool, Seq<char>> {
    match meta {
        LinkMeta::NotFound => Ok(false),
        LinkMeta::Error(_) => Ok(false),
        LinkMeta::Symlink => Err(spec_die(DISPATCH_PREFIX@, "zone env must be a regular file (symlink refused): "@ + path)),
        LinkMeta::NotRegular => Err(spec_die(DISPATCH_PREFIX@, "zone env must be a regular file: "@ + path)),
        LinkMeta::Regular { mode } => if (mode % 512) % 64 != 0 {
            Err(spec_die(DISPATCH_PREFIX@, "zone env must be owner-only (mode 0600): "@ + path + " (mode "@ + oct((mode % 512) as nat) + ")"@))
        } else {
            Ok(true)
        },
    }
}

/// The first acceptable candidate from `k` on (blank ones skipped), or the
/// first refusal.
pub open spec fn pick_from(cands: Seq<Seq<char>>, metas: Seq<LinkMeta>, k: int) -> Result<Option<Seq<char>>, Seq<char>>
    decreases cands.len() - k,
{
    if k < 0 || k >= cands.len() {
        Ok(None)
    } else if cands[k].len() == 0 {
        pick_from(cands, metas, k + 1)
    } else {
        match spec_accept_zone_env(cands[k], metas[k]) {
            Err(e) => Err(e),
            Ok(true) => Ok(Some(cands[k])),
            Ok(false) => pick_from(cands, metas, k + 1),
        }
    }
}

/// The inner hook file, by what `symlink_metadata` said.
pub open spec fn spec_check_inner_hook(path: Seq<char>, meta: LinkMeta) -> Result<(), Seq<char>> {
    match meta {
        LinkMeta::NotFound => Err(spec_die(DISPATCH_PREFIX@, "inner hook missing: "@ + path)),
        LinkMeta::Error(_) => Err(spec_die(DISPATCH_PREFIX@, "inner hook missing: "@ + path)),
        LinkMeta::Symlink => Err(spec_die(DISPATCH_PREFIX@, "inner hook must be a regular file (symlink refused): "@ + path)),
        LinkMeta::NotRegular => Err(spec_die(DISPATCH_PREFIX@, "inner hook missing: "@ + path)),
        LinkMeta::Regular { .. } => Ok(()),
    }
}


// ---------------------------------------------------------------------------
// Executable functions
// ---------------------------------------------------------------------------

/// Lower-case, trailing dots removed.
fn normalize_fqdn(f: &str) -> (r: String)
    ensures
        r@ == spec_normalize_fqdn(f@),
{
    let v = chars_of(f);
    let l = lower_vec(v.as_slice());
    let t = trim_end_char_vec(l.as_slice(), '.');
    string_of(t.as_slice())
}

fn str_is(a: &String, s: &str) -> (r: bool)
    ensures
        r == (a@ == s@),
{
    let v = chars_of(a.as_str());
    let w = chars_of(s);
    eq(v.as_slice(), w.as_slice())
}

/// The dispatcher's command line after the program name (see
/// [`spec_dispatch_args`]); gives the normalized FQDN.
pub fn dispatch_args(args: &Vec<String>) -> (r: Result<String, String>)
    ensures
        res_view(r) == spec_dispatch_args(views(args@)),
{
    let ghost a = views(args@);
    if args.len() == 0 {
        return Err(die(DISPATCH_PREFIX, "usage: set|clear|wait <fqdn> ..."));
    }
    assert(a[0] == args@[0]@);
    if !(str_is(&args[0], "set") || str_is(&args[0], "clear") || str_is(&args[0], "wait")) {
        let h = chars_of("unknown command: ");
        let c = chars_of(args[0].as_str());
        let t = chars_of(" (expected set|clear|wait)");
        let x = concat(h.as_slice(), c.as_slice());
        let y = concat(x.as_slice(), t.as_slice());
        let ys = string_of(y.as_slice());
        return Err(die(DISPATCH_PREFIX, ys.as_str()));
    }
    if args.len() < 2 {
        let c = chars_of(args[0].as_str());
        let t = chars_of(" requires <fqdn>");
        let y = concat(c.as_slice(), t.as_slice());
        let ys = string_of(y.as_slice());
        return Err(die(DISPATCH_PREFIX, ys.as_str()));
    }
    assert(a[1] == args@[1]@);
    let f = chars_of(args[1].as_str());
    if f.len() == 0 || any_control_exec(f.as_slice()) {
        return Err(die(DISPATCH_PREFIX, "fqdn empty or contains control characters"));
    }
    Ok(normalize_fqdn(args[1].as_str()))
}

/// The primary zone and its names.
pub fn is_primary_zone(fqdn: &str) -> (r: bool)
    ensures
        r == spec_is_primary_zone(fqdn@),
{
    let f = chars_of(fqdn);
    let z = chars_of("surmount.systems");
    let dz = chars_of(".surmount.systems");
    eq(f.as_slice(), z.as_slice()) || ends_with_exec(f.as_slice(), dz.as_slice())
}

/// `$XDG_DATA_HOME` (when set and not empty) or `$HOME/.local/share`, and
/// `$HOME/.local/share`.
pub fn data_homes(xdg_data_home: Option<String>, home: Option<String>) -> (r: (String, String))
    ensures
        r.1@ == (match home { Some(h) => h@, None => Seq::<char>::empty() }) + "/.local/share"@,
        r.0@ == match xdg_data_home {
            Some(x) if x@.len() > 0 => x@,
            _ => r.1@,
        },
{
    let h = match home {
        Some(h) => chars_of(h.as_str()),
        None => Vec::new(),
    };
    let tail = chars_of("/.local/share");
    let share = concat(h.as_slice(), tail.as_slice());
    let home_share = string_of(share.as_slice());
    let xdg_home = match xdg_data_home {
        Some(x) => if x.as_str().is_empty() {
            string_of(share.as_slice())
        } else {
            x
        },
        None => string_of(share.as_slice()),
    };
    (xdg_home, home_share)
}

/// Env files for the primary zone, in order.
pub fn primary_candidates(xdg_home: &str, home_share: &str) -> (r: Vec<String>)
    ensures
        views(r@) == spec_primary_candidates(xdg_home@, home_share@),
{
    let t = chars_of("/surmount/issue-le-prod/namecheap.env");
    let a = concat(chars_of(xdg_home).as_slice(), t.as_slice());
    let b = concat(chars_of(home_share).as_slice(), t.as_slice());
    let mut r: Vec<String> = Vec::new();
    r.push(string_of(a.as_slice()));
    r.push(string_of(b.as_slice()));
    assert(views(r@) =~= spec_primary_candidates(xdg_home@, home_share@));
    r
}

/// Env files for a zone other than the primary one: for each suffix of the
/// FQDN with at least two labels, longest first, the XDG then the home
/// `namecheap/<suffix>.env`.
pub fn extra_candidates(fqdn: &str, xdg_home: &str, home_share: &str) -> (r: Vec<String>)
    ensures
        views(r@) == spec_extra_candidates(fqdn@, xdg_home@, home_share@),
{
    let f = chars_of(fqdn);
    let labels = split_char_exec(f.as_slice(), '.');
    let ghost ls = labels@.map_values(|p: Vec<char>| p@);
    let mut r: Vec<String> = Vec::new();
    if labels.len() < 2 {
        assert(views(r@) =~= Seq::<Seq<char>>::empty());
        return r;
    }
    let dot = chars_of(".");
    let xv = chars_of(xdg_home);
    let hv = chars_of(home_share);
    let mid = chars_of("/surmount/namecheap/");
    let env = chars_of(".env");
    let mut i: usize = 0;
    assert(views(r@) + suffix_candidates(ls, 0, xdg_home@, home_share@) =~= suffix_candidates(ls, 0, xdg_home@, home_share@));
    while i < labels.len() - 1
        invariant
            labels.len() >= 2,
            i + 2 <= labels.len() + 1,
            ls == labels@.map_values(|p: Vec<char>| p@),
            ls == split_char(fqdn@, '.'),
            dot@ == "."@,
            xv@ == xdg_home@,
            hv@ == home_share@,
            mid@ == "/surmount/namecheap/"@,
            env@ == ".env"@,
            views(r@) + suffix_candidates(ls, i as int, xdg_home@, home_share@) == spec_extra_candidates(fqdn@, xdg_home@, home_share@),
        decreases labels.len() - i,
    {
        let tail = slice_vec(&labels, i);
        let suffix = join_exec(tail.as_slice(), dot.as_slice());
        proof {
            assert(tail@.map_values(|p: Vec<char>| p@) =~= ls.skip(i as int));
        }
        let a1 = concat(xv.as_slice(), mid.as_slice());
        let a2 = concat(a1.as_slice(), suffix.as_slice());
        let a3 = concat(a2.as_slice(), env.as_slice());
        let b1 = concat(hv.as_slice(), mid.as_slice());
        let b2 = concat(b1.as_slice(), suffix.as_slice());
        let b3 = concat(b2.as_slice(), env.as_slice());
        let ghost before = views(r@);
        r.push(string_of(a3.as_slice()));
        r.push(string_of(b3.as_slice()));
        proof {
            let pair = seq![a3@, b3@];
            assert(views(r@) =~= before + pair);
            assert(before + (pair + suffix_candidates(ls, i + 1, xdg_home@, home_share@)) =~= (before + pair) + suffix_candidates(ls, i + 1, xdg_home@, home_share@));
        }
        i += 1;
    }
    assert(suffix_candidates(ls, i as int, xdg_home@, home_share@) =~= Seq::<Seq<char>>::empty());
    assert(views(r@) + Seq::<Seq<char>>::empty() =~= views(r@));
    r
}

/// The elements of `v` from `i` on (copied).
fn slice_vec(v: &Vec<Vec<char>>, i: usize) -> (r: Vec<Vec<char>>)
    requires
        i <= v.len(),
    ensures
        r@.map_values(|p: Vec<char>| p@) == v@.map_values(|p: Vec<char>| p@).skip(i as int),
{
    let mut r: Vec<Vec<char>> = Vec::new();
    let mut j: usize = i;
    while j < v.len()
        invariant
            i <= j <= v.len(),
            r@.map_values(|p: Vec<char>| p@) == v@.map_values(|p: Vec<char>| p@).subrange(i as int, j as int),
        decreases v.len() - j,
    {
        let ghost before = r@.map_values(|p: Vec<char>| p@);
        let x = slice_of(v[j].as_slice(), 0, v[j].len());
        assert(x@ =~= v@[j as int]@);
        r.push(x);
        assert(r@.map_values(|p: Vec<char>| p@) =~= before.push(v@[j as int]@));
        assert(r@.map_values(|p: Vec<char>| p@) =~= v@.map_values(|p: Vec<char>| p@).subrange(i as int, j + 1));
        j += 1;
    }
    assert(v@.map_values(|p: Vec<char>| p@).subrange(i as int, v.len() as int) =~= v@.map_values(|p: Vec<char>| p@).skip(i as int));
    r
}

pub open spec fn pick_view(r: Result<Option<String>, String>) -> Result<Option<Seq<char>>, Seq<char>> {
    match r {
        Ok(Some(p)) => Ok(Some(p@)),
        Ok(None) => Ok(None),
        Err(e) => Err(e@),
    }
}

/// One candidate env file (see [`spec_accept_zone_env`]).
fn accept_zone_env(path: &str, meta: &LinkMeta) -> (r: Result<bool, String>)
    ensures
        match r {
            Ok(b) => spec_accept_zone_env(path@, *meta) == Ok::<bool, Seq<char>>(b),
            Err(e) => spec_accept_zone_env(path@, *meta) == Err::<bool, Seq<char>>(e@),
        },
{
    let p = chars_of(path);
    match meta {
        LinkMeta::NotFound | LinkMeta::Error(_) => Ok(false),
        LinkMeta::Symlink => {
            let h = chars_of("zone env must be a regular file (symlink refused): ");
            let m = concat(h.as_slice(), p.as_slice());
            Err(die(DISPATCH_PREFIX, string_of(m.as_slice()).as_str()))
        },
        LinkMeta::NotRegular => {
            let h = chars_of("zone env must be a regular file: ");
            let m = concat(h.as_slice(), p.as_slice());
            Err(die(DISPATCH_PREFIX, string_of(m.as_slice()).as_str()))
        },
        LinkMeta::Regular { mode } => {
            let md = *mode;
            assert(md & 511 == md % 512) by (bit_vector);
            let bits = md & 511;
            assert(bits & 63 == bits % 64) by (bit_vector);
            if bits & 63 != 0 {
                let h = chars_of("zone env must be owner-only (mode 0600): ");
                let mid = chars_of(" (mode ");
                let o = oct_exec(bits);
                let close = chars_of(")");
                let a = concat(h.as_slice(), p.as_slice());
                let b = concat(a.as_slice(), mid.as_slice());
                let c = concat(b.as_slice(), o.as_slice());
                let d = concat(c.as_slice(), close.as_slice());
                Err(die(DISPATCH_PREFIX, string_of(d.as_slice()).as_str()))
            } else {
                Ok(true)
            }
        },
    }
}

/// The first acceptable candidate (blank ones skipped), or the first
/// refusal; `metas[k]` is what `symlink_metadata` said of `cands[k]`.
pub fn pick_first(cands: &Vec<String>, metas: &Vec<LinkMeta>) -> (r: Result<Option<String>, String>)
    requires
        metas.len() == cands.len(),
    ensures
        pick_view(r) == pick_from(views(cands@), metas@, 0),
{
    let ghost cs = views(cands@);
    let mut k: usize = 0;
    while k < cands.len()
        invariant
            k <= cands.len(),
            metas.len() == cands.len(),
            cs == views(cands@),
            pick_from(cs, metas@, 0) == pick_from(cs, metas@, k as int),
        decreases cands.len() - k,
    {
        assert(cs[k as int] == cands@[k as int]@);
        if !cands[k].as_str().is_empty() {
            match accept_zone_env(cands[k].as_str(), &metas[k]) {
                Err(e) => {
                    return Err(e);
                },
                Ok(true) => {
                    return Ok(Some(cands[k].clone()));
                },
                Ok(false) => {},
            }
        }
        k += 1;
    }
    Ok(None)
}

/// Refusal when no env file fits the FQDN.
pub fn zone_env_not_found(fqdn: &str) -> (r: String)
    ensures
        r@ == if spec_is_primary_zone(fqdn@) {
            spec_die(DISPATCH_PREFIX@, "no primary Namecheap env for surmount.systems (expected issue-le-prod/namecheap.env)"@)
        } else {
            spec_die(DISPATCH_PREFIX@, "no per-zone Namecheap env for "@ + fqdn@ + " (expected namecheap/<sld.tld>.env; refuse primary surmount.systems env)"@)
        },
{
    if is_primary_zone(fqdn) {
        return die(DISPATCH_PREFIX, "no primary Namecheap env for surmount.systems (expected issue-le-prod/namecheap.env)");
    }
    let h = chars_of("no per-zone Namecheap env for ");
    let f = chars_of(fqdn);
    let t = chars_of(" (expected namecheap/<sld.tld>.env; refuse primary surmount.systems env)");
    let a = concat(h.as_slice(), f.as_slice());
    let b = concat(a.as_slice(), t.as_slice());
    die(DISPATCH_PREFIX, string_of(b.as_slice()).as_str())
}

/// The inner hook path: the override when set and not empty, else the
/// default name.
pub fn inner_hook_path(env: Option<String>) -> (r: String)
    ensures
        r@ == match env {
            Some(e) if e@.len() > 0 => e@,
            _ => DEFAULT_INNER_HOOK@,
        },
{
    match env {
        Some(e) => if e.as_str().is_empty() {
            DEFAULT_INNER_HOOK.to_owned()
        } else {
            e
        },
        None => DEFAULT_INNER_HOOK.to_owned(),
    }
}

/// The inner hook must be a regular file (symlinks refused).
pub fn check_inner_hook(path: &str, meta: &LinkMeta) -> (r: Result<(), String>)
    ensures
        unit_view(r) == spec_check_inner_hook(path@, *meta),
{
    let p = chars_of(path);
    match meta {
        LinkMeta::Regular { .. } => Ok(()),
        LinkMeta::Symlink => {
            let h = chars_of("inner hook must be a regular file (symlink refused): ");
            let m = concat(h.as_slice(), p.as_slice());
            Err(die(DISPATCH_PREFIX, string_of(m.as_slice()).as_str()))
        },
        _ => {
            let h = chars_of("inner hook missing: ");
            let m = concat(h.as_slice(), p.as_slice());
            Err(die(DISPATCH_PREFIX, string_of(m.as_slice()).as_str()))
        },
    }
}

} // verus!
