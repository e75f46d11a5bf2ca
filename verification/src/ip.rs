//! Textual IP address literals, read the way `str::parse::<IpAddr>()` reads
//! them: dotted-quad IPv4 (no leading zeros, at most three digits per
//! octet) and colon-hex IPv6 (at most one `::`, which stands for at least one
//! zero group, and an optional trailing dotted quad).
//!
//! The spec functions follow the grammar step by step over positions in the
//! char sequence; `parse_ip_addr` is proved to compute `spec_parse_ip`.

use vstd::prelude::*;

verus! {

/// A parsed IP address: IPv4 as its 32-bit value, IPv6 as 8 groups.
#[derive(Debug)]
pub enum IpValue {
    V4(u32),
    V6(Vec<u16>),
}

/// Spec view of [`IpValue`].
pub enum IpView {
    V4(u32),
    V6(Seq<u16>),
}

impl IpValue {
    pub open spec fn view(&self) -> IpView {
        match self {
            IpValue::V4(v) => IpView::V4(*v),
            IpValue::V6(g) => IpView::V6(g@),
        }
    }
}

/// Digit value of `c` in base 10 or 16.
pub open spec fn digit_val(c: char, radix: nat) -> Option<nat> {
    if '0' <= c && c <= '9' {
        Some(((c as u32) - 48) as nat)
    } else if radix == 16 && 'a' <= c && c <= 'f' {
        Some(((c as u32) - 87) as nat)
    } else if radix == 16 && 'A' <= c && c <= 'F' {
        Some(((c as u32) - 55) as nat)
    } else {
        None
    }
}

/// Length of the run of digits starting at `pos`.
pub open spec fn digit_run(s: Seq<char>, pos: int, radix: nat) -> nat
    decreases s.len() - pos,
{
    if 0 <= pos < s.len() && digit_val(s[pos], radix) is Some {
        1 + digit_run(s, pos + 1, radix)
    } else {
        0
    }
}

/// Value of the `k` digits starting at `pos`.
pub open spec fn run_value(s: Seq<char>, pos: int, k: nat, radix: nat) -> nat
    decreases k,
{
    if k == 0 {
        0
    } else {
        run_value(s, pos, (k - 1) as nat, radix) * radix + digit_val(s[pos + k - 1], radix).unwrap()
    }
}

/// One number: the whole digit run, at most `max_digits` digits, value at
/// most `max_val`; a leading zero only when zero prefixes are allowed or the
/// number is the single digit `0`. Returns the value and the next position.
pub open spec fn read_number(
    s: Seq<char>,
    pos: int,
    radix: nat,
    max_digits: nat,
    allow_zero_prefix: bool,
    max_val: nat,
) -> Option<(nat, int)> {
    let k = digit_run(s, pos, radix);
    if k == 0 || k > max_digits || run_value(s, pos, k, radix) > max_val {
        None
    } else if !allow_zero_prefix && s[pos] == '0' && k > 1 {
        None
    } else {
        Some((run_value(s, pos, k, radix), pos + k))
    }
}

/// `sep` at `pos`.
pub open spec fn char_at(s: Seq<char>, pos: int, c: char) -> bool {
    0 <= pos < s.len() && s[pos] == c
}

/// One IPv4 octet, preceded by `.` unless it is the first.
pub open spec fn read_octet(s: Seq<char>, pos: int, first: bool) -> Option<(nat, int)> {
    if first {
        read_number(s, pos, 10, 3, false, 255)
    } else if char_at(s, pos, '.') {
        read_number(s, pos + 1, 10, 3, false, 255)
    } else {
        None
    }
}

/// A dotted-quad IPv4 address starting at `pos`.
pub open spec fn read_ipv4(s: Seq<char>, pos: int) -> Option<(u32, int)> {
    match read_octet(s, pos, true) {
        None => None,
        Some((a, p1)) => match read_octet(s, p1, false) {
            None => None,
            Some((b, p2)) => match read_octet(s, p2, false) {
                None => None,
                Some((c, p3)) => match read_octet(s, p3, false) {
                    None => None,
                    Some((d, p4)) => Some(((a * 16777216 + b * 65536 + c * 256 + d) as u32, p4)),
                },
            },
        },
    }
}

/// The item after a `:` separator (none for the first item of a run).
pub open spec fn after_sep(s: Seq<char>, pos: int, first: bool) -> Option<int> {
    if first {
        Some(pos)
    } else if char_at(s, pos, ':') {
        Some(pos + 1)
    } else {
        None
    }
}

/// Reads up to `limit - i` more IPv6 groups starting at `pos`; `acc` holds
/// the groups read so far. A trailing dotted quad fills two groups and ends
/// the run. Returns the groups, whether a dotted quad ended them, and the
/// next position.
pub open spec fn read_groups(
    s: Seq<char>,
    pos: int,
    i: nat,
    limit: nat,
    acc: Seq<u16>,
) -> (Seq<u16>, bool, int)
    decreases limit - i,
{
    if i >= limit {
        (acc, false, pos)
    } else {
        let v4 = if i + 1 < limit {
            match after_sep(s, pos, i == 0) {
                Some(q) => read_ipv4(s, q),
                None => None,
            }
        } else {
            None
        };
        match v4 {
            Some((v, p)) => (acc.push((v / 65536) as u16).push((v % 65536) as u16), true, p),
            None => {
                let g = match after_sep(s, pos, i == 0) {
                    Some(q) => read_number(s, q, 16, 4, true, 65535),
                    None => None,
                };
                match g {
                    Some((g, p)) => read_groups(s, p, i + 1, limit, acc.push(g as u16)),
                    None => (acc, false, pos),
                }
            },
        }
    }
}

/// A whole-string IPv6 literal as its 8 groups.
pub open spec fn spec_parse_ipv6(s: Seq<char>) -> Option<Seq<u16>> {
    let (head, head_v4, p) = read_groups(s, 0, 0, 8, seq![]);
    if head.len() == 8 {
        if p == s.len() {
            Some(head)
        } else {
            None
        }
    } else if head_v4 {
        None
    } else if char_at(s, p, ':') && char_at(s, p + 1, ':') {
        let limit = (8 - (head.len() + 1)) as nat;
        let (tail, _, q) = read_groups(s, p + 2, 0, limit, seq![]);
        if q == s.len() {
            Some(head + Seq::new((8 - head.len() - tail.len()) as nat, |j: int| 0u16) + tail)
        } else {
            None
        }
    } else {
        None
    }
}

/// `str::parse::<IpAddr>()`: IPv4 first, then IPv6.
pub open spec fn spec_parse_ip(s: Seq<char>) -> Option<IpView> {
    match read_ipv4(s, 0) {
        Some((v, p)) => if p == s.len() {
            Some(IpView::V4(v))
        } else {
            None
        },
        None => match spec_parse_ipv6(s) {
            Some(g) => Some(IpView::V6(g)),
            None => None,
        },
    }
}

/// `s` parses as an IPv6 address (`IpAddr::is_ipv6` on a successful parse).
pub open spec fn is_ipv6_literal(s: Seq<char>) -> bool {
    spec_parse_ip(s) matches Some(IpView::V6(_))
}

// ---------------------------------------------------------------------------
// Lemmas
// ---------------------------------------------------------------------------

proof fn lemma_digit_run_bound(s: Seq<char>, pos: int, radix: nat)
    ensures
        0 <= pos ==> pos + digit_run(s, pos, radix) <= s.len() || digit_run(s, pos, radix) == 0,
    decreases s.len() - pos,
{
    if 0 <= pos < s.len() && digit_val(s[pos], radix) is Some {
        lemma_digit_run_bound(s, pos + 1, radix);
    }
}

proof fn lemma_digit_run_ge(s: Seq<char>, pos: int, radix: nat, j: nat)
    requires
        0 <= pos,
        forall|t: int| 0 <= t < j ==> pos + t < s.len() && digit_val(#[trigger] s[pos + t], radix) is Some,
    ensures
        digit_run(s, pos, radix) >= j,
    decreases j,
{
    if j > 0 {
        assert(digit_val(s[pos + 0], radix) is Some);
        assert forall|t: int| 0 <= t < j - 1 implies (pos + 1) + t < s.len() && digit_val(
            #[trigger] s[(pos + 1) + t],
            radix,
        ) is Some by {
            assert(s[(pos + 1) + t] == s[pos + (t + 1)]);
        }
        lemma_digit_run_ge(s, pos + 1, radix, (j - 1) as nat);
    }
}

proof fn lemma_digit_run_eq(s: Seq<char>, pos: int, radix: nat, j: nat)
    requires
        0 <= pos,
        forall|t: int| 0 <= t < j ==> pos + t < s.len() && digit_val(#[trigger] s[pos + t], radix) is Some,
        !(pos + j < s.len() && digit_val(s[pos + j], radix) is Some),
    ensures
        digit_run(s, pos, radix) == j,
    decreases j,
{
    if j > 0 {
        assert(digit_val(s[pos + 0], radix) is Some);
        assert forall|t: int| 0 <= t < j - 1 implies (pos + 1) + t < s.len() && digit_val(
            #[trigger] s[(pos + 1) + t],
            radix,
        ) is Some by {
            assert(s[(pos + 1) + t] == s[pos + (t + 1)]);
        }
        assert(s[(pos + 1) + (j - 1)] == s[pos + j]) by {
            if pos + j < s.len() {
            }
        }
        lemma_digit_run_eq(s, pos + 1, radix, (j - 1) as nat);
    }
}

proof fn lemma_run_value_mono(s: Seq<char>, pos: int, k: nat, j: nat, radix: nat)
    requires
        j <= k,
        radix >= 1,
        forall|t: int| 0 <= t < k ==> digit_val(#[trigger] s[pos + t], radix) is Some,
    ensures
        run_value(s, pos, j, radix) <= run_value(s, pos, k, radix),
    decreases k - j,
{
    if j < k {
        lemma_run_value_mono(s, pos, (k - 1) as nat, j, radix);
        assert(digit_val(s[pos + (k - 1)], radix) is Some);
        let prev = run_value(s, pos, (k - 1) as nat, radix);
        assert(prev * radix >= prev) by (nonlinear_arith)
            requires
                radix >= 1,
        ;
    }
}

// ---------------------------------------------------------------------------
// Executable reader
// ---------------------------------------------------------------------------

fn digit_val_exec(c: char, radix: u32) -> (r: Option<u32>)
    requires
        radix == 10 || radix == 16,
    ensures
        r matches Some(v) ==> digit_val(c, radix as nat) == Some(v as nat) && v < radix,
        r is None ==> digit_val(c, radix as nat) is None,
{
    if '0' <= c && c <= '9' {
        Some((c as u32) - 48)
    } else if radix == 16 && 'a' <= c && c <= 'f' {
        Some((c as u32) - 87)
    } else if radix == 16 && 'A' <= c && c <= 'F' {
        Some((c as u32) - 55)
    } else {
        None
    }
}

fn read_number_exec(
    s: &[char],
    pos: usize,
    radix: u32,
    max_digits: usize,
    allow_zero_prefix: bool,
    max_val: u32,
) -> (r: Option<(u32, usize)>)
    requires
        radix == 10 || radix == 16,
        1 <= max_digits <= 4,
        max_val <= 65535,
        pos <= s.len(),
    ensures
        r matches Some((v, p)) ==> read_number(
            s@,
            pos as int,
            radix as nat,
            max_digits as nat,
            allow_zero_prefix,
            max_val as nat,
        ) == Some((v as nat, p as int)) && p <= s.len(),
        r is None ==> read_number(
            s@,
            pos as int,
            radix as nat,
            max_digits as nat,
            allow_zero_prefix,
            max_val as nat,
        ) is None,
{
    let mut k: usize = 0;
    let mut acc: u32 = 0;
    assert(pow_nat(radix as nat, 0) == 1);
    while pos + k < s.len() && k <= max_digits && digit_val_exec(s[pos + k], radix).is_some()
        invariant
            pos <= s.len(),
            radix == 10 || radix == 16,
            1 <= max_digits <= 4,
            k <= max_digits + 1,
            pos + k <= s.len(),
            forall|t: int| 0 <= t < k ==> digit_val(#[trigger] s@[pos + t], radix as nat) is Some,
            k <= max_digits ==> acc as nat == run_value(s@, pos as int, k as nat, radix as nat),
            k <= max_digits ==> acc < pow_nat(radix as nat, k as nat),
        decreases max_digits + 1 - k,
    {
        let d = digit_val_exec(s[pos + k], radix);
        let dv = d.unwrap();
        if k < max_digits {
            proof {
                assert(s@[pos + k] == s@[pos + (k as int)]);
                let prev = run_value(s@, pos as int, k as nat, radix as nat);
                assert(run_value(s@, pos as int, (k + 1) as nat, radix as nat) == prev * (radix as nat) + dv as nat);
                assert(k + 1 <= 4);
                lemma_pow_bound(acc as nat, radix as nat, k as nat);
            }
            acc = acc * radix + dv;
            proof {
                lemma_run_pow(s@, pos as int, (k + 1) as nat, radix as nat);
            }
        }
        k += 1;
    }
    proof {
        lemma_digit_run_ge(s@, pos as int, radix as nat, k as nat);
    }
    if k > max_digits {
        return None;
    }
    proof {
        lemma_digit_run_eq(s@, pos as int, radix as nat, k as nat);
    }
    if k == 0 {
        return None;
    }
    proof {
        assert(pow_nat(radix as nat, 0) == 1);
    }
    if acc > max_val {
        return None;
    }
    if !allow_zero_prefix && s[pos] == '0' && k > 1 {
        return None;
    }
    Some((acc, pos + k))
}

/// Values of at most four digits stay below 65536.
proof fn lemma_run_pow(s: Seq<char>, pos: int, k: nat, radix: nat)
    requires
        k <= 4,
        radix == 10 || radix == 16,
        forall|t: int| 0 <= t < k ==> digit_val(#[trigger] s[pos + t], radix) is Some,
    ensures
        run_value(s, pos, k, radix) < pow_nat(radix, k),
    decreases k,
{
    if k > 0 {
        lemma_run_pow(s, pos, (k - 1) as nat, radix);
        assert(digit_val(s[pos + (k - 1)], radix) is Some);
        let d = digit_val(s[pos + k - 1], radix).unwrap();
        assert(d < radix);
        let prev = run_value(s, pos, (k - 1) as nat, radix);
        let p = pow_nat(radix, (k - 1) as nat);
        assert(prev * radix + d < p * radix) by (nonlinear_arith)
            requires
                prev < p,
                d < radix,
        ;
        assert(pow_nat(radix, k) == radix * p);
        assert(p * radix == radix * p) by (nonlinear_arith);
    }
}

pub open spec fn pow_nat(b: nat, e: nat) -> nat
    decreases e,
{
    if e == 0 {
        1
    } else {
        b * pow_nat(b, (e - 1) as nat)
    }
}

proof fn lemma_pow_bound(acc: nat, radix: nat, k: nat)
    requires
        radix == 10 || radix == 16,
        k <= 3,
        acc < pow_nat(radix, k),
    ensures
        acc * radix + radix <= 65536,
{
    assert(pow_nat(radix, 0) == 1);
    assert(pow_nat(radix, 1) == radix);
    assert(pow_nat(radix, 2) == radix * radix);
    assert(pow_nat(radix, 3) == radix * (radix * radix));
    if radix == 10 {
        assert(pow_nat(radix, k) <= 1000);
    } else {
        assert(pow_nat(radix, k) <= 4096);
    }
    assert(acc * radix + radix <= 65536) by (nonlinear_arith)
        requires
            acc + 1 <= pow_nat(radix, k),
            pow_nat(radix, k) * radix <= 65536,
            radix >= 1,
    {
        assert((acc + 1) * radix <= pow_nat(radix, k) * radix) by (nonlinear_arith)
            requires
                acc + 1 <= pow_nat(radix, k),
                radix >= 1,
        ;
    }
}

fn read_octet_exec(s: &[char], pos: usize, first: bool) -> (r: Option<(u32, usize)>)
    requires
        pos <= s.len(),
    ensures
        r matches Some((v, p)) ==> read_octet(s@, pos as int, first) == Some((v as nat, p as int))
            && p <= s.len() && v <= 255,
        r is None ==> read_octet(s@, pos as int, first) is None,
{
    if first {
        read_number_exec(s, pos, 10, 3, false, 255)
    } else if pos < s.len() && s[pos] == '.' {
        read_number_exec(s, pos + 1, 10, 3, false, 255)
    } else {
        None
    }
}

fn read_ipv4_exec(s: &[char], pos: usize) -> (r: Option<(u32, usize)>)
    requires
        pos <= s.len(),
    ensures
        r matches Some((v, p)) ==> read_ipv4(s@, pos as int) == Some((v, p as int)) && p <= s.len(),
        r is None ==> read_ipv4(s@, pos as int) is None,
{
    let (a, p1) = match read_octet_exec(s, pos, true) {
        Some(x) => x,
        None => return None,
    };
    let (b, p2) = match read_octet_exec(s, p1, false) {
        Some(x) => x,
        None => return None,
    };
    let (c, p3) = match read_octet_exec(s, p2, false) {
        Some(x) => x,
        None => return None,
    };
    let (d, p4) = match read_octet_exec(s, p3, false) {
        Some(x) => x,
        None => return None,
    };
    let v: u32 = a * 16777216 + b * 65536 + c * 256 + d;
    Some((v, p4))
}

fn after_sep_exec(s: &[char], pos: usize, first: bool) -> (r: Option<usize>)
    requires
        pos <= s.len(),
    ensures
        r matches Some(q) ==> after_sep(s@, pos as int, first) == Some(q as int) && q <= s.len(),
        r is None ==> after_sep(s@, pos as int, first) is None,
{
    if first {
        Some(pos)
    } else if pos < s.len() && s[pos] == ':' {
        Some(pos + 1)
    } else {
        None
    }
}

fn read_groups_exec(s: &[char], pos: usize, limit: usize, out: &mut Vec<u16>) -> (r: (bool, usize))
    requires
        pos <= s.len(),
        limit <= 8,
    ensures
        ({
            let (g, v4, p) = read_groups(s@, pos as int, 0, limit as nat, old(out)@);
            final(out)@ == g && r.0 == v4 && r.1 as int == p
        }),
        r.1 <= s.len(),
{
    let mut i: usize = 0;
    let mut p: usize = pos;
    while i < limit
        invariant
            i <= limit <= 8,
            p <= s.len(),
            read_groups(s@, pos as int, 0, limit as nat, old(out)@) == read_groups(
                s@,
                p as int,
                i as nat,
                limit as nat,
                out@,
            ),
        decreases limit - i,
    {
        if i + 1 < limit {
            let v4 = match after_sep_exec(s, p, i == 0) {
                Some(q) => read_ipv4_exec(s, q),
                None => None,
            };
            if let Some((v, p2)) = v4 {
                out.push((v / 65536) as u16);
                out.push((v % 65536) as u16);
                return (true, p2);
            }
        }
        let g = match after_sep_exec(s, p, i == 0) {
            Some(q) => read_number_exec(s, q, 16, 4, true, 65535),
            None => None,
        };
        match g {
            Some((gv, p2)) => {
                out.push(gv as u16);
                p = p2;
            },
            None => {
                return (false, p);
            },
        }
        i += 1;
    }
    (false, p)
}

/// `str::parse::<Ipv6Addr>()` on chars.
pub fn parse_ipv6(s: &[char]) -> (r: Option<Vec<u16>>)
    ensures
        r matches Some(g) ==> spec_parse_ipv6(s@) == Some(g@),
        r is None ==> spec_parse_ipv6(s@) is None,
{
    let mut head: Vec<u16> = Vec::new();
    let (head_v4, p) = read_groups_exec(s, 0, 8, &mut head);
    if head.len() == 8 {
        if p == s.len() {
            return Some(head);
        } else {
            return None;
        }
    }
    if head_v4 {
        return None;
    }
    if !(p < s.len() && s[p] == ':' && p + 1 < s.len() && s[p + 1] == ':') {
        return None;
    }
    proof {
        let (hg, _, _) = read_groups(s@, 0, 0, 8, seq![]);
        lemma_read_groups_len(s@, 0, 0, 8, seq![]);
    }
    let limit: usize = 8 - (head.len() + 1);
    let mut tail: Vec<u16> = Vec::new();
    let (_, q) = read_groups_exec(s, p + 2, limit, &mut tail);
    if q != s.len() {
        return None;
    }
    proof {
        lemma_read_groups_len(s@, (p + 2) as int, 0, limit as nat, seq![]);
    }
    let zeros: usize = 8 - head.len() - tail.len();
    let ghost h0 = head@;
    let mut z: usize = 0;
    while z < zeros
        invariant
            z <= zeros,
            head@ == h0 + Seq::new(z as nat, |j: int| 0u16),
        decreases zeros - z,
    {
        head.push(0u16);
        assert(h0 + Seq::new((z + 1) as nat, |j: int| 0u16) =~= (h0 + Seq::new(
            z as nat,
            |j: int| 0u16,
        )).push(0u16));
        z += 1;
    }
    let ghost h1 = head@;
    let mut t: usize = 0;
    while t < tail.len()
        invariant
            t <= tail.len(),
            head@ == h1 + tail@.take(t as int),
        decreases tail.len() - t,
    {
        head.push(tail[t]);
        assert(h1 + tail@.take(t + 1) =~= (h1 + tail@.take(t as int)).push(tail@[t as int]));
        t += 1;
    }
    assert(tail@.take(tail.len() as int) =~= tail@);
    Some(head)
}

proof fn lemma_read_groups_len(s: Seq<char>, pos: int, i: nat, limit: nat, acc: Seq<u16>)
    requires
        i <= limit,
        acc.len() == i,
    ensures
        read_groups(s, pos, i, limit, acc).0.len() <= limit,
    decreases limit - i,
{
    if i < limit {
        let g = match after_sep(s, pos, i == 0) {
            Some(q) => read_number(s, q, 16, 4, true, 65535),
            None => None,
        };
        match g {
            Some((g, p)) => lemma_read_groups_len(s, p, i + 1, limit, acc.push(g as u16)),
            None => {},
        }
    }
}

/// `str::parse::<IpAddr>()` on chars.
pub fn parse_ip_addr(s: &[char]) -> (r: Option<IpValue>)
    ensures
        r matches Some(v) ==> spec_parse_ip(s@) == Some(v.view()),
        r is None ==> spec_parse_ip(s@) is None,
{
    match read_ipv4_exec(s, 0) {
        Some((v, p)) => {
            if p == s.len() {
                Some(IpValue::V4(v))
            } else {
                None
            }
        },
        None => match parse_ipv6(s) {
            Some(g) => Some(IpValue::V6(g)),
            None => None,
        },
    }
}

/// `s` parses as an IPv6 address.
pub fn is_ipv6_literal_exec(s: &[char]) -> (r: bool)
    ensures
        r == is_ipv6_literal(s@),
{
    match parse_ip_addr(s) {
        Some(IpValue::V6(_)) => true,
        _ => false,
    }
}

/// Same address (`IpAddr == IpAddr`).
pub fn ip_eq(a: &IpValue, b: &IpValue) -> (r: bool)
    ensures
        r == (a.view() == b.view()),
{
    match a {
        IpValue::V4(x) => match b {
            IpValue::V4(y) => *x == *y,
            IpValue::V6(_) => false,
        },
        IpValue::V6(x) => match b {
            IpValue::V4(_) => false,
            IpValue::V6(y) => {
                let r = u16_seq_eq(x, y);
                assert(r ==> a.view() == b.view());
                assert(!r ==> x@ != y@);
                r
            },
        },
    }
}

fn u16_seq_eq(x: &Vec<u16>, y: &Vec<u16>) -> (r: bool)
    ensures
        r == (x@ == y@),
{
    if x.len() != y.len() {
        return false;
    }
    let mut i: usize = 0;
    while i < x.len()
        invariant
            x.len() == y.len(),
            i <= x.len(),
            forall|j: int| 0 <= j < i ==> x@[j] == y@[j],
        decreases x.len() - i,
    {
        if x[i] != y[i] {
            assert(x@[i as int] != y@[i as int]);
            return false;
        }
        i += 1;
    }
    assert(x@ =~= y@);
    true
}

} // verus!
