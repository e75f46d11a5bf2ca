//! Pipe-separated mock zone text: one `Name|Type|Address|MXPref|TTL` line
//! per record. The file itself is read and written by the caller.

use vstd::prelude::*;
use crate::text::{chars_of, contains, extend, find_char, find_char_exec, is_ws, lemma_find_char, lemma_find_char_is, slice_of, string_of, trim, trim_end, trim_start, trim_vec};
use crate::acme::cred::{strip_cr};

verus! {

/// One DNS host record (all fields as Namecheap's API gives them: text).
#[derive(Debug, PartialEq, Eq)]
pub struct Record {
    pub name: String,
    pub record_type: String,
    pub address: String,
    pub mx_pref: String,
    pub ttl: String,
}

/// Spec view of [`Record`].
pub struct RecordView {
    pub name: Seq<char>,
    pub record_type: Seq<char>,
    pub address: Seq<char>,
    pub mx_pref: Seq<char>,
    pub ttl: Seq<char>,
}

impl Record {
    pub open spec fn view(&self) -> RecordView {
        RecordView {
            name: self.name@,
            record_type: self.record_type@,
            address: self.address@,
            mx_pref: self.mx_pref@,
            ttl: self.ttl@,
        }
    }
}

pub open spec fn record_views(s: Seq<Record>) -> Seq<RecordView> {
    s.map_values(|r: Record| r@)
}

// ---------------------------------------------------------------------------
// Spec model
// ---------------------------------------------------------------------------

/// `str::split_once(c)`.
pub open spec fn split_once(s: Seq<char>, c: char) -> Option<(Seq<char>, Seq<char>)> {
    match find_char(s, c) {
        Some(i) => Some((s.take(i), s.skip(i + 1))),
        None => None,
    }
}

/// The lines `BufRead::lines` yields for `t`, each then without one more
/// trailing `\r`.
pub open spec fn text_lines(t: Seq<char>) -> Seq<Seq<char>>
    decreases t.len(),
{
    match find_char(t, '\n') {
        None => if t.len() == 0 { seq![] } else { seq![strip_cr(t)] },
        Some(i) => {
            proof {
                lemma_find_char(t, '\n');
            }
            seq![strip_cr(strip_cr(t.take(i)))] + text_lines(t.skip(i + 1))
        },
    }
}

/// The five `splitn(5, '|')` pieces, absent ones `None`.
pub open spec fn splitn5(l: Seq<char>) -> (Seq<char>, Option<Seq<char>>, Option<Seq<char>>, Option<Seq<char>>, Option<Seq<char>>) {
    match split_once(l, '|') {
        None => (l, None, None, None, None),
        Some((a, r1)) => match split_once(r1, '|') {
            None => (a, Some(r1), None, None, None),
            Some((b, r2)) => match split_once(r2, '|') {
                None => (a, Some(b), Some(r2), None, None),
                Some((c, r3)) => match split_once(r3, '|') {
                    None => (a, Some(b), Some(c), Some(r3), None),
                    Some((d, r4)) => (a, Some(b), Some(c), Some(d), Some(r4)),
                },
            },
        },
    }
}

/// Piece text, or the default when absent or empty.
pub open spec fn or_default(p: Option<Seq<char>>, d: Seq<char>) -> Seq<char> {
    match p {
        Some(x) => if x.len() == 0 { d } else { x },
        None => d,
    }
}

/// The record of one zone line: blank and `#` lines and lines without a
/// name or a type give none; MXPref defaults to `10`, TTL to `1800`.
pub open spec fn spec_parse_zone_line(l: Seq<char>) -> Option<RecordView> {
    if trim(l).len() == 0 || (l.len() > 0 && l[0] == '#') {
        None
    } else {
        let (a, b, c, d, e) = splitn5(l);
        let typ = match b { Some(x) => x, None => seq![] };
        if a.len() == 0 || typ.len() == 0 {
            None
        } else {
            Some(RecordView {
                name: a,
                record_type: typ,
                address: match c { Some(x) => x, None => seq![] },
                mx_pref: or_default(d, "10"@),
                ttl: or_default(e, "1800"@),
            })
        }
    }
}

/// Records of a list of lines, in order.
pub open spec fn parse_zone_lines(ls: Seq<Seq<char>>) -> Seq<RecordView>
    decreases ls.len(),
{
    if ls.len() == 0 {
        seq![]
    } else {
        match spec_parse_zone_line(ls[0]) {
            Some(r) => seq![r] + parse_zone_lines(ls.drop_first()),
            None => parse_zone_lines(ls.drop_first()),
        }
    }
}

/// Records of a zone text.
pub open spec fn spec_parse_zone(t: Seq<char>) -> Seq<RecordView> {
    parse_zone_lines(text_lines(t))
}

/// One record's line (without the newline).
pub open spec fn zone_line(r: RecordView) -> Seq<char> {
    r.name + "|"@ + r.record_type + "|"@ + r.address + "|"@ + r.mx_pref + "|"@ + r.ttl
}

/// Zone text: each record's line and a newline.
pub open spec fn spec_render_zone(rs: Seq<RecordView>) -> Seq<char>
    decreases rs.len(),
{
    if rs.len() == 0 {
        seq![]
    } else {
        zone_line(rs[0]) + "\n"@ + spec_render_zone(rs.drop_first())
    }
}


// ---------------------------------------------------------------------------
// Executable functions
// ---------------------------------------------------------------------------

/// `str::split_once(c)`.
fn split_once_exec(v: &[char], c: char) -> (r: Option<(Vec<char>, Vec<char>)>)
    ensures
        match r {
            Some((a, b)) => split_once(v@, c) == Some((a@, b@)),
            None => split_once(v@, c) is None,
        },
{
    match find_char_exec(v, c) {
        None => None,
        Some(i) => {
            let n = v.len();
            let a = slice_of(v, 0, i);
            let b = slice_of(v, i + 1, n);
            assert(a@ =~= v@.take(i as int));
            assert(b@ =~= v@.skip(i + 1));
            Some((a, b))
        },
    }
}

fn strip_cr_vec(v: &[char]) -> (r: Vec<char>)
    ensures
        r@ == strip_cr(v@),
{
    let n = v.len();
    if n > 0 && v[n - 1] == '\r' {
        slice_of(v, 0, n - 1)
    } else {
        slice_of(v, 0, n)
    }
}

/// The lines of a text as `BufRead::lines` yields them, each without one
/// more trailing `\r`.
pub fn text_lines_exec(t: &[char]) -> (r: Vec<Vec<char>>)
    ensures
        r@.map_values(|l: Vec<char>| l@) == text_lines(t@),
{
    let mut out: Vec<Vec<char>> = Vec::new();
    let mut rest = slice_of(t, 0, t.len());
    assert(rest@ =~= t@);
    loop
        invariant
            out@.map_values(|l: Vec<char>| l@) + text_lines(rest@) == text_lines(t@),
        decreases rest.len(),
    {
        match find_char_exec(rest.as_slice(), '\n') {
            None => {
                let ghost before = out@.map_values(|l: Vec<char>| l@);
                if rest.len() > 0 {
                    let l = strip_cr_vec(rest.as_slice());
                    out.push(l);
                    assert(out@.map_values(|l: Vec<char>| l@) =~= before + text_lines(rest@));
                } else {
                    assert(before + text_lines(rest@) =~= before);
                }
                return out;
            },
            Some(i) => {
                let n = rest.len();
                let head = slice_of(rest.as_slice(), 0, i);
                let a = strip_cr_vec(head.as_slice());
                let l = strip_cr_vec(a.as_slice());
                let tail = slice_of(rest.as_slice(), i + 1, n);
                proof {
                    assert(head@ =~= rest@.take(i as int));
                    assert(tail@ =~= rest@.skip(i + 1));
                }
                let ghost before = out@.map_values(|l: Vec<char>| l@);
                out.push(l);
                assert(out@.map_values(|x: Vec<char>| x@) =~= before.push(l@));
                assert(before + text_lines(rest@) =~= before.push(l@) + text_lines(tail@));
                rest = tail;
            },
        }
    }
}

/// The record of one zone line (see [`spec_parse_zone_line`]).
fn parse_zone_line(l: &[char]) -> (r: Option<Record>)
    ensures
        match r {
            Some(x) => spec_parse_zone_line(l@) == Some(x@),
            None => spec_parse_zone_line(l@) is None,
        },
{
    let t = trim_vec(l);
    if t.len() == 0 || (l.len() > 0 && l[0] == '#') {
        return None;
    }
    let empty: Vec<char> = Vec::new();
    let (a, b, c, d, e): (Vec<char>, Option<Vec<char>>, Option<Vec<char>>, Option<Vec<char>>, Option<Vec<char>>) =
        match split_once_exec(l, '|') {
        None => (slice_of(l, 0, l.len()), None, None, None, None),
        Some((a, r1)) => match split_once_exec(r1.as_slice(), '|') {
            None => (a, Some(r1), None, None, None),
            Some((b, r2)) => match split_once_exec(r2.as_slice(), '|') {
                None => (a, Some(b), Some(r2), None, None),
                Some((c, r3)) => match split_once_exec(r3.as_slice(), '|') {
                    None => (a, Some(b), Some(c), Some(r3), None),
                    Some((d, r4)) => (a, Some(b), Some(c), Some(d), Some(r4)),
                },
            },
        },
    };
    proof {
        let (sa, sb, sc, sd, se) = splitn5(l@);
        assert(sa == a@);
        assert(sb == match b { Some(x) => Some(x@), None => None::<Seq<char>> });
        assert(sc == match c { Some(x) => Some(x@), None => None::<Seq<char>> });
        assert(sd == match d { Some(x) => Some(x@), None => None::<Seq<char>> });
        assert(se == match e { Some(x) => Some(x@), None => None::<Seq<char>> });
    }
    let typ = match b {
        Some(x) => x,
        None => empty,
    };
    if a.len() == 0 || typ.len() == 0 {
        return None;
    }
    let addr = match c {
        Some(x) => x,
        None => Vec::new(),
    };
    let mx = match d {
        Some(x) => if x.len() == 0 {
            chars_of("10")
        } else {
            x
        },
        None => chars_of("10"),
    };
    let ttl = match e {
        Some(x) => if x.len() == 0 {
            chars_of("1800")
        } else {
            x
        },
        None => chars_of("1800"),
    };
    Some(Record {
        name: string_of(a.as_slice()),
        record_type: string_of(typ.as_slice()),
        address: string_of(addr.as_slice()),
        mx_pref: string_of(mx.as_slice()),
        ttl: string_of(ttl.as_slice()),
    })
}

/// Records of a zone text: one per `Name|Type|Address|MXPref|TTL` line
/// with a name and a type; blank and `#` lines skipped; MXPref defaults
/// to `10`, TTL to `1800`.
pub fn parse_zone(text: &str) -> (r: Vec<Record>)
    ensures
        record_views(r@) == spec_parse_zone(text@),
{
    let tv = chars_of(text);
    let lines = text_lines_exec(tv.as_slice());
    let ghost ls = lines@.map_values(|l: Vec<char>| l@);
    let mut out: Vec<Record> = Vec::new();
    let mut k: usize = 0;
    assert(ls.skip(0) =~= ls);
    assert(record_views(out@) =~= Seq::<RecordView>::empty());
    while k < lines.len()
        invariant
            k <= lines.len(),
            ls == lines@.map_values(|l: Vec<char>| l@),
            ls == text_lines(text@),
            record_views(out@) + parse_zone_lines(ls.skip(k as int)) == spec_parse_zone(text@),
        decreases lines.len() - k,
    {
        proof {
            assert(ls.skip(k as int)[0] == lines@[k as int]@);
            assert(ls.skip(k as int).drop_first() =~= ls.skip(k + 1));
        }
        let ghost before = record_views(out@);
        match parse_zone_line(lines[k].as_slice()) {
            Some(rec) => {
                let ghost rv = rec@;
                out.push(rec);
                assert(record_views(out@) =~= before.push(rv));
                assert(before + (seq![rv] + parse_zone_lines(ls.skip(k + 1))) =~= before.push(rv) + parse_zone_lines(ls.skip(k + 1)));
            },
            None => {},
        }
        k += 1;
    }
    assert(ls.skip(lines.len() as int) =~= Seq::<Seq<char>>::empty());
    assert(record_views(out@) + Seq::<RecordView>::empty() =~= record_views(out@));
    out
}

/// Zone text: `name|type|address|mx|ttl` and a newline per record.
pub fn render_zone(recs: &Vec<Record>) -> (r: String)
    ensures
        r@ == spec_render_zone(record_views(recs@)),
{
    let ghost rs = record_views(recs@);
    let mut out: Vec<char> = Vec::new();
    let bar = chars_of("|");
    let nl = chars_of("\n");
    let mut k: usize = 0;
    assert(rs.skip(0) =~= rs);
    while k < recs.len()
        invariant
            k <= recs.len(),
            rs == record_views(recs@),
            bar@ == "|"@,
            nl@ == "\n"@,
            out@ + spec_render_zone(rs.skip(k as int)) == spec_render_zone(rs),
        decreases recs.len() - k,
    {
        let r = &recs[k];
        let ghost before = out@;
        extend(&mut out, chars_of(r.name.as_str()).as_slice());
        extend(&mut out, bar.as_slice());
        extend(&mut out, chars_of(r.record_type.as_str()).as_slice());
        extend(&mut out, bar.as_slice());
        extend(&mut out, chars_of(r.address.as_str()).as_slice());
        extend(&mut out, bar.as_slice());
        extend(&mut out, chars_of(r.mx_pref.as_str()).as_slice());
        extend(&mut out, bar.as_slice());
        extend(&mut out, chars_of(r.ttl.as_str()).as_slice());
        extend(&mut out, nl.as_slice());
        proof {
            assert(rs.skip(k as int)[0] == rs[k as int]);
            assert(rs.skip(k as int).drop_first() =~= rs.skip(k + 1));
            assert(out@ =~= before + (zone_line(rs[k as int]) + "\n"@));
            assert(before + spec_render_zone(rs.skip(k as int)) =~= before + (zone_line(rs[k as int]) + "\n"@) + spec_render_zone(rs.skip(k + 1)));
        }
        k += 1;
    }
    assert(rs.skip(recs.len() as int) =~= Seq::<RecordView>::empty());
    assert(out@ + Seq::<char>::empty() =~= out@);
    string_of(out.as_slice())
}


// ---------------------------------------------------------------------------
// Round trip
// ---------------------------------------------------------------------------

/// A record that survives a write and a read of the zone text unchanged:
/// name, type, address and MXPref hold no `|`; no field holds a newline;
/// name, type, MXPref and TTL are not empty; the name does not start with
/// `#`; the TTL does not end with `\r`.
pub open spec fn record_round_trips(r: RecordView) -> bool {
    &&& !r.name.contains('|') && !r.record_type.contains('|') && !r.address.contains('|') && !r.mx_pref.contains('|')
    &&& !r.name.contains('\n') && !r.record_type.contains('\n') && !r.address.contains('\n') && !r.mx_pref.contains('\n')
        && !r.ttl.contains('\n')
    &&& r.name.len() > 0 && r.record_type.len() > 0 && r.mx_pref.len() > 0 && r.ttl.len() > 0
    &&& r.name[0] != '#'
    &&& r.ttl.last() != '\r'
}

pub proof fn lemma_split_once_concat(a: Seq<char>, c: char, b: Seq<char>)
    requires
        !a.contains(c),
    ensures
        split_once(a + seq![c] + b, c) == Some((a, b)),
{
    let s = a + seq![c] + b;
    assert forall|j: int| 0 <= j < a.len() implies s[j] != c by {
        assert(s[j] == a[j]);
    }
    lemma_find_char_is(s, c, a.len() as int);
    assert(s.take(a.len() as int) =~= a);
    assert(s.skip(a.len() as int + 1) =~= b);
}

pub proof fn lemma_trim_has(s: Seq<char>, k: int)
    requires
        0 <= k < s.len(),
        !is_ws(s[k]),
    ensures
        trim(s).len() > 0,
{
    lemma_trim_start_has(s, k);
    let t = trim_start(s);
    let j = choose|j: int| 0 <= j < t.len() && !is_ws(t[j]);
    lemma_trim_end_has(t, j);
}

proof fn lemma_trim_start_has(s: Seq<char>, k: int)
    requires
        0 <= k < s.len(),
        !is_ws(s[k]),
    ensures
        exists|j: int| 0 <= j < trim_start(s).len() && !is_ws(trim_start(s)[j]),
    decreases s.len(),
{
    if s.len() > 0 && is_ws(s[0]) {
        assert(k > 0);
        assert(s.drop_first()[k - 1] == s[k]);
        lemma_trim_start_has(s.drop_first(), k - 1);
        assert(trim_start(s) == trim_start(s.drop_first()));
    } else {
        assert(trim_start(s) == s);
        assert(!is_ws(trim_start(s)[k]));
    }
}

proof fn lemma_trim_end_has(s: Seq<char>, k: int)
    requires
        0 <= k < s.len(),
        !is_ws(s[k]),
    ensures
        trim_end(s).len() > 0,
    decreases s.len(),
{
    if s.len() > 0 && is_ws(s.last()) {
        assert(k < s.len() - 1);
        assert(s.drop_last()[k] == s[k]);
        lemma_trim_end_has(s.drop_last(), k);
    }
}

proof fn lemma_parse_zone_line(r: RecordView)
    requires
        record_round_trips(r),
    ensures
        spec_parse_zone_line(zone_line(r)) == Some(r),
{
    reveal_strlit("|");
    let l = zone_line(r);
    let bar: Seq<char> = seq!['|'];
    assert("|"@ == bar);
    let r4 = r.ttl;
    let r3 = r.mx_pref + bar + r4;
    let r2 = r.address + bar + r3;
    let r1 = r.record_type + bar + r2;
    assert(l =~= r.name + bar + r1);
    lemma_split_once_concat(r.name, '|', r1);
    lemma_split_once_concat(r.record_type, '|', r2);
    lemma_split_once_concat(r.address, '|', r3);
    lemma_split_once_concat(r.mx_pref, '|', r4);
    assert(l[r.name.len() as int] == '|');
    assert(!is_ws('|'));
    lemma_trim_has(l, r.name.len() as int);
    assert(l[0] == r.name[0]);
}

proof fn lemma_text_lines_concat(a: Seq<char>, b: Seq<char>)
    requires
        !a.contains('\n'),
    ensures
        text_lines(a + seq!['\n'] + b) == seq![strip_cr(strip_cr(a))] + text_lines(b),
{
    let t = a + seq!['\n'] + b;
    lemma_split_once_concat(a, '\n', b);
    lemma_find_char(t, '\n');
}

/// Writing records as zone text and reading the text back gives the same
/// records, for records whose fields fit the format.
pub proof fn law_zone_round_trip(rs: Seq<RecordView>)
    requires
        forall|i: int| 0 <= i < rs.len() ==> record_round_trips(#[trigger] rs[i]),
    ensures
        spec_parse_zone(spec_render_zone(rs)) == rs,
    decreases rs.len(),
{
    reveal_strlit("\n");
    if rs.len() == 0 {
        assert(spec_render_zone(rs) =~= Seq::<char>::empty());
        assert(find_char(Seq::<char>::empty(), '\n') is None) by {
            lemma_find_char(Seq::<char>::empty(), '\n');
        }
        assert(text_lines(Seq::<char>::empty()) =~= Seq::<Seq<char>>::empty());
    } else {
        let r = rs[0];
        let rest = rs.drop_first();
        assert forall|i: int| 0 <= i < rest.len() implies record_round_trips(#[trigger] rest[i]) by {
            assert(rest[i] == rs[i + 1]);
        }
        law_zone_round_trip(rest);
        let l = zone_line(r);
        assert(record_round_trips(rs[0]));
        reveal_strlit("|");
        assert(!l.contains('\n')) by {
            if l.contains('\n') {
                let j = choose|j: int| 0 <= j < l.len() && l[j] == '\n';
                let bar: Seq<char> = seq!['|'];
                assert("|"@ == bar);
                assert(l =~= r.name + bar + r.record_type + bar + r.address + bar + r.mx_pref + bar + r.ttl);
                let n1 = r.name.len() as int;
                let n2 = n1 + 1 + r.record_type.len();
                let n3 = n2 + 1 + r.address.len();
                let n4 = n3 + 1 + r.mx_pref.len();
                if j < n1 {
                    assert(r.name[j] == '\n');
                } else if j == n1 || j == n2 || j == n3 || j == n4 {
                } else if j < n2 {
                    assert(r.record_type[j - n1 - 1] == '\n');
                } else if j < n3 {
                    assert(r.address[j - n2 - 1] == '\n');
                } else if j < n4 {
                    assert(r.mx_pref[j - n3 - 1] == '\n');
                } else {
                    assert(r.ttl[j - n4 - 1] == '\n');
                }
            }
        }
        let nl: Seq<char> = seq!['\n'];
        assert("\n"@ == nl);
        assert(spec_render_zone(rs) == l + nl + spec_render_zone(rest));
        lemma_text_lines_concat(l, spec_render_zone(rest));
        assert(l.last() == r.ttl.last());
        assert(strip_cr(l) == l);
        lemma_parse_zone_line(r);
        let ls = seq![l] + text_lines(spec_render_zone(rest));
        assert(ls[0] == l);
        assert(ls.drop_first() =~= text_lines(spec_render_zone(rest)));
        assert(seq![r] + rest =~= rs);
    }
}

} // verus!
