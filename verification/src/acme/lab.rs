//! Lab DNS-01 hook against a temp zone file (not production): one
//! `fqdn value` line per TXT record. The file I/O is the caller's.

use vstd::prelude::*;
use crate::text::{is_ws, lemma_find_char_is, unit_view, any_control, any_control_exec, chars_of, concat, eq, extend, find_char, find_char_exec, lemma_find_char, slice_of, string_of, trim, trim_vec, views};
use crate::acme::cred::{die, spec_die, strip_cr};
use crate::acme::zone::{lemma_split_once_concat, lemma_trim_has, split_once};
use crate::tls::{LinkMeta};

verus! {

/// Error prefix of the lab hook.
pub const LAB_PREFIX: &'static str = "acme-dns-hook-lab";

/// A lab record: `(fqdn, value)`.
pub type LabRecord = (String, String);

pub open spec fn lab_views(s: Seq<(String, String)>) -> Seq<(Seq<char>, Seq<char>)> {
    s.map_values(|p: (String, String)| (p.0@, p.1@))
}

/// The lines `BufRead::lines` yields for `t`.
pub open spec fn bufread_lines(t: Seq<char>) -> Seq<Seq<char>>
    decreases t.len(),
{
    match find_char(t, '\n') {
        None => if t.len() == 0 { seq![] } else { seq![t] },
        Some(i) => {
            proof {
                lemma_find_char(t, '\n');
            }
            seq![strip_cr(t.take(i))] + bufread_lines(t.skip(i + 1))
        },
    }
}

/// The record of one lab line: blank and `#` lines give none; the value
/// follows the first space (empty without one).
pub open spec fn spec_lab_line(l: Seq<char>) -> Option<(Seq<char>, Seq<char>)> {
    if trim(l).len() == 0 || (l.len() > 0 && l[0] == '#') {
        None
    } else {
        match split_once(l, ' ') {
            Some(p) => Some(p),
            None => Some((l, seq![])),
        }
    }
}

pub open spec fn lab_lines(ls: Seq<Seq<char>>) -> Seq<(Seq<char>, Seq<char>)>
    decreases ls.len(),
{
    if ls.len() == 0 {
        seq![]
    } else {
        match spec_lab_line(ls[0]) {
            Some(r) => seq![r] + lab_lines(ls.drop_first()),
            None => lab_lines(ls.drop_first()),
        }
    }
}

pub open spec fn spec_parse_lab(t: Seq<char>) -> Seq<(Seq<char>, Seq<char>)> {
    lab_lines(bufread_lines(t))
}

pub open spec fn spec_render_lab(rs: Seq<(Seq<char>, Seq<char>)>) -> Seq<char>
    decreases rs.len(),
{
    if rs.len() == 0 {
        seq![]
    } else {
        rs[0].0 + " "@ + rs[0].1 + "\n"@ + spec_render_lab(rs.drop_first())
    }
}

/// The first record for `fqdn`, if any.
pub open spec fn first_for(rs: Seq<(Seq<char>, Seq<char>)>, fqdn: Seq<char>) -> Option<int> {
    if exists|i: int| 0 <= i < rs.len() && rs[i].0 == fqdn && forall|j: int| 0 <= j < i ==> rs[j].0 != fqdn {
        Some(choose|i: int| 0 <= i < rs.len() && rs[i].0 == fqdn && forall|j: int| 0 <= j < i ==> rs[j].0 != fqdn)
    } else {
        None
    }
}

/// `set`: the first record for `fqdn` takes the value, else one is added.
pub open spec fn spec_lab_set(rs: Seq<(Seq<char>, Seq<char>)>, fqdn: Seq<char>, value: Seq<char>) -> Seq<(Seq<char>, Seq<char>)> {
    match first_for(rs, fqdn) {
        Some(i) => rs.update(i, (fqdn, value)),
        None => rs.push((fqdn, value)),
    }
}

/// `clear`: every record for `fqdn` removed.
pub open spec fn spec_lab_clear(rs: Seq<(Seq<char>, Seq<char>)>, fqdn: Seq<char>) -> Seq<(Seq<char>, Seq<char>)> {
    rs.filter(|r: (Seq<char>, Seq<char>)| r.0 != fqdn)
}

/// `wait`: a record for `fqdn` with `value`.
pub open spec fn spec_lab_ready(rs: Seq<(Seq<char>, Seq<char>)>, fqdn: Seq<char>, value: Seq<char>) -> bool {
    exists|i: int| 0 <= i < rs.len() && rs[i] == (fqdn, value)
}


/// One lab hook invocation.
#[derive(Debug, PartialEq, Eq)]
pub enum LabCommand {
    SetTxt { fqdn: String, value: String },
    ClearTxt { fqdn: String },
    WaitTxt { fqdn: String, value: String },
}

pub enum LabCommandView {
    SetTxt { fqdn: Seq<char>, value: Seq<char> },
    ClearTxt { fqdn: Seq<char> },
    WaitTxt { fqdn: Seq<char>, value: Seq<char> },
}

impl LabCommand {
    pub open spec fn view(&self) -> LabCommandView {
        match self {
            LabCommand::SetTxt { fqdn, value } => LabCommandView::SetTxt { fqdn: fqdn@, value: value@ },
            LabCommand::ClearTxt { fqdn } => LabCommandView::ClearTxt { fqdn: fqdn@ },
            LabCommand::WaitTxt { fqdn, value } => LabCommandView::WaitTxt { fqdn: fqdn@, value: value@ },
        }
    }
}

/// The lab command of the arguments after the program name.
pub open spec fn spec_lab_command(args: Seq<Seq<char>>) -> Result<LabCommandView, Seq<char>> {
    if args.len() == 0 {
        Err(spec_die(LAB_PREFIX@, "usage: set|clear|wait"@))
    } else if args[0] == "set"@ {
        if args.len() < 3 {
            Err(spec_die(LAB_PREFIX@, "set: missing fqdn"@))
        } else if any_control(args[1]) || any_control(args[2]) {
            Err(spec_die(LAB_PREFIX@, "set: control characters refused"@))
        } else {
            Ok(LabCommandView::SetTxt { fqdn: args[1], value: args[2] })
        }
    } else if args[0] == "clear"@ {
        if args.len() < 2 {
            Err(spec_die(LAB_PREFIX@, "clear: missing fqdn"@))
        } else {
            Ok(LabCommandView::ClearTxt { fqdn: args[1] })
        }
    } else if args[0] == "wait"@ {
        if args.len() < 3 {
            Err(spec_die(LAB_PREFIX@, "wait: missing fqdn"@))
        } else {
            Ok(LabCommandView::WaitTxt { fqdn: args[1], value: args[2] })
        }
    } else {
        Err(spec_die(LAB_PREFIX@, "unknown command: "@ + args[0]))
    }
}

fn arg_is(a: &String, s: &str) -> (r: bool)
    ensures
        r == (a@ == s@),
{
    let v = chars_of(a.as_str());
    let w = chars_of(s);
    eq(v.as_slice(), w.as_slice())
}

/// The lab command of the arguments after the program name.
pub fn parse_lab_command(args: &Vec<String>) -> (r: Result<LabCommand, String>)
    ensures
        match r {
            Ok(c) => spec_lab_command(views(args@)) == Ok::<LabCommandView, Seq<char>>(c@),
            Err(e) => spec_lab_command(views(args@)) == Err::<LabCommandView, Seq<char>>(e@),
        },
{
    let ghost a = views(args@);
    if args.len() == 0 {
        return Err(die(LAB_PREFIX, "usage: set|clear|wait"));
    }
    assert(a[0] == args@[0]@);
    if arg_is(&args[0], "set") {
        if args.len() < 3 {
            return Err(die(LAB_PREFIX, "set: missing fqdn"));
        }
        assert(a[1] == args@[1]@ && a[2] == args@[2]@);
        let f = chars_of(args[1].as_str());
        let v = chars_of(args[2].as_str());
        if any_control_exec(f.as_slice()) || any_control_exec(v.as_slice()) {
            return Err(die(LAB_PREFIX, "set: control characters refused"));
        }
        return Ok(LabCommand::SetTxt { fqdn: args[1].clone(), value: args[2].clone() });
    }
    if arg_is(&args[0], "clear") {
        if args.len() < 2 {
            return Err(die(LAB_PREFIX, "clear: missing fqdn"));
        }
        assert(a[1] == args@[1]@);
        return Ok(LabCommand::ClearTxt { fqdn: args[1].clone() });
    }
    if arg_is(&args[0], "wait") {
        if args.len() < 3 {
            return Err(die(LAB_PREFIX, "wait: missing fqdn"));
        }
        assert(a[1] == args@[1]@ && a[2] == args@[2]@);
        return Ok(LabCommand::WaitTxt { fqdn: args[1].clone(), value: args[2].clone() });
    }
    let h = chars_of("unknown command: ");
    let c = chars_of(args[0].as_str());
    let x = concat(h.as_slice(), c.as_slice());
    Err(die(LAB_PREFIX, string_of(x.as_slice()).as_str()))
}

fn bufread_lines_exec(t: &[char]) -> (r: Vec<Vec<char>>)
    ensures
        r@.map_values(|l: Vec<char>| l@) == bufread_lines(t@),
{
    let mut out: Vec<Vec<char>> = Vec::new();
    let mut rest = slice_of(t, 0, t.len());
    assert(rest@ =~= t@);
    loop
        invariant
            out@.map_values(|l: Vec<char>| l@) + bufread_lines(rest@) == bufread_lines(t@),
        decreases rest.len(),
    {
        match find_char_exec(rest.as_slice(), '\n') {
            None => {
                let ghost before = out@.map_values(|l: Vec<char>| l@);
                if rest.len() > 0 {
                    let ghost rv = rest@;
                    out.push(rest);
                    assert(out@.map_values(|l: Vec<char>| l@) =~= before + seq![rv]);
                } else {
                    assert(before + bufread_lines(rest@) =~= before);
                }
                return out;
            },
            Some(i) => {
                let n = rest.len();
                let head = slice_of(rest.as_slice(), 0, i);
                let n0 = head.len();
                let l = if n0 > 0 && head[n0 - 1] == '\r' {
                    slice_of(head.as_slice(), 0, n0 - 1)
                } else {
                    head
                };
                let tail = slice_of(rest.as_slice(), i + 1, n);
                proof {
                    assert(tail@ =~= rest@.skip(i + 1));
                    assert(l@ =~= strip_cr(rest@.take(i as int)));
                }
                let ghost before = out@.map_values(|l: Vec<char>| l@);
                out.push(l);
                assert(out@.map_values(|x: Vec<char>| x@) =~= before.push(l@));
                assert(before + bufread_lines(rest@) =~= before.push(l@) + bufread_lines(tail@));
                rest = tail;
            },
        }
    }
}

/// Lab records of a zone text (see [`spec_lab_line`]).
pub fn parse_lab(text: &str) -> (r: Vec<(String, String)>)
    ensures
        lab_views(r@) == spec_parse_lab(text@),
{
    let tv = chars_of(text);
    let lines = bufread_lines_exec(tv.as_slice());
    let ghost ls = lines@.map_values(|l: Vec<char>| l@);
    let mut out: Vec<(String, String)> = Vec::new();
    let mut k: usize = 0;
    assert(ls.skip(0) =~= ls);
    assert(lab_views(out@) =~= Seq::<(Seq<char>, Seq<char>)>::empty());
    while k < lines.len()
        invariant
            k <= lines.len(),
            ls == lines@.map_values(|l: Vec<char>| l@),
            ls == bufread_lines(text@),
            lab_views(out@) + lab_lines(ls.skip(k as int)) == spec_parse_lab(text@),
        decreases lines.len() - k,
    {
        let l = &lines[k];
        proof {
            assert(ls.skip(k as int)[0] == l@);
            assert(ls.skip(k as int).drop_first() =~= ls.skip(k + 1));
        }
        let ghost before = lab_views(out@);
        let t = trim_vec(l.as_slice());
        if !(t.len() == 0 || (l.len() > 0 && l[0] == '#')) {
            let rec: (String, String) = match find_char_exec(l.as_slice(), ' ') {
                Some(i) => {
                    let a = slice_of(l.as_slice(), 0, i);
                    let b = slice_of(l.as_slice(), i + 1, l.len());
                    assert(a@ =~= l@.take(i as int));
                    assert(b@ =~= l@.skip(i + 1));
                    (string_of(a.as_slice()), string_of(b.as_slice()))
                },
                None => (string_of(l.as_slice()), String::new()),
            };
            let ghost rv = (rec.0@, rec.1@);
            out.push(rec);
            assert(lab_views(out@) =~= before.push(rv));
            assert(before + (seq![rv] + lab_lines(ls.skip(k + 1))) =~= before.push(rv) + lab_lines(ls.skip(k + 1)));
        }
        k += 1;
    }
    assert(ls.skip(lines.len() as int) =~= Seq::<Seq<char>>::empty());
    assert(lab_views(out@) + Seq::<(Seq<char>, Seq<char>)>::empty() =~= lab_views(out@));
    out
}

/// Lab zone text: `fqdn value` and a newline per record.
pub fn render_lab(recs: &Vec<(String, String)>) -> (r: String)
    ensures
        r@ == spec_render_lab(lab_views(recs@)),
{
    let ghost rs = lab_views(recs@);
    let mut out: Vec<char> = Vec::new();
    let sp = chars_of(" ");
    let nl = chars_of("\n");
    let mut k: usize = 0;
    assert(rs.skip(0) =~= rs);
    while k < recs.len()
        invariant
            k <= recs.len(),
            rs == lab_views(recs@),
            sp@ == " "@,
            nl@ == "\n"@,
            out@ + spec_render_lab(rs.skip(k as int)) == spec_render_lab(rs),
        decreases recs.len() - k,
    {
        let ghost before = out@;
        extend(&mut out, chars_of(recs[k].0.as_str()).as_slice());
        extend(&mut out, sp.as_slice());
        extend(&mut out, chars_of(recs[k].1.as_str()).as_slice());
        extend(&mut out, nl.as_slice());
        proof {
            assert(rs.skip(k as int)[0] == rs[k as int]);
            assert(rs.skip(k as int).drop_first() =~= rs.skip(k + 1));
            assert(out@ =~= before + (rs[k as int].0 + " "@ + rs[k as int].1 + "\n"@));
            assert(before + spec_render_lab(rs.skip(k as int)) =~= before + (rs[k as int].0 + " "@ + rs[k as int].1 + "\n"@) + spec_render_lab(rs.skip(k + 1)));
        }
        k += 1;
    }
    assert(rs.skip(recs.len() as int) =~= Seq::<(Seq<char>, Seq<char>)>::empty());
    assert(out@ + Seq::<char>::empty() =~= out@);
    string_of(out.as_slice())
}

/// `set`: the first record for `fqdn` takes `value`, else one is added.
#[verifier::loop_isolation(false)]
pub fn lab_set(recs: Vec<(String, String)>, fqdn: &str, value: &str) -> (r: Vec<(String, String)>)
    ensures
        lab_views(r@) == spec_lab_set(lab_views(recs@), fqdn@, value@),
{
    let ghost rs = lab_views(recs@);
    let mut out = recs;
    let f = chars_of(fqdn);
    let mut i: usize = 0;
    while i < out.len()
        invariant
            i <= out.len(),
            rs == lab_views(out@),
            f@ == fqdn@,
            forall|j: int| 0 <= j < i ==> (#[trigger] rs[j]).0 != fqdn@,
        decreases out.len() - i,
    {
        let g = chars_of(out[i].0.as_str());
        if eq(g.as_slice(), f.as_slice()) {
            proof {
                assert(rs[i as int].0 == fqdn@);
                assert(0 <= i < rs.len() && rs[i as int].0 == fqdn@ && forall|j: int| 0 <= j < i ==> rs[j].0 != fqdn@);
                let c = choose|c: int| 0 <= c < rs.len() && rs[c].0 == fqdn@ && forall|j: int| 0 <= j < c ==> rs[j].0 != fqdn@;
                if c < i {
                    assert(rs[c].0 != fqdn@);
                }
                if c > i {
                    assert(rs[i as int].0 != fqdn@);
                }
            }
            out.set(i, (fqdn.to_owned(), value.to_owned()));
            assert(first_for(rs, fqdn@) == Some(i as int));
            assert(lab_views(out@) =~= rs.update(i as int, (fqdn@, value@)));
            return out;
        }
        i += 1;
    }
    out.push((fqdn.to_owned(), value.to_owned()));
    assert(lab_views(out@) =~= rs.push((fqdn@, value@)));
    out
}

/// `clear`: every record for `fqdn` removed, the rest in order.
pub fn lab_clear(recs: &Vec<(String, String)>, fqdn: &str) -> (r: Vec<(String, String)>)
    ensures
        lab_views(r@) == spec_lab_clear(lab_views(recs@), fqdn@),
{
    let ghost rs = lab_views(recs@);
    let f = chars_of(fqdn);
    let mut out: Vec<(String, String)> = Vec::new();
    let mut k: usize = 0;
    assert(rs.take(0) =~= Seq::<(Seq<char>, Seq<char>)>::empty());
    assert(lab_views(out@) =~= Seq::<(Seq<char>, Seq<char>)>::empty());
    proof {
        reveal(Seq::filter);
    }
    while k < recs.len()
        invariant
            k <= recs.len(),
            rs == lab_views(recs@),
            f@ == fqdn@,
            lab_views(out@) == rs.take(k as int).filter(|r: (Seq<char>, Seq<char>)| r.0 != fqdn@),
        decreases recs.len() - k,
    {
        proof {
            reveal(Seq::filter);
            assert(rs.take(k + 1).drop_last() =~= rs.take(k as int));
            assert(rs.take(k + 1).last() == rs[k as int]);
        }
        let g = chars_of(recs[k].0.as_str());
        if !eq(g.as_slice(), f.as_slice()) {
            let ghost before = lab_views(out@);
            out.push((recs[k].0.clone(), recs[k].1.clone()));
            assert(lab_views(out@) =~= before.push(rs[k as int]));
        }
        k += 1;
    }
    assert(rs.take(recs.len() as int) =~= rs);
    out
}

/// `wait`: a record for `fqdn` with `value`.
pub fn lab_ready(recs: &Vec<(String, String)>, fqdn: &str, value: &str) -> (r: bool)
    ensures
        r == spec_lab_ready(lab_views(recs@), fqdn@, value@),
{
    let ghost rs = lab_views(recs@);
    let f = chars_of(fqdn);
    let v = chars_of(value);
    let mut i: usize = 0;
    while i < recs.len()
        invariant
            i <= recs.len(),
            rs == lab_views(recs@),
            f@ == fqdn@,
            v@ == value@,
            forall|j: int| 0 <= j < i ==> rs[j] != (fqdn@, value@),
        decreases recs.len() - i,
    {
        let a = chars_of(recs[i].0.as_str());
        let b = chars_of(recs[i].1.as_str());
        if eq(a.as_slice(), f.as_slice()) && eq(b.as_slice(), v.as_slice()) {
            assert(rs[i as int] == (fqdn@, value@));
            return true;
        }
        i += 1;
    }
    false
}

/// After a lab `set`, `wait` for the same name and value is ready.
pub proof fn law_lab_set_then_ready(rs: Seq<(Seq<char>, Seq<char>)>, fqdn: Seq<char>, value: Seq<char>)
    ensures
        spec_lab_ready(spec_lab_set(rs, fqdn, value), fqdn, value),
{
    match first_for(rs, fqdn) {
        Some(i) => {
            assert(spec_lab_set(rs, fqdn, value)[i] == (fqdn, value));
        },
        None => {
            let s = spec_lab_set(rs, fqdn, value);
            assert(s[s.len() - 1] == (fqdn, value));
        },
    }
}

/// After a lab `clear`, `wait` for that name is never ready.
pub proof fn law_lab_clear_then_not_ready(rs: Seq<(Seq<char>, Seq<char>)>, fqdn: Seq<char>, value: Seq<char>)
    ensures
        !spec_lab_ready(spec_lab_clear(rs, fqdn), fqdn, value),
{
    let c = spec_lab_clear(rs, fqdn);
    assert forall|i: int| 0 <= i < c.len() implies c[i].0 != fqdn by {
        broadcast use vstd::seq_lib::group_filter_ensures;
        assert(c[i].0 != fqdn);
    }
}


/// A lab record that survives a write and a read of the zone file: the
/// name is not empty, starts with neither whitespace nor `#`, and holds no
/// space or newline; the value holds no newline and does not end with `\r`.
pub open spec fn lab_record_round_trips(r: (Seq<char>, Seq<char>)) -> bool {
    &&& r.0.len() > 0 && !is_ws(r.0[0]) && r.0[0] != '#'
    &&& !r.0.contains(' ') && !r.0.contains('\n')
    &&& !r.1.contains('\n')
    &&& (r.1.len() > 0 ==> r.1.last() != '\r')
}

proof fn lemma_bufread_lines_concat(a: Seq<char>, b: Seq<char>)
    requires
        !a.contains('\n'),
    ensures
        bufread_lines(a + seq!['\n'] + b) == seq![strip_cr(a)] + bufread_lines(b),
{
    let t = a + seq!['\n'] + b;
    assert forall|j: int| 0 <= j < a.len() implies t[j] != '\n' by {
        assert(t[j] == a[j]);
    }
    lemma_find_char_is(t, '\n', a.len() as int);
    assert(t.take(a.len() as int) =~= a);
    assert(t.skip(a.len() as int + 1) =~= b);
}

/// Writing lab records and reading the file back gives the same records,
/// for records that fit the format.
pub proof fn law_lab_round_trip(rs: Seq<(Seq<char>, Seq<char>)>)
    requires
        forall|i: int| 0 <= i < rs.len() ==> lab_record_round_trips(#[trigger] rs[i]),
    ensures
        spec_parse_lab(spec_render_lab(rs)) == rs,
    decreases rs.len(),
{
    reveal_strlit(" ");
    reveal_strlit("\n");
    if rs.len() == 0 {
        lemma_find_char(Seq::<char>::empty(), '\n');
        assert(bufread_lines(Seq::<char>::empty()) =~= Seq::<Seq<char>>::empty());
    } else {
        let r = rs[0];
        let rest = rs.drop_first();
        assert forall|i: int| 0 <= i < rest.len() implies lab_record_round_trips(#[trigger] rest[i]) by {
            assert(rest[i] == rs[i + 1]);
        }
        law_lab_round_trip(rest);
        assert(lab_record_round_trips(rs[0]));
        let sp: Seq<char> = seq![' '];
        let nl: Seq<char> = seq!['\n'];
        assert(" "@ == sp);
        assert("\n"@ == nl);
        let l = r.0 + sp + r.1;
        assert(!l.contains('\n')) by {
            if l.contains('\n') {
                let j = choose|j: int| 0 <= j < l.len() && l[j] == '\n';
                if j < r.0.len() {
                    assert(r.0[j] == '\n');
                } else if j > r.0.len() {
                    assert(r.1[j - r.0.len() - 1] == '\n');
                }
            }
        }
        assert(spec_render_lab(rs) =~= l + nl + spec_render_lab(rest));
        lemma_bufread_lines_concat(l, spec_render_lab(rest));
        if r.1.len() > 0 {
            assert(l.last() == r.1.last());
        } else {
            assert(l.last() == ' ');
        }
        assert(strip_cr(l) == l);
        assert(l[0] == r.0[0]);
        lemma_trim_has(l, 0);
        lemma_split_once_concat(r.0, ' ', r.1);
        assert(spec_lab_line(l) == Some(r));
        let ls = seq![l] + bufread_lines(spec_render_lab(rest));
        assert(ls[0] == l);
        assert(ls.drop_first() =~= bufread_lines(spec_render_lab(rest)));
        assert(seq![r] + rest =~= rs);
    }
}

/// The lab zone file: after `set` is written out and the file read back,
/// `wait` for that name and value is ready (for records, a name and a value
/// that fit the format).
pub proof fn law_lab_file_set_then_ready(rs: Seq<(Seq<char>, Seq<char>)>, fqdn: Seq<char>, value: Seq<char>)
    requires
        forall|i: int| 0 <= i < rs.len() ==> lab_record_round_trips(#[trigger] rs[i]),
        lab_record_round_trips((fqdn, value)),
    ensures
        spec_lab_ready(spec_parse_lab(spec_render_lab(spec_lab_set(rs, fqdn, value))), fqdn, value),
{
    let s = spec_lab_set(rs, fqdn, value);
    assert forall|i: int| 0 <= i < s.len() implies lab_record_round_trips(#[trigger] s[i]) by {
        match first_for(rs, fqdn) {
            Some(k) => {
                if i != k {
                    assert(s[i] == rs[i]);
                }
            },
            None => {
                if i < rs.len() {
                    assert(s[i] == rs[i]);
                }
            },
        }
    }
    law_lab_round_trip(s);
    law_lab_set_then_ready(rs, fqdn, value);
}

/// The lab zone path must not be a symlink (read after the file is created
/// when missing): one that cannot be read is not a regular file.
pub open spec fn spec_check_lab_zone(path: Seq<char>, meta: LinkMeta) -> Result<(), Seq<char>> {
    match meta {
        LinkMeta::NotFound => Err(spec_die(LAB_PREFIX@, "zone path is not a regular file: "@ + path)),
        LinkMeta::Error(_) => Err(spec_die(LAB_PREFIX@, "zone path is not a regular file: "@ + path)),
        LinkMeta::Symlink => Err(spec_die(LAB_PREFIX@, "zone path must be a regular file (symlink refused): "@ + path)),
        _ => Ok(()),
    }
}

/// The lab zone file check (see [`spec_check_lab_zone`]).
pub fn check_lab_zone(path: &str, meta: &LinkMeta) -> (r: Result<(), String>)
    ensures
        unit_view(r) == spec_check_lab_zone(path@, *meta),
{
    let pv = chars_of(path);
    match meta {
        LinkMeta::NotFound | LinkMeta::Error(_) => {
            let m = concat(chars_of("zone path is not a regular file: ").as_slice(), pv.as_slice());
            Err(die(LAB_PREFIX, string_of(m.as_slice()).as_str()))
        },
        LinkMeta::Symlink => {
            let m = concat(chars_of("zone path must be a regular file (symlink refused): ").as_slice(), pv.as_slice());
            Err(die(LAB_PREFIX, string_of(m.as_slice()).as_str()))
        },
        _ => Ok(()),
    }
}

} // verus!
