//! Character-level text model shared by the edge and the ACME helpers.
//!
//! Strings are modelled by their `Seq<char>` view. Spec functions here say
//! what std's `trim`, `to_ascii_lowercase`, `starts_with`, `find`, ... mean
//! on that view; the executable helpers work on `Vec<char>` and are proved
//! against those definitions.

use vstd::prelude::*;

verus! {

// ---------------------------------------------------------------------------
// Spec model
// ---------------------------------------------------------------------------

/// `char::is_whitespace`: the Unicode `White_Space` property.
pub open spec fn is_ws(c: char) -> bool {
    ||| c == '\t' || c == '\n' || c == '\u{b}' || c == '\u{c}' || c == '\r' || c == ' '
    ||| c == '\u{85}' || c == '\u{a0}' || c == '\u{1680}'
    ||| ('\u{2000}' <= c && c <= '\u{200a}')
    ||| c == '\u{2028}' || c == '\u{2029}' || c == '\u{202f}' || c == '\u{205f}'
    ||| c == '\u{3000}'
}

/// `char::is_control`: general category Cc.
pub open spec fn is_control(c: char) -> bool {
    (c as u32) < 0x20 || (0x7f <= (c as u32) && (c as u32) <= 0x9f)
}

pub open spec fn is_ascii_digit(c: char) -> bool {
    '0' <= c && c <= '9'
}

pub open spec fn is_ascii_alpha(c: char) -> bool {
    ('a' <= c && c <= 'z') || ('A' <= c && c <= 'Z')
}

pub open spec fn is_ascii_alnum(c: char) -> bool {
    is_ascii_alpha(c) || is_ascii_digit(c)
}

/// `char::to_ascii_lowercase`.
pub open spec fn lower_char(c: char) -> char {
    if 'A' <= c && c <= 'Z' {
        ((c as u32) + 32) as char
    } else {
        c
    }
}

/// `char::to_ascii_uppercase`.
pub open spec fn upper_char(c: char) -> char {
    if 'a' <= c && c <= 'z' {
        ((c as u32) - 32) as char
    } else {
        c
    }
}

/// `str::to_ascii_lowercase`.
pub open spec fn lower(s: Seq<char>) -> Seq<char> {
    s.map_values(|c: char| lower_char(c))
}

/// `str::to_ascii_uppercase`.
pub open spec fn upper(s: Seq<char>) -> Seq<char> {
    s.map_values(|c: char| upper_char(c))
}

/// `str::trim_start`.
pub open spec fn trim_start(s: Seq<char>) -> Seq<char>
    decreases s.len(),
{
    if s.len() > 0 && is_ws(s[0]) {
        trim_start(s.drop_first())
    } else {
        s
    }
}

/// `str::trim_end`.
pub open spec fn trim_end(s: Seq<char>) -> Seq<char>
    decreases s.len(),
{
    if s.len() > 0 && is_ws(s.last()) {
        trim_end(s.drop_last())
    } else {
        s
    }
}

/// `str::trim`.
pub open spec fn trim(s: Seq<char>) -> Seq<char> {
    trim_end(trim_start(s))
}

/// `str::trim_end_matches(c)` for a single char.
pub open spec fn trim_end_char(s: Seq<char>, c: char) -> Seq<char>
    decreases s.len(),
{
    if s.len() > 0 && s.last() == c {
        trim_end_char(s.drop_last(), c)
    } else {
        s
    }
}

/// `str::starts_with`.
pub open spec fn starts_with(s: Seq<char>, p: Seq<char>) -> bool {
    p.len() <= s.len() && s.take(p.len() as int) == p
}

/// `str::ends_with`.
pub open spec fn ends_with(s: Seq<char>, p: Seq<char>) -> bool {
    p.len() <= s.len() && s.skip(s.len() - p.len()) == p
}

/// `needle` occurs in `hay` at position `i`.
pub open spec fn match_at(hay: Seq<char>, needle: Seq<char>, i: int) -> bool {
    0 <= i && i + needle.len() <= hay.len() && hay.subrange(i, i + needle.len()) == needle
}

/// `str::find`: the first position where `needle` occurs.
pub open spec fn find(hay: Seq<char>, needle: Seq<char>) -> Option<int>
    decreases hay.len(),
{
    if needle.len() <= hay.len() && hay.take(needle.len() as int) == needle {
        Some(0)
    } else if hay.len() == 0 {
        None
    } else {
        match find(hay.drop_first(), needle) {
            Some(i) => Some(i + 1),
            None => None,
        }
    }
}

/// `str::contains`.
pub open spec fn contains(hay: Seq<char>, needle: Seq<char>) -> bool {
    find(hay, needle) is Some
}

/// `c` occurs in `s`.
pub open spec fn has_char(s: Seq<char>, c: char) -> bool {
    exists|i: int| 0 <= i < s.len() && s[i] == c
}

/// `str::find(c)` for a char.
pub open spec fn find_char(s: Seq<char>, c: char) -> Option<int>
    decreases s.len(),
{
    if s.len() == 0 {
        None
    } else if s[0] == c {
        Some(0)
    } else {
        match find_char(s.drop_first(), c) {
            Some(i) => Some(i + 1),
            None => None,
        }
    }
}

/// `str::rfind(c)` for a char.
pub open spec fn rfind_char(s: Seq<char>, c: char) -> Option<int>
    decreases s.len(),
{
    if s.len() == 0 {
        None
    } else if s.last() == c {
        Some(s.len() - 1)
    } else {
        rfind_char(s.drop_last(), c)
    }
}

/// `str::eq_ignore_ascii_case`.
pub open spec fn eq_ignore_case(a: Seq<char>, b: Seq<char>) -> bool {
    lower(a) == lower(b)
}

/// Every char is an ASCII digit.
pub open spec fn all_digits(s: Seq<char>) -> bool {
    forall|i: int| 0 <= i < s.len() ==> is_ascii_digit(#[trigger] s[i])
}

/// Some char is a control char.
pub open spec fn any_control(s: Seq<char>) -> bool {
    exists|i: int| 0 <= i < s.len() && is_control(#[trigger] s[i])
}

/// `str::split(c)`: the pieces between occurrences of `c`.
pub open spec fn split_char(s: Seq<char>, c: char) -> Seq<Seq<char>>
    decreases s.len(),
{
    match find_char(s, c) {
        None => seq![s],
        Some(i) => {
            proof {
                lemma_find_char(s, c);
            }
            seq![s.take(i)] + split_char(s.skip(i + 1), c)
        },
    }
}

/// `str::split(sep)` for a non-empty string pattern.
pub open spec fn split_str(s: Seq<char>, sep: Seq<char>) -> Seq<Seq<char>>
    decreases s.len(),
{
    if sep.len() == 0 {
        seq![s]
    } else {
        match find(s, sep) {
            None => seq![s],
            Some(i) => {
                proof {
                    lemma_find_first(s, sep);
                }
                seq![s.take(i)] + split_str(s.skip(i + sep.len()), sep)
            },
        }
    }
}

/// Join pieces with a separator (`[S]::join`).
pub open spec fn join(parts: Seq<Seq<char>>, sep: Seq<char>) -> Seq<char>
    decreases parts.len(),
{
    if parts.len() == 0 {
        seq![]
    } else if parts.len() == 1 {
        parts[0]
    } else {
        join(parts.drop_last(), sep) + sep + parts.last()
    }
}

/// `str::replace(from, to)` for a single-char pattern.
pub open spec fn replace_char(s: Seq<char>, from: char, to: Seq<char>) -> Seq<char>
    decreases s.len(),
{
    if s.len() == 0 {
        seq![]
    } else {
        (if s[0] == from { to } else { seq![s[0]] }) + replace_char(s.drop_first(), from, to)
    }
}

/// `str::replace(from, to)` for a string pattern (left to right, non-overlapping).
pub open spec fn replace_str(s: Seq<char>, from: Seq<char>, to: Seq<char>) -> Seq<char>
    recommends
        from.len() > 0,
    decreases s.len(),
{
    if from.len() == 0 || s.len() < from.len() {
        s
    } else if s.take(from.len() as int) == from {
        to + replace_str(s.skip(from.len() as int), from, to)
    } else {
        seq![s[0]] + replace_str(s.drop_first(), from, to)
    }
}

/// Decimal digits of a natural number (`u64::to_string` and friends).
pub open spec fn dec(n: nat) -> Seq<char>
    decreases n,
{
    if n < 10 {
        seq![digit_char(n)]
    } else {
        dec(n / 10).push(digit_char(n % 10))
    }
}

pub open spec fn digit_char(d: nat) -> char {
    ((d + 48) as u32) as char
}

/// A digit char is an ASCII digit.
pub proof fn lemma_digit_char(d: nat)
    requires
        d < 10,
    ensures
        is_ascii_digit(digit_char(d)),
{
    let c = digit_char(d);
    assert(c as u32 == d + 48);
}

/// Decimal text is non-empty and all ASCII digits.
pub proof fn lemma_dec_digits(n: nat)
    ensures
        dec(n).len() > 0,
        forall|i: int| 0 <= i < dec(n).len() ==> is_ascii_digit(#[trigger] dec(n)[i]),
    decreases n,
{
    if n < 10 {
        lemma_digit_char(n);
    } else {
        lemma_dec_digits(n / 10);
        lemma_digit_char(n % 10);
        assert forall|i: int| 0 <= i < dec(n).len() implies is_ascii_digit(#[trigger] dec(n)[i]) by {
            if i < dec(n / 10).len() {
                assert(dec(n)[i] == dec(n / 10)[i]);
            }
        }
    }
}

/// Value of a run of ASCII digits.
pub open spec fn digits_value(s: Seq<char>) -> nat
    decreases s.len(),
{
    if s.len() == 0 {
        0
    } else {
        digits_value(s.drop_last()) * 10 + ((s.last() as u32) - 48) as nat
    }
}

/// `<uN as FromStr>::from_str`: optional `+`, then one or more ASCII digits,
/// value at most `max`. No whitespace is accepted.
pub open spec fn parse_unsigned(s: Seq<char>, max: nat) -> Option<nat> {
    let body = if s.len() > 0 && s[0] == '+' { s.drop_first() } else { s };
    if body.len() > 0 && all_digits(body) && digits_value(body) <= max {
        Some(digits_value(body))
    } else {
        None
    }
}

// ---------------------------------------------------------------------------
// Lemmas
// ---------------------------------------------------------------------------

pub proof fn lemma_trim_start_skip(s: Seq<char>, i: int)
    requires
        0 <= i <= s.len(),
        forall|j: int| 0 <= j < i ==> is_ws(#[trigger] s[j]),
    ensures
        trim_start(s) == trim_start(s.skip(i)),
    decreases i,
{
    if i > 0 {
        assert(s.drop_first().skip(i - 1) == s.skip(i));
        lemma_trim_start_skip(s.drop_first(), i - 1);
    } else {
        assert(s.skip(0) == s);
    }
}

pub proof fn lemma_trim_end_take(s: Seq<char>, i: int)
    requires
        0 <= i <= s.len(),
        forall|j: int| i <= j < s.len() ==> is_ws(#[trigger] s[j]),
    ensures
        trim_end(s) == trim_end(s.take(i)),
    decreases s.len() - i,
{
    if i < s.len() {
        assert(s.drop_last().take(i) == s.take(i));
        lemma_trim_end_take(s.drop_last(), i);
    } else {
        assert(s.take(i) == s);
    }
}

pub proof fn lemma_trim_end_char_take(s: Seq<char>, c: char, i: int)
    requires
        0 <= i <= s.len(),
        forall|j: int| i <= j < s.len() ==> #[trigger] s[j] == c,
    ensures
        trim_end_char(s, c) == trim_end_char(s.take(i), c),
    decreases s.len() - i,
{
    if i < s.len() {
        assert(s.drop_last().take(i) == s.take(i));
        lemma_trim_end_char_take(s.drop_last(), c, i);
    } else {
        assert(s.take(i) == s);
    }
}

/// `find` is the first match.
pub proof fn lemma_find_first(hay: Seq<char>, needle: Seq<char>)
    ensures
        match find(hay, needle) {
            Some(i) => match_at(hay, needle, i) && forall|j: int|
                0 <= j < i ==> !match_at(hay, needle, j),
            None => forall|j: int| !match_at(hay, needle, j),
        },
    decreases hay.len(),
{
    let n = needle.len() as int;
    if n <= hay.len() && hay.take(n) == needle {
        assert(hay.subrange(0, n) =~= hay.take(n));
    } else if hay.len() == 0 {
        assert forall|j: int| !match_at(hay, needle, j) by {
            if match_at(hay, needle, j) {
                assert(j == 0 && n == 0);
                assert(hay.take(0) =~= needle);
            }
        }
    } else {
        let t = hay.drop_first();
        lemma_find_first(t, needle);
        assert(!match_at(hay, needle, 0)) by {
            if match_at(hay, needle, 0) {
                assert(hay.subrange(0, n) =~= hay.take(n));
            }
        }
        assert forall|j: int| 1 <= j implies match_at(hay, needle, j) == match_at(t, needle, j - 1)
            by {
            if j + n <= hay.len() {
                assert(t.subrange(j - 1, j - 1 + n) =~= hay.subrange(j, j + n));
            }
        }
        match find(t, needle) {
            Some(i) => {
                assert(match_at(hay, needle, i + 1));
                assert forall|j: int| 0 <= j < i + 1 implies !match_at(hay, needle, j) by {
                    if j >= 1 {
                        assert(!match_at(t, needle, j - 1));
                    }
                }
            },
            None => {
                assert forall|j: int| !match_at(hay, needle, j) by {
                    if j >= 1 {
                        assert(!match_at(t, needle, j - 1));
                    }
                }
            },
        }
    }
}

/// Characterization of `find` by its first match.
pub proof fn lemma_find_is(hay: Seq<char>, needle: Seq<char>, i: int)
    requires
        match_at(hay, needle, i),
        forall|j: int| 0 <= j < i ==> !match_at(hay, needle, j),
    ensures
        find(hay, needle) == Some(i),
{
    lemma_find_first(hay, needle);
    match find(hay, needle) {
        Some(k) => {
            if k < i {
            } else if k > i {
            }
        },
        None => {},
    }
}

pub proof fn lemma_find_none(hay: Seq<char>, needle: Seq<char>)
    requires
        forall|j: int| 0 <= j ==> !match_at(hay, needle, j),
    ensures
        find(hay, needle) is None,
{
    lemma_find_first(hay, needle);
}

/// `find_char` is the first occurrence.
pub proof fn lemma_find_char(s: Seq<char>, c: char)
    ensures
        match find_char(s, c) {
            Some(i) => 0 <= i < s.len() && s[i] == c && forall|j: int| 0 <= j < i ==> s[j] != c,
            None => forall|j: int| 0 <= j < s.len() ==> s[j] != c,
        },
    decreases s.len(),
{
    if s.len() > 0 && s[0] != c {
        lemma_find_char(s.drop_first(), c);
        assert forall|j: int| 1 <= j < s.len() implies s[j] == s.drop_first()[j - 1] by {}
    }
}

pub proof fn lemma_find_char_is(s: Seq<char>, c: char, i: int)
    requires
        0 <= i < s.len(),
        s[i] == c,
        forall|j: int| 0 <= j < i ==> s[j] != c,
    ensures
        find_char(s, c) == Some(i),
{
    lemma_find_char(s, c);
    match find_char(s, c) {
        Some(k) => {
            if k < i {
            } else if k > i {
            }
        },
        None => {},
    }
}

pub proof fn lemma_find_char_none(s: Seq<char>, c: char)
    requires
        forall|j: int| 0 <= j < s.len() ==> s[j] != c,
    ensures
        find_char(s, c) is None,
{
    lemma_find_char(s, c);
}

pub proof fn lemma_rfind_char(s: Seq<char>, c: char)
    ensures
        match rfind_char(s, c) {
            Some(i) => 0 <= i < s.len() && s[i] == c && forall|j: int| i < j < s.len() ==> s[j] != c,
            None => forall|j: int| 0 <= j < s.len() ==> s[j] != c,
        },
    decreases s.len(),
{
    if s.len() > 0 && s.last() != c {
        lemma_rfind_char(s.drop_last(), c);
        assert forall|j: int| 0 <= j < s.len() - 1 implies s.drop_last()[j] == s[j] by {}
    }
}

pub proof fn lemma_rfind_char_is(s: Seq<char>, c: char, i: int)
    requires
        0 <= i < s.len(),
        s[i] == c,
        forall|j: int| i < j < s.len() ==> s[j] != c,
    ensures
        rfind_char(s, c) == Some(i),
{
    lemma_rfind_char(s, c);
    match rfind_char(s, c) {
        Some(k) => {
            if k < i {
            } else if k > i {
            }
        },
        None => {},
    }
}

pub proof fn lemma_rfind_char_none(s: Seq<char>, c: char)
    requires
        forall|j: int| 0 <= j < s.len() ==> s[j] != c,
    ensures
        rfind_char(s, c) is None,
{
    lemma_rfind_char(s, c);
}

pub proof fn lemma_lower_len(s: Seq<char>)
    ensures
        lower(s).len() == s.len(),
        forall|i: int| 0 <= i < s.len() ==> #[trigger] lower(s)[i] == lower_char(s[i]),
{
}

pub proof fn lemma_digits_value_push(s: Seq<char>, c: char)
    ensures
        digits_value(s.push(c)) == digits_value(s) * 10 + ((c as u32) - 48) as nat,
{
    assert(s.push(c).drop_last() == s);
}

// ---------------------------------------------------------------------------
// Executable helpers
// ---------------------------------------------------------------------------

/// The `Debug` rendering of a string: quoted, with escapes.
pub uninterp spec fn debug_str(s: Seq<char>) -> Seq<char>;

/// `format!("{:?}", s)`, std's `Debug` for `str`. The result is named by
/// [`debug_str`]; nothing else about its text is claimed.
#[verifier::external_body]
pub(crate) fn debug_quote(s: &str) -> (r: String)
    ensures
        r@ == debug_str(s@),
{
    format!("{s:?}")
}

/// The ASCII digits at the start of `s`.
pub open spec fn leading_digits(s: Seq<char>) -> Seq<char>
    decreases s.len(),
{
    if s.len() > 0 && is_ascii_digit(s[0]) {
        seq![s[0]] + leading_digits(s.drop_first())
    } else {
        Seq::empty()
    }
}

/// The `Display` text of the `ParseIntError` from parsing `s` as an
/// unsigned integer whose largest value is `max`, where that parse fails:
/// an empty string is `Empty`; a lone `+` is an invalid digit; otherwise
/// the digits are read left to right and the first failure wins, so the
/// value is too large when the run of digits before the first non-digit
/// already exceeds `max`, and an invalid digit is reported otherwise.
pub open spec fn parse_int_error_text(s: Seq<char>, max: nat) -> Seq<char> {
    let body = if s.len() > 0 && s[0] == '+' { s.drop_first() } else { s };
    if s.len() == 0 {
        "cannot parse integer from empty string"@
    } else if body.len() == 0 {
        "invalid digit found in string"@
    } else if digits_value(leading_digits(body)) > max {
        "number too large to fit in target type"@
    } else {
        "invalid digit found in string"@
    }
}

/// `str::parse::<usize>`: `Ok` exactly when [`parse_unsigned`] accepts `s`
/// with bound `usize::MAX`, with that value; otherwise the `Display` text
/// of the `ParseIntError`, as [`parse_int_error_text`] gives it.
#[verifier::external_body]
pub(crate) fn parse_usize(s: &str) -> (r: Result<usize, String>)
    ensures
        match r {
            Ok(n) => parse_unsigned(s@, usize::MAX as nat) == Some(n as nat),
            Err(e) => parse_unsigned(s@, usize::MAX as nat) is None
                && e@ == parse_int_error_text(s@, usize::MAX as nat),
        },
{
    match s.parse::<usize>() {
        Ok(n) => Ok(n),
        Err(e) => Err(e.to_string()),
    }
}

/// `Debug` rendering of a char sequence, as chars.
pub fn debug_chars(s: &[char]) -> (r: Vec<char>)
    ensures
        r@ == debug_str(s@),
{
    let owned = string_of(s);
    let d = debug_quote(owned.as_str());
    chars_of(d.as_str())
}

/// Views of an optional / fallible string result.
pub open spec fn res_view(r: Result<String, String>) -> Result<Seq<char>, Seq<char>> {
    match r {
        Ok(v) => Ok(v@),
        Err(e) => Err(e@),
    }
}

/// Views of a list of strings.
pub open spec fn views(v: Seq<String>) -> Seq<Seq<char>> {
    v.map_values(|s: String| s@)
}

/// Views of a list of string slices.
pub open spec fn str_views(s: Seq<&str>) -> Seq<Seq<char>> {
    s.map_values(|x: &str| x@)
}

pub open spec fn unit_view(r: Result<(), String>) -> Result<(), Seq<char>> {
    match r {
        Ok(()) => Ok(()),
        Err(e) => Err(e@),
    }
}

pub open spec fn opt_view(o: Option<String>) -> Option<Seq<char>> {
    match o {
        Some(v) => Some(v@),
        None => None,
    }
}

/// Appends one char to a `String` (`String::push`).
#[verifier::external_body]
pub(crate) fn push_char(s: &mut String, c: char)
    ensures
        final(s)@ == old(s)@.push(c),
{
    s.push(c);
}

/// The characters of `s`, in order.
pub fn chars_of(s: &str) -> (v: Vec<char>)
    ensures
        v@ == s@,
{
    let mut v: Vec<char> = Vec::new();
    for c in it: s.chars()
        invariant
            v@ == it.seq().take(it.index() as int),
    {
        v.push(c);
    }
    v
}

/// A `String` holding the chars of `v`.
pub fn string_of(v: &[char]) -> (s: String)
    ensures
        s@ == v@,
{
    let mut s = String::new();
    let mut i: usize = 0;
    while i < v.len()
        invariant
            i <= v.len(),
            s@ == v@.take(i as int),
        decreases v.len() - i,
    {
        push_char(&mut s, v[i]);
        assert(v@.take(i as int).push(v@[i as int]) == v@.take(i + 1));
        i += 1;
    }
    assert(v@.take(v.len() as int) == v@);
    s
}

/// A `String` with the same chars as `s`.
pub fn own(s: &str) -> (r: String)
    ensures
        r@ == s@,
{
    s.to_owned()
}

pub fn lower_char_exec(c: char) -> (r: char)
    ensures
        r == lower_char(c),
{
    if 'A' <= c && c <= 'Z' {
        let b: u8 = (c as u8) + 32;
        b as char
    } else {
        c
    }
}

pub fn upper_char_exec(c: char) -> (r: char)
    ensures
        r == upper_char(c),
{
    if 'a' <= c && c <= 'z' {
        let b: u8 = (c as u8) - 32;
        b as char
    } else {
        c
    }
}

pub fn is_ws_exec(c: char) -> (r: bool)
    ensures
        r == is_ws(c),
{
    c == '\t' || c == '\n' || c == '\u{b}' || c == '\u{c}' || c == '\r' || c == ' ' || c
        == '\u{85}' || c == '\u{a0}' || c == '\u{1680}' || ('\u{2000}' <= c && c <= '\u{200a}')
        || c == '\u{2028}' || c == '\u{2029}' || c == '\u{202f}' || c == '\u{205f}' || c
        == '\u{3000}'
}

pub fn is_control_exec(c: char) -> (r: bool)
    ensures
        r == is_control(c),
{
    let n: u32 = c as u32;
    n < 0x20 || (0x7f <= n && n <= 0x9f)
}

/// ASCII-lowercased copy.
pub fn lower_vec(v: &[char]) -> (r: Vec<char>)
    ensures
        r@ == lower(v@),
{
    let mut r: Vec<char> = Vec::new();
    let mut i: usize = 0;
    while i < v.len()
        invariant
            i <= v.len(),
            r@ == lower(v@.take(i as int)),
        decreases v.len() - i,
    {
        let c = lower_char_exec(v[i]);
        r.push(c);
        assert(lower(v@.take(i + 1)) == lower(v@.take(i as int)).push(lower_char(v@[i as int])));
        i += 1;
    }
    assert(v@.take(v.len() as int) == v@);
    r
}

/// ASCII-uppercased copy.
pub fn upper_vec(v: &[char]) -> (r: Vec<char>)
    ensures
        r@ == upper(v@),
{
    let mut r: Vec<char> = Vec::new();
    let mut i: usize = 0;
    while i < v.len()
        invariant
            i <= v.len(),
            r@ == upper(v@.take(i as int)),
        decreases v.len() - i,
    {
        let c = upper_char_exec(v[i]);
        r.push(c);
        assert(upper(v@.take(i + 1)) == upper(v@.take(i as int)).push(upper_char(v@[i as int])));
        i += 1;
    }
    assert(v@.take(v.len() as int) == v@);
    r
}

/// Copy of `v[from..to]`.
pub fn slice_of(v: &[char], from: usize, to: usize) -> (r: Vec<char>)
    requires
        from <= to <= v.len(),
    ensures
        r@ == v@.subrange(from as int, to as int),
{
    let mut r: Vec<char> = Vec::new();
    let mut i: usize = from;
    while i < to
        invariant
            from <= i <= to <= v.len(),
            r@ == v@.subrange(from as int, i as int),
        decreases to - i,
    {
        r.push(v[i]);
        assert(v@.subrange(from as int, i + 1) == v@.subrange(from as int, i as int).push(
            v@[i as int],
        ));
        i += 1;
    }
    r
}

/// `a == b` on char slices.
pub fn eq(a: &[char], b: &[char]) -> (r: bool)
    ensures
        r == (a@ == b@),
{
    if a.len() != b.len() {
        return false;
    }
    let mut i: usize = 0;
    while i < a.len()
        invariant
            a.len() == b.len(),
            i <= a.len(),
            forall|j: int| 0 <= j < i ==> a@[j] == b@[j],
        decreases a.len() - i,
    {
        if a[i] != b[i] {
            return false;
        }
        i += 1;
    }
    assert(a@ == b@);
    true
}

/// `a` equals `b` up to ASCII case.
pub fn eq_ignore_case_exec(a: &[char], b: &[char]) -> (r: bool)
    ensures
        r == eq_ignore_case(a@, b@),
{
    let la = lower_vec(a);
    let lb = lower_vec(b);
    eq(la.as_slice(), lb.as_slice())
}

/// `v.starts_with(p)`.
pub fn starts_with_exec(v: &[char], p: &[char]) -> (r: bool)
    ensures
        r == starts_with(v@, p@),
{
    if p.len() > v.len() {
        return false;
    }
    let mut i: usize = 0;
    while i < p.len()
        invariant
            p.len() <= v.len(),
            i <= p.len(),
            forall|j: int| 0 <= j < i ==> v@[j] == p@[j],
        decreases p.len() - i,
    {
        if v[i] != p[i] {
            assert(v@.take(p.len() as int)[i as int] != p@[i as int]);
            return false;
        }
        i += 1;
    }
    assert(v@.take(p.len() as int) == p@);
    true
}

/// `v.ends_with(p)`.
pub fn ends_with_exec(v: &[char], p: &[char]) -> (r: bool)
    ensures
        r == ends_with(v@, p@),
{
    if p.len() > v.len() {
        return false;
    }
    let off = v.len() - p.len();
    let mut i: usize = 0;
    while i < p.len()
        invariant
            p.len() <= v.len(),
            off == v.len() - p.len(),
            i <= p.len(),
            forall|j: int| 0 <= j < i ==> v@[off + j] == p@[j],
        decreases p.len() - i,
    {
        if v[off + i] != p[i] {
            assert(v@.skip(off as int)[i as int] != p@[i as int]);
            return false;
        }
        i += 1;
    }
    assert(v@.skip(off as int) == p@);
    true
}

/// `needle` occurs at `i` in `hay`.
pub fn match_at_exec(hay: &[char], needle: &[char], i: usize) -> (r: bool)
    ensures
        r == match_at(hay@, needle@, i as int),
{
    if i > hay.len() || needle.len() > hay.len() - i {
        return false;
    }
    let mut k: usize = 0;
    while k < needle.len()
        invariant
            i + needle.len() <= hay.len(),
            k <= needle.len(),
            forall|j: int| 0 <= j < k ==> hay@[i + j] == needle@[j],
        decreases needle.len() - k,
    {
        if hay[i + k] != needle[k] {
            assert(hay@.subrange(i as int, i + needle.len())[k as int] != needle@[k as int]);
            return false;
        }
        k += 1;
    }
    assert(hay@.subrange(i as int, i + needle.len()) == needle@);
    true
}

/// `hay.find(needle)`.
pub fn find_exec(hay: &[char], needle: &[char]) -> (r: Option<usize>)
    ensures
        r matches Some(i) ==> find(hay@, needle@) == Some(i as int),
        r is None ==> find(hay@, needle@) is None,
{
    if needle.len() > hay.len() {
        proof {
            lemma_find_none(hay@, needle@);
        }
        return None;
    }
    let last = hay.len() - needle.len();
    let mut i: usize = 0;
    while i <= last
        invariant
            last == hay.len() - needle.len(),
            i <= last + 1,
            forall|j: int| 0 <= j < i ==> !match_at(hay@, needle@, j),
        decreases last + 1 - i,
    {
        if match_at_exec(hay, needle, i) {
            proof {
                lemma_find_is(hay@, needle@, i as int);
            }
            return Some(i);
        }
        if i == last {
            proof {
                assert forall|j: int| 0 <= j implies !match_at(hay@, needle@, j) by {}
                lemma_find_none(hay@, needle@);
            }
            return None;
        }
        i += 1;
    }
    proof {
        lemma_find_none(hay@, needle@);
    }
    None
}

/// `hay.contains(needle)`.
pub fn contains_exec(hay: &[char], needle: &[char]) -> (r: bool)
    ensures
        r == contains(hay@, needle@),
{
    find_exec(hay, needle).is_some()
}

/// `s.find(c)`.
pub fn find_char_exec(s: &[char], c: char) -> (r: Option<usize>)
    ensures
        r matches Some(i) ==> find_char(s@, c) == Some(i as int) && i < s@.len() && s@[i as int] == c,
        r is None ==> find_char(s@, c) is None,
{
    let mut i: usize = 0;
    while i < s.len()
        invariant
            i <= s.len(),
            forall|j: int| 0 <= j < i ==> s@[j] != c,
        decreases s.len() - i,
    {
        if s[i] == c {
            proof {
                lemma_find_char_is(s@, c, i as int);
            }
            return Some(i);
        }
        i += 1;
    }
    proof {
        lemma_find_char_none(s@, c);
    }
    None
}

/// `s.rfind(c)`.
pub fn rfind_char_exec(s: &[char], c: char) -> (r: Option<usize>)
    ensures
        r matches Some(i) ==> rfind_char(s@, c) == Some(i as int),
        r is None ==> rfind_char(s@, c) is None,
{
    let mut i: usize = s.len();
    while i > 0
        invariant
            i <= s.len(),
            forall|j: int| i <= j < s.len() ==> s@[j] != c,
        decreases i,
    {
        if s[i - 1] == c {
            proof {
                lemma_rfind_char_is(s@, c, i - 1);
            }
            return Some(i - 1);
        }
        i -= 1;
    }
    proof {
        lemma_rfind_char_none(s@, c);
    }
    None
}

/// `c` occurs in `s`.
pub fn has_char_exec(s: &[char], c: char) -> (r: bool)
    ensures
        r == has_char(s@, c),
{
    let r = find_char_exec(s, c);
    proof {
        lemma_find_char(s@, c);
    }
    r.is_some()
}

/// Bounds of `trim(v)` inside `v`.
pub fn trim_bounds(v: &[char]) -> (r: (usize, usize))
    ensures
        r.0 <= r.1 <= v.len(),
        v@.subrange(r.0 as int, r.1 as int) == trim(v@),
{
    let mut a: usize = 0;
    while a < v.len() && is_ws_exec(v[a])
        invariant
            a <= v.len(),
            forall|j: int| 0 <= j < a ==> is_ws(#[trigger] v@[j]),
        decreases v.len() - a,
    {
        a += 1;
    }
    proof {
        lemma_trim_start_skip(v@, a as int);
        assert(trim_start(v@.skip(a as int)) == v@.skip(a as int));
    }
    let mut b: usize = v.len();
    while b > a && is_ws_exec(v[b - 1])
        invariant
            a <= b <= v.len(),
            forall|j: int| b <= j < v.len() ==> is_ws(#[trigger] v@[j]),
        decreases b - a,
    {
        b -= 1;
    }
    proof {
        let t = v@.skip(a as int);
        assert forall|j: int| b - a <= j < t.len() implies is_ws(#[trigger] t[j]) by {
            assert(t[j] == v@[j + a]);
        }
        lemma_trim_end_take(t, b - a);
        assert(t.take(b - a) == v@.subrange(a as int, b as int));
        let u = v@.subrange(a as int, b as int);
        if u.len() > 0 {
            assert(u.last() == v@[b - 1]);
        }
        assert(trim_end(u) == u);
    }
    (a, b)
}

/// `trim(v)` as a new vector.
pub fn trim_vec(v: &[char]) -> (r: Vec<char>)
    ensures
        r@ == trim(v@),
{
    let (a, b) = trim_bounds(v);
    slice_of(v, a, b)
}

/// `s.trim()` as chars.
pub fn trim_str(s: &str) -> (r: Vec<char>)
    ensures
        r@ == trim(s@),
{
    let v = chars_of(s);
    trim_vec(v.as_slice())
}

/// `v.trim_end_matches(c)`.
pub fn trim_end_char_vec(v: &[char], c: char) -> (r: Vec<char>)
    ensures
        r@ == trim_end_char(v@, c),
{
    let mut b: usize = v.len();
    while b > 0 && v[b - 1] == c
        invariant
            b <= v.len(),
            forall|j: int| b <= j < v.len() ==> #[trigger] v@[j] == c,
        decreases b,
    {
        b -= 1;
    }
    proof {
        lemma_trim_end_char_take(v@, c, b as int);
        let u = v@.take(b as int);
        if u.len() > 0 {
            assert(u.last() == v@[b - 1]);
        }
        assert(trim_end_char(u, c) == u);
    }
    slice_of(v, 0, b)
}

/// Every char is an ASCII digit.
pub fn all_digits_exec(v: &[char]) -> (r: bool)
    ensures
        r == all_digits(v@),
{
    let mut i: usize = 0;
    while i < v.len()
        invariant
            i <= v.len(),
            forall|j: int| 0 <= j < i ==> is_ascii_digit(#[trigger] v@[j]),
        decreases v.len() - i,
    {
        if !('0' <= v[i] && v[i] <= '9') {
            return false;
        }
        i += 1;
    }
    true
}

/// Some char is a control char.
pub fn any_control_exec(v: &[char]) -> (r: bool)
    ensures
        r == any_control(v@),
{
    let mut i: usize = 0;
    while i < v.len()
        invariant
            i <= v.len(),
            forall|j: int| 0 <= j < i ==> !is_control(#[trigger] v@[j]),
        decreases v.len() - i,
    {
        if is_control_exec(v[i]) {
            return true;
        }
        i += 1;
    }
    false
}

/// `a + b`.
pub fn concat(a: &[char], b: &[char]) -> (r: Vec<char>)
    ensures
        r@ == a@ + b@,
{
    let mut r = slice_of(a, 0, a.len());
    let mut i: usize = 0;
    while i < b.len()
        invariant
            i <= b.len(),
            r@ == a@ + b@.take(i as int),
        decreases b.len() - i,
    {
        r.push(b[i]);
        assert(a@ + b@.take(i + 1) == (a@ + b@.take(i as int)).push(b@[i as int]));
        i += 1;
    }
    assert(b@.take(b.len() as int) == b@);
    r
}

/// Appends `b` to `r`.
pub fn extend(r: &mut Vec<char>, b: &[char])
    ensures
        final(r)@ == old(r)@ + b@,
{
    let ghost start = r@;
    let mut i: usize = 0;
    while i < b.len()
        invariant
            i <= b.len(),
            r@ == start + b@.take(i as int),
        decreases b.len() - i,
    {
        r.push(b[i]);
        assert(start + b@.take(i + 1) == (start + b@.take(i as int)).push(b@[i as int]));
        i += 1;
    }
    assert(b@.take(b.len() as int) == b@);
}

/// Parses an unsigned decimal the way `str::parse::<uN>()` does, with
/// `max` the type's largest value.
pub fn parse_unsigned_exec(v: &[char], max: u64) -> (r: Option<u64>)
    ensures
        r matches Some(n) ==> parse_unsigned(v@, max as nat) == Some(n as nat),
        r is None ==> parse_unsigned(v@, max as nat) is None,
{
    let start: usize = if v.len() > 0 && v[0] == '+' {
        1
    } else {
        0
    };
    let ghost body = if v@.len() > 0 && v@[0] == '+' {
        v@.drop_first()
    } else {
        v@
    };
    assert(body =~= v@.skip(start as int));
    if start >= v.len() {
        return None;
    }
    let mut acc: u128 = 0;
    let mut i: usize = start;
    while i < v.len()
        invariant
            start <= i <= v.len(),
            body == v@.skip(start as int),
            body == (if v@.len() > 0 && v@[0] == '+' {
                v@.drop_first()
            } else {
                v@
            }),
            acc as nat == digits_value(v@.subrange(start as int, i as int)),
            acc <= max,
            forall|j: int| start <= j < i ==> is_ascii_digit(#[trigger] v@[j]),
        decreases v.len() - i,
    {
        let c = v[i];
        if !('0' <= c && c <= '9') {
            proof {
                assert(body[i - start] == c);
                assert(!is_ascii_digit(body[i - start]));
                assert(!all_digits(body));
                assert(parse_unsigned(v@, max as nat) is None);
            }
            return None;
        }
        let d: u128 = ((c as u32) - 48) as u128;
        proof {
            lemma_digits_value_push(v@.subrange(start as int, i as int), c);
            assert(v@.subrange(start as int, i + 1) =~= v@.subrange(start as int, i as int).push(c));
        }
        let next: u128 = acc * 10 + d;
        if next > max as u128 {
            proof {
                assert(v@.subrange(start as int, i + 1) =~= body.take(i + 1 - start));
                if all_digits(body) {
                    lemma_digits_value_prefix_mono(body, i + 1 - start);
                    assert(digits_value(body) > max);
                }
                assert(parse_unsigned(v@, max as nat) is None);
            }
            return None;
        }
        acc = next;
        i += 1;
    }
    proof {
        assert(v@.subrange(start as int, v.len() as int) =~= body);
        assert forall|j: int| 0 <= j < body.len() implies is_ascii_digit(#[trigger] body[j]) by {
            assert(body[j] == v@[j + start]);
        }
        assert(body.len() > 0);
    }
    Some(acc as u64)
}

/// A longer run of digits has at least the value of its prefix.
pub proof fn lemma_digits_value_prefix_mono(s: Seq<char>, k: int)
    requires
        0 <= k <= s.len(),
        all_digits(s),
    ensures
        digits_value(s.take(k)) <= digits_value(s),
    decreases s.len() - k,
{
    if k < s.len() {
        lemma_digits_value_prefix_mono(s, k + 1);
        assert(s.take(k + 1).drop_last() =~= s.take(k));
        assert(is_ascii_digit(s[k]));
    } else {
        assert(s.take(k) =~= s);
    }
}

/// Decimal rendering of `n` (`u64::to_string`).
pub fn dec_exec(n: u64) -> (r: Vec<char>)
    ensures
        r@ == dec(n as nat),
    decreases n,
{
    if n < 10 {
        let c = digit_exec(n);
        let mut r: Vec<char> = Vec::new();
        r.push(c);
        r
    } else {
        let mut r = dec_exec(n / 10);
        let c = digit_exec(n % 10);
        r.push(c);
        r
    }
}

pub fn digit_exec(d: u64) -> (c: char)
    requires
        d < 10,
    ensures
        c == digit_char(d as nat),
{
    if d == 0 { '0' }
    else if d == 1 { '1' }
    else if d == 2 { '2' }
    else if d == 3 { '3' }
    else if d == 4 { '4' }
    else if d == 5 { '5' }
    else if d == 6 { '6' }
    else if d == 7 { '7' }
    else if d == 8 { '8' }
    else { '9' }
}

/// Splits `v` at every `c` (`str::split(c)`).
pub fn split_char_exec(v: &[char], c: char) -> (r: Vec<Vec<char>>)
    ensures
        r@.map_values(|p: Vec<char>| p@) == split_char(v@, c),
{
    let mut r: Vec<Vec<char>> = Vec::new();
    let mut start: usize = 0;
    let mut i: usize = 0;
    assert(v@.skip(0) =~= v@);
    assert(r@.map_values(|p: Vec<char>| p@) =~= Seq::<Seq<char>>::empty());
    while i < v.len()
        invariant
            start <= i <= v.len(),
            forall|j: int| start <= j < i ==> v@[j] != c,
            split_char(v@, c) == r@.map_values(|p: Vec<char>| p@) + split_char(
                v@.skip(start as int),
                c,
            ),
        decreases v.len() - i,
    {
        if v[i] == c {
            let piece = slice_of(v, start, i);
            proof {
                let rest = v@.skip(start as int);
                lemma_find_char_is(rest, c, i - start);
                assert(rest.take(i - start) == piece@);
                assert(rest.skip(i - start + 1) == v@.skip(i + 1));
                let old_r = r@.map_values(|p: Vec<char>| p@);
                assert(r@.push(piece).map_values(|p: Vec<char>| p@) == old_r.push(piece@));
                assert(old_r + (seq![piece@] + split_char(v@.skip(i + 1), c)) == old_r.push(
                    piece@,
                ) + split_char(v@.skip(i + 1), c));
            }
            r.push(piece);
            start = i + 1;
        }
        i += 1;
    }
    let piece = slice_of(v, start, v.len());
    proof {
        let rest = v@.skip(start as int);
        assert forall|j: int| 0 <= j < rest.len() implies rest[j] != c by {
            assert(rest[j] == v@[start + j]);
        }
        lemma_find_char_none(rest, c);
        assert(rest == piece@);
        let old_r = r@.map_values(|p: Vec<char>| p@);
        assert(r@.push(piece).map_values(|p: Vec<char>| p@) == old_r.push(piece@));
    }
    r.push(piece);
    r
}


/// `s.split(sep)` into owned pieces.
pub fn split_str_exec(v: &[char], sep: &[char]) -> (r: Vec<Vec<char>>)
    requires
        sep.len() > 0,
    ensures
        r@.map_values(|p: Vec<char>| p@) == split_str(v@, sep@),
{
    let mut r: Vec<Vec<char>> = Vec::new();
    let mut start: usize = 0;
    assert(v@.skip(0) =~= v@);
    assert(r@.map_values(|p: Vec<char>| p@) =~= Seq::<Seq<char>>::empty());
    loop
        invariant
            sep.len() > 0,
            start <= v.len(),
            split_str(v@, sep@) == r@.map_values(|p: Vec<char>| p@) + split_str(
                v@.skip(start as int),
                sep@,
            ),
        decreases v.len() - start,
    {
        let rest = slice_of(v, start, v.len());
        assert(rest@ =~= v@.skip(start as int));
        match find_exec(rest.as_slice(), sep) {
            None => {
                let ghost old_r = r@.map_values(|p: Vec<char>| p@);
                r.push(rest);
                assert(r@.map_values(|p: Vec<char>| p@) =~= old_r.push(v@.skip(start as int)));
                return r;
            },
            Some(i) => {
                proof {
                    lemma_find_first(rest@, sep@);
                }
                let piece = slice_of(rest.as_slice(), 0, i);
                assert(piece@ =~= rest@.take(i as int));
                assert(rest@.skip(i + sep.len()) =~= v@.skip(start + i + sep.len()));
                let ghost old_r = r@.map_values(|p: Vec<char>| p@);
                r.push(piece);
                assert(r@.map_values(|p: Vec<char>| p@) =~= old_r.push(piece@));
                assert(old_r + (seq![piece@] + split_str(v@.skip(start + i + sep.len()), sep@))
                    =~= old_r.push(piece@) + split_str(v@.skip(start + i + sep.len()), sep@));
                start = start + i + sep.len();
            },
        }
    }
}

/// `replace_char` of a sequence extended by one char.
pub proof fn lemma_replace_char_push(s: Seq<char>, c: char, from: char, to: Seq<char>)
    ensures
        replace_char(s.push(c), from, to) == replace_char(s, from, to) + (if c == from { to } else { seq![c] }),
    decreases s.len(),
{
    if s.len() == 0 {
        assert(s.push(c).drop_first() =~= Seq::<char>::empty());
        assert(replace_char(Seq::<char>::empty(), from, to) =~= Seq::<char>::empty());
        let piece = if c == from { to } else { seq![c] };
        assert(piece + Seq::<char>::empty() =~= piece);
        assert(s =~= Seq::<char>::empty());
        assert(Seq::<char>::empty() + piece =~= piece);
    } else {
        assert(s.push(c).drop_first() =~= s.drop_first().push(c));
        lemma_replace_char_push(s.drop_first(), c, from, to);
        let p0 = if s[0] == from { to } else { seq![s[0]] };
        let pc = if c == from { to } else { seq![c] };
        assert(p0 + (replace_char(s.drop_first(), from, to) + pc) =~= (p0 + replace_char(s.drop_first(), from, to)) + pc);
    }
}

/// `str::replace(from, to)` for a single-char pattern.
pub fn replace_char_exec(v: &[char], from: char, to: &[char]) -> (r: Vec<char>)
    ensures
        r@ == replace_char(v@, from, to@),
{
    let mut r: Vec<char> = Vec::new();
    let mut i: usize = 0;
    assert(v@.take(0) =~= Seq::<char>::empty());
    while i < v.len()
        invariant
            i <= v.len(),
            r@ == replace_char(v@.take(i as int), from, to@),
        decreases v.len() - i,
    {
        proof {
            assert(v@.take(i + 1) =~= v@.take(i as int).push(v@[i as int]));
            lemma_replace_char_push(v@.take(i as int), v@[i as int], from, to@);
        }
        if v[i] == from {
            extend(&mut r, to);
        } else {
            r.push(v[i]);
        }
        i += 1;
    }
    assert(v@.take(v.len() as int) =~= v@);
    r
}


/// `str::replace(from, to)` for a non-empty string pattern.
pub fn replace_str_exec(v: &[char], from: &[char], to: &[char]) -> (r: Vec<char>)
    requires
        from.len() > 0,
    ensures
        r@ == replace_str(v@, from@, to@),
{
    let mut out: Vec<char> = Vec::new();
    let mut i: usize = 0;
    let n = from.len();
    assert(v@.skip(0) =~= v@);
    while i < v.len()
        invariant
            i <= v.len(),
            n == from.len(),
            n > 0,
            out@ + replace_str(v@.skip(i as int), from@, to@) == replace_str(v@, from@, to@),
        decreases v.len() - i,
    {
        let ghost rest = v@.skip(i as int);
        let ghost before = out@;
        if v.len() - i < n {
            extend(&mut out, slice_of(v, i, v.len()).as_slice());
            assert(v@.subrange(i as int, v.len() as int) =~= rest);
            assert(v@.skip(v.len() as int) =~= Seq::<char>::empty());
            assert(replace_str(v@.skip(v.len() as int), from@, to@) == Seq::<char>::empty());
            assert(out@ + Seq::<char>::empty() =~= out@);
            return out;
        }
        if match_at_exec(v, from, i) {
            proof {
                assert(rest.take(n as int) =~= v@.subrange(i as int, i + n));
                assert(rest.skip(n as int) =~= v@.skip(i + n));
                assert(before + (to@ + replace_str(v@.skip(i + n), from@, to@)) =~= (before + to@) + replace_str(v@.skip(i + n), from@, to@));
            }
            extend(&mut out, to);
            i += n;
        } else {
            proof {
                assert(rest.take(n as int) =~= v@.subrange(i as int, i + n));
                assert(rest[0] == v@[i as int]);
                assert(rest.drop_first() =~= v@.skip(i + 1));
                assert(before + (seq![v@[i as int]] + replace_str(v@.skip(i + 1), from@, to@)) =~= before.push(v@[i as int]) + replace_str(v@.skip(i + 1), from@, to@));
            }
            out.push(v[i]);
            i += 1;
        }
    }
    assert(v@.skip(i as int) =~= Seq::<char>::empty());
    assert(out@ + Seq::<char>::empty() =~= out@);
    out
}


/// `[S]::join(sep)` of `parts` (by their views).
pub fn join_exec(parts: &[Vec<char>], sep: &[char]) -> (r: Vec<char>)
    ensures
        r@ == join(parts@.map_values(|p: Vec<char>| p@), sep@),
{
    let ghost ps = parts@.map_values(|p: Vec<char>| p@);
    let mut out: Vec<char> = Vec::new();
    let mut j: usize = 0;
    assert(ps.take(0) =~= Seq::<Seq<char>>::empty());
    while j < parts.len()
        invariant
            j <= parts.len(),
            ps == parts@.map_values(|p: Vec<char>| p@),
            out@ == join(ps.take(j as int), sep@),
        decreases parts.len() - j,
    {
        proof {
            assert(ps.take(j + 1).drop_last() =~= ps.take(j as int));
            assert(ps.take(j + 1).last() == parts@[j as int]@);
        }
        if j > 0 {
            extend(&mut out, sep);
        }
        extend(&mut out, parts[j].as_slice());
        proof {
            if j == 0 {
                assert(ps.take(1) =~= seq![parts@[0]@]);
                assert(out@ =~= parts@[0]@);
            }
        }
        j += 1;
    }
    assert(ps.take(parts.len() as int) =~= ps);
    out
}

} // verus!
