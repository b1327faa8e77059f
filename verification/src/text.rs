//! Character-sequence helpers shared by every module: conversion between
//! `&str`/`String` and `Vec<char>`, decimal rendering and parsing with the
//! exact acceptance rules of `FromStr` for the integer types, whitespace
//! trimming and line splitting with the rules of `str::trim` / `str::lines`.

use vstd::prelude::*;

verus! {



/// The characters of `s`, in order.
pub fn chars_of(s: &str) -> (out: Vec<char>)
    ensures
        out@ == s@,
{
    broadcast use vstd::string::group_string_axioms;

    let mut out: Vec<char> = Vec::new();
    for c in it: s.chars()
        invariant
            it.seq() == s@,
            out@ == it.seq().take(it.index() as int),
    {
        out.push(c);
    }
    out
}

/// `FromIterator<char>` for `String`: the string whose characters are `v`.
#[verifier::external_body]
pub(crate) fn string_of(v: &Vec<char>) -> (out: String)
    ensures
        out@ == v@,
{
    v.iter().collect()
}

/// Appends the characters of `s` to `out`.
pub fn push_str(out: &mut Vec<char>, s: &str)
    ensures
        final(out)@ == old(out)@ + s@,
{
    let mut cs = chars_of(s);
    out.append(&mut cs);
}

/// Appends the characters of `s` to `out`.
pub fn push_chars(out: &mut Vec<char>, s: &Vec<char>)
    ensures
        final(out)@ == old(out)@ + s@,
{
    let mut i: usize = 0;
    while i < s.len()
        invariant
            i <= s.len(),
            out@ == old(out)@ + s@.take(i as int),
        decreases s.len() - i,
    {
        out.push(s[i]);
        i = i + 1;
        assert(s@.take(i as int) == s@.take(i - 1) + seq![s@[i - 1]]);
    }
    assert(s@.take(s.len() as int) == s@);
}

/// A copy of the characters in `s[from..to]`.
pub fn slice_chars(s: &Vec<char>, from: usize, to: usize) -> (out: Vec<char>)
    requires
        from <= to <= s.len(),
    ensures
        out@ == s@.subrange(from as int, to as int),
{
    let mut out: Vec<char> = Vec::new();
    let mut i: usize = from;
    while i < to
        invariant
            from <= i <= to <= s.len(),
            out@ == s@.subrange(from as int, i as int),
        decreases to - i,
    {
        out.push(s[i]);
        i = i + 1;
    }
    out
}

// ---- decimal digits ----------------------------------------------------------

/// The ASCII digit for `d` (a value below ten).
pub open spec fn digit_char(d: nat) -> char {
    if d == 0 {
        '0'
    } else if d == 1 {
        '1'
    } else if d == 2 {
        '2'
    } else if d == 3 {
        '3'
    } else if d == 4 {
        '4'
    } else if d == 5 {
        '5'
    } else if d == 6 {
        '6'
    } else if d == 7 {
        '7'
    } else if d == 8 {
        '8'
    } else {
        '9'
    }
}

/// Decimal rendering of `n` without sign or leading zeros (`0` is `"0"`), as
/// `Display` prints an unsigned integer.
pub open spec fn dec(n: nat) -> Seq<char>
    decreases n,
{
    if n < 10 {
        seq![digit_char(n)]
    } else {
        dec(n / 10).push(digit_char(n % 10))
    }
}

fn digit_of(d: u64) -> (c: char)
    requires
        d < 10,
    ensures
        c == digit_char(d as nat),
{
    if d == 0 {
        '0'
    } else if d == 1 {
        '1'
    } else if d == 2 {
        '2'
    } else if d == 3 {
        '3'
    } else if d == 4 {
        '4'
    } else if d == 5 {
        '5'
    } else if d == 6 {
        '6'
    } else if d == 7 {
        '7'
    } else if d == 8 {
        '8'
    } else {
        '9'
    }
}

/// Appends the decimal rendering of `n` to `out`.
pub fn push_decimal(out: &mut Vec<char>, n: u64)
    ensures
        final(out)@ == old(out)@ + dec(n as nat),
    decreases n,
{
    if n >= 10 {
        push_decimal(out, n / 10);
    }
    out.push(digit_of(n % 10));
}

// ---- integer parsing (`FromStr`) ----------------------------------------------

pub open spec fn is_digit(c: char) -> bool {
    '0' <= c && c <= '9'
}

pub open spec fn all_digits(s: Seq<char>) -> bool {
    forall|i: int| 0 <= i < s.len() ==> is_digit(#[trigger] s[i])
}

/// The value of a string of ASCII digits read in base ten.
pub open spec fn digits_value(s: Seq<char>) -> nat
    decreases s.len(),
{
    if s.len() == 0 {
        0
    } else {
        digits_value(s.drop_last()) * 10 + ((s.last() as int - '0' as int) as nat)
    }
}

/// The magnitude that an unsigned integer's `FromStr` reads from `s`: an
/// optional leading `+`, then at least one ASCII digit and nothing else.
pub open spec fn unsigned_text(s: Seq<char>) -> Option<nat> {
    let body = if s.len() > 0 && s[0] == '+' {
        s.drop_first()
    } else {
        s
    };
    if body.len() > 0 && all_digits(body) {
        Some(digits_value(body))
    } else {
        None
    }
}

/// `u64::from_str`: the magnitude, when it fits.
pub open spec fn parse_u64_spec(s: Seq<char>) -> Option<u64> {
    match unsigned_text(s) {
        Some(v) => if v <= u64::MAX {
            Some(v as u64)
        } else {
            None
        },
        None => None,
    }
}

/// `u32::from_str`.
pub open spec fn parse_u32_spec(s: Seq<char>) -> Option<u32> {
    match unsigned_text(s) {
        Some(v) => if v <= u32::MAX {
            Some(v as u32)
        } else {
            None
        },
        None => None,
    }
}

/// `i64::from_str`: an optional `+` or `-`, then at least one ASCII digit,
/// the signed value within the range of `i64`.
pub open spec fn parse_i64_spec(s: Seq<char>) -> Option<i64> {
    if s.len() > 0 && s[0] == '-' {
        let body = s.drop_first();
        if body.len() > 0 && all_digits(body) && digits_value(body) <= 0x8000_0000_0000_0000 {
            Some((-(digits_value(body) as int)) as i64)
        } else {
            None
        }
    } else {
        match unsigned_text(s) {
            Some(v) => if v <= i64::MAX {
                Some(v as i64)
            } else {
                None
            },
            None => None,
        }
    }
}

proof fn lemma_digits_value_push(s: Seq<char>, c: char)
    ensures
        digits_value(s.push(c)) == digits_value(s) * 10 + ((c as int - '0' as int) as nat),
{
    assert(s.push(c).drop_last() == s);
}

/// Reads the digits `s[from..]` (all of which must be ASCII digits) into a
/// magnitude, or `None` once it exceeds `limit`.
fn read_digits(s: &Vec<char>, from: usize, limit: u64) -> (r: Option<u64>)
    requires
        from <= s.len(),
    ensures
        match r {
            Some(v) => all_digits(s@.skip(from as int)) && v == digits_value(s@.skip(from as int))
                && v <= limit,
            None => !all_digits(s@.skip(from as int)) || digits_value(s@.skip(from as int))
                > limit,
        },
{
    let mut acc: u64 = 0;
    let mut i: usize = from;
    while i < s.len()
        invariant
            from <= i <= s.len(),
            all_digits(s@.subrange(from as int, i as int)),
            acc == digits_value(s@.subrange(from as int, i as int)),
            acc <= limit,
        decreases s.len() - i,
    {
        let c = s[i];
        let ghost prefix = s@.subrange(from as int, i as int);
        assert(s@.subrange(from as int, i + 1) == prefix.push(c));
        if !('0' <= c && c <= '9') {
            assert(!all_digits(s@.skip(from as int))) by {
                assert(s@.skip(from as int)[i - from] == c);
            }
            return None;
        }
        let d = (c as u32 - '0' as u32) as u64;
        proof {
            lemma_digits_value_push(prefix, c);
        }
        if d > limit || acc > (limit - d) / 10 {
            proof {
                assert(acc * 10 + d > limit) by (nonlinear_arith)
                    requires
                        d > limit || acc > (limit - d) / 10,
                        limit >= 0,
                        d >= 0,
                ;
                assert(all_digits(s@.subrange(from as int, i + 1)));
                if all_digits(s@.skip(from as int)) {
                    lemma_digits_prefix_le(s@.skip(from as int), (i + 1 - from) as int);
                    assert(s@.skip(from as int).take((i + 1 - from) as int) == s@.subrange(
                        from as int,
                        i + 1,
                    ));
                    assert(digits_value(s@.skip(from as int)) > limit);
                }
            }
            return None;
        }
        assert(acc * 10 + d <= limit) by (nonlinear_arith)
            requires
                d <= limit,
                acc <= (limit - d) / 10,
        ;
        acc = acc * 10 + d;
        i = i + 1;
    }
    assert(s@.subrange(from as int, s.len() as int) == s@.skip(from as int));
    Some(acc)
}

/// A prefix of a digit string never reads as more than the whole string.
proof fn lemma_digits_prefix_le(s: Seq<char>, k: int)
    requires
        0 <= k <= s.len(),
        all_digits(s),
    ensures
        digits_value(s.take(k)) <= digits_value(s),
    decreases s.len() - k,
{
    if k < s.len() {
        lemma_digits_prefix_le(s, k + 1);
        assert(s.take(k + 1).drop_last() == s.take(k));
        assert(is_digit(s[k]));
    } else {
        assert(s.take(k) == s);
    }
}

/// `u64::from_str` on the characters `s`.
pub fn parse_u64(s: &Vec<char>) -> (r: Option<u64>)
    ensures
        r == parse_u64_spec(s@),
{
    let start: usize = if s.len() > 0 && s[0] == '+' {
        1
    } else {
        0
    };
    assert(s@.skip(start as int) == (if s@.len() > 0 && s@[0] == '+' {
        s@.drop_first()
    } else {
        s@
    }));
    if start >= s.len() {
        return None;
    }
    read_digits(s, start, u64::MAX)
}

/// `u32::from_str` on the characters `s`.
pub fn parse_u32(s: &Vec<char>) -> (r: Option<u32>)
    ensures
        r == parse_u32_spec(s@),
{
    let start: usize = if s.len() > 0 && s[0] == '+' {
        1
    } else {
        0
    };
    assert(s@.skip(start as int) == (if s@.len() > 0 && s@[0] == '+' {
        s@.drop_first()
    } else {
        s@
    }));
    if start >= s.len() {
        return None;
    }
    match read_digits(s, start, 0xffff_ffff) {
        Some(v) => Some(v as u32),
        None => None,
    }
}

/// `i64::from_str` on the characters `s`.
pub fn parse_i64(s: &Vec<char>) -> (r: Option<i64>)
    ensures
        r == parse_i64_spec(s@),
{
    if s.len() > 0 && s[0] == '-' {
        if s.len() == 1 {
            return None;
        }
        assert(s@.skip(1) == s@.drop_first());
        match read_digits(s, 1, 0x8000_0000_0000_0000) {
            Some(v) => {
                if v == 0x8000_0000_0000_0000 {
                    Some(i64::MIN)
                } else {
                    Some(-(v as i64))
                }
            },
            None => None,
        }
    } else {
        let start: usize = if s.len() > 0 && s[0] == '+' {
            1
        } else {
            0
        };
        assert(s@.skip(start as int) == (if s@.len() > 0 && s@[0] == '+' {
            s@.drop_first()
        } else {
            s@
        }));
        if start >= s.len() {
            return None;
        }
        match read_digits(s, start, 0x7fff_ffff_ffff_ffff) {
            Some(v) => Some(v as i64),
            None => None,
        }
    }
}

// ---- searching -----------------------------------------------------------------

pub open spec fn starts_with(s: Seq<char>, p: Seq<char>) -> bool {
    p.len() <= s.len() && s.take(p.len() as int) == p
}

/// Whether `s` holds `p` at offset `at`.
pub open spec fn occurs_at(s: Seq<char>, p: Seq<char>, at: int) -> bool {
    0 <= at && at + p.len() <= s.len() && s.subrange(at, at + p.len()) == p
}

pub open spec fn contains_seq(s: Seq<char>, p: Seq<char>) -> bool {
    exists|at: int| occurs_at(s, p, at)
}

/// Text found in `x` is still found once more text is put on either side.
pub proof fn lemma_contains_seq_extend(x: Seq<char>, y: Seq<char>, p: Seq<char>)
    requires
        contains_seq(x, p),
    ensures
        contains_seq(x + y, p),
        contains_seq(y + x, p),
{
    let at = choose|at: int| occurs_at(x, p, at);
    assert((x + y).subrange(at, at + p.len()) == x.subrange(at, at + p.len()));
    assert(occurs_at(x + y, p, at));
    assert((y + x).subrange(y.len() + at, y.len() + at + p.len()) == x.subrange(at, at + p.len()));
    assert(occurs_at(y + x, p, y.len() + at));
}

/// `p` is found in any text that has it as a part.
pub proof fn lemma_contains_seq_part(a: Seq<char>, p: Seq<char>, b: Seq<char>)
    ensures
        contains_seq(a + p + b, p),
{
    assert((a + p + b).subrange(a.len() as int, (a.len() + p.len()) as int) == p);
    assert(occurs_at(a + p + b, p, a.len() as int));
}

/// Whether `s[at..]` begins with `p`.
pub fn has_prefix_at(s: &Vec<char>, at: usize, p: &Vec<char>) -> (r: bool)
    requires
        at <= s.len(),
    ensures
        r == occurs_at(s@, p@, at as int),
{
    if p.len() > s.len() - at {
        return false;
    }
    let mut i: usize = 0;
    while i < p.len()
        invariant
            i <= p.len(),
            at + p.len() <= s.len(),
            forall|k: int| 0 <= k < i ==> s@[at + k] == p@[k],
        decreases p.len() - i,
    {
        if s[at + i] != p[i] {
            assert(s@.subrange(at as int, at + p.len())[i as int] != p@[i as int]);
            return false;
        }
        i = i + 1;
    }
    assert(s@.subrange(at as int, at + p.len()) == p@);
    true
}

/// `str::starts_with` on character sequences.
pub fn has_prefix(s: &Vec<char>, p: &Vec<char>) -> (r: bool)
    ensures
        r == starts_with(s@, p@),
{
    has_prefix_at(s, 0, p)
}

/// `str::contains` on character sequences.
pub fn contains(s: &Vec<char>, p: &Vec<char>) -> (r: bool)
    ensures
        r == contains_seq(s@, p@),
{
    if p.len() > s.len() {
        return false;
    }
    let last: usize = s.len() - p.len();
    let mut at: usize = 0;
    while at < last
        invariant
            last == s.len() - p.len(),
            at <= last,
            forall|k: int| 0 <= k < at ==> !occurs_at(s@, p@, k),
        decreases last - at,
    {
        if has_prefix_at(s, at, p) {
            return true;
        }
        at = at + 1;
    }
    if has_prefix_at(s, last, p) {
        return true;
    }
    assert forall|k: int| !occurs_at(s@, p@, k) by {
        if 0 <= k && k + p.len() <= s.len() {
            assert(k <= last);
        }
    }
    false
}

pub open spec fn has_char(s: Seq<char>, c: char) -> bool {
    exists|i: int| 0 <= i < s.len() && s[i] == c
}

/// Index of the first `c` in `s`, or -1.
pub open spec fn index_of(s: Seq<char>, c: char) -> int
    decreases s.len(),
{
    if s.len() == 0 {
        -1
    } else if s[0] == c {
        0
    } else {
        let r = index_of(s.drop_first(), c);
        if r < 0 {
            -1
        } else {
            r + 1
        }
    }
}

pub proof fn lemma_index_of_found(s: Seq<char>, c: char, j: int)
    requires
        0 <= j < s.len(),
        s[j] == c,
        forall|k: int| 0 <= k < j ==> s[k] != c,
    ensures
        index_of(s, c) == j,
    decreases j,
{
    if j > 0 {
        lemma_index_of_found(s.drop_first(), c, j - 1);
    }
}

pub proof fn lemma_index_of_absent(s: Seq<char>, c: char)
    requires
        forall|k: int| 0 <= k < s.len() ==> s[k] != c,
    ensures
        index_of(s, c) == -1,
    decreases s.len(),
{
    if s.len() > 0 {
        lemma_index_of_absent(s.drop_first(), c);
    }
}

pub proof fn lemma_index_of_bounds(s: Seq<char>, c: char)
    ensures
        -1 <= index_of(s, c) < s.len(),
        index_of(s, c) >= 0 ==> s[index_of(s, c)] == c,
        index_of(s, c) >= 0 ==> forall|k: int| 0 <= k < index_of(s, c) ==> s[k] != c,
        index_of(s, c) < 0 ==> forall|k: int| 0 <= k < s.len() ==> s[k] != c,
    decreases s.len(),
{
    if s.len() > 0 {
        lemma_index_of_bounds(s.drop_first(), c);
        if s[0] != c && index_of(s.drop_first(), c) >= 0 {
            assert forall|k: int| 0 <= k < index_of(s, c) implies s[k] != c by {
                if k > 0 {
                    assert(s[k] == s.drop_first()[k - 1]);
                }
            }
        }
        if index_of(s, c) < 0 {
            assert forall|k: int| 0 <= k < s.len() implies s[k] != c by {
                if k > 0 {
                    assert(s[k] == s.drop_first()[k - 1]);
                }
            }
        }
    }
}

/// Position of the first `c` in `s[from..]`, as an index into `s`.
pub fn find_char(s: &Vec<char>, from: usize, c: char) -> (r: Option<usize>)
    requires
        from <= s.len(),
    ensures
        match r {
            Some(j) => from <= j < s.len() && index_of(s@.skip(from as int), c) == j - from,
            None => index_of(s@.skip(from as int), c) == -1,
        },
{
    let mut j: usize = from;
    while j < s.len()
        invariant
            from <= j <= s.len(),
            forall|k: int| from <= k < j ==> s@[k] != c,
        decreases s.len() - j,
    {
        if s[j] == c {
            proof {
                lemma_index_of_found(s@.skip(from as int), c, (j - from) as int);
            }
            return Some(j);
        }
        j = j + 1;
    }
    proof {
        lemma_index_of_absent(s@.skip(from as int), c);
    }
    None
}

// ---- whitespace ------------------------------------------------------------------

/// `char::is_whitespace`: the Unicode `White_Space` property.
pub open spec fn is_ws(c: char) -> bool {
    ('\u{9}' <= c && c <= '\u{d}') || c == ' ' || c == '\u{85}' || c == '\u{a0}' || c
        == '\u{1680}' || ('\u{2000}' <= c && c <= '\u{200a}') || c == '\u{2028}' || c
        == '\u{2029}' || c == '\u{202f}' || c == '\u{205f}' || c == '\u{3000}'
}

pub fn is_whitespace(c: char) -> (r: bool)
    ensures
        r == is_ws(c),
{
    ('\u{9}' <= c && c <= '\u{d}') || c == ' ' || c == '\u{85}' || c == '\u{a0}' || c
        == '\u{1680}' || ('\u{2000}' <= c && c <= '\u{200a}') || c == '\u{2028}' || c
        == '\u{2029}' || c == '\u{202f}' || c == '\u{205f}' || c == '\u{3000}'
}

/// Count of leading whitespace characters of `s`.
pub open spec fn lead_ws(s: Seq<char>) -> nat
    decreases s.len(),
{
    if s.len() > 0 && is_ws(s[0]) {
        1 + lead_ws(s.drop_first())
    } else {
        0
    }
}

/// Count of trailing whitespace characters of `s`.
pub open spec fn trail_ws(s: Seq<char>) -> nat
    decreases s.len(),
{
    if s.len() > 0 && is_ws(s.last()) {
        1 + trail_ws(s.drop_last())
    } else {
        0
    }
}

/// `str::trim_start`.
pub open spec fn trim_start(s: Seq<char>) -> Seq<char> {
    s.skip(lead_ws(s) as int)
}

/// `str::trim_end`.
pub open spec fn trim_end(s: Seq<char>) -> Seq<char> {
    s.take(s.len() - trail_ws(s))
}

/// `str::trim`.
pub open spec fn trim(s: Seq<char>) -> Seq<char> {
    trim_end(trim_start(s))
}

proof fn lemma_lead_ws(s: Seq<char>, k: int)
    requires
        0 <= k <= s.len(),
        forall|i: int| 0 <= i < k ==> is_ws(#[trigger] s[i]),
        k == s.len() || !is_ws(s[k]),
    ensures
        lead_ws(s) == k,
    decreases k,
{
    if k > 0 {
        lemma_lead_ws(s.drop_first(), k - 1);
    }
}

proof fn lemma_trail_ws(s: Seq<char>, k: int)
    requires
        0 <= k <= s.len(),
        forall|i: int| s.len() - k <= i < s.len() ==> is_ws(#[trigger] s[i]),
        k == s.len() || !is_ws(s[s.len() - k - 1]),
    ensures
        trail_ws(s) == k,
    decreases k,
{
    if k > 0 {
        lemma_trail_ws(s.drop_last(), k - 1);
    }
}

pub fn trim_start_chars(s: &Vec<char>) -> (out: Vec<char>)
    ensures
        out@ == trim_start(s@),
{
    let mut i: usize = 0;
    while i < s.len() && is_whitespace(s[i])
        invariant
            i <= s.len(),
            forall|k: int| 0 <= k < i ==> is_ws(#[trigger] s@[k]),
        decreases s.len() - i,
    {
        i = i + 1;
    }
    proof {
        lemma_lead_ws(s@, i as int);
    }
    slice_chars(s, i, s.len())
}

pub fn trim_end_chars(s: &Vec<char>) -> (out: Vec<char>)
    ensures
        out@ == trim_end(s@),
{
    let mut k: usize = 0;
    while k < s.len() && is_whitespace(s[s.len() - k - 1])
        invariant
            k <= s.len(),
            forall|i: int| s.len() - k <= i < s.len() ==> is_ws(#[trigger] s@[i]),
        decreases s.len() - k,
    {
        k = k + 1;
    }
    proof {
        lemma_trail_ws(s@, k as int);
    }
    slice_chars(s, 0, s.len() - k)
}

pub fn trim_chars(s: &Vec<char>) -> (out: Vec<char>)
    ensures
        out@ == trim(s@),
{
    let a = trim_start_chars(s);
    trim_end_chars(&a)
}

/// `s.trim().is_empty()`.
pub fn is_blank(s: &str) -> (r: bool)
    ensures
        r == (trim(s@).len() == 0),
{
    let cs = chars_of(s);
    trim_chars(&cs).len() == 0
}

// ---- lines ------------------------------------------------------------------------

/// A line's trailing `\r`, removed.
pub open spec fn strip_cr(s: Seq<char>) -> Seq<char> {
    if s.len() > 0 && s.last() == '\r' {
        s.drop_last()
    } else {
        s
    }
}

/// `str::lines`: split at each `\n`, a `\r` directly before it dropped with
/// it; a final line needs no terminator, and keeps a trailing `\r` when it
/// has none; a trailing `\n` opens no further line.
pub open spec fn lines(s: Seq<char>) -> Seq<Seq<char>>
    decreases s.len(),
{
    if s.len() == 0 {
        seq![]
    } else {
        let i = index_of(s, '\n');
        if i < 0 {
            seq![s]
        } else if 0 <= i < s.len() {
            seq![strip_cr(s.take(i))] + lines(s.skip(i + 1))
        } else {
            seq![]
        }
    }
}

proof fn lemma_lines_step(s: Seq<char>, start: int, j: int)
    requires
        0 <= start <= j < s.len(),
        index_of(s.skip(start), '\n') == j - start,
    ensures
        lines(s.skip(start)) == seq![strip_cr(s.subrange(start, j))] + lines(s.skip(j + 1)),
{
    let rest = s.skip(start);
    assert(rest.take(j - start) == s.subrange(start, j));
    assert(rest.skip(j - start + 1) == s.skip(j + 1));
}

proof fn lemma_lines_last(s: Seq<char>, start: int)
    requires
        0 <= start < s.len(),
        index_of(s.skip(start), '\n') == -1,
    ensures
        lines(s.skip(start)) == seq![s.subrange(start, s.len() as int)],
{
    assert(s.skip(start) == s.subrange(start, s.len() as int));
}

proof fn lemma_lead_ws_push(x: Seq<char>, c: char)
    ensures
        lead_ws(x) <= x.len(),
        lead_ws(x) < x.len() ==> lead_ws(x.push(c)) == lead_ws(x),
        lead_ws(x) == x.len() ==> lead_ws(x.push(c)) == x.len() + if is_ws(c) {
            1nat
        } else {
            0nat
        },
    decreases x.len(),
{
    if x.len() > 0 {
        assert(x.push(c)[0] == x[0]);
        assert(x.push(c).drop_first() == x.drop_first().push(c));
        lemma_lead_ws_push(x.drop_first(), c);
    } else {
        assert(x.push(c).drop_first() == Seq::<char>::empty());
        assert(lead_ws(x.push(c).drop_first()) == 0);
        assert(x.push(c)[0] == c);
    }
}

proof fn lemma_trail_ws_bound(y: Seq<char>)
    ensures
        trail_ws(y) <= y.len(),
    decreases y.len(),
{
    if y.len() > 0 {
        lemma_trail_ws_bound(y.drop_last());
    }
}

/// A trailing carriage return does not change what a line trims to.
pub proof fn lemma_trim_ignores_trailing_cr(x: Seq<char>)
    ensures
        trim(x.push('\r')) == trim(x),
{
    let s = x.push('\r');
    assert(is_ws('\r'));
    lemma_lead_ws_push(x, '\r');
    assert(s.drop_last() == x);
    if lead_ws(x) < x.len() {
        let y = trim_start(x);
        assert(trim_start(s) == y.push('\r'));
        assert(y.push('\r').drop_last() == y);
        assert(trail_ws(y.push('\r')) == 1 + trail_ws(y));
        lemma_trail_ws_bound(y);
        let k = y.len() - trail_ws(y);
        assert(y.push('\r').take(k) == y.take(k));
        assert(trim_end(y.push('\r')) == trim_end(y));
    } else {
        assert(trim_start(s).len() == 0);
        assert(trim_start(x).len() == 0);
    }
}

/// Ending the last line of a text that does not end one changes its lines
/// only by a carriage return dropped from the last.
pub proof fn lemma_lines_newline(t: Seq<char>)
    requires
        t.len() > 0,
        t.last() != '\n',
    ensures
        lines(t.push('\n')).len() == lines(t).len(),
        lines(t).len() > 0,
        forall|k: int| 0 <= k < lines(t).len() - 1 ==> #[trigger] lines(t.push('\n'))[k] == lines(t)[k],
        lines(t.push('\n'))[lines(t).len() - 1] == strip_cr(lines(t)[lines(t).len() - 1]),
    decreases t.len(),
{
    let u = t.push('\n');
    lemma_index_of_bounds(t, '\n');
    let i = index_of(t, '\n');
    if i < 0 {
        assert forall|k: int| 0 <= k < t.len() implies u[k] != '\n' by {
            assert(u[k] == t[k]);
        }
        lemma_index_of_found(u, '\n', t.len() as int);
        assert(u.take(t.len() as int) == t);
        assert(u.skip(t.len() as int + 1).len() == 0);
        assert(lines(u.skip(t.len() as int + 1)) == Seq::<Seq<char>>::empty());
        assert(lines(t) == seq![t]);
        assert(lines(u) == seq![strip_cr(t)]);
    } else {
        assert forall|k: int| 0 <= k < i implies u[k] != '\n' by {
            assert(u[k] == t[k]);
        }
        lemma_index_of_found(u, '\n', i);
        assert(i < t.len() - 1) by {
            assert(t[i] == '\n');
            assert(t[t.len() - 1] == t.last());
        }
        let rest = t.skip(i + 1);
        assert(u.take(i) == t.take(i));
        assert(u.skip(i + 1) == rest.push('\n'));
        assert(rest.last() == t.last());
        lemma_lines_newline(rest);
        let head = seq![strip_cr(t.take(i))];
        assert(lines(t) == head + lines(rest));
        assert(lines(u) == head + lines(rest.push('\n')));
        assert forall|k: int| 0 <= k < lines(t).len() - 1 implies #[trigger] lines(u)[k] == lines(t)[k] by {
            if k > 0 {
                assert(lines(u)[k] == lines(rest.push('\n'))[k - 1]);
                assert(lines(t)[k] == lines(rest)[k - 1]);
            }
        }
        let n = lines(t).len();
        assert(lines(u)[n - 1] == lines(rest.push('\n'))[n - 2]);
        assert(lines(t)[n - 1] == lines(rest)[n - 2]);
    }
}

/// The lines of `u + w`, where `u` is empty or ends its last line, are the
/// lines of `u` followed by those of `w`.
pub proof fn lemma_lines_append(u: Seq<char>, w: Seq<char>)
    requires
        u.len() == 0 || u.last() == '\n',
    ensures
        lines(u + w) == lines(u) + lines(w),
    decreases u.len(),
{
    if u.len() == 0 {
        assert(u + w == w);
        assert(lines(u) + lines(w) == lines(w));
    } else {
        lemma_index_of_bounds(u, '\n');
        assert(u[u.len() - 1] == '\n');
        let i = index_of(u, '\n');
        assert(i >= 0);
        assert forall|k: int| 0 <= k < i implies (u + w)[k] != '\n' by {
            assert((u + w)[k] == u[k]);
        }
        lemma_index_of_found(u + w, '\n', i);
        let rest = u.skip(i + 1);
        assert((u + w).take(i) == u.take(i));
        assert((u + w).skip(i + 1) == rest + w);
        if rest.len() > 0 {
            assert(rest.last() == u.last());
        }
        lemma_lines_append(rest, w);
        assert(lines(u) == seq![strip_cr(u.take(i))] + lines(rest));
        assert(lines(u + w) == seq![strip_cr(u.take(i))] + lines(rest + w));
        assert(seq![strip_cr(u.take(i))] + (lines(rest) + lines(w)) == (seq![strip_cr(u.take(i))]
            + lines(rest)) + lines(w));
    }
}

/// The lines of `s`, as `str::lines` yields them.
pub fn split_lines(s: &Vec<char>) -> (out: Vec<Vec<char>>)
    ensures
        out@.len() == lines(s@).len(),
        forall|k: int| 0 <= k < out@.len() ==> #[trigger] out@[k]@ == lines(s@)[k],
{
    let mut out: Vec<Vec<char>> = Vec::new();
    let mut start: usize = 0;
    let ghost mut done: Seq<Seq<char>> = seq![];
    assert(s@.skip(0) == s@);
    assert(done + lines(s@) == lines(s@));
    while start < s.len()
        invariant
            start <= s.len(),
            out@.len() == done.len(),
            forall|k: int| 0 <= k < out@.len() ==> #[trigger] out@[k]@ == done[k],
            done + lines(s@.skip(start as int)) == lines(s@),
        decreases s.len() - start,
    {
        match find_char(s, start, '\n') {
            Some(j) => {
                let mut line = slice_chars(s, start, j);
                if line.len() > 0 && line[line.len() - 1] == '\r' {
                    line.pop();
                }
                proof {
                    lemma_lines_step(s@, start as int, j as int);
                    assert(line@ == strip_cr(s@.subrange(start as int, j as int)));
                    assert(done.push(line@) + lines(s@.skip(j + 1)) == done + lines(
                        s@.skip(start as int),
                    ));
                    done = done.push(line@);
                }
                out.push(line);
                start = j + 1;
            },
            None => {
                let line = slice_chars(s, start, s.len());
                proof {
                    lemma_lines_last(s@, start as int);
                    assert(s@.skip(s.len() as int) == Seq::<char>::empty());
                    assert(done.push(line@) + lines(s@.skip(s.len() as int)) == done + lines(
                        s@.skip(start as int),
                    ));
                    done = done.push(line@);
                }
                out.push(line);
                start = s.len();
            },
        }
    }
    assert(s@.skip(start as int) == Seq::<char>::empty());
    assert(done + Seq::<Seq<char>>::empty() == done);
    out
}

} // verus!
