//! Shared accessibility rendering helpers: relative timestamps, terminal
//! colour gating, the `--explain` glossary, terminal sanitising, and the two
//! turn renderers (`log`'s list line and `show`/`blame`'s detail header),
//! both built on the one separator [`SEP`] and the one id shortener
//! [`short_id`]. Callers inject the clock, TTY and environment facts, so
//! everything here is a pure function of its arguments.

use vstd::prelude::*;
use vstd::string::StrSliceExecFns;
use vstd::string::StringExecFns;
use vstd::string::StringSliceAdditionalSpecFns;
use vstd::utf8::{decode_utf8, encode_utf8, is_char_boundary};
use crate::text::{
    chars_of, contains, contains_seq, dec, find_char, has_char, has_prefix, index_of, parse_i64,
    parse_i64_spec, parse_u32, parse_u32_spec, parse_u64, parse_u64_spec, push_chars, push_decimal,
    push_str, slice_chars, string_of,
};

pub use crate::record::{FileEntry, TurnRecord};

verus! {

/// The separator every turn renderer puts between fields.
pub const SEP: &'static str = " · ";

// ---- short_id -----------------------------------------------------------------

/// The id with a leading `t_` removed, if it has one.
pub open spec fn id_body(id: Seq<char>) -> Seq<char> {
    if id.len() >= 2 && id[0] == 't' && id[1] == '_' {
        id.skip(2)
    } else {
        id
    }
}

/// Inputs on which `short_id` does not slice inside a character (a body
/// longer than eight bytes whose byte 4 or byte `len - 4` is inside a
/// character is refused), and whose body's UTF-8 length fits in `usize`.
pub open spec fn short_id_defined(id: Seq<char>) -> bool {
    let b = encode_utf8(id_body(id));
    &&& b.len() <= usize::MAX
    &&& b.len() <= 8 || (is_char_boundary(b, 4) && is_char_boundary(b, b.len() - 4))
}

/// `t_<first 4 bytes of the body>…<last 4 bytes>`, or the id unchanged when
/// its body is at most eight bytes long.
pub open spec fn short_id_spec(id: Seq<char>) -> Seq<char> {
    let b = encode_utf8(id_body(id));
    if b.len() <= 8 {
        id
    } else {
        "t_"@ + decode_utf8(b.take(4)) + "…"@ + decode_utf8(b.skip(b.len() - 4))
    }
}

/// `t_<ULID>` → `t_<first4>…<last4>` for display.
pub fn short_id(id: &str) -> (out: String)
    requires
        short_id_defined(id@),
    ensures
        out@ == short_id_spec(id@),
{
    broadcast use vstd::utf8::encode_utf8_decode_utf8;

    let n = id.unicode_len();
    let body: &str = if n >= 2 && id.get_char(0) == 't' && id.get_char(1) == '_' {
        id.substring_char(2, n)
    } else {
        id
    };
    assert(body@ == id_body(id@));
    assert(body.spec_bytes() == encode_utf8(body@));
    let blen = body.len();
    assert(blen == encode_utf8(body@).len());
    if blen <= 8 {
        return String::from_str(id);
    }
    let (head, _rest) = body.split_at(4);
    let (_lead, tail) = body.split_at(blen - 4);
    proof {
        let b = encode_utf8(id_body(id@));
        assert(head@ == decode_utf8(encode_utf8(head@)));
        assert(b.subrange(0, 4) == b.take(4));
        assert(tail@ == decode_utf8(encode_utf8(tail@)));
        assert(b.subrange(b.len() - 4, b.len() as int) == b.skip(b.len() - 4));
    }
    let mut out = String::from_str("t_");
    out.append(head);
    out.append("…");
    out.append(tail);
    out
}

// ---- relative_time ------------------------------------------------------------

/// Integer division that truncates towards zero, as `/` does on `i64`.
pub open spec fn tdiv(a: int, b: int) -> int {
    if a >= 0 {
        a / b
    } else {
        -((-a) / b)
    }
}

pub open spec fn in_i64(x: int) -> bool {
    i64::MIN <= x <= i64::MAX
}

/// Days since 1970-01-01 of the proleptic Gregorian date `y-m-d` (Howard
/// Hinnant's days-from-civil, epoch constants 719468 / 146097).
pub open spec fn civil_days(y: int, m: int, d: int) -> int {
    let y1 = if m <= 2 {
        y - 1
    } else {
        y
    };
    let era = tdiv(
        if y1 >= 0 {
            y1
        } else {
            y1 - 399
        },
        400,
    );
    let yoe = y1 - era * 400;
    let mp = if m > 2 {
        m - 3
    } else {
        m + 9
    };
    let doy = (153 * mp + 2) / 5 + d - 1;
    let doe = yoe * 365 + yoe / 4 - yoe / 100 + doy;
    era * 146_097 + doe - 719_468
}

/// Every intermediate `i64` of [`days_from_civil`] is in range: `y = i64::MIN`
/// before March, or a year so large that the day count overflows, panics
/// in the computation this mirrors.
pub open spec fn civil_days_ok(y: int, m: int, d: int) -> bool {
    let y1 = if m <= 2 {
        y - 1
    } else {
        y
    };
    let e = if y1 >= 0 {
        y1
    } else {
        y1 - 399
    };
    let era = tdiv(e, 400);
    let yoe = y1 - era * 400;
    let mp = if m > 2 {
        m - 3
    } else {
        m + 9
    };
    let doy = (153 * mp + 2) / 5 + d - 1;
    let doe = yoe * 365 + yoe / 4 - yoe / 100 + doy;
    &&& in_i64(y1)
    &&& in_i64(e)
    &&& in_i64(era * 146_097)
    &&& in_i64(era * 146_097 + doe)
    &&& in_i64(era * 146_097 + doe - 719_468)
}

proof fn lemma_tdiv_bounds(a: int, b: int)
    requires
        b > 0,
    ensures
        a >= 0 ==> 0 <= tdiv(a, b) <= a,
        a < 0 ==> a <= tdiv(a, b) <= 0,
        a >= 0 ==> 0 <= a - tdiv(a, b) * b < b,
        a < 0 ==> -b < a - tdiv(a, b) * b <= 0,
{
    if a >= 0 {
        assert(0 <= a / b <= a) by (nonlinear_arith)
            requires
                a >= 0,
                b > 0,
        ;
        assert(0 <= a - (a / b) * b < b) by (nonlinear_arith)
            requires
                a >= 0,
                b > 0,
        ;
    } else {
        let n = -a;
        assert(0 <= n / b <= n) by (nonlinear_arith)
            requires
                n > 0,
                b > 0,
        ;
        assert(0 <= n - (n / b) * b < b) by (nonlinear_arith)
            requires
                n > 0,
                b > 0,
        ;
        assert(a - tdiv(a, b) * b == -(n - (n / b) * b)) by (nonlinear_arith)
            requires
                n == -a,
                tdiv(a, b) == -(n / b),
        ;
    }
}

/// Days since the epoch of `y-m-d`, or `None` when an intermediate of the
/// computation leaves the `i64` range.
pub fn days_from_civil(y: i64, m: u32, d: u32) -> (r: Option<i64>)
    ensures
        r == if civil_days_ok(y as int, m as int, d as int) {
            Some(civil_days(y as int, m as int, d as int) as i64)
        } else {
            None::<i64>
        },
{
    let y = if m <= 2 {
        match y.checked_sub(1) {
            Some(v) => v,
            None => return None,
        }
    } else {
        y
    };
    let e = if y >= 0 {
        y
    } else {
        match y.checked_sub(399) {
            Some(v) => v,
            None => return None,
        }
    };
    proof {
        lemma_tdiv_bounds(e as int, 400);
    }
    let era = e / 400;
    let yoe = y - era * 400;
    proof {
        if y >= 0 {
            assert(0 <= yoe <= 399);
        } else {
            assert(yoe == y - tdiv(y - 399, 400) * 400);
            assert(-400 < (y - 399) - tdiv(y - 399, 400) * 400 <= 0);
            assert(0 <= yoe <= 399);
        }
    }
    let mp: i64 = if m > 2 {
        m as i64 - 3
    } else {
        m as i64 + 9
    };
    let doy = (153 * mp + 2) / 5 + d as i64 - 1;
    let doe = yoe * 365 + yoe / 4 - yoe / 100 + doy;
    let a = match era.checked_mul(146_097) {
        Some(v) => v,
        None => return None,
    };
    let b = match a.checked_add(doe) {
        Some(v) => v,
        None => return None,
    };
    b.checked_sub(719_468)
}

/// The text of `s` up to (not including) the first `c`, or all of `s`:
/// what `s.split(c).next()` yields.
pub open spec fn before_char(s: Seq<char>, c: char) -> Seq<char> {
    let i = index_of(s, c);
    if 0 <= i < s.len() {
        s.take(i)
    } else {
        s
    }
}

/// The text of `s` after the first `c`, when there is one.
pub open spec fn after_char(s: Seq<char>, c: char) -> Option<Seq<char>> {
    let i = index_of(s, c);
    if 0 <= i < s.len() {
        Some(s.skip(i + 1))
    } else {
        None
    }
}

/// The three pieces `s.splitn(3, c)` yields, when it yields three.
pub open spec fn three_fields(s: Seq<char>, c: char) -> Option<(Seq<char>, Seq<char>, Seq<char>)> {
    match after_char(s, c) {
        None => None,
        Some(rest) => match after_char(rest, c) {
            None => None,
            Some(third) => Some((before_char(s, c), before_char(rest, c), third)),
        },
    }
}

/// A fraction's milliseconds: its first three characters, right-padded with
/// `0` to three, read as a `u64`.
pub open spec fn frac_ms(f: Seq<char>) -> Option<u64> {
    let t = if f.len() > 3 {
        f.take(3)
    } else {
        f
    };
    let padded = if t.len() == 0 {
        "000"@
    } else if t.len() == 1 {
        t + "00"@
    } else if t.len() == 2 {
        t + "0"@
    } else {
        t
    };
    parse_u64_spec(padded)
}

/// The fields of `YYYY-MM-DDTHH:MM:SS(.fff)?Z`: year, month, day, hour,
/// minute, second, milliseconds.
pub open spec fn rfc3339_fields(s: Seq<char>) -> Option<(i64, u32, u32, i64, i64, i64, u64)> {
    if !(s.len() > 0 && s.last() == 'Z') {
        None
    } else {
        let s1 = s.drop_last();
        match after_char(s1, 'T') {
            None => None,
            Some(time) => {
                let date = before_char(s1, 'T');
                let hms = before_char(time, '.');
                match (three_fields(date, '-'), three_fields(hms, ':')) {
                    (Some((ys, ms, ds)), Some((hs, mis, ses))) => {
                        let millis = match after_char(time, '.') {
                            Some(f) => frac_ms(f),
                            None => Some(0u64),
                        };
                        match (
                            parse_i64_spec(ys),
                            parse_u32_spec(ms),
                            parse_u32_spec(ds),
                            parse_i64_spec(hs),
                            parse_i64_spec(mis),
                            parse_i64_spec(ses),
                            millis,
                        ) {
                            (
                                Some(y),
                                Some(mo),
                                Some(d),
                                Some(h),
                                Some(mi),
                                Some(se),
                                Some(ms),
                            ) => Some((y, mo, d, h, mi, se, ms)),
                            _ => None,
                        }
                    },
                    _ => None,
                }
            },
        }
    }
}

/// Seconds since the epoch of the parsed fields.
pub open spec fn fields_secs(f: (i64, u32, u32, i64, i64, i64, u64)) -> int {
    civil_days(f.0 as int, f.1 as int, f.2 as int) * 86_400 + f.3 * 3600 + f.4 * 60 + f.5
}

/// Every intermediate of the seconds/milliseconds arithmetic is in range.
pub open spec fn fields_ok(f: (i64, u32, u32, i64, i64, i64, u64)) -> bool {
    let days = civil_days(f.0 as int, f.1 as int, f.2 as int);
    &&& civil_days_ok(f.0 as int, f.1 as int, f.2 as int)
    &&& in_i64(days * 86_400)
    &&& in_i64(f.3 * 3600)
    &&& in_i64(days * 86_400 + f.3 * 3600)
    &&& in_i64(f.4 * 60)
    &&& in_i64(days * 86_400 + f.3 * 3600 + f.4 * 60)
    &&& in_i64(days * 86_400 + f.3 * 3600 + f.4 * 60 + f.5)
    &&& (fields_secs(f) >= 0 ==> fields_secs(f) * 1000 + f.6 <= u64::MAX)
}

/// Unix milliseconds of an RFC 3339 UTC timestamp, `None` on malformed input,
/// a time before the epoch, or fields whose arithmetic leaves the integer
/// range.
pub open spec fn rfc3339_ms_spec(s: Seq<char>) -> Option<u64> {
    match rfc3339_fields(s) {
        Some(f) => if !fields_ok(f) || fields_secs(f) < 0 {
            None
        } else {
            Some((fields_secs(f) * 1000 + f.6) as u64)
        },
        None => None,
    }
}

/// `(before_char(s, c), after_char(s, c))` over `s[from..to]`.
pub fn split_once_at(s: &Vec<char>, c: char) -> (r: (Vec<char>, Option<Vec<char>>))
    ensures
        r.0@ == before_char(s@, c),
        match r.1 {
            Some(t) => after_char(s@, c) == Some(t@),
            None => after_char(s@, c) is None,
        },
{
    assert(s@.skip(0) == s@);
    match find_char(s, 0, c) {
        Some(j) => {
            let head = slice_chars(s, 0, j);
            let tail = slice_chars(s, j + 1, s.len());
            assert(s@.take(j as int) == s@.subrange(0, j as int));
            assert(s@.skip(j + 1) == s@.subrange(j + 1, s.len() as int));
            (head, Some(tail))
        },
        None => {
            let all = slice_chars(s, 0, s.len());
            assert(s@.subrange(0, s.len() as int) == s@);
            (all, None)
        },
    }
}

fn three_fields_exec(s: &Vec<char>, c: char) -> (r: Option<(Vec<char>, Vec<char>, Vec<char>)>)
    ensures
        match r {
            Some(t) => three_fields(s@, c) == Some((t.0@, t.1@, t.2@)),
            None => three_fields(s@, c) is None,
        },
{
    let (a, rest) = split_once_at(s, c);
    match rest {
        None => None,
        Some(rest) => {
            let (b, third) = split_once_at(&rest, c);
            match third {
                None => None,
                Some(third) => Some((a, b, third)),
            }
        },
    }
}

fn frac_ms_exec(f: &Vec<char>) -> (r: Option<u64>)
    ensures
        r == frac_ms(f@),
{
    let mut t = if f.len() > 3 {
        slice_chars(f, 0, 3)
    } else {
        slice_chars(f, 0, f.len())
    };
    assert(f@.subrange(0, 3) == f@.take(3));
    assert(f@.subrange(0, f@.len() as int) == f@);
    let ghost t0 = t@;
    while t.len() < 3
        invariant
            t0.len() <= 3,
            t0.len() <= t@.len() <= 3,
            t@ == t0 + Seq::new((t@.len() - t0.len()) as nat, |i: int| '0'),
        decreases 3 - t.len(),
    {
        t.push('0');
        assert(t@ == t0 + Seq::new((t@.len() - t0.len()) as nat, |i: int| '0'));
    }
    proof {
        reveal_strlit("000");
        reveal_strlit("00");
        reveal_strlit("0");
        if t0.len() == 0 {
            assert(t@ == "000"@);
        } else if t0.len() == 1 {
            assert(t@ == t0 + "00"@);
        } else if t0.len() == 2 {
            assert(t@ == t0 + "0"@);
        } else {
            assert(t@ == t0);
        }
    }
    parse_u64(&t)
}

/// Parse `YYYY-MM-DDTHH:MM:SS(.fff)?Z` into unix milliseconds; `None` on any
/// malformed input, a time before the epoch, or fields too large to count.
pub fn parse_rfc3339_ms(s: &Vec<char>) -> (r: Option<u64>)
    ensures
        r == rfc3339_ms_spec(s@),
{
    if !(s.len() > 0 && s[s.len() - 1] == 'Z') {
        return None;
    }
    let s1 = slice_chars(s, 0, s.len() - 1);
    assert(s1@ == s@.drop_last());
    let (date, time) = split_once_at(&s1, 'T');
    let time = match time {
        Some(t) => t,
        None => return None,
    };
    let (hms, frac) = split_once_at(&time, '.');
    let (ys, mos, ds) = match three_fields_exec(&date, '-') {
        Some(t) => t,
        None => return None,
    };
    let (hs, mis, ses) = match three_fields_exec(&hms, ':') {
        Some(t) => t,
        None => return None,
    };
    let y = match parse_i64(&ys) {
        Some(v) => v,
        None => return None,
    };
    let mo = match parse_u32(&mos) {
        Some(v) => v,
        None => return None,
    };
    let d = match parse_u32(&ds) {
        Some(v) => v,
        None => return None,
    };
    let h = match parse_i64(&hs) {
        Some(v) => v,
        None => return None,
    };
    let mi = match parse_i64(&mis) {
        Some(v) => v,
        None => return None,
    };
    let se = match parse_i64(&ses) {
        Some(v) => v,
        None => return None,
    };
    let millis: u64 = match frac {
        Some(f) => match frac_ms_exec(&f) {
            Some(v) => v,
            None => return None,
        },
        None => 0,
    };
    let ghost f = (y, mo, d, h, mi, se, millis);
    assert(rfc3339_fields(s@) == Some(f));
    let days = match days_from_civil(y, mo, d) {
        Some(v) => v,
        None => return None,
    };
    let secs = match checked_secs(days, h, mi, se) {
        Some(v) => v,
        None => return None,
    };
    if secs < 0 {
        return None;
    }
    match (secs as u64).checked_mul(1000) {
        Some(v) => v.checked_add(millis),
        None => None,
    }
}

/// `days * 86_400 + h * 3600 + mi * 60 + se`, when every step stays in
/// the `i64` range.
fn checked_secs(days: i64, h: i64, mi: i64, se: i64) -> (r: Option<i64>)
    ensures
        r == if in_i64(days * 86_400) && in_i64(h * 3600) && in_i64(days * 86_400 + h * 3600) && in_i64(
            mi * 60,
        ) && in_i64(days * 86_400 + h * 3600 + mi * 60) && in_i64(days * 86_400 + h * 3600 + mi * 60 + se) {
            Some((days * 86_400 + h * 3600 + mi * 60 + se) as i64)
        } else {
            None::<i64>
        },
{
    let a = match days.checked_mul(86_400) {
        Some(v) => v,
        None => return None,
    };
    let b = match h.checked_mul(3600) {
        Some(v) => v,
        None => return None,
    };
    let c = match a.checked_add(b) {
        Some(v) => v,
        None => return None,
    };
    let e = match mi.checked_mul(60) {
        Some(v) => v,
        None => return None,
    };
    let g = match c.checked_add(e) {
        Some(v) => v,
        None => return None,
    };
    g.checked_add(se)
}

/// What `relative_time` renders for a parsed instant `then_ms` at `now_ms`.
pub open spec fn relative_text(then: Seq<char>, then_ms: u64, now_ms: u64) -> Seq<char> {
    if then_ms >= now_ms {
        "just now"@
    } else {
        let secs = ((now_ms - then_ms) / 1000) as nat;
        if secs < 60 {
            "just now"@
        } else if secs < 3_600 {
            dec(secs / 60) + "m ago"@
        } else if secs < 86_400 {
            dec(secs / 3_600) + "h ago"@
        } else if secs < 2 * 86_400 {
            "yesterday"@
        } else if secs < 7 * 86_400 {
            dec(secs / 86_400) + "d ago"@
        } else {
            before_char(then, 'T')
        }
    }
}

/// `relative_time`'s result: the bucketed age of `then` at `now_ms`, or
/// `then` itself when it does not parse.
pub open spec fn relative_time_spec(then: Seq<char>, now_ms: u64) -> Seq<char> {
    match rfc3339_ms_spec(then) {
        None => then,
        Some(then_ms) => relative_text(then, then_ms, now_ms),
    }
}

/// Render `then_rfc3339` relative to `now_unix_ms`: "just now" (<60s), "Nm ago"
/// (<1h), "Nh ago" (<24h), "yesterday" (24h–48h), "Nd ago" (2d–7d), and the
/// `YYYY-MM-DD` date part beyond that; the raw string when it does not parse.
pub fn relative_time(then_rfc3339: &str, now_unix_ms: u64) -> (out: String)
    ensures
        out@ == relative_time_spec(then_rfc3339@, now_unix_ms),
{
    let then = chars_of(then_rfc3339);
    let then_ms = match parse_rfc3339_ms(&then) {
        Some(t) => t,
        None => return String::from_str(then_rfc3339),
    };
    let mut out: Vec<char> = Vec::new();
    if then_ms >= now_unix_ms {
        push_str(&mut out, "just now");
        return string_of(&out);
    }
    let secs = (now_unix_ms - then_ms) / 1000;
    if secs < 60 {
        push_str(&mut out, "just now");
    } else if secs < 3_600 {
        push_decimal(&mut out, secs / 60);
        push_str(&mut out, "m ago");
    } else if secs < 86_400 {
        push_decimal(&mut out, secs / 3_600);
        push_str(&mut out, "h ago");
    } else if secs < 2 * 86_400 {
        push_str(&mut out, "yesterday");
    } else if secs < 7 * 86_400 {
        push_decimal(&mut out, secs / 86_400);
        push_str(&mut out, "d ago");
    } else {
        let (date, _rest) = split_once_at(&then, 'T');
        out = date;
    }
    string_of(&out)
}

// ---- colour ----------------------------------------------------------------------

/// Whether colour escape codes should be emitted at all: only on a real TTY,
/// and never under `NO_COLOR`.
pub fn should_color(stdout_is_tty: bool, no_color_env: bool) -> (r: bool)
    ensures
        r == (stdout_is_tty && !no_color_env),
{
    stdout_is_tty && !no_color_env
}

/// `text` wrapped in an SGR colour code, or `text` itself.
pub open spec fn paint_spec(text: Seq<char>, code: Seq<char>, enabled: bool) -> Seq<char> {
    if enabled {
        "\x1b["@ + code + "m"@ + text + "\x1b[0m"@
    } else {
        text
    }
}

/// Wrap `text` in an ANSI SGR colour code when `enabled`; `text` unchanged
/// (no escape bytes at all) when not.
pub fn paint(text: &str, code: &str, enabled: bool) -> (out: String)
    ensures
        out@ == paint_spec(text@, code@, enabled),
{
    if enabled {
        let mut out = String::from_str("\x1b[");
        out.append(code);
        out.append("m");
        out.append(text);
        out.append("\x1b[0m");
        out
    } else {
        String::from_str(text)
    }
}

// ---- terminal sanitising -----------------------------------------------------------

/// Printable: not a C0 control, not DEL, not a C1 control.
pub open spec fn printable(c: char) -> bool {
    c as u32 >= 0x20 && c as u32 != 0x7f && !(0x80 <= c as u32 && c as u32 <= 0x9f)
}

/// The printable characters of `s`, in order.
pub open spec fn sanitized(s: Seq<char>) -> Seq<char>
    decreases s.len(),
{
    if s.len() == 0 {
        seq![]
    } else if printable(s.last()) {
        sanitized(s.drop_last()).push(s.last())
    } else {
        sanitized(s.drop_last())
    }
}

/// Strip terminal control characters (C0, DEL, C1) from text about to be
/// printed to a terminal; everything printable passes through unchanged.
pub fn sanitize_terminal(s: &str) -> (out: String)
    ensures
        out@ == sanitized(s@),
{
    let cs = chars_of(s);
    let out = sanitize_chars(&cs);
    string_of(&out)
}

pub fn sanitize_chars(cs: &Vec<char>) -> (out: Vec<char>)
    ensures
        out@ == sanitized(cs@),
{
    let mut out: Vec<char> = Vec::new();
    let mut i: usize = 0;
    while i < cs.len()
        invariant
            i <= cs.len(),
            out@ == sanitized(cs@.take(i as int)),
        decreases cs.len() - i,
    {
        let c = cs[i];
        let cp = c as u32;
        assert(cs@.take(i + 1).drop_last() == cs@.take(i as int));
        if cp >= 0x20 && cp != 0x7f && !(0x80 <= cp && cp <= 0x9f) {
            out.push(c);
        }
        i = i + 1;
    }
    assert(cs@.take(cs.len() as int) == cs@);
    out
}

// ---- glossary ------------------------------------------------------------------------

/// `char::is_alphanumeric` (Unicode `Alphabetic` or `Numeric`).
pub uninterp spec fn alphanumeric(c: char) -> bool;

/// `char::is_alphanumeric`.
#[verifier::external_body]
fn is_alphanumeric(c: char) -> (r: bool)
    ensures
        r == alphanumeric(c),
{
    c.is_alphanumeric()
}

/// ASCII lower-casing of one character; everything else unchanged.
pub open spec fn ascii_lower(c: char) -> char {
    if 'A' <= c && c <= 'Z' {
        ((c as u32) + 32) as char
    } else {
        c
    }
}

/// `str::eq_ignore_ascii_case`.
pub open spec fn eq_ignore_ascii_case(a: Seq<char>, b: Seq<char>) -> bool {
    a.len() == b.len() && forall|i: int| 0 <= i < a.len() ==> ascii_lower(a[i]) == ascii_lower(
        b[i],
    )
}

/// `text[i..j]` is one of the pieces `text.split(|c| !c.is_alphanumeric())`
/// yields: a maximal run of alphanumerics (possibly empty) between
/// separators or the ends.
pub open spec fn is_token(text: Seq<char>, i: int, j: int) -> bool {
    &&& 0 <= i <= j <= text.len()
    &&& (i == 0 || !alphanumeric(text[i - 1]))
    &&& (j == text.len() || !alphanumeric(text[j]))
    &&& forall|k: int| i <= k < j ==> alphanumeric(#[trigger] text[k])
}

/// `word` appears in `text` as a standalone alphanumeric token,
/// ASCII-case-insensitively.
pub open spec fn contains_word_spec(text: Seq<char>, word: Seq<char>) -> bool {
    exists|i: int, j: int| is_token(text, i, j) && eq_ignore_ascii_case(text.subrange(i, j), word)
}

/// A word stands alone in a text when what surrounds it is not
/// alphanumeric: it is then found, whatever the ASCII case of the text.
pub proof fn law_standalone_word_is_found(a: Seq<char>, t: Seq<char>, b: Seq<char>, w: Seq<char>)
    requires
        eq_ignore_ascii_case(t, w),
        forall|k: int| 0 <= k < t.len() ==> alphanumeric(#[trigger] t[k]),
        a.len() == 0 || !alphanumeric(a.last()),
        b.len() == 0 || !alphanumeric(b[0]),
    ensures
        contains_word_spec(a + t + b, w),
{
    let x = a + t + b;
    let i = a.len() as int;
    let j = i + t.len();
    assert(x.subrange(i, j) == t);
    if i > 0 {
        assert(x[i - 1] == a.last());
    }
    if j < x.len() {
        assert(x[j] == b[0]);
    }
    assert forall|k: int| i <= k < j implies alphanumeric(#[trigger] x[k]) by {
        assert(x[k] == t[k - i]);
    }
    assert(is_token(x, i, j));
}

/// A run of alphanumerics is one token: a word inside a longer word (`git`
/// in `digit`) is not found, only the whole run is.
pub proof fn law_word_inside_a_word_is_not_found(t: Seq<char>, w: Seq<char>)
    requires
        forall|k: int| 0 <= k < t.len() ==> alphanumeric(#[trigger] t[k]),
        !eq_ignore_ascii_case(t, w),
    ensures
        !contains_word_spec(t, w),
{
    assert forall|i: int, j: int| is_token(t, i, j) implies !eq_ignore_ascii_case(t.subrange(i, j), w) by {
        if i > 0 {
            assert(alphanumeric(t[i - 1]));
        }
        if j < t.len() {
            assert(alphanumeric(t[j]));
        }
        assert(t.subrange(0, t.len() as int) == t);
    }
}

fn lower(c: char) -> (r: char)
    ensures
        r == ascii_lower(c),
{
    if 'A' <= c && c <= 'Z' {
        let b = (c as u32 + 32) as u8;
        b as char
    } else {
        c
    }
}

fn eq_ignore_case_at(text: &Vec<char>, i: usize, j: usize, word: &Vec<char>) -> (r: bool)
    requires
        i <= j <= text.len(),
    ensures
        r == eq_ignore_ascii_case(text@.subrange(i as int, j as int), word@),
{
    if j - i != word.len() {
        return false;
    }
    let mut k: usize = 0;
    while k < word.len()
        invariant
            j - i == word.len(),
            i <= j <= text.len(),
            k <= word.len(),
            forall|m: int| 0 <= m < k ==> ascii_lower(text@[i + m]) == ascii_lower(word@[m]),
        decreases word.len() - k,
    {
        if lower(text[i + k]) != lower(word[k]) {
            assert(text@.subrange(i as int, j as int)[k as int] == text@[i + k]);
            return false;
        }
        k = k + 1;
    }
    true
}

/// A token ending at `b`, when the run of alphanumerics before `b` starts at
/// `start`, starts at `start`.
proof fn lemma_token_start(text: Seq<char>, start: int, a: int, b: int)
    requires
        is_token(text, a, b),
        0 <= start <= b,
        start == 0 || !alphanumeric(text[start - 1]),
        forall|k: int| start <= k < b ==> alphanumeric(#[trigger] text[k]),
    ensures
        a == start,
{
    if a < start {
        assert(alphanumeric(text[start - 1]));
    }
    if a > start {
        assert(alphanumeric(text[a - 1]));
    }
}

/// True when `word` appears in `text` as a standalone alphanumeric token
/// (split on any non-alphanumeric character), case-insensitively.
pub fn contains_word(text: &Vec<char>, word: &Vec<char>) -> (r: bool)
    ensures
        r == contains_word_spec(text@, word@),
{
    let mut start: usize = 0;
    let mut i: usize = 0;
    while i < text.len()
        invariant
            start <= i <= text.len(),
            start == 0 || !alphanumeric(text@[start - 1]),
            forall|k: int| start <= k < i ==> alphanumeric(#[trigger] text@[k]),
            forall|a: int, b: int|
                #![trigger is_token(text@, a, b)]
                is_token(text@, a, b) && b <= i ==> !eq_ignore_ascii_case(
                    text@.subrange(a, b),
                    word@,
                ) || (b == i && a == start),
        decreases text.len() - i,
    {
        if !is_alphanumeric(text[i]) {
            assert(is_token(text@, start as int, i as int));
            if eq_ignore_case_at(text, start, i, word) {
                return true;
            }
            assert forall|a: int, b: int|
                #![trigger is_token(text@, a, b)]
                is_token(text@, a, b) && b <= i + 1 implies !eq_ignore_ascii_case(
                text@.subrange(a, b),
                word@,
            ) || (b == i + 1 && a == i + 1) by {
                if b == i {
                    lemma_token_start(text@, start as int, a, b);
                }
                if b == i + 1 {
                    assert(a == i + 1) by {
                        if a <= i {
                            assert(alphanumeric(text@[i as int]));
                        }
                    }
                }
            }
            start = i + 1;
        } else {
            assert forall|a: int, b: int|
                #![trigger is_token(text@, a, b)]
                is_token(text@, a, b) && b <= i + 1 implies !eq_ignore_ascii_case(
                text@.subrange(a, b),
                word@,
            ) || (b == i + 1 && a == start) by {
                if b == i + 1 {
                    lemma_token_start(text@, start as int, a, b);
                }
            }
        }
        i = i + 1;
    }
    assert(is_token(text@, start as int, i as int));
    if eq_ignore_case_at(text, start, i, word) {
        return true;
    }
    false
}

/// One glossary term and its one-line definition, in canonical scan order.
pub open spec fn glossary_terms() -> Seq<(Seq<char>, Seq<char>)> {
    seq![
        ("rich"@, "rich: a turn attributed to a specific tool/model/prompt via an agent hook signal"@),
        ("bare"@, "bare: an unattributed activity window inferred from file changes alone — never assumed to be agent activity"@),
        ("git"@, "git turn: a mutation burst coinciding with a git operation (checkout, merge, ...); hidden from `log` unless --all"@),
        ("truncated"@, "truncated: the turn's start signal had no matching stop — closed at the last observed mutation"@),
        ("human-edited since"@, "human-edited since: the file changed after this turn ended, outside any rich turn's coverage"@),
    ]
}

/// Whether a glossary term is mentioned: a single word as a whole token, the
/// one multi-word phrase as a literal substring.
pub open spec fn term_hit(rendered: Seq<char>, term: Seq<char>) -> bool {
    if has_char(term, ' ') {
        contains_seq(rendered, term)
    } else {
        contains_word_spec(rendered, term)
    }
}

/// The definitions of the first `n` glossary terms that `rendered` mentions,
/// in glossary order.
pub open spec fn glossary_upto(rendered: Seq<char>, n: int) -> Seq<Seq<char>>
    decreases n,
{
    if n <= 0 {
        seq![]
    } else {
        let rest = glossary_upto(rendered, n - 1);
        let entry = glossary_terms()[n - 1];
        if term_hit(rendered, entry.0) {
            rest.push(entry.1)
        } else {
            rest
        }
    }
}

/// The glossary explains exactly the terms the text mentions, in glossary
/// order: `rich`, `bare`, `git` and `truncated` when they occur as whole
/// words (ignoring ASCII case), and `human-edited since` when the phrase
/// occurs anywhere in the text.
pub proof fn law_glossary_explains_what_is_mentioned(rendered: Seq<char>)
    ensures
        glossary_upto(rendered, 5) == (if contains_word_spec(rendered, "rich"@) {
            seq!["rich: a turn attributed to a specific tool/model/prompt via an agent hook signal"@]
        } else {
            seq![]
        }) + (if contains_word_spec(rendered, "bare"@) {
            seq!["bare: an unattributed activity window inferred from file changes alone — never assumed to be agent activity"@]
        } else {
            seq![]
        }) + (if contains_word_spec(rendered, "git"@) {
            seq!["git turn: a mutation burst coinciding with a git operation (checkout, merge, ...); hidden from `log` unless --all"@]
        } else {
            seq![]
        }) + (if contains_word_spec(rendered, "truncated"@) {
            seq!["truncated: the turn's start signal had no matching stop — closed at the last observed mutation"@]
        } else {
            seq![]
        }) + (if contains_seq(rendered, "human-edited since"@) {
            seq!["human-edited since: the file changed after this turn ended, outside any rich turn's coverage"@]
        } else {
            seq![]
        }),
{
    reveal_strlit("rich");
    reveal_strlit("bare");
    reveal_strlit("git");
    reveal_strlit("truncated");
    reveal_strlit("human-edited since");
    assert(!has_char("rich"@, ' '));
    assert(!has_char("bare"@, ' '));
    assert(!has_char("git"@, ' '));
    assert(!has_char("truncated"@, ' '));
    assert("human-edited since"@[12] == ' ');
    assert(has_char("human-edited since"@, ' '));
    reveal_with_fuel(glossary_upto, 6);
    let g = glossary_terms();
    assert(g[0].0 == "rich"@ && g[1].0 == "bare"@ && g[2].0 == "git"@ && g[3].0 == "truncated"@ && g[4].0
        == "human-edited since"@);
    let e = Seq::<Seq<char>>::empty();
    let r0 = glossary_upto(rendered, 0);
    let r1 = glossary_upto(rendered, 1);
    let r2 = glossary_upto(rendered, 2);
    let r3 = glossary_upto(rendered, 3);
    let r4 = glossary_upto(rendered, 4);
    let r5 = glossary_upto(rendered, 5);
    assert(r0 == e);
    let p = |b: bool, d: Seq<char>| if b {
        seq![d]
    } else {
        e
    };
    assert(r1 =~= p(term_hit(rendered, g[0].0), g[0].1));
    assert(r2 =~= r1 + p(term_hit(rendered, g[1].0), g[1].1));
    assert(r3 =~= r2 + p(term_hit(rendered, g[2].0), g[2].1));
    assert(r4 =~= r3 + p(term_hit(rendered, g[3].0), g[3].1));
    assert(r5 =~= r4 + p(term_hit(rendered, g[4].0), g[4].1));
}

fn glossary_entry(k: usize) -> (r: (&'static str, &'static str))
    requires
        k < 5,
    ensures
        r.0@ == glossary_terms()[k as int].0,
        r.1@ == glossary_terms()[k as int].1,
{
    if k == 0 {
        ("rich", "rich: a turn attributed to a specific tool/model/prompt via an agent hook signal")
    } else if k == 1 {
        (
            "bare",
            "bare: an unattributed activity window inferred from file changes alone — never assumed to be agent activity",
        )
    } else if k == 2 {
        (
            "git",
            "git turn: a mutation burst coinciding with a git operation (checkout, merge, ...); hidden from `log` unless --all",
        )
    } else if k == 3 {
        (
            "truncated",
            "truncated: the turn's start signal had no matching stop — closed at the last observed mutation",
        )
    } else {
        (
            "human-edited since",
            "human-edited since: the file changed after this turn ended, outside any rich turn's coverage",
        )
    }
}

fn has_space(s: &Vec<char>) -> (r: bool)
    ensures
        r == has_char(s@, ' '),
{
    let mut i: usize = 0;
    while i < s.len()
        invariant
            i <= s.len(),
            forall|k: int| 0 <= k < i ==> s@[k] != ' ',
        decreases s.len() - i,
    {
        if s[i] == ' ' {
            return true;
        }
        i = i + 1;
    }
    false
}

/// The glossary entries for the domain terms that `rendered` (the text this
/// invocation of `log` printed) actually mentions, in glossary order: single
/// words matched whole, the one multi-word phrase as a literal substring.
pub fn glossary_for(rendered: &str) -> (out: Vec<&'static str>)
    ensures
        out@.len() == glossary_upto(rendered@, 5).len(),
        forall|k: int| 0 <= k < out@.len() ==> #[trigger] out@[k]@ == glossary_upto(rendered@, 5)[k],
{
    let text = chars_of(rendered);
    let mut out: Vec<&'static str> = Vec::new();
    let mut k: usize = 0;
    while k < 5
        invariant
            k <= 5,
            text@ == rendered@,
            out@.len() == glossary_upto(rendered@, k as int).len(),
            forall|m: int|
                0 <= m < out@.len() ==> #[trigger] out@[m]@ == glossary_upto(rendered@, k as int)[m],
        decreases 5 - k,
    {
        let (term, definition) = glossary_entry(k);
        let term_chars = chars_of(term);
        let hit = if has_space(&term_chars) {
            contains(&text, &term_chars)
        } else {
            contains_word(&text, &term_chars)
        };
        if hit {
            out.push(definition);
        }
        k = k + 1;
    }
    out
}

// ---- turn renderers ------------------------------------------------------------------

pub open spec fn opt_or(o: Option<String>, dflt: Seq<char>) -> Seq<char> {
    match o {
        Some(s) => s@,
        None => dflt,
    }
}

/// `<id> · <grade> · <tool> · <when> · <files>[ · "<excerpt>"][ · (truncated)]`.
pub open spec fn turn_list_line_spec(t: TurnRecord, when: Seq<char>, files: Seq<char>, id_color: bool) -> Seq<char> {
    let head = paint_spec(short_id_spec(t.id@), "36"@, id_color) + SEP@ + t.grade@ + SEP@ + opt_or(
        t.tool,
        "—"@,
    ) + SEP@ + when + SEP@ + files;
    let with_excerpt = match t.prompt_excerpt {
        Some(e) => head + SEP@ + "\""@ + sanitized(e@) + "\""@,
        None => head,
    };
    if t.truncated {
        with_excerpt + SEP@ + "(truncated)"@
    } else {
        with_excerpt
    }
}

/// `log`'s compact turn line:
/// `<id> · <grade> · <tool> · <when> · <files>[ · "<prompt excerpt>"][ · (truncated)]`,
/// with the grade always its own literal field and colour on the id only.
pub fn turn_list_line(t: &TurnRecord, when: &str, files: &str, id_color: bool) -> (out: String)
    requires
        short_id_defined(t.id@),
    ensures
        out@ == turn_list_line_spec(*t, when@, files@, id_color),
{
    let short = short_id(t.id.as_str());
    let id = paint(short.as_str(), "36", id_color);
    let mut out: Vec<char> = chars_of(id.as_str());
    push_str(&mut out, SEP);
    push_str(&mut out, t.grade.as_str());
    push_str(&mut out, SEP);
    match &t.tool {
        Some(tool) => push_str(&mut out, tool.as_str()),
        None => push_str(&mut out, "—"),
    }
    push_str(&mut out, SEP);
    push_str(&mut out, when);
    push_str(&mut out, SEP);
    push_str(&mut out, files);
    match &t.prompt_excerpt {
        Some(excerpt) => {
            push_str(&mut out, SEP);
            push_str(&mut out, "\"");
            let clean = sanitize_chars(&chars_of(excerpt.as_str()));
            push_chars(&mut out, &clean);
            push_str(&mut out, "\"");
        },
        None => {},
    }
    if t.truncated {
        push_str(&mut out, SEP);
        push_str(&mut out, "(truncated)");
    }
    string_of(&out)
}

/// `<id> · <tool> · "<excerpt>" · <when>` for a rich turn, `<id> · bare turn · <when>`
/// for any other.
pub open spec fn turn_detail_header_spec(t: TurnRecord, when: Seq<char>) -> Seq<char> {
    let id = short_id_spec(t.id@);
    if t.grade@ == "rich"@ {
        let prompt = match t.prompt_excerpt {
            Some(e) => sanitized(e@),
            None => "—"@,
        };
        id + SEP@ + opt_or(t.tool, "—"@) + SEP@ + "\""@ + prompt + "\""@ + SEP@ + when
    } else {
        id + SEP@ + "bare turn"@ + SEP@ + when
    }
}

/// `show`'s header and `blame`'s result line; a bare turn never fabricates a
/// tool or a prompt.
pub fn turn_detail_header(t: &TurnRecord, when: &str) -> (out: String)
    requires
        short_id_defined(t.id@),
    ensures
        out@ == turn_detail_header_spec(*t, when@),
{
    let id = short_id(t.id.as_str());
    let mut out: Vec<char> = chars_of(id.as_str());
    let grade = chars_of(t.grade.as_str());
    let rich = chars_of("rich");
    if grade.len() == rich.len() && has_prefix(&grade, &rich) {
        assert(grade@.take(rich@.len() as int) == grade@);
        assert(grade@ == rich@);
        push_str(&mut out, SEP);
        match &t.tool {
            Some(tool) => push_str(&mut out, tool.as_str()),
            None => push_str(&mut out, "—"),
        }
        push_str(&mut out, SEP);
        push_str(&mut out, "\"");
        match &t.prompt_excerpt {
            Some(e) => {
                let clean = sanitize_chars(&chars_of(e.as_str()));
                push_chars(&mut out, &clean);
            },
            None => push_str(&mut out, "—"),
        }
        push_str(&mut out, "\"");
        push_str(&mut out, SEP);
        push_str(&mut out, when);
    } else {
        assert(grade@ != rich@) by {
            if grade@ == rich@ {
                assert(grade@.take(rich@.len() as int) == grade@);
            }
        }
        push_str(&mut out, SEP);
        push_str(&mut out, "bare turn");
        push_str(&mut out, SEP);
        push_str(&mut out, when);
    }
    string_of(&out)
}

// ---- log -----------------------------------------------------------------------------

/// `1 file`, or `<n> files`.
pub open spec fn files_label_spec(n: nat) -> Seq<char> {
    if n == 1 {
        "1 file"@
    } else {
        dec(n) + " files"@
    }
}

/// The inputs on which `format_turn` renders: an id `short_id` accepts.
pub open spec fn format_turn_ok(t: TurnRecord, utc: bool) -> bool {
    short_id_defined(t.id@)
}

pub open spec fn format_turn_spec(t: TurnRecord, now_ms: u64, utc: bool, color: bool, visible_files: nat) -> Seq<char> {
    let when = if utc {
        t.started@
    } else {
        relative_time_spec(t.started@, now_ms)
    };
    turn_list_line_spec(t, when, files_label_spec(visible_files), color)
}

/// `log`'s line for one turn: its start time as it is (`utc`) or relative to
/// `now_ms`, and the count of files it shows.
pub fn format_turn(t: &TurnRecord, now_ms: u64, utc: bool, color: bool, visible_files: usize) -> (out: String)
    requires
        format_turn_ok(*t, utc),
    ensures
        out@ == format_turn_spec(*t, now_ms, utc, color, visible_files as nat),
{
    let when = if utc {
        t.started.clone()
    } else {
        relative_time(t.started.as_str(), now_ms)
    };
    let mut files: Vec<char> = Vec::new();
    if visible_files == 1 {
        push_str(&mut files, "1 file");
    } else {
        push_decimal(&mut files, visible_files as u64);
        push_str(&mut files, " files");
    }
    let files = string_of(&files);
    turn_list_line(t, when.as_str(), files.as_str(), color)
}

/// One turn's block in `log`: its line, then, when some of its files are
/// noise and `--all-files` is off, the fold line counting them.
pub open spec fn log_block(
    t: TurnRecord,
    files: nat,
    noise: nat,
    all_files: bool,
    now_ms: u64,
    utc: bool,
    color: bool,
) -> Seq<char> {
    let folded: nat = if all_files {
        0
    } else {
        noise
    };
    let line = format_turn_spec(t, now_ms, utc, color, (files - folded) as nat) + "\n"@;
    if folded > 0 {
        line + "+"@ + dec(folded) + " noise files (--all-files to show)\n"@
    } else {
        line
    }
}

fn log_block_text(
    t: &TurnRecord,
    files: usize,
    noise: usize,
    all_files: bool,
    now_ms: u64,
    utc: bool,
    color: bool,
) -> (out: String)
    requires
        noise <= files,
        format_turn_ok(*t, utc),
    ensures
        out@ == log_block(*t, files as nat, noise as nat, all_files, now_ms, utc, color),
{
    let folded: usize = if all_files {
        0
    } else {
        noise
    };
    let line = format_turn(t, now_ms, utc, color, files - folded);
    let mut out: Vec<char> = chars_of(line.as_str());
    push_str(&mut out, "\n");
    if folded > 0 {
        push_str(&mut out, "+");
        push_decimal(&mut out, folded as u64);
        push_str(&mut out, " noise files (--all-files to show)\n");
    }
    string_of(&out)
}

pub open spec fn render_log_spec(
    items: Seq<TurnRecord>,
    noise: Seq<usize>,
    all_files: bool,
    now_ms: u64,
    utc: bool,
    color: bool,
) -> Seq<char>
    decreases items.len(),
{
    if items.len() == 0 || noise.len() == 0 {
        seq![]
    } else {
        render_log_spec(items.drop_last(), noise.drop_last(), all_files, now_ms, utc, color) + log_block(
            items.last(),
            items.last().files@.len(),
            noise.last() as nat,
            all_files,
            now_ms,
            utc,
            color,
        )
    }
}

/// `log`'s whole output for the selected turns, in the order given:
/// `noise[i]` is how many of the files of `items[i]` the noise patterns
/// match.
pub fn render_log(
    items: &Vec<TurnRecord>,
    noise: &Vec<usize>,
    all_files: bool,
    now_ms: u64,
    utc: bool,
    color: bool,
) -> (out: String)
    requires
        noise@.len() == items@.len(),
        forall|i: int| 0 <= i < items@.len() ==> noise@[i] <= (#[trigger] items@[i]).files@.len(),
        forall|i: int| 0 <= i < items@.len() ==> format_turn_ok(#[trigger] items@[i], utc),
    ensures
        out@ == render_log_spec(items@, noise@, all_files, now_ms, utc, color),
{
    let mut out: Vec<char> = Vec::new();
    let mut i: usize = 0;
    while i < items.len()
        invariant
            i <= items@.len(),
            noise@.len() == items@.len(),
            forall|j: int| 0 <= j < items@.len() ==> noise@[j] <= (#[trigger] items@[j]).files@.len(),
            forall|j: int| 0 <= j < items@.len() ==> format_turn_ok(#[trigger] items@[j], utc),
            out@ == render_log_spec(
                items@.take(i as int),
                noise@.take(i as int),
                all_files,
                now_ms,
                utc,
                color,
            ),
        decreases items@.len() - i,
    {
        assert(format_turn_ok(items@[i as int], utc));
        assert(noise@[i as int] <= items@[i as int].files@.len());
        let block = log_block_text(&items[i], items[i].files.len(), noise[i], all_files, now_ms, utc, color);
        push_str(&mut out, block.as_str());
        proof {
            let ip = (i + 1) as int;
            assert(items@.take(ip).drop_last() == items@.take(i as int));
            assert(noise@.take(ip).drop_last() == noise@.take(i as int));
            assert(items@.take(ip).last() == items@[i as int]);
            assert(noise@.take(ip).last() == noise@[i as int]);
        }
        i = i + 1;
    }
    assert(items@.take(items@.len() as int) == items@);
    assert(noise@.take(items@.len() as int) == noise@);
    string_of(&out)
}

/// Why a page of turns could not be served.
#[derive(Debug, PartialEq, Eq, Clone, Copy, Structural)]
pub enum CursorError {
    /// The log was rewritten since the cursor was issued.
    Stale,
    /// The cursor belongs to another query.
    QueryMismatch,
    /// A limit of zero was asked for.
    ZeroLimit,
}

pub open spec fn cursor_error_spec(e: CursorError) -> Seq<char> {
    match e {
        CursorError::Stale => "the log was rewritten since this cursor — restart the query"@,
        CursorError::QueryMismatch => "cursor came from a different query — restart the query"@,
        CursorError::ZeroLimit => "a limit of 0 has no honest page"@,
    }
}

/// The prose for a [`CursorError`].
pub fn cursor_error_text(e: CursorError) -> (s: String)
    ensures
        s@ == cursor_error_spec(e),
{
    match e {
        CursorError::Stale => String::from_str("the log was rewritten since this cursor — restart the query"),
        CursorError::QueryMismatch => String::from_str("cursor came from a different query — restart the query"),
        CursorError::ZeroLimit => String::from_str("a limit of 0 has no honest page"),
    }
}

} // verus!
