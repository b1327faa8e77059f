//! `agentrec hook codex`: the Codex-side emitter's pure core — the
//! `apply_patch` path-extraction rule, path absolutising, the required-field
//! validation of a hook payload, and the per-turn scratch accumulator that a
//! `PostToolUse` firing appends to and the turn's `Stop` drains.
//!
//! The scratch store is internal state (never a wire format): one entry per
//! `PostToolUse(apply_patch)` firing that extracted at least one path. A
//! `Stop` drains every entry of its own `(session_id, turn_id)` and returns
//! the union of their paths in first-seen order; entries older than
//! [`SCRATCH_TTL_MS`] are dropped on every rewrite.

use vstd::prelude::*;
use vstd::string::StringExecFns;
use vstd::string::StrSliceExecFns;
use crate::doc::{as_str, field, field_of, get, get_in, json_parse, parse_json, str_of, Doc, DocV};
use crate::text::{
    chars_of, lines, occurs_at, push_chars, push_str, slice_chars, split_lines, starts_with,
    string_of, has_prefix, trim, trim_chars, parse_u64, parse_u64_spec,
};

verus! {

/// Entries older than this (24 h) are dropped on every scratch rewrite.
pub const SCRATCH_TTL_MS: u64 = 86_400_000;

/// One `PostToolUse` firing's extracted paths.
#[derive(Debug, Clone)]
pub struct ScratchEntry {
    pub ts_ms: u64,
    pub session_id: String,
    pub turn_id: String,
    pub paths: Vec<String>,
}

pub struct ScratchV {
    pub ts_ms: u64,
    pub session_id: Seq<char>,
    pub turn_id: Seq<char>,
    pub paths: Seq<Seq<char>>,
}

pub open spec fn strings_view(v: Seq<String>) -> Seq<Seq<char>> {
    v.map_values(|s: String| s@)
}

impl View for ScratchEntry {
    type V = ScratchV;

    open spec fn view(&self) -> ScratchV {
        ScratchV {
            ts_ms: self.ts_ms,
            session_id: self.session_id@,
            turn_id: self.turn_id@,
            paths: strings_view(self.paths@),
        }
    }
}

pub open spec fn store_view(v: Seq<ScratchEntry>) -> Seq<ScratchV> {
    v.map_values(|e: ScratchEntry| e@)
}

/// Every item of `ps` is a string.
pub open spec fn all_strings(ps: Seq<DocV>) -> bool {
    forall|i: int| 0 <= i < ps.len() ==> (#[trigger] ps[i]) is Str
}

/// The texts of an array of strings.
pub open spec fn string_items(ps: Seq<DocV>) -> Seq<Seq<char>> {
    Seq::new(ps.len(), |i: int| ps[i]->Str_0)
}

/// The scratch entry a parsed line holds: `ts_ms` a whole number that fits
/// `u64`, `session_id` and `turn_id` strings, `paths` an array of strings;
/// other keys are ignored.
pub open spec fn scratch_of(v: DocV) -> Option<ScratchV> {
    match (field(v, "ts_ms"@), str_of(field(v, "session_id"@)), str_of(field(v, "turn_id"@)), field(v, "paths"@)) {
        (Some(DocV::Number(n)), Some(s), Some(t), Some(DocV::Array(ps))) => match parse_u64_spec(n) {
            Some(ts) => if all_strings(ps) {
                Some(ScratchV { ts_ms: ts, session_id: s, turn_id: t, paths: string_items(ps) })
            } else {
                None
            },
            None => None,
        },
        _ => None,
    }
}

/// The entries of the scratch file's lines, in order; a line that does not
/// parse as an entry is dropped.
pub open spec fn scratch_entries_spec(ls: Seq<Seq<char>>) -> Seq<ScratchV>
    decreases ls.len(),
{
    if ls.len() == 0 {
        seq![]
    } else {
        let r = scratch_entries_spec(ls.drop_last());
        match json_parse(ls.last()) {
            Ok(v) => match scratch_of(v) {
                Some(e) => r.push(e),
                None => r,
            },
            Err(_) => r,
        }
    }
}

fn string_array(items: &Vec<Doc>) -> (r: Option<Vec<String>>)
    ensures
        match r {
            Some(v) => all_strings(crate::doc::items_view(items@)) && strings_view(v@) == string_items(
                crate::doc::items_view(items@),
            ),
            None => !all_strings(crate::doc::items_view(items@)),
        },
{
    let ghost iv = crate::doc::items_view(items@);
    let mut out: Vec<String> = Vec::new();
    let mut i: usize = 0;
    while i < items.len()
        invariant
            i <= items.len(),
            iv == crate::doc::items_view(items@),
            forall|k: int| 0 <= k < i ==> (#[trigger] iv[k]) is Str,
            strings_view(out@) == string_items(iv).take(i as int),
        decreases items.len() - i,
    {
        assert(iv[i as int] == items@[i as int]@);
        match &items[i] {
            Doc::Str(t) => {
                let ghost before = out@;
                out.push(t.clone());
                assert(strings_view(out@) == strings_view(before).push(t@));
                assert(string_items(iv).take(i + 1) == string_items(iv).take(i as int).push(t@));
            },
            _ => {
                return None;
            },
        }
        i = i + 1;
    }
    assert(string_items(iv).take(items.len() as int) == string_items(iv));
    Some(out)
}

/// The scratch entry a parsed line holds, if it is one.
pub fn scratch_entry_of(d: &Doc) -> (r: Option<ScratchEntry>)
    ensures
        match r {
            Some(e) => scratch_of(d@) == Some(e@),
            None => scratch_of(d@) is None,
        },
{
    let n = match get(d, "ts_ms") {
        Some(Doc::Number(n)) => n,
        _ => return None,
    };
    let s = match as_str(get(d, "session_id")) {
        Some(s) => s,
        None => return None,
    };
    let t = match as_str(get(d, "turn_id")) {
        Some(t) => t,
        None => return None,
    };
    let ps = match get(d, "paths") {
        Some(Doc::Array(ps)) => ps,
        _ => return None,
    };
    proof {
        crate::doc::lemma_array_view(*ps);
    }
    let ts = match parse_u64(&chars_of(n.as_str())) {
        Some(v) => v,
        None => return None,
    };
    match string_array(ps) {
        Some(paths) => Some(
            ScratchEntry { ts_ms: ts, session_id: String::from_str(s), turn_id: String::from_str(t), paths },
        ),
        None => None,
    }
}

/// The scratch store as read from its file's text: each line that parses
/// as an entry, in order; any other line is dropped.
pub fn scratch_entries(text: &str) -> (out: Vec<ScratchEntry>)
    ensures
        store_view(out@) == scratch_entries_spec(lines(text@)),
{
    let ls = split_lines(&chars_of(text));
    let ghost all = lines(text@);
    let mut out: Vec<ScratchEntry> = Vec::new();
    let mut i: usize = 0;
    while i < ls.len()
        invariant
            i <= ls.len(),
            ls@.len() == all.len(),
            all == lines(text@),
            forall|k: int| 0 <= k < ls@.len() ==> #[trigger] ls@[k]@ == all[k],
            store_view(out@) == scratch_entries_spec(all.take(i as int)),
        decreases ls.len() - i,
    {
        let line = string_of(&ls[i]);
        assert(line@ == all[i as int]);
        assert(all.take(i + 1).drop_last() == all.take(i as int));
        assert(all.take(i + 1).last() == all[i as int]);
        match parse_json(line.as_str()) {
            Ok(d) => {
                match scratch_entry_of(&d) {
                    Some(e) => {
                        let ghost before = out@;
                        out.push(e);
                        assert(store_view(out@) == store_view(before).push(e@));
                    },
                    None => {},
                }
            },
            Err(_) => {},
        }
        i = i + 1;
    }
    assert(all.take(ls.len() as int) == all);
    out
}

/// `now.saturating_sub(ts) > SCRATCH_TTL_MS`.
pub open spec fn expired(e: ScratchV, now_ms: u64) -> bool {
    now_ms > e.ts_ms && now_ms - e.ts_ms > SCRATCH_TTL_MS
}

pub fn is_expired(entry: &ScratchEntry, now_ms: u64) -> (r: bool)
    ensures
        r == expired(entry@, now_ms),
{
    now_ms.saturating_sub(entry.ts_ms) > SCRATCH_TTL_MS
}

pub open spec fn of_turn(e: ScratchV, session_id: Seq<char>, turn_id: Seq<char>) -> bool {
    e.session_id == session_id && e.turn_id == turn_id
}

/// The entries of `es` that have not expired at `now_ms`, in order.
pub open spec fn live(es: Seq<ScratchV>, now_ms: u64) -> Seq<ScratchV>
    decreases es.len(),
{
    if es.len() == 0 {
        seq![]
    } else if expired(es.last(), now_ms) {
        live(es.drop_last(), now_ms)
    } else {
        live(es.drop_last(), now_ms).push(es.last())
    }
}

/// What a drain keeps: the entries of other turns that have not expired.
pub open spec fn kept(es: Seq<ScratchV>, s: Seq<char>, t: Seq<char>, now_ms: u64) -> Seq<ScratchV>
    decreases es.len(),
{
    if es.len() == 0 {
        seq![]
    } else if of_turn(es.last(), s, t) || expired(es.last(), now_ms) {
        kept(es.drop_last(), s, t, now_ms)
    } else {
        kept(es.drop_last(), s, t, now_ms).push(es.last())
    }
}

/// `acc` extended by each of `ps` not already in it, in order.
pub open spec fn add_new(acc: Seq<Seq<char>>, ps: Seq<Seq<char>>) -> Seq<Seq<char>>
    decreases ps.len(),
{
    if ps.len() == 0 {
        acc
    } else {
        let prev = add_new(acc, ps.drop_last());
        if prev.contains(ps.last()) {
            prev
        } else {
            prev.push(ps.last())
        }
    }
}

/// The union of the paths of the turn's entries, first-seen order, no
/// repeats.
pub open spec fn union_paths(es: Seq<ScratchV>, s: Seq<char>, t: Seq<char>) -> Seq<Seq<char>>
    decreases es.len(),
{
    if es.len() == 0 {
        seq![]
    } else if of_turn(es.last(), s, t) {
        add_new(union_paths(es.drop_last(), s, t), es.last().paths)
    } else {
        union_paths(es.drop_last(), s, t)
    }
}

/// Whether any entry belongs to the turn.
pub open spec fn has_turn(es: Seq<ScratchV>, s: Seq<char>, t: Seq<char>) -> bool {
    exists|i: int| 0 <= i < es.len() && of_turn(#[trigger] es[i], s, t)
}

/// What a drain delivers: `None` when no entry belongs to the turn (or, as
/// defence in depth, when their union is empty), else the union.
pub open spec fn drained(es: Seq<ScratchV>, s: Seq<char>, t: Seq<char>) -> Option<Seq<Seq<char>>> {
    if !has_turn(es, s, t) || union_paths(es, s, t).len() == 0 {
        None
    } else {
        Some(union_paths(es, s, t))
    }
}

fn string_eq(a: &String, b: &str) -> (r: bool)
    ensures
        r == (a@ == b@),
{
    *a == String::from_str(b)
}

/// `PostToolUse(apply_patch)`: drop the expired entries, then append one
/// entry with this firing's paths, stamped `now_ms`.
pub fn accumulate_scratch(
    store: &mut Vec<ScratchEntry>,
    session_id: &str,
    turn_id: &str,
    paths: Vec<String>,
    now_ms: u64,
)
    ensures
        store_view(final(store)@) == live(store_view(old(store)@), now_ms).push(
            ScratchV {
                ts_ms: now_ms,
                session_id: session_id@,
                turn_id: turn_id@,
                paths: strings_view(paths@),
            },
        ),
{
    let mut out: Vec<ScratchEntry> = Vec::new();
    let mut i: usize = 0;
    let ghost old_view = store_view(store@);
    while i < store.len()
        invariant
            i <= store.len(),
            old_view == store_view(store@),
            store_view(out@) == live(old_view.take(i as int), now_ms),
        decreases store.len() - i,
    {
        assert(old_view.take(i + 1).drop_last() == old_view.take(i as int));
        assert(old_view.take(i + 1).last() == store@[i as int]@);
        if !is_expired(&store[i], now_ms) {
            out.push(store[i].clone_entry());
        }
        i = i + 1;
    }
    assert(old_view.take(store.len() as int) == old_view);
    out.push(
        ScratchEntry {
            ts_ms: now_ms,
            session_id: String::from_str(session_id),
            turn_id: String::from_str(turn_id),
            paths,
        },
    );
    *store = out;
}

impl ScratchEntry {
    /// A copy with the same view.
    pub fn clone_entry(&self) -> (r: ScratchEntry)
        ensures
            r@ == self@,
    {
        let mut paths: Vec<String> = Vec::new();
        let mut i: usize = 0;
        while i < self.paths.len()
            invariant
                i <= self.paths.len(),
                strings_view(paths@) == strings_view(self.paths@.take(i as int)),
            decreases self.paths.len() - i,
        {
            paths.push(self.paths[i].clone());
            assert(strings_view(self.paths@.take(i + 1)) == strings_view(self.paths@.take(i as int)).push(self.paths@[i as int]@));
            i = i + 1;
        }
        assert(self.paths@.take(self.paths.len() as int) == self.paths@);
        ScratchEntry {
            ts_ms: self.ts_ms,
            session_id: self.session_id.clone(),
            turn_id: self.turn_id.clone(),
            paths,
        }
    }
}

fn contains_string(v: &Vec<String>, s: &String) -> (r: bool)
    ensures
        r == strings_view(v@).contains(s@),
{
    let mut i: usize = 0;
    while i < v.len()
        invariant
            i <= v.len(),
            forall|k: int| 0 <= k < i ==> v@[k]@ != s@,
        decreases v.len() - i,
    {
        if v[i] == *s {
            assert(strings_view(v@)[i as int] == s@);
            return true;
        }
        i = i + 1;
    }
    assert forall|k: int| 0 <= k < strings_view(v@).len() implies strings_view(v@)[k] != s@ by {
        assert(strings_view(v@)[k] == v@[k]@);
    }
    false
}

fn add_new_exec(acc: &mut Vec<String>, ps: &Vec<String>)
    ensures
        strings_view(final(acc)@) == add_new(strings_view(old(acc)@), strings_view(ps@)),
{
    let ghost start = strings_view(acc@);
    let mut i: usize = 0;
    while i < ps.len()
        invariant
            i <= ps.len(),
            strings_view(acc@) == add_new(start, strings_view(ps@.take(i as int))),
        decreases ps.len() - i,
    {
        assert(strings_view(ps@.take(i + 1)).drop_last() == strings_view(ps@.take(i as int)));
        assert(strings_view(ps@.take(i + 1)).last() == ps@[i as int]@);
        if !contains_string(acc, &ps[i]) {
            acc.push(ps[i].clone());
        }
        i = i + 1;
    }
    assert(ps@.take(ps.len() as int) == ps@);
}

/// `Stop`: remove every entry of `(session_id, turn_id)` — dropping expired
/// entries of other turns in the same rewrite — and return the union of the
/// removed entries' paths in first-seen order, deduped; `None` when no entry
/// matched.
pub fn drain_scratch(store: &mut Vec<ScratchEntry>, session_id: &str, turn_id: &str, now_ms: u64) -> (r:
    Option<Vec<String>>)
    ensures
        store_view(final(store)@) == kept(store_view(old(store)@), session_id@, turn_id@, now_ms),
        match r {
            Some(u) => drained(store_view(old(store)@), session_id@, turn_id@) == Some(
                strings_view(u@),
            ),
            None => drained(store_view(old(store)@), session_id@, turn_id@) is None,
        },
{
    let ghost old_view = store_view(store@);
    let mut retained: Vec<ScratchEntry> = Vec::new();
    let mut union: Vec<String> = Vec::new();
    let mut any = false;
    let mut i: usize = 0;
    while i < store.len()
        invariant
            i <= store.len(),
            old_view == store_view(store@),
            store_view(retained@) == kept(old_view.take(i as int), session_id@, turn_id@, now_ms),
            strings_view(union@) == union_paths(old_view.take(i as int), session_id@, turn_id@),
            any == has_turn(old_view.take(i as int), session_id@, turn_id@),
        decreases store.len() - i,
    {
        let ghost pre = old_view.take(i as int);
        let ghost post = old_view.take(i + 1);
        assert(post.drop_last() == pre);
        assert(post.last() == store@[i as int]@);
        let e = &store[i];
        let mine = string_eq(&e.session_id, session_id) && string_eq(&e.turn_id, turn_id);
        if mine {
            add_new_exec(&mut union, &e.paths);
            any = true;
            assert(has_turn(post, session_id@, turn_id@)) by {
                assert(of_turn(post[i as int], session_id@, turn_id@));
            }
        } else {
            if !is_expired(e, now_ms) {
                retained.push(e.clone_entry());
            }
            assert(has_turn(post, session_id@, turn_id@) == has_turn(pre, session_id@, turn_id@))
                by {
                if has_turn(post, session_id@, turn_id@) {
                    let k = choose|k: int| 0 <= k < post.len() && of_turn(#[trigger] post[k], session_id@, turn_id@);
                    assert(k < i);
                    assert(pre[k] == post[k]);
                }
                if has_turn(pre, session_id@, turn_id@) {
                    let k = choose|k: int| 0 <= k < pre.len() && of_turn(#[trigger] pre[k], session_id@, turn_id@);
                    assert(pre[k] == post[k]);
                }
            }
        }
        i = i + 1;
    }
    assert(old_view.take(store.len() as int) == old_view);
    *store = retained;
    if !any || union.len() == 0 {
        return None;
    }
    Some(union)
}

// ---- laws of the scratch store ------------------------------------------------------

proof fn lemma_kept_has_no_turn(es: Seq<ScratchV>, s: Seq<char>, t: Seq<char>, now_ms: u64)
    ensures
        !has_turn(kept(es, s, t, now_ms), s, t),
    decreases es.len(),
{
    if es.len() > 0 {
        lemma_kept_has_no_turn(es.drop_last(), s, t, now_ms);
        let prev = kept(es.drop_last(), s, t, now_ms);
        if !(of_turn(es.last(), s, t) || expired(es.last(), now_ms)) {
            let cur = prev.push(es.last());
            assert forall|i: int| 0 <= i < cur.len() implies !of_turn(#[trigger] cur[i], s, t) by {
                if i < prev.len() {
                    assert(cur[i] == prev[i]);
                }
            }
        }
    }
}

/// A turn's `Stop` removes all of that turn's scratch: a second drain of the
/// same turn finds nothing.
pub proof fn law_drain_is_exhaustive(es: Seq<ScratchV>, s: Seq<char>, t: Seq<char>, now1: u64)
    ensures
        drained(kept(es, s, t, now1), s, t) is None,
{
    lemma_kept_has_no_turn(es, s, t, now1);
}

proof fn lemma_add_new_contains(acc: Seq<Seq<char>>, ps: Seq<Seq<char>>)
    ensures
        forall|p: Seq<char>| ps.contains(p) || acc.contains(p) ==> #[trigger] add_new(acc, ps).contains(p),
        forall|p: Seq<char>| #[trigger] add_new(acc, ps).contains(p) ==> ps.contains(p) || acc.contains(p),
    decreases ps.len(),
{
    if ps.len() > 0 {
        lemma_add_new_contains(acc, ps.drop_last());
        let prev = add_new(acc, ps.drop_last());
        assert forall|p: Seq<char>| ps.contains(p) || acc.contains(p) implies #[trigger] add_new(
            acc,
            ps,
        ).contains(p) by {
            if ps.contains(p) && p != ps.last() {
                let k = choose|k: int| 0 <= k < ps.len() && ps[k] == p;
                assert(ps.drop_last()[k] == p);
            }
            if !prev.contains(ps.last()) {
                assert(prev.push(ps.last())[prev.len() as int] == ps.last());
                if prev.contains(p) {
                    let k = choose|k: int| 0 <= k < prev.len() && prev[k] == p;
                    assert(prev.push(ps.last())[k] == p);
                }
            }
        }
        assert forall|p: Seq<char>| #[trigger] add_new(acc, ps).contains(p) implies ps.contains(p)
            || acc.contains(p) by {
            if !prev.contains(ps.last()) && p == ps.last() {
                assert(ps[ps.len() - 1] == p);
            } else {
                if !prev.contains(ps.last()) {
                    let cur = prev.push(ps.last());
                    let k = choose|k: int| 0 <= k < cur.len() && cur[k] == p;
                    assert(k < prev.len());
                    assert(prev[k] == p);
                }
                assert(prev.contains(p));
                assert(add_new(acc, ps.drop_last()).contains(p));
                if ps.drop_last().contains(p) {
                    let k = choose|k: int| 0 <= k < ps.drop_last().len() && ps.drop_last()[k] == p;
                    assert(ps[k] == p);
                }
            }
        }
    }
}

proof fn lemma_add_new_no_dups(acc: Seq<Seq<char>>, ps: Seq<Seq<char>>)
    requires
        acc.no_duplicates(),
    ensures
        add_new(acc, ps).no_duplicates(),
    decreases ps.len(),
{
    if ps.len() > 0 {
        lemma_add_new_no_dups(acc, ps.drop_last());
        let prev = add_new(acc, ps.drop_last());
        if !prev.contains(ps.last()) {
            let cur = prev.push(ps.last());
            assert forall|i: int, j: int| 0 <= i < cur.len() && 0 <= j < cur.len() && i != j implies cur[i] != cur[j] by {
                if i < prev.len() && j < prev.len() {
                    assert(cur[i] == prev[i] && cur[j] == prev[j]);
                } else if i < prev.len() {
                    assert(cur[i] == prev[i]);
                } else if j < prev.len() {
                    assert(cur[j] == prev[j]);
                }
            }
        }
    }
}

/// A drain's union never repeats a path.
pub proof fn law_drained_paths_are_distinct(es: Seq<ScratchV>, s: Seq<char>, t: Seq<char>)
    ensures
        union_paths(es, s, t).no_duplicates(),
    decreases es.len(),
{
    if es.len() > 0 {
        law_drained_paths_are_distinct(es.drop_last(), s, t);
        if of_turn(es.last(), s, t) {
            lemma_add_new_no_dups(union_paths(es.drop_last(), s, t), es.last().paths);
        }
    }
}

/// A drain's union holds exactly the paths of the turn's entries.
pub proof fn law_drained_paths_are_the_turns_paths(
    es: Seq<ScratchV>,
    s: Seq<char>,
    t: Seq<char>,
    p: Seq<char>,
)
    ensures
        union_paths(es, s, t).contains(p) <==> exists|i: int|
            0 <= i < es.len() && of_turn(#[trigger] es[i], s, t) && es[i].paths.contains(p),
    decreases es.len(),
{
    if es.len() > 0 {
        let pre = es.drop_last();
        law_drained_paths_are_the_turns_paths(pre, s, t, p);
        if of_turn(es.last(), s, t) {
            lemma_add_new_contains(union_paths(pre, s, t), es.last().paths);
        }
        if exists|i: int| 0 <= i < es.len() && of_turn(#[trigger] es[i], s, t) && es[i].paths.contains(p) {
            let i = choose|i: int| 0 <= i < es.len() && of_turn(#[trigger] es[i], s, t) && es[i].paths.contains(p);
            if i < pre.len() {
                assert(pre[i] == es[i]);
            }
        }
        if exists|i: int| 0 <= i < pre.len() && of_turn(#[trigger] pre[i], s, t) && pre[i].paths.contains(p) {
            let i = choose|i: int| 0 <= i < pre.len() && of_turn(#[trigger] pre[i], s, t) && pre[i].paths.contains(p);
            assert(pre[i] == es[i]);
        }
    }
}

/// What a `PostToolUse` accumulated is what the same turn's `Stop` returns:
/// after accumulating a non-empty `paths` for a turn, draining that turn
/// yields a union that holds every one of those paths.
pub proof fn law_accumulate_then_drain(
    es: Seq<ScratchV>,
    s: Seq<char>,
    t: Seq<char>,
    paths: Seq<Seq<char>>,
    now1: u64,
)
    requires
        paths.len() > 0,
    ensures
        ({
            let after = live(es, now1).push(
                ScratchV { ts_ms: now1, session_id: s, turn_id: t, paths },
            );
            &&& drained(after, s, t) is Some
            &&& forall|p: Seq<char>| #[trigger] paths.contains(p) ==> drained(after, s, t)->0.contains(p)
        }),
{
    let after = live(es, now1).push(ScratchV { ts_ms: now1, session_id: s, turn_id: t, paths });
    assert(after.drop_last() == live(es, now1));
    assert(of_turn(after[after.len() - 1], s, t));
    lemma_add_new_contains(union_paths(live(es, now1), s, t), paths);
    assert(paths.contains(paths[0]));
    assert(union_paths(after, s, t).contains(paths[0]));
    assert(union_paths(after, s, t).len() > 0);
}

proof fn lemma_has_turn_push(x: Seq<ScratchV>, e: ScratchV, s: Seq<char>, t: Seq<char>)
    ensures
        has_turn(x.push(e), s, t) == (has_turn(x, s, t) || of_turn(e, s, t)),
{
    let y = x.push(e);
    if has_turn(y, s, t) && !of_turn(e, s, t) {
        let i = choose|i: int| 0 <= i < y.len() && of_turn(#[trigger] y[i], s, t);
        assert(i < x.len());
        assert(x[i] == y[i]);
    }
    if has_turn(x, s, t) {
        let i = choose|i: int| 0 <= i < x.len() && of_turn(#[trigger] x[i], s, t);
        assert(y[i] == x[i]);
    }
    if of_turn(e, s, t) {
        assert(y[x.len() as int] == e);
    }
}

/// One turn's drain does not touch another turn's scratch: after draining
/// `(s, t)`, a drain of any other turn `(s2, t2)` delivers exactly what it
/// would have delivered from the live entries before.
pub proof fn law_drain_keeps_other_turns(
    es: Seq<ScratchV>,
    s: Seq<char>,
    t: Seq<char>,
    s2: Seq<char>,
    t2: Seq<char>,
    now_ms: u64,
)
    requires
        !(s == s2 && t == t2),
    ensures
        drained(kept(es, s, t, now_ms), s2, t2) == drained(live(es, now_ms), s2, t2),
    decreases es.len(),
{
    lemma_kept_other_turn(es, s, t, s2, t2, now_ms);
}

proof fn lemma_kept_other_turn(
    es: Seq<ScratchV>,
    s: Seq<char>,
    t: Seq<char>,
    s2: Seq<char>,
    t2: Seq<char>,
    now_ms: u64,
)
    requires
        !(s == s2 && t == t2),
    ensures
        union_paths(kept(es, s, t, now_ms), s2, t2) == union_paths(live(es, now_ms), s2, t2),
        has_turn(kept(es, s, t, now_ms), s2, t2) == has_turn(live(es, now_ms), s2, t2),
    decreases es.len(),
{
    if es.len() > 0 {
        let e = es.last();
        let pre = es.drop_last();
        lemma_kept_other_turn(pre, s, t, s2, t2, now_ms);
        let k = kept(pre, s, t, now_ms);
        let l = live(pre, now_ms);
        if !expired(e, now_ms) {
            assert(l.push(e).drop_last() == l);
            assert(l.push(e).last() == e);
            lemma_has_turn_push(l, e, s2, t2);
            if !of_turn(e, s, t) {
                assert(k.push(e).drop_last() == k);
                assert(k.push(e).last() == e);
                lemma_has_turn_push(k, e, s2, t2);
            }
        }
    }
}

// ---- the apply_patch rule -------------------------------------------------------------

/// The path a patch header line declares: the rest of a line that starts
/// with `*** Add File: `, `*** Update File: ` or `*** Delete File: ` (the
/// first that matches), when non-empty. `*** Move to: ` is not parsed.
pub open spec fn header_path(line: Seq<char>) -> Option<Seq<char>> {
    let p = if starts_with(line, "*** Add File: "@) {
        Some("*** Add File: "@)
    } else if starts_with(line, "*** Update File: "@) {
        Some("*** Update File: "@)
    } else if starts_with(line, "*** Delete File: "@) {
        Some("*** Delete File: "@)
    } else {
        None
    };
    match p {
        Some(prefix) => if line.len() > prefix.len() {
            Some(line.skip(prefix.len() as int))
        } else {
            None
        },
        None => None,
    }
}

/// The declared paths of the headers among `ls`, in order.
pub open spec fn patch_paths_in(ls: Seq<Seq<char>>) -> Seq<Seq<char>>
    decreases ls.len(),
{
    if ls.len() == 0 {
        seq![]
    } else {
        let rest = patch_paths_in(ls.drop_last());
        match header_path(ls.last()) {
            Some(p) => rest.push(p),
            None => rest,
        }
    }
}

fn header_path_exec(line: &Vec<char>) -> (r: Option<Vec<char>>)
    ensures
        match r {
            Some(p) => header_path(line@) == Some(p@),
            None => header_path(line@) is None,
        },
{
    let add = chars_of("*** Add File: ");
    let update = chars_of("*** Update File: ");
    let delete = chars_of("*** Delete File: ");
    let prefix = if has_prefix(line, &add) {
        add
    } else if has_prefix(line, &update) {
        update
    } else if has_prefix(line, &delete) {
        delete
    } else {
        return None;
    };
    if line.len() > prefix.len() {
        Some(slice_chars(line, prefix.len(), line.len()))
    } else {
        None
    }
}

/// Path-extraction rule for an `apply_patch` `PostToolUse` firing: each line
/// `*** (Add|Update|Delete) File: <path>` contributes `<path>` (the rest of
/// the line, verbatim); every other line, `*** Move to: ` included,
/// contributes nothing.
pub fn apply_patch_paths(command: &str) -> (out: Vec<String>)
    ensures
        strings_view(out@) == patch_paths_in(lines(command@)),
{
    let text = chars_of(command);
    let ls = split_lines(&text);
    let ghost all = lines(command@);
    let mut out: Vec<String> = Vec::new();
    let mut i: usize = 0;
    while i < ls.len()
        invariant
            i <= ls.len(),
            ls@.len() == all.len(),
            forall|m: int| 0 <= m < ls@.len() ==> #[trigger] ls@[m]@ == all[m],
            strings_view(out@) == patch_paths_in(all.take(i as int)),
        decreases ls.len() - i,
    {
        assert(all.take(i + 1).drop_last() == all.take(i as int));
        assert(all.take(i + 1).last() == ls@[i as int]@);
        match header_path_exec(&ls[i]) {
            Some(p) => {
                out.push(string_of(&p));
            },
            None => {},
        }
        i = i + 1;
    }
    assert(all.take(ls.len() as int) == all);
    out
}

/// `s` without any trailing `c` (`str::trim_end_matches`).
pub open spec fn trim_end_char(s: Seq<char>, c: char) -> Seq<char>
    decreases s.len(),
{
    if s.len() > 0 && s.last() == c {
        trim_end_char(s.drop_last(), c)
    } else {
        s
    }
}

/// `path` joined onto `cwd` unless it is already absolute.
pub open spec fn absolutize_spec(cwd: Seq<char>, path: Seq<char>) -> Seq<char> {
    if path.len() > 0 && path[0] == '/' {
        path
    } else {
        trim_end_char(cwd, '/') + "/"@ + path
    }
}

/// `apply_patch` paths are relative to the payload's `cwd`: join them onto
/// it (tolerating trailing slashes on `cwd`); an already-absolute path
/// passes through unchanged.
pub fn absolutize(cwd: &str, path: &str) -> (out: String)
    ensures
        out@ == absolutize_spec(cwd@, path@),
{
    let p = chars_of(path);
    if p.len() > 0 && p[0] == '/' {
        return String::from_str(path);
    }
    let c = chars_of(cwd);
    let mut end: usize = c.len();
    assert(c@.take(c.len() as int) == c@);
    while end > 0 && c[end - 1] == '/'
        invariant
            end <= c.len(),
            trim_end_char(c@.take(end as int), '/') == trim_end_char(c@, '/'),
        decreases end,
    {
        assert(c@.take(end as int).drop_last() == c@.take(end - 1));
        end = end - 1;
    }
    assert(c@.take(c.len() as int) == c@);
    let mut out = slice_chars(&c, 0, end);
    assert(out@ == c@.take(end as int));
    push_str(&mut out, "/");
    push_chars(&mut out, &p);
    string_of(&out)
}

/// Each of `paths` absolutised against `cwd`, in order.
pub open spec fn absolutize_all(cwd: Seq<char>, paths: Seq<Seq<char>>) -> Seq<Seq<char>> {
    paths.map_values(|p: Seq<char>| absolutize_spec(cwd, p))
}

// ---- payload validation ------------------------------------------------------------------

/// A required field: present and a non-empty string.
pub open spec fn required(v: Option<Seq<char>>) -> bool {
    match v {
        Some(s) => s.len() > 0,
        None => false,
    }
}

/// The refusal for a missing or empty required field.
pub open spec fn missing_field(name: Seq<char>) -> Seq<char> {
    "codex hook: missing or empty required field \""@ + name + "\""@
}

/// What one Codex hook firing does.
pub enum CodexAction {
    /// `UserPromptSubmit`: append a start signal carrying the prompt, and
    /// the model and transcript path when the payload names them.
    Start {
        session_id: String,
        turn_id: String,
        prompt: String,
        model: Option<String>,
        transcript: Option<String>,
    },
    /// `PostToolUse(apply_patch)` that extracted paths: accumulate them,
    /// absolutised against `cwd`.
    Accumulate { session_id: String, turn_id: String, paths: Vec<String> },
    /// `Stop`: drain the turn and append a stop signal.
    Stop { session_id: String, turn_id: String, transcript: Option<String> },
    /// Nothing to record: another tool, or a patch with no header paths.
    Nothing,
}

fn require<'a>(v: Option<&'a str>, name: &str) -> (r: Result<&'a str, String>)
    ensures
        match r {
            Ok(s) => v == Some(s) && s@.len() > 0,
            Err(m) => !required(match v {
                Some(s) => Some(s@),
                None => None,
            }) && m@ == missing_field(name@),
        },
{
    match v {
        Some(s) => {
            if s.unicode_len() > 0 {
                return Ok(s);
            }
        },
        None => {},
    }
    let mut m = String::from_str("codex hook: missing or empty required field \"");
    m.append(name);
    m.append("\"");
    Err(m)
}

pub open spec fn opt_view(v: Option<&str>) -> Option<Seq<char>> {
    match v {
        Some(s) => Some(s@),
        None => None,
    }
}

pub open spec fn string_opt_view(v: Option<String>) -> Option<Seq<char>> {
    match v {
        Some(s) => Some(s@),
        None => None,
    }
}

fn owned(v: Option<&str>) -> (r: Option<String>)
    ensures
        string_opt_view(r) == opt_view(v),
{
    match v {
        Some(s) => Some(String::from_str(s)),
        None => None,
    }
}

/// The outcome of one Codex hook firing whose payload fields are the given
/// values (`None`: absent or not a string). Every required field is checked
/// up front, in the order `hook_event_name`, `session_id`, `turn_id`, then
/// the event's own (`prompt`; `tool_name`, `tool_input.command`, `cwd`); a
/// violation is an `Err` naming it.
pub open spec fn codex_outcome(
    ev: Option<Seq<char>>,
    session_id: Option<Seq<char>>,
    turn_id: Option<Seq<char>>,
    prompt: Option<Seq<char>>,
    tool_name: Option<Seq<char>>,
    command: Option<Seq<char>>,
    cwd: Option<Seq<char>>,
    transcript: Option<Seq<char>>,
    model: Option<Seq<char>>,
    r: Result<CodexAction, String>,
) -> bool {
    if !required(ev) {
        r is Err && r->Err_0@ == missing_field("hook_event_name"@)
    } else if !required(session_id) {
        r is Err && r->Err_0@ == missing_field("session_id"@)
    } else if !required(turn_id) {
        r is Err && r->Err_0@ == missing_field("turn_id"@)
    } else {
        let e = ev.unwrap();
        let s = session_id.unwrap();
        let t = turn_id.unwrap();
        if e == "UserPromptSubmit"@ {
            if required(prompt) {
                r matches Ok(CodexAction::Start { session_id: rs, turn_id: rt, prompt: rp, model: rm, transcript: rtr })
                    && rs@ == s && rt@ == t && rp@ == prompt.unwrap() && string_opt_view(rm) == model
                    && string_opt_view(rtr) == transcript
            } else {
                r is Err && r->Err_0@ == missing_field("prompt"@)
            }
        } else if e == "PostToolUse"@ {
            if !required(tool_name) {
                r is Err && r->Err_0@ == missing_field("tool_name"@)
            } else if tool_name.unwrap() != "apply_patch"@ {
                r matches Ok(CodexAction::Nothing)
            } else if command is None {
                r is Err && r->Err_0@ == "codex hook: PostToolUse(apply_patch) missing tool_input.command"@
            } else if !required(cwd) {
                r is Err && r->Err_0@ == missing_field("cwd"@)
            } else {
                let ps = patch_paths_in(lines(command.unwrap()));
                if ps.len() == 0 {
                    r matches Ok(CodexAction::Nothing)
                } else {
                    r matches Ok(CodexAction::Accumulate { session_id: rs, turn_id: rt, paths })
                        && rs@ == s && rt@ == t && strings_view(paths@) == absolutize_all(cwd.unwrap(), ps)
                }
            }
        } else if e == "Stop"@ {
            r matches Ok(CodexAction::Stop { session_id: rs, turn_id: rt, transcript: rtr }) && rs@ == s
                && rt@ == t && string_opt_view(rtr) == transcript
        } else {
            r is Err && r->Err_0@ == "codex hook: unrecognized hook_event_name "@ + crate::config::str_debug(e)
        }
    }
}

/// Validate one Codex hook payload's fields and decide its effect.
pub fn codex_hook_action(
    hook_event_name: Option<&str>,
    session_id: Option<&str>,
    turn_id: Option<&str>,
    prompt: Option<&str>,
    tool_name: Option<&str>,
    command: Option<&str>,
    cwd: Option<&str>,
    transcript_path: Option<&str>,
    model: Option<&str>,
) -> (r: Result<CodexAction, String>)
    ensures
        codex_outcome(
            opt_view(hook_event_name),
            opt_view(session_id),
            opt_view(turn_id),
            opt_view(prompt),
            opt_view(tool_name),
            opt_view(command),
            opt_view(cwd),
            opt_view(transcript_path),
            opt_view(model),
            r,
        ),
{
    let ev = match require(hook_event_name, "hook_event_name") {
        Ok(v) => v,
        Err(m) => return Err(m),
    };
    let s = match require(session_id, "session_id") {
        Ok(v) => v,
        Err(m) => return Err(m),
    };
    let t = match require(turn_id, "turn_id") {
        Ok(v) => v,
        Err(m) => return Err(m),
    };
    let evs = String::from_str(ev);
    if evs == String::from_str("UserPromptSubmit") {
        let p = match require(prompt, "prompt") {
            Ok(v) => v,
            Err(m) => return Err(m),
        };
        Ok(
            CodexAction::Start {
                session_id: String::from_str(s),
                turn_id: String::from_str(t),
                prompt: String::from_str(p),
                model: owned(model),
                transcript: owned(transcript_path),
            },
        )
    } else if evs == String::from_str("PostToolUse") {
        let tool = match require(tool_name, "tool_name") {
            Ok(v) => v,
            Err(m) => return Err(m),
        };
        if String::from_str(tool) != String::from_str("apply_patch") {
            return Ok(CodexAction::Nothing);
        }
        let cmd = match command {
            Some(c) => c,
            None => {
                return Err(
                    String::from_str(
                        "codex hook: PostToolUse(apply_patch) missing tool_input.command",
                    ),
                )
            },
        };
        let dir = match require(cwd, "cwd") {
            Ok(v) => v,
            Err(m) => return Err(m),
        };
        let raw = apply_patch_paths(cmd);
        let ghost ps = strings_view(raw@);
        let mut paths: Vec<String> = Vec::new();
        let mut i: usize = 0;
        while i < raw.len()
            invariant
                i <= raw.len(),
                ps == strings_view(raw@),
                strings_view(paths@) == absolutize_all(dir@, ps.take(i as int)),
            decreases raw.len() - i,
        {
            let a = absolutize(dir, raw[i].as_str());
            let ghost before = paths@;
            paths.push(a);
            assert(paths@ == before.push(a));
            assert(strings_view(paths@) == strings_view(before).push(a@));
            assert(ps[i as int] == raw@[i as int]@);
            assert(ps.take(i + 1) == ps.take(i as int).push(ps[i as int]));
            assert(absolutize_all(dir@, ps.take(i + 1)) == absolutize_all(dir@, ps.take(i as int)).push(
                absolutize_spec(dir@, ps[i as int]),
            ));
            i = i + 1;
        }
        assert(ps.take(raw.len() as int) == ps);
        if paths.len() == 0 {
            return Ok(CodexAction::Nothing);
        }
        Ok(
            CodexAction::Accumulate {
                session_id: String::from_str(s),
                turn_id: String::from_str(t),
                paths,
            },
        )
    } else if evs == String::from_str("Stop") {
        Ok(
            CodexAction::Stop {
                session_id: String::from_str(s),
                turn_id: String::from_str(t),
                transcript: owned(transcript_path),
            },
        )
    } else {
        let mut m = String::from_str("codex hook: unrecognized hook_event_name ");
        let q = crate::config::debug_quote(ev);
        m.append(q.as_str());
        Err(m)
    }
}

/// The same decision on a parsed hook payload: each field read as a
/// string (`tool_input.command` one level down).
pub fn codex_payload_action(payload: &Doc) -> (r: Result<CodexAction, String>)
    ensures
        codex_outcome(
            str_of(field(payload@, "hook_event_name"@)),
            str_of(field(payload@, "session_id"@)),
            str_of(field(payload@, "turn_id"@)),
            str_of(field(payload@, "prompt"@)),
            str_of(field(payload@, "tool_name"@)),
            str_of(field_of(field(payload@, "tool_input"@), "command"@)),
            str_of(field(payload@, "cwd"@)),
            str_of(field(payload@, "transcript_path"@)),
            str_of(field(payload@, "model"@)),
            r,
        ),
{
    codex_hook_action(
        as_str(get(payload, "hook_event_name")),
        as_str(get(payload, "session_id")),
        as_str(get(payload, "turn_id")),
        as_str(get(payload, "prompt")),
        as_str(get(payload, "tool_name")),
        as_str(get_in(get(payload, "tool_input"), "command")),
        as_str(get(payload, "cwd")),
        as_str(get(payload, "transcript_path")),
        as_str(get(payload, "model")),
    )
}

/// The error for a Codex hook payload that is not JSON.
pub open spec fn malformed_payload(m: Seq<char>) -> Seq<char> {
    "codex hook: malformed JSON on stdin: "@ + m
}

/// The whole Codex hook decision on the text read from stdin: the trimmed
/// text parsed as JSON (its error, prefixed, when it is not), then
/// [`codex_payload_action`].
pub fn codex_payload_text_action(stdin: &str) -> (r: Result<CodexAction, String>)
    ensures
        match json_parse(trim(stdin@)) {
            Err(m) => r is Err && r->Err_0@ == malformed_payload(m),
            Ok(d) => codex_outcome(
                str_of(field(d, "hook_event_name"@)),
                str_of(field(d, "session_id"@)),
                str_of(field(d, "turn_id"@)),
                str_of(field(d, "prompt"@)),
                str_of(field(d, "tool_name"@)),
                str_of(field_of(field(d, "tool_input"@), "command"@)),
                str_of(field(d, "cwd"@)),
                str_of(field(d, "transcript_path"@)),
                str_of(field(d, "model"@)),
                r,
            ),
        },
{
    let t = string_of(&trim_chars(&chars_of(stdin)));
    match parse_json(t.as_str()) {
        Ok(d) => codex_payload_action(&d),
        Err(e) => {
            let mut m = String::from_str("codex hook: malformed JSON on stdin: ");
            m.append(e.as_str());
            Err(m)
        },
    }
}

// ---- the bracketing hook of other agents -------------------------------------------------

/// What a bracketing hook payload says: whether it opens a turn (its
/// `hook_event_name` is `UserPromptSubmit`; anything else, a missing name
/// included, closes one), and its prompt, session id and transcript path.
pub struct HookFields {
    pub start: bool,
    pub prompt: Option<String>,
    pub session: Option<String>,
    pub transcript: Option<String>,
}

/// The fields of a bracketing hook's payload (an unparseable payload is
/// read as the empty object, so it closes a turn).
pub fn tool_hook_fields(payload: &Doc) -> (f: HookFields)
    ensures
        f.start == (str_of(field(payload@, "hook_event_name"@)) == Some("UserPromptSubmit"@)),
        string_opt_view(f.prompt) == str_of(field(payload@, "prompt"@)),
        string_opt_view(f.session) == str_of(field(payload@, "session_id"@)),
        string_opt_view(f.transcript) == str_of(field(payload@, "transcript_path"@)),
{
    let start = match as_str(get(payload, "hook_event_name")) {
        Some(e) => crate::paths::same_chars(&chars_of(e), &chars_of("UserPromptSubmit")),
        None => false,
    };
    HookFields {
        start,
        prompt: owned(as_str(get(payload, "prompt"))),
        session: owned(as_str(get(payload, "session_id"))),
        transcript: owned(as_str(get(payload, "transcript_path"))),
    }
}

/// The fields of a bracketing hook's payload as read from stdin: the
/// trimmed text parsed as JSON, or the empty object when it is not.
pub fn tool_hook_text_fields(stdin: &str) -> (f: HookFields)
    ensures
        match json_parse(trim(stdin@)) {
            Ok(d) => {
                &&& f.start == (str_of(field(d, "hook_event_name"@)) == Some("UserPromptSubmit"@))
                &&& string_opt_view(f.prompt) == str_of(field(d, "prompt"@))
                &&& string_opt_view(f.session) == str_of(field(d, "session_id"@))
                &&& string_opt_view(f.transcript) == str_of(field(d, "transcript_path"@))
            },
            Err(_) => !f.start && f.prompt is None && f.session is None && f.transcript is None,
        },
{
    let t = string_of(&trim_chars(&chars_of(stdin)));
    match parse_json(t.as_str()) {
        Ok(d) => tool_hook_fields(&d),
        Err(_) => HookFields { start: false, prompt: None, session: None, transcript: None },
    }
}

} // verus!
