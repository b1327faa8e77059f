//! The recorder daemon's pure core: the engine clock that stamps records
//! (monotonic time plus a wall-clock offset that is re-anchored on drift and
//! never lets a handed-out stamp regress), the classification of a changed
//! path, the watcher-error message, and the lock file's location.

use vstd::prelude::*;
use crate::paths::{
    component_chars, components, is_abs, join, path_component_chars, path_components, path_starts_with,
    paths_equal, same_chars, same_path, starts_with_path,
    views,
};
use crate::hookcmds::{string_opt_view, strings_view};
use crate::fmt::{FileEntry, TurnRecord};
use crate::strmap::StrMap;
use crate::text::{chars_of, contains, push_str, string_of, contains_seq};
use std::time::{Duration, Instant, SystemTime};
use crate::doc::{
    as_str, field, get, items_view, lemma_array_view, opt_view, str_of, Doc, DocV,
};
use crate::text::{is_whitespace, is_ws, push_chars, trim};

verus! {

/// Beyond this much disagreement between the wall clock the offset predicts
/// and the live one (a system sleep stops the monotonic clock, not the wall
/// clock), the offset is stale and is re-anchored.
pub const DRIFT_REANCHOR_MS: u64 = 2_000;

#[verifier::external_type_specification]
#[verifier::external_body]
pub struct ExInstant(std::time::Instant);

#[verifier::external_type_specification]
#[verifier::external_body]
pub struct ExSystemTime(std::time::SystemTime);

/// `Instant::now`. Nothing is claimed of the reading.
#[verifier::external_body]
fn instant_now() -> Instant {
    Instant::now()
}

/// `Instant::elapsed`. Nothing is claimed of the reading.
#[verifier::external_body]
fn instant_elapsed(start: &Instant) -> Duration {
    start.elapsed()
}

/// `Duration::as_millis`. Nothing is claimed: a `Duration` is opaque here.
#[verifier::external_body]
fn duration_millis(d: &Duration) -> u128 {
    d.as_millis()
}

/// `SystemTime::now`. Nothing is claimed of the reading.
#[verifier::external_body]
fn system_now() -> SystemTime {
    SystemTime::now()
}

/// `SystemTime::duration_since(UNIX_EPOCH)`, its error (a time before the
/// epoch) as `None`. Nothing is claimed of the reading.
#[verifier::external_body]
fn since_epoch(t: &SystemTime) -> Option<Duration> {
    t.duration_since(std::time::UNIX_EPOCH).ok()
}

/// Milliseconds since the Unix epoch by the wall clock, `0` for a clock set
/// before the epoch.
pub fn wall_now_ms() -> u64 {
    match since_epoch(&system_now()) {
        Some(d) => {
            let ms = duration_millis(&d);
            #[verifier::truncate]
            (ms as u64)
        },
        None => 0,
    }
}

/// Monotonic engine clock with a wall-clock offset for record stamps.
pub struct Clock {
    pub start_mono: Instant,
    /// The wall time, in ms, that monotonic time zero corresponds to.
    pub start_wall_ms: u64,
    /// The latest stamp handed out: no later stamp goes below it.
    pub max_wall_ms: u64,
}

/// The offset after a re-anchor check that measured `elapsed` ms of
/// monotonic time and read `actual` from the wall clock: moved so that the
/// prediction matches `actual` (saturating at 0) when it was off by more
/// than [`DRIFT_REANCHOR_MS`], else unchanged.
pub open spec fn reanchored_start(start_wall_ms: u64, elapsed: u64, actual: u64) -> u64 {
    let predicted = start_wall_ms + elapsed;
    let off = if actual >= predicted {
        actual - predicted
    } else {
        predicted - actual
    };
    if off > DRIFT_REANCHOR_MS {
        if actual >= elapsed {
            (actual - elapsed) as u64
        } else {
            0
        }
    } else {
        start_wall_ms
    }
}

/// The stamp for monotonic time `mono_ms`: the derived wall time, floored
/// at the latest stamp already handed out.
pub open spec fn stamp(start_wall_ms: u64, max_wall_ms: u64, mono_ms: u64) -> int {
    if start_wall_ms + mono_ms >= max_wall_ms {
        start_wall_ms + mono_ms
    } else {
        max_wall_ms as int
    }
}

impl Clock {
    /// A clock anchored now: the floor starts at the anchor's wall time.
    pub fn start() -> (c: Clock)
        ensures
            c.max_wall_ms == c.start_wall_ms,
    {
        let start_wall_ms = wall_now_ms();
        Clock { start_mono: instant_now(), start_wall_ms, max_wall_ms: start_wall_ms }
    }

    /// Milliseconds of monotonic time since the clock started.
    pub fn now_ms(&self) -> u64 {
        let d = instant_elapsed(&self.start_mono);
        let ms = duration_millis(&d);
        #[verifier::truncate]
        (ms as u64)
    }

    /// The re-anchor decision for a measured `elapsed` and wall reading
    /// `actual`.
    pub fn reanchor_at(&mut self, elapsed: u64, actual: u64)
        ensures
            final(self).start_wall_ms == reanchored_start(old(self).start_wall_ms, elapsed, actual),
            final(self).max_wall_ms == old(self).max_wall_ms,
            final(self).start_mono == old(self).start_mono,
    {
        let predicted: u128 = self.start_wall_ms as u128 + elapsed as u128;
        let actual_wide: u128 = actual as u128;
        let off: u128 = if actual_wide >= predicted {
            actual_wide - predicted
        } else {
            predicted - actual_wide
        };
        if off > DRIFT_REANCHOR_MS as u128 {
            self.start_wall_ms = actual.saturating_sub(elapsed);
        }
    }

    /// Compare the live wall clock against what the offset predicts and
    /// re-anchor beyond [`DRIFT_REANCHOR_MS`] of disagreement. Whatever the
    /// clocks read, the floor and the monotonic origin are untouched and the
    /// offset moves only as [`reanchored_start`] says.
    pub fn reanchor(&mut self)
        ensures
            final(self).max_wall_ms == old(self).max_wall_ms,
            final(self).start_mono == old(self).start_mono,
            exists|elapsed: u64, actual: u64|
                final(self).start_wall_ms == reanchored_start(
                    old(self).start_wall_ms,
                    elapsed,
                    actual,
                ),
    {
        let elapsed = self.now_ms();
        let actual = wall_now_ms();
        self.reanchor_at(elapsed, actual);
    }

    /// The wall-clock stamp for monotonic time `mono_ms`; it becomes the new
    /// floor.
    pub fn wall_ms(&mut self, mono_ms: u64) -> (r: u64)
        requires
            old(self).start_wall_ms + mono_ms <= u64::MAX,
        ensures
            r == stamp(old(self).start_wall_ms, old(self).max_wall_ms, mono_ms),
            r >= old(self).max_wall_ms,
            final(self).max_wall_ms == r,
            final(self).start_wall_ms == old(self).start_wall_ms,
            final(self).start_mono == old(self).start_mono,
    {
        let derived = self.start_wall_ms + mono_ms;
        let clamped = if derived >= self.max_wall_ms {
            derived
        } else {
            self.max_wall_ms
        };
        self.max_wall_ms = clamped;
        clamped
    }
}

/// Stamps never regress: after a stamp `r1` has been handed out (and become
/// the floor), a later stamp is at least `r1` whatever happened to the
/// offset in between — a re-anchor, or a backward correction of any size.
pub proof fn law_wall_ms_never_regresses(
    start1: u64,
    max1: u64,
    mono1: u64,
    start2: u64,
    mono2: u64,
)
    requires
        start1 + mono1 <= u64::MAX,
    ensures
        stamp(start2, stamp(start1, max1, mono1) as u64, mono2) >= stamp(start1, max1, mono1),
{
}

/// A re-anchor on drift makes the offset track the wall clock again: the
/// prediction for the same monotonic reading is the live wall time (when
/// that is not before the clock's start).
pub proof fn law_reanchor_tracks_wall_clock(start: u64, elapsed: u64, actual: u64)
    requires
        actual >= elapsed,
        (actual > start + elapsed + DRIFT_REANCHOR_MS) || (start + elapsed > actual
            + DRIFT_REANCHOR_MS),
    ensures
        reanchored_start(start, elapsed, actual) + elapsed == actual,
{
}

/// Within the drift tolerance the offset is left alone.
pub proof fn law_reanchor_tolerates_small_drift(start: u64, elapsed: u64, actual: u64)
    requires
        actual <= start + elapsed + DRIFT_REANCHOR_MS,
        start + elapsed <= actual + DRIFT_REANCHOR_MS,
    ensures
        reanchored_start(start, elapsed, actual) == start,
{
}

// ---- watcher errors -------------------------------------------------------------

/// The remedy is offered only when the message names a limit, alongside
/// `inotify` or `watch`.
pub open spec fn is_limit_error(msg: Seq<char>) -> bool {
    (contains_seq(msg, "inotify"@) || contains_seq(msg, "watch"@)) && contains_seq(msg, "limit"@)
}

pub open spec fn watch_error_spec(msg: Seq<char>) -> Seq<char> {
    if is_limit_error(msg) {
        "watch failed ("@ + msg
            + ") \u{2014} raise the inotify limit: sudo sysctl fs.inotify.max_user_watches=524288"@
    } else {
        "watch failed: "@ + msg
    }
}

/// The message for a watcher error whose text is `msg`.
pub fn watch_error(msg: &str) -> (out: String)
    ensures
        out@ == watch_error_spec(msg@),
{
    let m = chars_of(msg);
    let limit = is_limit(&m);
    let mut out: Vec<char> = Vec::new();
    if limit {
        push_str(&mut out, "watch failed (");
        push_str(&mut out, msg);
        push_str(
            &mut out,
            ") \u{2014} raise the inotify limit: sudo sysctl fs.inotify.max_user_watches=524288",
        );
    } else {
        push_str(&mut out, "watch failed: ");
        push_str(&mut out, msg);
    }
    string_of(&out)
}

fn is_limit(m: &Vec<char>) -> (r: bool)
    ensures
        r == is_limit_error(m@),
{
    let inotify = chars_of("inotify");
    let watch = chars_of("watch");
    let limit = chars_of("limit");
    (contains(m, &inotify) || contains(m, &watch)) && contains(m, &limit)
}

// ---- change classification ------------------------------------------------------

/// What a changed path means to the recorder.
#[derive(Debug, Clone, Copy, PartialEq, Eq, Structural)]
pub enum Class {
    /// A git ref/index/HEAD transition: drives git-turn classification.
    GitRef,
    /// A worktree change to record.
    Watch,
    /// Filtered out (built-in denylist, gitignore, or the rest of `.git`).
    Ignore,
}

/// The components that are never recorded, wherever they appear.
pub open spec fn denied(c: Seq<char>) -> bool {
    c == ".agentrec"@ || c == "node_modules"@ || c == "target"@ || c == "dist"@
}

/// The `.git` entries whose changes are git-ref transitions.
pub open spec fn git_ref_entry(c: Seq<char>) -> bool {
    c == "HEAD"@ || c == "ORIG_HEAD"@ || c == "index"@ || c == "refs"@
}

/// The class of a change at `path` under the watched `root`, where
/// `gitignored` is the gitignore verdict for `path` (consulted only when the
/// built-in rules do not decide).
pub open spec fn class_of(root: Seq<char>, path: Seq<char>, gitignored: bool) -> Class {
    if !path_starts_with(path, root) {
        Class::Ignore
    } else {
        let rel = path_components(path).skip(path_components(root).len() as int);
        if rel.len() == 0 {
            Class::Ignore
        } else if rel[0] == ".git"@ {
            if rel.len() > 1 && git_ref_entry(rel[1]) {
                Class::GitRef
            } else {
                Class::Ignore
            }
        } else if exists|i: int| 0 <= i < rel.len() && denied(#[trigger] rel[i]) {
            Class::Ignore
        } else if gitignored {
            Class::Ignore
        } else {
            Class::Watch
        }
    }
}

/// A change under the root's `.git` is a git-ref transition exactly when the
/// entry it is under is `HEAD`, `ORIG_HEAD`, `index` or `refs` (whatever lies
/// beneath it); any other change under `.git` is ignored. The gitignore
/// verdict plays no part.
pub proof fn law_git_ref_changes(root: Seq<char>, path: Seq<char>, e: Seq<char>, more: Seq<Seq<char>>, gitignored: bool)
    requires
        path_components(path) == path_components(root) + seq![".git"@, e] + more,
    ensures
        (e == "HEAD"@ || e == "ORIG_HEAD"@ || e == "index"@ || e == "refs"@) ==> class_of(root, path, gitignored)
            == Class::GitRef,
        !(e == "HEAD"@ || e == "ORIG_HEAD"@ || e == "index"@ || e == "refs"@) ==> class_of(root, path, gitignored)
            == Class::Ignore,
{
    let pr = path_components(root);
    let pp = path_components(path);
    assert(pp.take(pr.len() as int) == pr);
    assert(path_starts_with(path, root));
    let rel = pp.skip(pr.len() as int);
    assert(rel == seq![".git"@, e] + more);
    assert(rel[0] == ".git"@);
    assert(rel[1] == e);
}

/// A change to the root's `.git` directory itself is ignored.
pub proof fn law_git_dir_itself_is_ignored(root: Seq<char>, path: Seq<char>, gitignored: bool)
    requires
        path_components(path) == path_components(root) + seq![".git"@],
    ensures
        class_of(root, path, gitignored) == Class::Ignore,
{
    let pr = path_components(root);
    let pp = path_components(path);
    assert(pp.take(pr.len() as int) == pr);
    let rel = pp.skip(pr.len() as int);
    assert(rel == seq![".git"@]);
}

/// Outside `.git`, a change is ignored when any component below the root is
/// `.agentrec`, `node_modules`, `target` or `dist`, or when it is
/// gitignored; every other change under the root is recorded.
pub proof fn law_worktree_changes(root: Seq<char>, path: Seq<char>, rel: Seq<Seq<char>>, gitignored: bool)
    requires
        path_components(path) == path_components(root) + rel,
        rel.len() > 0,
        rel[0] != ".git"@,
    ensures
        class_of(root, path, gitignored) == if gitignored || exists|i: int|
            0 <= i < rel.len() && (#[trigger] rel[i] == ".agentrec"@ || rel[i] == "node_modules"@ || rel[i]
                == "target"@ || rel[i] == "dist"@) {
            Class::Ignore
        } else {
            Class::Watch
        },
{
    let pr = path_components(root);
    let pp = path_components(path);
    assert(pp.take(pr.len() as int) == pr);
    assert(pp.skip(pr.len() as int) == rel);
}

/// A change at the root itself, or outside it, is ignored.
pub proof fn law_changes_outside_the_tree_are_ignored(root: Seq<char>, path: Seq<char>, gitignored: bool)
    requires
        !path_starts_with(path, root) || path_components(path) == path_components(root),
    ensures
        class_of(root, path, gitignored) == Class::Ignore,
{
    if path_starts_with(path, root) {
        let pr = path_components(root);
        assert(path_components(path).skip(pr.len() as int).len() == 0);
    }
}

fn is_word(c: &Vec<char>, w: &str) -> (r: bool)
    ensures
        r == (c@ == w@),
{
    let wc = chars_of(w);
    same_chars(c, &wc)
}

fn is_denied(c: &Vec<char>) -> (r: bool)
    ensures
        r == denied(c@),
{
    is_word(c, ".agentrec") || is_word(c, "node_modules") || is_word(c, "target") || is_word(
        c,
        "dist",
    )
}

fn is_git_ref_entry(c: &Vec<char>) -> (r: bool)
    ensures
        r == git_ref_entry(c@),
{
    is_word(c, "HEAD") || is_word(c, "ORIG_HEAD") || is_word(c, "index") || is_word(c, "refs")
}

/// Classify a change at `path` under `root`.
pub fn classify(root: &str, path: &str, gitignored: bool) -> (c: Class)
    ensures
        c == class_of(root@, path@, gitignored),
{
    if !starts_with_path(path, root) {
        return Class::Ignore;
    }
    let pc = chars_of(path);
    let rc = chars_of(root);
    let comps = path_component_chars(&pc);
    let base = path_component_chars(&rc);
    let ghost rel = path_components(path@).skip(path_components(root@).len() as int);
    let n = base.len();
    assert(views(comps@).skip(n as int) == rel);
    if comps.len() == n {
        return Class::Ignore;
    }
    assert(rel[0] == comps@[n as int]@);
    if is_word(&comps[n], ".git") {
        if comps.len() > n + 1 && is_git_ref_entry(&comps[n + 1]) {
            assert(rel[1] == comps@[n + 1]@);
            return Class::GitRef;
        }
        proof {
            if rel.len() > 1 {
                assert(rel[1] == comps@[n + 1]@);
            }
        }
        return Class::Ignore;
    }
    let mut i: usize = n;
    while i < comps.len()
        invariant
            n <= i <= comps.len(),
            views(comps@).skip(n as int) == rel,
            rel == path_components(path@).skip(path_components(root@).len() as int),
            path_starts_with(path@, root@),
            rel.len() > 0,
            rel[0] != ".git"@,
            forall|k: int| 0 <= k < i - n ==> !denied(#[trigger] rel[k]),
        decreases comps.len() - i,
    {
        assert(rel[i - n] == comps@[i as int]@);
        if is_denied(&comps[i]) {
            assert(denied(rel[i - n]));
            return Class::Ignore;
        }
        i = i + 1;
    }
    if gitignored {
        Class::Ignore
    } else {
        Class::Watch
    }
}

// ---- the watch batch ---------------------------------------------------------------

/// A burst is flushed once no event has arrived for this long.
pub const DEBOUNCE_MS: u64 = 1_500;

/// A burst that keeps churning is flushed after this long regardless.
pub const MAX_DEBOUNCE_MS: u64 = 10_000;

/// Whether some path in `ps` is the same path as `p`.
pub open spec fn has_path(ps: Seq<Seq<char>>, p: Seq<char>) -> bool {
    exists|i: int| 0 <= i < ps.len() && same_path(#[trigger] ps[i], p)
}

/// `p`'s last component is `name` (`Path::file_name`).
pub open spec fn file_name_is(p: Seq<char>, name: Seq<char>) -> bool {
    components(p).len() > 0 && components(p).last() == name
}

/// `p` lies under `root` and its remainder under `root` is one of the
/// `guarded` relative paths (those a running `undo` is writing).
pub open spec fn guard_hit(root: Seq<char>, p: Seq<char>, guarded: Seq<Seq<char>>) -> bool {
    path_starts_with(p, root) && exists|i: int|
        0 <= i < guarded.len() && path_components(#[trigger] guarded[i]) == path_components(p).skip(
            path_components(root).len() as int,
        )
}

/// The paths of `ps` that no guard covers, in order.
pub open spec fn unguarded(ps: Seq<Seq<char>>, root: Seq<char>, guarded: Seq<Seq<char>>) -> Seq<Seq<char>>
    decreases ps.len(),
{
    if ps.len() == 0 {
        seq![]
    } else {
        let rest = unguarded(ps.drop_last(), root, guarded);
        if guard_hit(root, ps.last(), guarded) {
            rest
        } else {
            rest.push(ps.last())
        }
    }
}

/// The burst is due: settled (quiet for [`DEBOUNCE_MS`]) or capped (open for
/// [`MAX_DEBOUNCE_MS`]).
pub open spec fn flush_due(first_event_ms: Option<u64>, last_event_ms: Option<u64>, now_ms: u64) -> bool {
    (last_event_ms matches Some(t) && now_ms >= t + DEBOUNCE_MS) || (first_event_ms matches Some(t)
        && now_ms >= t + MAX_DEBOUNCE_MS)
}

/// A burst is due once it has been quiet for 1.5 s since its last event,
/// or open for 10 s since its first; a batch with no events is never due,
/// and once due it stays due as time passes.
pub proof fn law_flush_timing(first_event_ms: Option<u64>, last_event_ms: Option<u64>, now_ms: u64, later_ms: u64)
    ensures
        flush_due(first_event_ms, last_event_ms, now_ms) == ((last_event_ms matches Some(t) && now_ms >= t
            + 1_500) || (first_event_ms matches Some(t) && now_ms >= t + 10_000)),
        first_event_ms is None && last_event_ms is None ==> !flush_due(first_event_ms, last_event_ms, now_ms),
        flush_due(first_event_ms, last_event_ms, now_ms) && later_ms >= now_ms ==> flush_due(
            first_event_ms,
            last_event_ms,
            later_ms,
        ),
{
}

/// A flush hands back exactly the pending paths that no guard covers, in
/// their order: nothing guarded, nothing added.
pub proof fn law_flush_keeps_exactly_the_unguarded(ps: Seq<Seq<char>>, root: Seq<char>, guarded: Seq<Seq<char>>, x: Seq<char>)
    ensures
        unguarded(ps, root, guarded).contains(x) <==> (ps.contains(x) && !guard_hit(root, x, guarded)),
        unguarded(ps, root, guarded).len() <= ps.len(),
    decreases ps.len(),
{
    if ps.len() > 0 {
        law_flush_keeps_exactly_the_unguarded(ps.drop_last(), root, guarded, x);
        let rest = unguarded(ps.drop_last(), root, guarded);
        if ps.drop_last().contains(x) {
            let k = choose|k: int| 0 <= k < ps.drop_last().len() && ps.drop_last()[k] == x;
            assert(ps[k] == x);
        }
        if ps.contains(x) {
            let k = choose|k: int| 0 <= k < ps.len() && ps[k] == x;
            if k < ps.len() - 1 {
                assert(ps.drop_last()[k] == x);
            }
        }
        if !guard_hit(root, ps.last(), guarded) {
            assert(rest.push(ps.last())[rest.len() as int] == ps.last());
            if rest.push(ps.last()).contains(x) {
                let k = choose|k: int| 0 <= k < rest.push(ps.last()).len() && rest.push(ps.last())[k] == x;
                if k < rest.len() {
                    assert(rest[k] == x);
                }
            }
            if rest.contains(x) {
                let k = choose|k: int| 0 <= k < rest.len() && rest[k] == x;
                assert(rest.push(ps.last())[k] == x);
            }
        }
        assert(ps[ps.len() - 1] == ps.last());
    }
}

/// The watcher events gathered since the last flush: the changed paths to
/// record (each path once), when the burst started and when it last grew,
/// and whether a git ref moved.
pub struct WatchBatch {
    pub pending: Vec<String>,
    pub first_event_ms: Option<u64>,
    pub last_event_ms: Option<u64>,
    pub git_hit: bool,
}

impl WatchBatch {
    pub open spec fn paths(&self) -> Seq<Seq<char>> {
        strings_view(self.pending@)
    }

    /// No path is pending twice.
    pub open spec fn wf(&self) -> bool {
        forall|i: int, j: int|
            0 <= i < j < self.pending@.len() ==> !same_path(#[trigger] self.paths()[i], #[trigger] self.paths()[j])
    }

    pub fn new() -> (b: WatchBatch)
        ensures
            b.paths() == Seq::<Seq<char>>::empty(),
            b.first_event_ms is None,
            b.last_event_ms is None,
            !b.git_hit,
            b.wf(),
    {
        let b = WatchBatch { pending: Vec::new(), first_event_ms: None, last_event_ms: None, git_hit: false };
        assert(b.paths() =~= Seq::<Seq<char>>::empty());
        b
    }

    fn holds(&self, path: &str) -> (r: bool)
        ensures
            r == has_path(self.paths(), path@),
    {
        let mut i: usize = 0;
        while i < self.pending.len()
            invariant
                i <= self.pending@.len(),
                forall|k: int| 0 <= k < i ==> !same_path(#[trigger] self.paths()[k], path@),
            decreases self.pending@.len() - i,
        {
            assert(self.paths()[i as int] == self.pending@[i as int]@);
            if paths_equal(self.pending[i].as_str(), path) {
                return true;
            }
            i = i + 1;
        }
        false
    }

    /// One changed path reported by the watcher at `now_ms`, with whether
    /// gitignore excludes it: a git-ref change marks the batch; a worktree
    /// change is added to the pending paths unless already there, and sets
    /// the burst's times; anything else is dropped.
    pub fn observe(&mut self, root: &str, path: String, gitignored: bool, now_ms: u64) -> (c: Class)
        ensures
            c == class_of(root@, path@, gitignored),
            final(self).git_hit == (old(self).git_hit || c == Class::GitRef),
            c == Class::Watch ==> {
                &&& final(self).last_event_ms == Some(now_ms)
                &&& final(self).first_event_ms == if old(self).first_event_ms is Some {
                    old(self).first_event_ms
                } else {
                    Some(now_ms)
                }
                &&& final(self).paths() == if has_path(old(self).paths(), path@) {
                    old(self).paths()
                } else {
                    old(self).paths().push(path@)
                }
            },
            c != Class::Watch ==> {
                &&& final(self).paths() == old(self).paths()
                &&& final(self).first_event_ms == old(self).first_event_ms
                &&& final(self).last_event_ms == old(self).last_event_ms
            },
            old(self).wf() ==> final(self).wf(),
    {
        let c = classify(root, path.as_str(), gitignored);
        match c {
            Class::GitRef => {
                self.git_hit = true;
            },
            Class::Watch => {
                if !self.holds(path.as_str()) {
                    let ghost before = self.paths();
                    let ghost p = path@;
                    self.pending.push(path);
                    assert(self.paths() == before.push(p));
                    assert(self.paths()[before.len() as int] == p);
                }
                if self.first_event_ms.is_none() {
                    self.first_event_ms = Some(now_ms);
                }
                self.last_event_ms = Some(now_ms);
            },
            Class::Ignore => {},
        }
        c
    }

    /// Whether the burst should be flushed at `now_ms`.
    pub fn should_flush(&self, now_ms: u64) -> (r: bool)
        ensures
            r == flush_due(self.first_event_ms, self.last_event_ms, now_ms),
    {
        let settled = match self.last_event_ms {
            Some(t) => now_ms >= t && now_ms - t >= DEBOUNCE_MS,
            None => false,
        };
        let capped = match self.first_event_ms {
            Some(t) => now_ms >= t && now_ms - t >= MAX_DEBOUNCE_MS,
            None => false,
        };
        settled || capped
    }

    /// Whether a pending path is a `.gitignore` (the filter must be rebuilt
    /// after the flush).
    pub fn gitignore_touched(&self) -> (r: bool)
        ensures
            r == exists|i: int| 0 <= i < self.pending@.len() && file_name_is(#[trigger] self.paths()[i], ".gitignore"@),
    {
        let mut i: usize = 0;
        while i < self.pending.len()
            invariant
                i <= self.pending@.len(),
                forall|k: int| 0 <= k < i ==> !file_name_is(#[trigger] self.paths()[k], ".gitignore"@),
            decreases self.pending@.len() - i,
        {
            assert(self.paths()[i as int] == self.pending@[i as int]@);
            let comps = component_chars(&chars_of(self.pending[i].as_str()));
            if comps.len() > 0 {
                let name = chars_of(".gitignore");
                if same_chars(&comps[comps.len() - 1], &name) {
                    assert(views(comps@).last() == comps@[comps.len() - 1]@);
                    return true;
                }
                assert(views(comps@).last() == comps@[comps.len() - 1]@);
            }
            i = i + 1;
        }
        false
    }

    /// Takes the git-ref mark, clearing it.
    pub fn take_git_hit(&mut self) -> (hit: bool)
        ensures
            hit == old(self).git_hit,
            !final(self).git_hit,
            final(self).pending@ == old(self).pending@,
            final(self).first_event_ms == old(self).first_event_ms,
            final(self).last_event_ms == old(self).last_event_ms,
    {
        let hit = self.git_hit;
        self.git_hit = false;
        hit
    }

    /// Ends the burst: the pending paths that no `guarded` path (relative
    /// to `root`) covers are handed back in order, and the batch is empty
    /// again; the git-ref mark is kept.
    pub fn take_flush(&mut self, root: &str, guarded: &Vec<String>) -> (out: Vec<String>)
        ensures
            strings_view(out@) == unguarded(old(self).paths(), root@, strings_view(guarded@)),
            final(self).paths() == Seq::<Seq<char>>::empty(),
            final(self).first_event_ms is None,
            final(self).last_event_ms is None,
            final(self).git_hit == old(self).git_hit,
            final(self).wf(),
    {
        let ghost ps = self.paths();
        let ghost gv = strings_view(guarded@);
        let mut out: Vec<String> = Vec::new();
        let mut i: usize = 0;
        while i < self.pending.len()
            invariant
                i <= self.pending@.len(),
                ps == self.paths(),
                gv == strings_view(guarded@),
                strings_view(out@) == unguarded(ps.take(i as int), root@, gv),
            decreases self.pending@.len() - i,
        {
            assert(ps.take(i + 1).drop_last() == ps.take(i as int));
            assert(ps.take(i + 1).last() == self.pending@[i as int]@);
            if !is_guarded(root, self.pending[i].as_str(), guarded) {
                let ghost before = strings_view(out@);
                let p = self.pending[i].clone();
                out.push(p);
                assert(strings_view(out@) == before.push(self.pending@[i as int]@));
            }
            i = i + 1;
        }
        assert(ps.take(self.pending@.len() as int) == ps);
        self.pending = Vec::new();
        self.first_event_ms = None;
        self.last_event_ms = None;
        assert(self.paths() =~= Seq::<Seq<char>>::empty());
        out
    }
}

/// Whether the components of `a` from `from` on are exactly those of `b`.
fn comps_equal_from(a: &Vec<Vec<char>>, from: usize, b: &Vec<Vec<char>>) -> (r: bool)
    requires
        from <= a@.len(),
    ensures
        r == (views(a@).skip(from as int) == views(b@)),
{
    if a.len() - from != b.len() {
        assert(views(a@).skip(from as int).len() != views(b@).len());
        return false;
    }
    let alen = a.len();
    let mut i: usize = 0;
    while i < b.len()
        invariant
            i <= b@.len(),
            alen == a@.len(),
            a@.len() - from == b@.len(),
            from <= a@.len(),
            forall|k: int| 0 <= k < i ==> views(a@).skip(from as int)[k] == views(b@)[k],
        decreases b@.len() - i,
    {
        assert(from + i < a@.len());
        assert(views(a@).skip(from as int)[i as int] == a@[from + i]@);
        if !same_chars(&a[from + i], &b[i]) {
            return false;
        }
        i = i + 1;
    }
    assert(views(a@).skip(from as int) =~= views(b@));
    true
}

fn is_guarded(root: &str, p: &str, guarded: &Vec<String>) -> (r: bool)
    ensures
        r == guard_hit(root@, p@, strings_view(guarded@)),
{
    if !starts_with_path(p, root) {
        return false;
    }
    let pc = path_component_chars(&chars_of(p));
    let rc = path_component_chars(&chars_of(root));
    let n = rc.len();
    let ghost gv = strings_view(guarded@);
    let mut i: usize = 0;
    while i < guarded.len()
        invariant
            i <= guarded@.len(),
            gv == strings_view(guarded@),
            path_starts_with(p@, root@),
            views(pc@) == path_components(p@),
            views(rc@) == path_components(root@),
            n == rc@.len(),
            n <= pc@.len(),
            forall|k: int|
                0 <= k < i ==> path_components(#[trigger] gv[k]) != path_components(p@).skip(
                    path_components(root@).len() as int,
                ),
        decreases guarded@.len() - i,
    {
        assert(gv[i as int] == guarded@[i as int]@);
        let gc = path_component_chars(&chars_of(guarded[i].as_str()));
        if comps_equal_from(&pc, n, &gc) {
            assert(path_components(gv[i as int]) == path_components(p@).skip(
                path_components(root@).len() as int,
            ));
            return true;
        }
        i = i + 1;
    }
    false
}

// ---- file entries ---------------------------------------------------------------------

/// What the recorder observed of one changed path when it staged the burst.
pub struct ChangeObs {
    /// The path relative to the root.
    pub path: String,
    /// The content hash before the change, when a baseline was held.
    pub before_hash: Option<String>,
    /// The new content was snapshotted.
    pub snapshotted: bool,
    /// The content was deliberately not stored (a secret path).
    pub withheld: bool,
    /// The file existed at start and was never hashed: its `before` is unknown.
    pub baseline_unknown: bool,
    /// The file is gone.
    pub deleted: bool,
}

/// A change's operation: `delete` exactly when the file is gone (a modify
/// with no new snapshot is still a modify), `create` when there was no
/// prior content and the baseline is known, `modify` otherwise.
pub open spec fn op_of(deleted: bool, before_known: bool, baseline_unknown: bool) -> Seq<char> {
    if deleted {
        "delete"@
    } else if !before_known && !baseline_unknown {
        "create"@
    } else {
        "modify"@
    }
}

/// The file entry for `obs`, with its `after` hash taken from the latest
/// snapshot recorded for the path in `after` (none when there is none).
pub fn resolve(after: &StrMap<Option<String>>, obs: &ChangeObs) -> (e: FileEntry)
    ensures
        e.path@ == obs.path@,
        string_opt_view(e.before) == string_opt_view(obs.before_hash),
        string_opt_view(e.after) == if after@.dom().contains(obs.path@) {
            string_opt_view(after@[obs.path@])
        } else {
            None
        },
        e.op@ == op_of(obs.deleted, obs.before_hash is Some, obs.baseline_unknown),
        e.skipped == (!obs.snapshotted && !obs.withheld),
        e.withheld == obs.withheld,
        e.baseline_unknown == obs.baseline_unknown,
{
    let after_hash: Option<String> = match after.get(obs.path.as_str()) {
        Some(Some(h)) => Some(h.clone()),
        _ => None,
    };
    let before: Option<String> = match &obs.before_hash {
        Some(h) => Some(h.clone()),
        None => None,
    };
    let op = if obs.deleted {
        String::from_str("delete")
    } else if obs.before_hash.is_none() && !obs.baseline_unknown {
        String::from_str("create")
    } else {
        String::from_str("modify")
    };
    FileEntry {
        path: obs.path.clone(),
        before,
        after: after_hash,
        op,
        skipped: !obs.snapshotted && !obs.withheld,
        withheld: obs.withheld,
        baseline_unknown: obs.baseline_unknown,
    }
}

// ---- the signal inbox tail ---------------------------------------------------------

/// What to do with the signal inbox, given its length now.
#[derive(Debug, PartialEq, Eq, Clone, Copy, Structural)]
pub enum TailPlan {
    /// The file is shorter than what was consumed: it was truncated from
    /// outside. The offset is moved to the new end (what was written in the
    /// gap is lost, never replayed).
    Resync,
    /// Nothing new.
    Idle,
    /// Read from the offset to the end.
    Read,
}

/// The inbox read position: a byte offset into `signal.jsonl` up to which
/// every complete line has been consumed.
pub struct SignalTailer {
    pub offset: u64,
}

impl SignalTailer {
    /// The plan for an inbox of `len` bytes; on `Resync` the offset becomes
    /// `len`.
    pub fn plan(&mut self, len: u64) -> (p: TailPlan)
        ensures
            len < old(self).offset ==> p == TailPlan::Resync && final(self).offset == len,
            len == old(self).offset ==> p == TailPlan::Idle && final(self).offset == old(self).offset,
            len > old(self).offset ==> p == TailPlan::Read && final(self).offset == old(self).offset,
    {
        if len < self.offset {
            self.offset = len;
            TailPlan::Resync
        } else if len == self.offset {
            TailPlan::Idle
        } else {
            TailPlan::Read
        }
    }

    /// Consumes the complete lines of `fresh` (the bytes read from the
    /// offset): their length, up to and including the last `\n`, is
    /// returned and added to the offset. A torn trailing line is left for
    /// the next read; with no complete line nothing is consumed.
    pub fn consume(&mut self, fresh: &[u8]) -> (n: Option<usize>)
        requires
            old(self).offset + fresh@.len() <= u64::MAX,
        ensures
            match n {
                Some(k) => {
                    &&& 0 < k <= fresh@.len()
                    &&& fresh@[k - 1] == 10u8
                    &&& forall|j: int| k <= j < fresh@.len() ==> fresh@[j] != 10u8
                    &&& final(self).offset == old(self).offset + k
                },
                None => {
                    &&& forall|j: int| 0 <= j < fresh@.len() ==> fresh@[j] != 10u8
                    &&& final(self).offset == old(self).offset
                },
            },
    {
        let mut k: usize = fresh.len();
        while k > 0
            invariant
                k <= fresh@.len(),
                self.offset == old(self).offset,
                old(self).offset + fresh@.len() <= u64::MAX,
                forall|j: int| k <= j < fresh@.len() ==> fresh@[j] != 10u8,
            decreases k,
        {
            if fresh[k - 1] == 10u8 {
                self.offset = self.offset + k as u64;
                return Some(k);
            }
            k = k - 1;
        }
        None
    }
}

// ---- staging a burst ---------------------------------------------------------------

/// What to read of a changed path (that is not a directory).
#[derive(PartialEq, Eq, Structural, Clone, Copy, Debug)]
pub enum SnapshotPlan {
    /// Nothing: a secret path is never read, a gone file has nothing.
    Nothing,
    /// A symbolic link is not followed: its target string is stored.
    LinkTarget,
    /// A regular file: its bytes, stored when within the snapshot cap.
    Content,
}

/// Secret paths first, then gone files, then links, then content.
pub fn snapshot_plan(secret: bool, deleted: bool, is_symlink: bool) -> (p: SnapshotPlan)
    ensures
        p == if secret || deleted {
            SnapshotPlan::Nothing
        } else if is_symlink {
            SnapshotPlan::LinkTarget
        } else {
            SnapshotPlan::Content
        },
{
    if secret || deleted {
        SnapshotPlan::Nothing
    } else if is_symlink {
        SnapshotPlan::LinkTarget
    } else {
        SnapshotPlan::Content
    }
}

/// What carrying out a [`SnapshotPlan`] gave.
pub enum SnapshotRead {
    /// Nothing was read.
    NotRead,
    /// The link target was stored; the store's hash, when it gave one.
    Link(Option<String>),
    /// The link could not be read.
    LinkUnreadable,
    /// The content was stored under this hash.
    Stored(String),
    /// The content exceeds the snapshot cap (on reading, or as the store
    /// judged it).
    OverCap,
    /// Storing the content failed, for this reason.
    StoreFailed(String),
    /// The file could not be read.
    Unreadable,
}

/// The `after` hash, whether the content was snapshotted, and whether it
/// was withheld, plus a store failure to report.
pub struct SnapshotOutcome {
    pub after: Option<String>,
    pub snapshotted: bool,
    pub withheld: bool,
    pub io_failure: Option<String>,
}

/// [`snapshot_outcome`]'s result as `(after, snapshotted, withheld,
/// io_failure)`.
pub open spec fn snapshot_outcome_spec(secret: bool, deleted: bool, read: SnapshotRead) -> (
    Option<String>,
    bool,
    bool,
    Option<String>,
) {
    if secret {
        (None, false, true, None)
    } else if deleted {
        (None, true, false, None)
    } else {
        match read {
            SnapshotRead::Link(h) => (h, true, false, None),
            SnapshotRead::Stored(h) => (Some(h), true, false, None),
            SnapshotRead::StoreFailed(cause) => (None, false, false, Some(cause)),
            _ => (None, false, false, None),
        }
    }
}

/// A secret path is never snapshotted: whatever else holds of it, it has no
/// `after` content and is marked withheld.
pub proof fn law_secret_paths_are_never_snapshotted(deleted: bool, read: SnapshotRead)
    ensures
        snapshot_outcome_spec(true, deleted, read).0 is None,
        !snapshot_outcome_spec(true, deleted, read).1,
        snapshot_outcome_spec(true, deleted, read).2,
{
}

/// What snapshotting a changed path gave: a secret path is withheld and
/// never snapshotted; a gone file counts as snapshotted with no content; a
/// link's stored target, or stored content, is the `after` hash; a link or
/// file that could not be read, content over the cap, or a failed store is
/// skipped (a failed store is reported).
pub fn snapshot_outcome(secret: bool, deleted: bool, read: SnapshotRead) -> (o: SnapshotOutcome)
    ensures
        (o.after, o.snapshotted, o.withheld, o.io_failure) == snapshot_outcome_spec(secret, deleted, read),
{
    if secret {
        return SnapshotOutcome { after: None, snapshotted: false, withheld: true, io_failure: None };
    }
    if deleted {
        return SnapshotOutcome { after: None, snapshotted: true, withheld: false, io_failure: None };
    }
    match read {
        SnapshotRead::Link(h) => SnapshotOutcome { after: h, snapshotted: true, withheld: false, io_failure: None },
        SnapshotRead::Stored(h) => SnapshotOutcome {
            after: Some(h),
            snapshotted: true,
            withheld: false,
            io_failure: None,
        },
        SnapshotRead::StoreFailed(cause) => SnapshotOutcome {
            after: None,
            snapshotted: false,
            withheld: false,
            io_failure: Some(cause),
        },
        _ => SnapshotOutcome { after: None, snapshotted: false, withheld: false, io_failure: None },
    }
}

/// What the recorder holds per path during a session.
pub struct Baselines {
    /// Path → the content hash last snapshotted.
    pub baseline: StrMap<String>,
    /// The paths that existed at start or were created since.
    pub known: StrMap<()>,
    /// Path → the latest `after` hash (none when nothing was captured).
    pub after: StrMap<Option<String>>,
}

impl Baselines {
    pub fn new() -> (b: Baselines)
        ensures
            b.baseline@ == Map::<Seq<char>, String>::empty(),
            b.known@ == Map::<Seq<char>, ()>::empty(),
            b.after@ == Map::<Seq<char>, Option<String>>::empty(),
    {
        Baselines { baseline: StrMap::new(), known: StrMap::new(), after: StrMap::new() }
    }

    /// One changed path of a flushed burst (`rel`, relative to the root),
    /// with what snapshotting it gave: whether it is gone, the hash stored
    /// for its new content, whether that content was captured, and whether
    /// it was withheld (a secret path). The `before` comes from the
    /// baseline; a path that existed at start but was never hashed has an
    /// unknown baseline. A file that came and went with nothing captured is
    /// dropped as noise; otherwise the baseline advances (to the new hash,
    /// or away when the file is gone) and the observation is returned.
    pub fn stage_one(
        &mut self,
        rel: &str,
        deleted: bool,
        after: Option<String>,
        snapshotted: bool,
        withheld: bool,
    ) -> (obs: Option<ChangeObs>)
        ensures
            ({
                let held = old(self).baseline@.dom().contains(rel@);
                let unknown = !held && old(self).known@.dom().contains(rel@);
                let dropped = !held && !unknown && after is None && deleted;
                &&& dropped ==> {
                    &&& obs is None
                    &&& final(self).baseline@ == old(self).baseline@
                    &&& final(self).known@ == old(self).known@
                    &&& final(self).after@ == old(self).after@
                }
                &&& !dropped ==> {
                    &&& obs matches Some(o) && {
                        &&& o.path@ == rel@
                        &&& string_opt_view(o.before_hash) == if held {
                            Some(old(self).baseline@[rel@]@)
                        } else {
                            None
                        }
                        &&& o.baseline_unknown == unknown
                        &&& o.snapshotted == snapshotted
                        &&& o.withheld == withheld
                        &&& o.deleted == deleted
                    }
                    &&& crate::session::names_view(final(self).baseline@) == match after {
                        Some(h) => crate::session::names_view(old(self).baseline@).insert(rel@, h@),
                        None => if deleted {
                            crate::session::names_view(old(self).baseline@).remove(rel@)
                        } else {
                            crate::session::names_view(old(self).baseline@)
                        },
                    }
                    &&& final(self).known@.dom() == match after {
                        Some(_) => old(self).known@.dom().insert(rel@),
                        None => if deleted {
                            old(self).known@.dom().remove(rel@)
                        } else {
                            old(self).known@.dom()
                        },
                    }
                    &&& final(self).after@ == old(self).after@.insert(rel@, after)
                }
            }),
    {
        let ghost b0 = self.baseline@;
        let before: Option<String> = match self.baseline.get(rel) {
            Some(h) => Some(h.clone()),
            None => None,
        };
        let held = before.is_some();
        let unknown = !held && self.known.get(rel).is_some();
        if !held && !unknown && after.is_none() && deleted {
            return None;
        }
        match &after {
            Some(h) => {
                self.baseline.insert(String::from_str(rel), h.clone());
                self.known.insert(String::from_str(rel), ());
                proof {
                    assert(crate::session::names_view(self.baseline@) =~= crate::session::names_view(b0).insert(rel@, h@));
                }
            },
            None => {
                if deleted {
                    self.baseline.remove(rel);
                    self.known.remove(rel);
                    proof {
                        assert(crate::session::names_view(self.baseline@) =~= crate::session::names_view(b0).remove(rel@));
                    }
                }
            },
        }
        self.after.insert(String::from_str(rel), after);
        Some(ChangeObs {
            path: String::from_str(rel),
            before_hash: before,
            snapshotted,
            withheld,
            baseline_unknown: unknown,
            deleted,
        })
    }
}

// ---- crash recovery ---------------------------------------------------------------

/// How a turn left open by an unclean shutdown is closed on recovery.
#[derive(Debug, PartialEq, Eq, Clone, Copy, Structural)]
pub struct Recovery {
    /// `rich` for a hook-bracketed or git turn, `bare` otherwise.
    pub rich: bool,
    /// A bracket that never saw its stop is closed truncated.
    pub truncated: bool,
    /// Tool, session and prompt are kept only for a rich turn.
    pub keeps_attribution: bool,
    /// The end time: the last change, never before the opening.
    pub ended_wall_ms: u64,
}

/// The recovery of a journaled turn opened by `source` (`bracket`, `git`
/// or `quiet`).
pub fn recovery_of(source: &str, opened_wall_ms: u64, last_change_wall_ms: u64) -> (r: Recovery)
    ensures
        r.rich == (source@ == "bracket"@ || source@ == "git"@),
        r.truncated == (source@ == "bracket"@),
        r.keeps_attribution == r.rich,
        r.ended_wall_ms == if last_change_wall_ms >= opened_wall_ms {
            last_change_wall_ms
        } else {
            opened_wall_ms
        },
{
    let s = chars_of(source);
    let bracket = same_chars(&s, &chars_of("bracket"));
    let git = same_chars(&s, &chars_of("git"));
    let ended = if last_change_wall_ms >= opened_wall_ms {
        last_change_wall_ms
    } else {
        opened_wall_ms
    };
    Recovery { rich: bracket || git, truncated: bracket, keeps_attribution: bracket || git, ended_wall_ms: ended }
}

// ---- crash recovery -------------------------------------------------------------

/// The crash journal of a turn that was open when the recorder died.
pub struct Journal {
    /// The id reserved when the turn opened.
    pub id: String,
    pub root: String,
    /// What opened the turn: `bracket`, `git` or `quiet`.
    pub source: String,
    pub opened_wall_ms: u64,
    pub last_change_wall_ms: u64,
    pub tool: Option<String>,
    pub session: Option<String>,
    pub files: Vec<FileEntry>,
}

/// The end time of a recovered turn: its last change, never before it
/// opened.
pub open spec fn recovered_end_ms(j: Journal) -> u64 {
    if j.last_change_wall_ms >= j.opened_wall_ms {
        j.last_change_wall_ms
    } else {
        j.opened_wall_ms
    }
}

/// One of the last [`crate::record::RECENT_RECORDS`] records already logs
/// the journaled turn (its id, or its root, start, end and files).
pub open spec fn tail_logs(
    records: Seq<crate::record::LogRecord>,
    j: Journal,
    started: Seq<char>,
    ended: Seq<char>,
) -> bool {
    exists|i: int|
        records.len() - crate::record::RECENT_RECORDS <= i < records.len() && 0 <= i
            && #[trigger] crate::record::logs_turn(records[i], j.id@, j.root@, started, ended, j.files@)
}

/// The log after recovering the journal with its start and end rendered as
/// `started` and `ended`: unchanged when its tail already logs the turn,
/// otherwise with the recovered turn `t` appended.
pub open spec fn log_after_recovery(
    records: Seq<crate::record::LogRecord>,
    j: Journal,
    started: Seq<char>,
    ended: Seq<char>,
    t: TurnRecord,
) -> Seq<crate::record::LogRecord> {
    if tail_logs(records, j, started, ended) {
        records
    } else {
        records.push(crate::record::LogRecord::Turn(t))
    }
}

/// Whether the journal is still to be recovered, and if so its start and
/// end as `rfc3339` renders them: `None` when the log's tail already holds
/// the turn (a replay after a crash between appending and removing the
/// journal).
pub fn recovery_times<R: Fn(u64) -> String>(
    records: &Vec<crate::record::LogRecord>,
    j: &Journal,
    rfc3339: R,
) -> (r: Option<(String, String)>)
    requires
        forall|ms: u64| rfc3339.requires((ms,)),
    ensures
        exists|started: String, ended: String|
            rfc3339.ensures((j.opened_wall_ms,), started) && rfc3339.ensures((recovered_end_ms(*j),), ended)
                && if tail_logs(records@, *j, started@, ended@) {
                r is None
            } else {
                r == Some((started, ended))
            },
{
    let rec = recovery_of(j.source.as_str(), j.opened_wall_ms, j.last_change_wall_ms);
    let started = rfc3339(j.opened_wall_ms);
    let ended = rfc3339(rec.ended_wall_ms);
    let logged = crate::record::already_logged(
        records,
        j.id.as_str(),
        j.root.as_str(),
        started.as_str(),
        ended.as_str(),
        &j.files,
    );
    assert(logged == tail_logs(records@, *j, started@, ended@));
    assert(rec.ended_wall_ms == recovered_end_ms(*j));
    let r = if logged {
        None
    } else {
        Some((started, ended))
    };
    assert(rfc3339.ensures((j.opened_wall_ms,), started) && rfc3339.ensures((recovered_end_ms(*j),), ended)
        && if tail_logs(records@, *j, started@, ended@) {
        r is None
    } else {
        r == Some((started, ended))
    });
    r
}

/// The turn recovered from a journal, given its rendered start and end and,
/// for an attributed recovery, the stored prompt and its excerpt.
pub open spec fn recovered_turn_matches(
    t: TurnRecord,
    j: Journal,
    started: String,
    ended: String,
    prompt_ref: Option<String>,
    prompt_excerpt: Option<String>,
) -> bool {
    let rich = j.source@ == "bracket"@ || j.source@ == "git"@;
    &&& t.v == 1
    &&& t.id == j.id
    &&& t.grade@ == if rich {
        "rich"@
    } else {
        "bare"@
    }
    &&& t.truncated == (j.source@ == "bracket"@)
    &&& t.started == started && t.ended == ended
    &&& t.root == j.root
    &&& t.model is None
    &&& t.merges@.len() == 0
    &&& t.files == j.files
    &&& if rich {
        t.tool == j.tool && t.session == j.session && t.prompt_ref == prompt_ref && t.prompt_excerpt == prompt_excerpt
    } else {
        t.tool is None && t.session is None && t.prompt_ref is None && t.prompt_excerpt is None
    }
}

/// The turn a journal is recovered as: rich and truncated for a bracket
/// that never saw its stop, rich for a git turn, bare (with no tool,
/// session or prompt) otherwise; its id, root and files are the journal's.
pub fn recovered_turn(
    j: Journal,
    started: String,
    ended: String,
    prompt_ref: Option<String>,
    prompt_excerpt: Option<String>,
) -> (t: TurnRecord)
    ensures
        recovered_turn_matches(t, j, started, ended, prompt_ref, prompt_excerpt),
{
    let rec = recovery_of(j.source.as_str(), j.opened_wall_ms, j.last_change_wall_ms);
    let Journal { id, root, source: _, opened_wall_ms: _, last_change_wall_ms: _, tool, session, files } = j;
    let grade = if rec.rich {
        String::from_str("rich")
    } else {
        String::from_str("bare")
    };
    let (tool, session, prompt_ref, prompt_excerpt) = if rec.rich {
        (tool, session, prompt_ref, prompt_excerpt)
    } else {
        (None, None, None, None)
    };
    TurnRecord {
        v: 1,
        id,
        grade,
        truncated: rec.truncated,
        started,
        ended,
        tool,
        model: None,
        session,
        root,
        prompt_ref,
        prompt_excerpt,
        merges: Vec::new(),
        files,
    }
}

/// Recovery is idempotent: it either leaves the log as it was (the tail
/// already holds the turn) or appends exactly the recovered turn, and
/// recovering the same journal again from the log it left changes nothing.
pub proof fn law_recovery_appends_at_most_once(
    records: Seq<crate::record::LogRecord>,
    j: Journal,
    started: Seq<char>,
    ended: Seq<char>,
    t: TurnRecord,
)
    requires
        t.id == j.id,
    ensures
        log_after_recovery(records, j, started, ended, t) == records || log_after_recovery(
            records,
            j,
            started,
            ended,
            t,
        ) == records.push(crate::record::LogRecord::Turn(t)),
        tail_logs(log_after_recovery(records, j, started, ended, t), j, started, ended),
        log_after_recovery(log_after_recovery(records, j, started, ended, t), j, started, ended, t)
            == log_after_recovery(records, j, started, ended, t),
{
    if !tail_logs(records, j, started, ended) {
        let after = records.push(crate::record::LogRecord::Turn(t));
        let i = records.len() as int;
        assert(after[i] == crate::record::LogRecord::Turn(t));
        assert(crate::record::logs_turn(after[i], j.id@, j.root@, started, ended, j.files@));
    }
}

/// The per-root recorder lock file: `<root>/.agentrec/daemon.lock`.
pub fn lock_path(root: &str) -> (p: String)
    ensures
        p@ == crate::paths::join_spec(crate::paths::join_spec(root@, ".agentrec"@), "daemon.lock"@),
{
    let dir = join(root, ".agentrec");
    join(dir.as_str(), "daemon.lock")
}


// ---- transcripts ---------------------------------------------------------------

/// The concatenated `text` of a content array's `{"type": "text"}` blocks.
pub open spec fn text_blocks(blocks: Seq<DocV>) -> Seq<char>
    decreases blocks.len(),
{
    if blocks.len() == 0 {
        seq![]
    } else {
        let b = blocks.last();
        let rest = text_blocks(blocks.drop_last());
        if str_of(field(b, "type"@)) == Some("text"@) {
            match str_of(field(b, "text"@)) {
                Some(t) => rest + t,
                None => rest,
            }
        } else {
            rest
        }
    }
}

/// A message's text: string content verbatim; the text blocks of array
/// content, when there is any text; nothing otherwise.
pub open spec fn message_text(message: DocV) -> Option<Seq<char>> {
    match field(message, "content"@) {
        Some(DocV::Str(s)) => Some(s),
        Some(DocV::Array(blocks)) => if text_blocks(blocks).len() > 0 {
            Some(text_blocks(blocks))
        } else {
            None
        },
        _ => None,
    }
}

pub fn transcript_text(message: &Doc) -> (r: Option<String>)
    ensures
        crate::hookcmds::string_opt_view(r) == message_text(message@),
{
    match get(message, "content") {
        Some(Doc::Str(s)) => Some(s.clone()),
        Some(Doc::Array(blocks)) => {
            proof {
                lemma_array_view(*blocks);
            }
            let ghost bv = items_view(blocks@);
            let mut out: Vec<char> = Vec::new();
            let mut i: usize = 0;
            while i < blocks.len()
                invariant
                    i <= blocks.len(),
                    bv == items_view(blocks@),
                    out@ == text_blocks(bv.take(i as int)),
                decreases blocks.len() - i,
            {
                assert(bv.take(i + 1).drop_last() == bv.take(i as int));
                assert(bv.take(i + 1).last() == blocks@[i as int]@);
                let b = &blocks[i];
                let is_text = match as_str(get(b, "type")) {
                    Some(t) => crate::paths::same_chars(&crate::text::chars_of(t), &crate::text::chars_of("text")),
                    None => false,
                };
                if is_text {
                    match as_str(get(b, "text")) {
                        Some(t) => {
                            let tc = crate::text::chars_of(t);
                            push_chars(&mut out, &tc);
                        },
                        None => {},
                    }
                }
                i = i + 1;
            }
            assert(bv.take(blocks.len() as int) == bv);
            if out.len() > 0 {
                Some(crate::text::string_of(&out))
            } else {
                None
            }
        },
        _ => None,
    }
}

/// What one transcript line says: its message (the `message` field, else
/// the line itself) and its role (the message's `role`, else the line's
/// `type`).
pub open spec fn line_message(v: DocV) -> DocV {
    match field(v, "message"@) {
        Some(m) => m,
        None => v,
    }
}

pub open spec fn line_role(v: DocV) -> Option<Seq<char>> {
    match str_of(field(line_message(v), "role"@)) {
        Some(r) => Some(r),
        None => str_of(field(v, "type"@)),
    }
}

/// The prompt a line contributes: a user message's non-blank text.
pub open spec fn line_prompt(v: DocV) -> Option<Seq<char>> {
    if line_role(v) == Some("user"@) {
        match message_text(line_message(v)) {
            Some(t) => if trim(t).len() > 0 {
                Some(t)
            } else {
                None
            },
            None => None,
        }
    } else {
        None
    }
}

/// The model a line names: an assistant message's `model`.
pub open spec fn line_model(v: DocV) -> Option<Seq<char>> {
    if line_role(v) == Some("assistant"@) {
        str_of(field(line_message(v), "model"@))
    } else {
        None
    }
}

/// The last value that `f` gives for the lines.
pub open spec fn last_some(vs: Seq<DocV>, f: spec_fn(DocV) -> Option<Seq<char>>) -> Option<Seq<char>>
    decreases vs.len(),
{
    if vs.len() == 0 {
        None
    } else {
        match f(vs.last()) {
            Some(x) => Some(x),
            None => last_some(vs.drop_last(), f),
        }
    }
}

fn get_or_self<'a>(v: &'a Doc, k: &str) -> (r: &'a Doc)
    ensures
        r@ == match field(v@, k@) {
            Some(m) => m,
            None => v@,
        },
{
    match get(v, k) {
        Some(m) => m,
        None => v,
    }
}

fn is_word_str(s: &str, w: &str) -> (r: bool)
    ensures
        r == (s@ == w@),
{
    crate::paths::same_chars(&crate::text::chars_of(s), &crate::text::chars_of(w))
}

/// A transcript's last real user prompt and last model, from its parsed
/// lines (lines that are not JSON are skipped before this). Tool-result
/// user messages carry no text block, so they never pass for a prompt.
pub fn parse_transcript(lines: &Vec<Doc>) -> (r: (Option<String>, Option<String>))
    ensures
        crate::hookcmds::string_opt_view(r.0) == last_some(items_view(lines@), |v: DocV| line_prompt(v)),
        crate::hookcmds::string_opt_view(r.1) == last_some(items_view(lines@), |v: DocV| line_model(v)),
{
    let ghost lv = items_view(lines@);
    proof {
        reveal_strlit("user");
        reveal_strlit("assistant");
        assert("user"@.len() == 4 && "assistant"@.len() == 9);
    }
    let mut last_user: Option<String> = None;
    let mut last_model: Option<String> = None;
    let mut i: usize = 0;
    while i < lines.len()
        invariant
            i <= lines.len(),
            lv == items_view(lines@),
            crate::hookcmds::string_opt_view(last_user) == last_some(lv.take(i as int), |v: DocV| line_prompt(v)),
            crate::hookcmds::string_opt_view(last_model) == last_some(lv.take(i as int), |v: DocV| line_model(v)),
            "user"@ != "assistant"@,
        decreases lines.len() - i,
    {
        assert(lv.take(i + 1).drop_last() == lv.take(i as int));
        assert(lv.take(i + 1).last() == lines@[i as int]@);
        let value = &lines[i];
        let message = get_or_self(value, "message");
        let role = match as_str(get(message, "role")) {
            Some(r) => Some(r),
            None => as_str(get(value, "type")),
        };
        match role {
            Some(r) => {
                if is_word_str(r, "user") {
                    match transcript_text(message) {
                        Some(text) => {
                            let tc = crate::text::chars_of(text.as_str());
                            let trimmed = crate::text::trim_chars(&tc);
                            if trimmed.len() > 0 {
                                last_user = Some(text);
                            }
                        },
                        None => {},
                    }
                } else if is_word_str(r, "assistant") {
                    match as_str(get(message, "model")) {
                        Some(m) => {
                            last_model = Some(String::from_str(m));
                        },
                        None => {},
                    }
                }
            },
            None => {},
        }
        i = i + 1;
    }
    assert(lv.take(lines.len() as int) == lv);
    (last_user, last_model)
}

// ---- memory facts ----------------------------------------------------------------

/// `str::to_lowercase`'s result for `s`.
pub uninterp spec fn lowercase(s: Seq<char>) -> Seq<char>;

/// `str::to_lowercase`. Claimed: the result is [`lowercase`] of `s`.
#[verifier::external_body]
fn to_lowercase(s: &str) -> (r: String)
    ensures
        r@ == lowercase(s@),
{
    s.to_lowercase()
}

/// The words of `s` closed so far and the word being read.
pub open spec fn word_scan(s: Seq<char>) -> (Seq<Seq<char>>, Seq<char>)
    decreases s.len(),
{
    if s.len() == 0 {
        (seq![], seq![])
    } else {
        let (done, cur) = word_scan(s.drop_last());
        if is_ws(s.last()) {
            (if cur.len() > 0 {
                done.push(cur)
            } else {
                done
            }, seq![])
        } else {
            (done, cur.push(s.last()))
        }
    }
}

/// `str::split_whitespace`: the maximal runs of non-whitespace.
pub open spec fn words(s: Seq<char>) -> Seq<Seq<char>> {
    let (done, cur) = word_scan(s);
    if cur.len() > 0 {
        done.push(cur)
    } else {
        done
    }
}

/// The dedup key of a memory fact: lowercased, its words joined by single
/// spaces.
pub open spec fn fact_key(fact: Seq<char>) -> Seq<char> {
    crate::paths::join_all_with(words(lowercase(fact)), ' ')
}

pub fn normalize_fact(fact: &str) -> (r: String)
    ensures
        r@ == fact_key(fact@),
{
    let lower = to_lowercase(fact);
    let cs = crate::text::chars_of(lower.as_str());
    let mut done: Vec<Vec<char>> = Vec::new();
    let mut cur: Vec<char> = Vec::new();
    let mut i: usize = 0;
    while i < cs.len()
        invariant
            i <= cs.len(),
            (crate::paths::views(done@), cur@) == word_scan(cs@.take(i as int)),
        decreases cs.len() - i,
    {
        assert(cs@.take(i + 1).drop_last() == cs@.take(i as int));
        assert(cs@.take(i + 1).last() == cs@[i as int]);
        if is_whitespace(cs[i]) {
            if cur.len() > 0 {
                let ghost before = done@;
                let w = cur;
                cur = Vec::new();
                done.push(w);
                assert(crate::paths::views(done@) == crate::paths::views(before).push(w@));
            }
        } else {
            cur.push(cs[i]);
        }
        i = i + 1;
    }
    assert(cs@.take(cs.len() as int) == cs@);
    if cur.len() > 0 {
        let ghost before = done@;
        done.push(cur);
        assert(crate::paths::views(done@) == crate::paths::views(before).push(cur@));
    }
    let mut out: Vec<char> = Vec::new();
    crate::paths::push_joined(&mut out, &done, ' ');
    crate::text::string_of(&out)
}

} // verus!
