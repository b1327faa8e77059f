//! `agentrec doctor`: the verdicts of the recording-chain diagnosis. Each
//! check here is a function of what was observed (file modes, counters,
//! parsed configuration, probe outcomes); the observing itself stays at the
//! edge. `initialized` runs first and gates every other check: in a repo that
//! was never initialised the others are reported `n/a` instead of inventing
//! failures.

use vstd::prelude::*;
use crate::text::{
    chars_of, dec, parse_u64, parse_u64_spec, push_chars, push_decimal, push_str, string_of, trim,
    trim_chars,
};
use crate::initcmd::{bracket_hooks_marked, bracket_hooks_present, McpRegState};
use crate::doc::{as_str, field, field_of, get, get_in, items_view, json_parse, parse_json, str_of, Doc, DocV};
use crate::text::{lines, split_lines};
use crate::config::{
    entries_view, find_entry, lookup, parse_toml, toml_entries, TomlItem, TomlItemV, TomlValue,
    TomlValueV,
};

verus! {

/// The verdict of one check.
#[derive(PartialEq, Eq, Structural, Clone, Copy, Debug)]
pub enum CheckStatus {
    Pass,
    Fail,
    Na,
}

/// One named check, with the remedy of a failure or the note of an
/// advisory.
#[derive(Debug)]
pub struct Check {
    pub name: String,
    pub status: CheckStatus,
    pub remedy: Option<String>,
}

pub struct CheckV {
    pub name: Seq<char>,
    pub status: CheckStatus,
    pub remedy: Option<Seq<char>>,
}

pub open spec fn opt_str(o: Option<String>) -> Option<Seq<char>> {
    match o {
        Some(s) => Some(s@),
        None => None,
    }
}

impl View for Check {
    type V = CheckV;

    open spec fn view(&self) -> CheckV {
        CheckV { name: self.name@, status: self.status, remedy: opt_str(self.remedy) }
    }
}

/// The whole diagnosis: every check, and whether none of them failed.
#[derive(Debug)]
pub struct Report {
    pub checks: Vec<Check>,
    pub ok: bool,
}

pub open spec fn checks_view(cs: Seq<Check>) -> Seq<CheckV> {
    cs.map_values(|c: Check| c@)
}

pub open spec fn pass_v(name: Seq<char>) -> CheckV {
    CheckV { name, status: CheckStatus::Pass, remedy: None }
}

pub open spec fn na_v(name: Seq<char>) -> CheckV {
    CheckV { name, status: CheckStatus::Na, remedy: None }
}

pub open spec fn fail_v(name: Seq<char>, remedy: Seq<char>) -> CheckV {
    CheckV { name, status: CheckStatus::Fail, remedy: Some(remedy) }
}

/// A non-blocking finding: rendered `pass` (it never affects `ok`) but it
/// carries a note.
pub open spec fn advisory_v(name: Seq<char>, note: Seq<char>) -> CheckV {
    CheckV { name, status: CheckStatus::Pass, remedy: Some(note) }
}

impl Check {
    pub fn pass(name: &str) -> (c: Check)
        ensures
            c@ == pass_v(name@),
    {
        Check { name: String::from_str(name), status: CheckStatus::Pass, remedy: None }
    }

    pub fn na(name: &str) -> (c: Check)
        ensures
            c@ == na_v(name@),
    {
        Check { name: String::from_str(name), status: CheckStatus::Na, remedy: None }
    }

    pub fn fail(name: &str, remedy: String) -> (c: Check)
        ensures
            c@ == fail_v(name@, remedy@),
    {
        Check { name: String::from_str(name), status: CheckStatus::Fail, remedy: Some(remedy) }
    }

    pub fn advisory(name: &str, note: String) -> (c: Check)
        ensures
            c@ == advisory_v(name@, note@),
    {
        Check { name: String::from_str(name), status: CheckStatus::Pass, remedy: Some(note) }
    }
}

/// The names of every check, in report order.
pub open spec fn check_names() -> Seq<Seq<char>> {
    seq![
        "initialized"@,
        "daemon liveness"@,
        "hook presence"@,
        "signal freshness"@,
        "store health"@,
        "state parse"@,
        "store permissions"@,
        "inotify headroom"@,
        "orphaned services"@,
        "codex hooks"@,
        "codex hook flags"@,
        "mcp registration"@,
        "mcp server"@,
    ]
}

pub open spec fn names_of(cs: Seq<CheckV>) -> Seq<Seq<char>> {
    cs.map_values(|c: CheckV| c.name)
}

pub open spec fn none_failed(cs: Seq<CheckV>) -> bool {
    forall|i: int| 0 <= i < cs.len() ==> (#[trigger] cs[i]).status != CheckStatus::Fail
}

/// The report for an initialisation check and the other checks' results:
/// when `initialized` failed every other check is `n/a` (and `rest` is not
/// looked at) and the report is not ok; otherwise the checks are
/// `initialized` followed by `rest`, ok when none failed.
pub open spec fn diagnosis(initialized: CheckV, rest: Seq<CheckV>) -> (Seq<CheckV>, bool) {
    if initialized.status == CheckStatus::Fail {
        (seq![initialized] + check_names().skip(1).map_values(|n: Seq<char>| na_v(n)), false)
    } else {
        let all = seq![initialized] + rest;
        (all, none_failed(all))
    }
}

/// Whether the checks after `initialized` are to be run at all.
pub fn runs_other_checks(initialized: &Check) -> (r: bool)
    ensures
        r == (initialized.status != CheckStatus::Fail),
{
    initialized.status != CheckStatus::Fail
}

fn all_pass_or_na(checks: &Vec<Check>) -> (r: bool)
    ensures
        r == none_failed(checks_view(checks@)),
{
    let mut i: usize = 0;
    while i < checks.len()
        invariant
            i <= checks.len(),
            forall|k: int| 0 <= k < i ==> checks@[k].status != CheckStatus::Fail,
        decreases checks.len() - i,
    {
        if checks[i].status == CheckStatus::Fail {
            assert(checks_view(checks@)[i as int].status == CheckStatus::Fail);
            return false;
        }
        i = i + 1;
    }
    assert forall|k: int| 0 <= k < checks_view(checks@).len() implies (
    #[trigger] checks_view(checks@)[k]).status != CheckStatus::Fail by {
        assert(checks_view(checks@)[k] == checks@[k]@);
    }
    true
}

fn other_names() -> (v: Vec<&'static str>)
    ensures
        v@.map_values(|s: &str| s@) == check_names().skip(1),
{
    let v = vec![
        "daemon liveness",
        "hook presence",
        "signal freshness",
        "store health",
        "state parse",
        "store permissions",
        "inotify headroom",
        "orphaned services",
        "codex hooks",
        "codex hook flags",
        "mcp registration",
        "mcp server",
    ];
    assert(v@.map_values(|s: &str| s@) == check_names().skip(1));
    v
}

/// Assemble the report from the initialisation check and, when it did not
/// fail, the other checks' results.
pub fn diagnose_with(initialized: Check, rest: Vec<Check>) -> (r: Report)
    ensures
        (checks_view(r.checks@), r.ok) == diagnosis(initialized@, checks_view(rest@)),
{
    let ghost init_v = initialized@;
    if initialized.status == CheckStatus::Fail {
        let names = other_names();
        let mut checks: Vec<Check> = Vec::new();
        checks.push(initialized);
        let mut i: usize = 0;
        while i < names.len()
            invariant
                i <= names.len(),
                names@.map_values(|s: &str| s@) == check_names().skip(1),
                checks_view(checks@) == seq![init_v] + check_names().skip(1).take(i as int).map_values(
                    |n: Seq<char>| na_v(n),
                ),
            decreases names.len() - i,
        {
            let c = Check::na(names[i]);
            let ghost before = checks@;
            checks.push(c);
            assert(checks@ == before.push(c));
            assert(checks_view(checks@) == checks_view(before).push(c@));
            assert(names@[i as int]@ == check_names().skip(1)[i as int]);
            assert(check_names().skip(1).take(i + 1) == check_names().skip(1).take(i as int).push(
                check_names().skip(1)[i as int],
            ));
            i = i + 1;
        }
        assert(check_names().skip(1).take(12) == check_names().skip(1));
        return Report { checks, ok: false };
    }
    let mut checks: Vec<Check> = Vec::new();
    checks.push(initialized);
    let mut rest = rest;
    let ghost rest_v = checks_view(rest@);
    checks.append(&mut rest);
    assert(checks_view(checks@) == seq![init_v] + rest_v);
    let ok = all_pass_or_na(&checks);
    Report { checks, ok }
}

/// A report is ok exactly when none of its checks failed; an advisory never
/// makes it not ok.
pub proof fn law_ok_iff_no_check_failed(initialized: CheckV, rest: Seq<CheckV>)
    ensures
        diagnosis(initialized, rest).1 <==> none_failed(diagnosis(initialized, rest).0),
{
    if initialized.status == CheckStatus::Fail {
        let all = diagnosis(initialized, rest).0;
        assert(all[0] == initialized);
    }
}

/// An uninitialised repo reports the same check set, in the same order, as
/// an initialised one whose other checks all ran.
pub proof fn law_uninitialized_report_has_the_full_check_set(
    failed_init: CheckV,
    passed_init: CheckV,
    rest: Seq<CheckV>,
)
    requires
        failed_init.status == CheckStatus::Fail,
        passed_init.status != CheckStatus::Fail,
        failed_init.name == "initialized"@,
        passed_init.name == "initialized"@,
        names_of(rest) == check_names().skip(1),
    ensures
        names_of(diagnosis(failed_init, rest).0) == check_names(),
        names_of(diagnosis(passed_init, rest).0) == check_names(),
{
    let a = diagnosis(failed_init, rest).0;
    assert(names_of(a) == check_names());
    let b = diagnosis(passed_init, rest).0;
    assert(names_of(b) == seq![passed_init.name] + names_of(rest));
    assert(names_of(b) == check_names());
}


/// A check's result reported under the given name.
pub open spec fn named_v(name: Seq<char>, c: CheckV) -> CheckV {
    CheckV { name, ..c }
}

/// The results of the twelve checks after `initialized`, each under its
/// name in report order.
pub open spec fn named_rest(rest: Seq<CheckV>) -> Seq<CheckV> {
    Seq::new(rest.len(), |i: int| named_v(check_names()[i + 1], rest[i]))
}

/// The `initialized` check for whether `.agentrec/` is a directory.
pub open spec fn initialized_v(agentrec_dir_is_dir: bool) -> CheckV {
    if agentrec_dir_is_dir {
        pass_v("initialized"@)
    } else {
        fail_v("initialized"@, "not initialized \u{2014} run `agentrec init`"@)
    }
}

fn named(name: &str, c: Check) -> (r: Check)
    ensures
        r@ == named_v(name@, c@),
{
    Check { name: String::from_str(name), status: c.status, remedy: c.remedy }
}

/// The full diagnosis: `initialized` first, then the twelve other checks'
/// results, each reported under its own name in the fixed report order
/// (daemon liveness, hook presence, signal freshness, store health, state
/// parse, store permissions, inotify headroom, orphaned services, codex
/// hooks, codex hook flags, mcp registration, mcp server). In a repo that
/// is not initialised the other results are not looked at: each is `n/a`.
pub fn diagnose(
    agentrec_dir_is_dir: bool,
    daemon: Check,
    hooks: Check,
    signal_freshness: Check,
    store_health: Check,
    state_parse: Check,
    permissions: Check,
    inotify: Check,
    orphans: Check,
    codex_hooks: Check,
    codex_hook_flags: Check,
    mcp_registration: Check,
    mcp_server: Check,
) -> (r: Report)
    ensures
        (checks_view(r.checks@), r.ok) == diagnosis(
            initialized_v(agentrec_dir_is_dir),
            named_rest(
                seq![
                    daemon@,
                    hooks@,
                    signal_freshness@,
                    store_health@,
                    state_parse@,
                    permissions@,
                    inotify@,
                    orphans@,
                    codex_hooks@,
                    codex_hook_flags@,
                    mcp_registration@,
                    mcp_server@,
                ],
            ),
        ),
{
    let ghost given = seq![
        daemon@,
        hooks@,
        signal_freshness@,
        store_health@,
        state_parse@,
        permissions@,
        inotify@,
        orphans@,
        codex_hooks@,
        codex_hook_flags@,
        mcp_registration@,
        mcp_server@,
    ];
    let initialized = check_initialized(agentrec_dir_is_dir);
    let names = other_names();
    assert(names@.len() == 12) by {
        assert(names@.map_values(|s: &str| s@).len() == check_names().skip(1).len());
    }
    let mut rest: Vec<Check> = Vec::new();
    rest.push(named(names[0], daemon));
    rest.push(named(names[1], hooks));
    rest.push(named(names[2], signal_freshness));
    rest.push(named(names[3], store_health));
    rest.push(named(names[4], state_parse));
    rest.push(named(names[5], permissions));
    rest.push(named(names[6], inotify));
    rest.push(named(names[7], orphans));
    rest.push(named(names[8], codex_hooks));
    rest.push(named(names[9], codex_hook_flags));
    rest.push(named(names[10], mcp_registration));
    rest.push(named(names[11], mcp_server));
    proof {
        assert forall|i: int| 0 <= i < 12 implies names@[i]@ == check_names()[i + 1] by {
            assert(names@.map_values(|s: &str| s@)[i] == check_names().skip(1)[i]);
        }
        assert(checks_view(rest@) =~= named_rest(given));
    }
    diagnose_with(initialized, rest)
}

/// Every report lists the same thirteen checks in the same order, whether
/// or not the repo is initialised, whatever the checks found.
pub proof fn law_report_lists_every_check_in_order(agentrec_dir_is_dir: bool, rest: Seq<CheckV>)
    requires
        rest.len() == 12,
    ensures
        names_of(diagnosis(initialized_v(agentrec_dir_is_dir), named_rest(rest)).0) == check_names(),
{
    let r = diagnosis(initialized_v(agentrec_dir_is_dir), named_rest(rest)).0;
    assert(names_of(r) =~= check_names());
}

// ---- the checks ------------------------------------------------------------------

/// First check: is `.agentrec/` a directory?
pub fn check_initialized(agentrec_dir_is_dir: bool) -> (c: Check)
    ensures
        c@ == if agentrec_dir_is_dir {
            pass_v("initialized"@)
        } else {
            fail_v("initialized"@, "not initialized \u{2014} run `agentrec init`"@)
        },
{
    if agentrec_dir_is_dir {
        Check::pass("initialized")
    } else {
        Check::fail("initialized", String::from_str("not initialized \u{2014} run `agentrec init`"))
    }
}

/// The `daemon liveness` check's result.
pub open spec fn daemon_check(lock_held: bool) -> CheckV {
    if lock_held {
        pass_v("daemon liveness"@)
    } else {
        fail_v(
            "daemon liveness"@,
            "recorder not running \u{2014} run `agentrec record` (or install the service via `agentrec init`)"@,
        )
    }
}

/// The recorder is reported live exactly when something holds its lock;
/// otherwise the check fails and says how to start it.
pub proof fn law_daemon_liveness(lock_held: bool)
    ensures
        daemon_check(lock_held).name == "daemon liveness"@,
        (daemon_check(lock_held).status == CheckStatus::Pass) == lock_held,
        (daemon_check(lock_held).status == CheckStatus::Fail) == !lock_held,
        lock_held ==> daemon_check(lock_held).remedy is None,
{
}

/// Does something hold the recorder lock right now?
pub fn check_daemon(lock_held: bool) -> (c: Check)
    ensures
        c@ == daemon_check(lock_held),
{
    if lock_held {
        Check::pass("daemon liveness")
    } else {
        Check::fail(
            "daemon liveness",
            String::from_str(
                "recorder not running \u{2014} run `agentrec record` (or install the service via `agentrec init`)",
            ),
        )
    }
}

/// Hook presence: the agent settings file, when it could be read and
/// parsed (`settings`), must carry agentrec's hook on both bracketing events.
pub fn check_hooks(settings: Option<&Doc>) -> (c: Check)
    ensures
        c@ == if match settings {
            Some(d) => bracket_hooks_marked(d@),
            None => false,
        } {
            pass_v("hook presence"@)
        } else {
            fail_v("hook presence"@, "hooks missing/mangled \u{2014} run `agentrec init`"@)
        },
{
    let present = match settings {
        Some(d) => bracket_hooks_present(d),
        None => false,
    };
    if present {
        Check::pass("hook presence")
    } else {
        Check::fail("hook presence", String::from_str("hooks missing/mangled \u{2014} run `agentrec init`"))
    }
}

/// Whether a signal line (parsed) came from the Codex hooks.
pub open spec fn is_codex_signal(v: DocV) -> bool {
    str_of(field(v, "tool"@)) == Some("codex"@)
}

/// Whether any parsed line of the signal inbox has `tool` `"codex"`.
pub fn codex_signal_ever_seen(lines: &Vec<Doc>) -> (r: bool)
    ensures
        r == exists|i: int| 0 <= i < lines@.len() && is_codex_signal(#[trigger] items_view(lines@)[i]),
{
    let mut i: usize = 0;
    while i < lines.len()
        invariant
            i <= lines.len(),
            forall|k: int| 0 <= k < i ==> !is_codex_signal(#[trigger] items_view(lines@)[k]),
        decreases lines.len() - i,
    {
        assert(items_view(lines@)[i as int] == lines@[i as int]@);
        match as_str(get(&lines[i], "tool")) {
            Some(t) => {
                if crate::paths::same_chars(&chars_of(t), &chars_of("codex")) {
                    return true;
                }
            },
            None => {},
        }
        i = i + 1;
    }
    false
}

/// A line of the signal inbox that parses and names the Codex tool.
pub open spec fn codex_signal_line(line: Seq<char>) -> bool {
    match json_parse(line) {
        Ok(v) => is_codex_signal(v),
        Err(_) => false,
    }
}

/// Whether any line of the signal inbox's text parses as a signal whose
/// `tool` is `"codex"` (a line that does not parse is passed over).
pub fn codex_signal_seen_in(text: &str) -> (r: bool)
    ensures
        r == exists|i: int| 0 <= i < lines(text@).len() && codex_signal_line(#[trigger] lines(text@)[i]),
{
    let ls = split_lines(&chars_of(text));
    let mut i: usize = 0;
    while i < ls.len()
        invariant
            i <= ls.len(),
            ls@.len() == lines(text@).len(),
            forall|k: int| 0 <= k < ls@.len() ==> #[trigger] ls@[k]@ == lines(text@)[k],
            forall|k: int| 0 <= k < i ==> !codex_signal_line(#[trigger] lines(text@)[k]),
        decreases ls.len() - i,
    {
        let line = string_of(&ls[i]);
        assert(line@ == lines(text@)[i as int]);
        match parse_json(line.as_str()) {
            Ok(v) => {
                match as_str(get(&v, "tool")) {
                    Some(t) => {
                        if crate::paths::same_chars(&chars_of(t), &chars_of("codex")) {
                            return true;
                        }
                    },
                    None => {},
                }
            },
            Err(_) => {},
        }
        i = i + 1;
    }
    false
}

/// Hook presence from the agent settings file's text (`None`: it could not
/// be read); text that is not JSON fails the check like a missing file.
pub fn check_hooks_text(text: Option<&str>) -> (c: Check)
    ensures
        c@ == if match text {
            Some(t) => match json_parse(t@) {
                Ok(d) => bracket_hooks_marked(d),
                Err(_) => false,
            },
            None => false,
        } {
            pass_v("hook presence"@)
        } else {
            fail_v("hook presence"@, "hooks missing/mangled \u{2014} run `agentrec init`"@)
        },
{
    match text {
        Some(t) => match parse_json(t) {
            Ok(d) => check_hooks(Some(&d)),
            Err(_) => check_hooks(None),
        },
        None => check_hooks(None),
    }
}

/// Fifteen minutes, in nanoseconds: the window of "recent" activity.
pub const RECENT_WINDOW_NANOS: u128 = 900_000_000_000;

/// Whether a file modified `age` ago is recent; `None` is a modification
/// time in the future (clock skew), which counts as recent.
pub open spec fn within_window(age_nanos: Option<u128>) -> bool {
    match age_nanos {
        Some(a) => a < RECENT_WINDOW_NANOS,
        None => true,
    }
}

fn is_within_window(age_nanos: Option<u128>) -> (r: bool)
    ensures
        r == within_window(age_nanos),
{
    match age_nanos {
        Some(a) => a < RECENT_WINDOW_NANOS,
        None => true,
    }
}

pub open spec fn signal_freshness_passes(
    transcript_age: Option<Option<u128>>,
    signal_age: Option<Option<u128>>,
) -> bool {
    match transcript_age {
        None => true,
        Some(t) => !within_window(t) || match signal_age {
            Some(s) => within_window(s),
            None => false,
        },
    }
}

/// The `signal freshness` check's result.
pub open spec fn freshness_check(transcript_age: Option<Option<u128>>, signal_age: Option<Option<u128>>) -> CheckV {
    if signal_freshness_passes(transcript_age, signal_age) {
        pass_v("signal freshness"@)
    } else {
        fail_v(
            "signal freshness"@,
            "agent active but no signals arriving \u{2014} hooks may be disconnected (`agentrec doctor` after `agentrec init`)"@,
        )
    }
}

/// Signal freshness fails exactly when an agent transcript changed within
/// the last fifteen minutes (or is dated in the future) while the signal
/// inbox is missing or has not changed within fifteen minutes (a future
/// date counting as recent).
pub proof fn law_signal_freshness(transcript_age: Option<Option<u128>>, signal_age: Option<Option<u128>>)
    ensures
        (freshness_check(transcript_age, signal_age).status == CheckStatus::Fail) == (match transcript_age {
            Some(t) => (t is None || t.unwrap() < 900_000_000_000) && match signal_age {
                None => true,
                Some(a) => a matches Some(x) && x >= 900_000_000_000,
            },
            None => false,
        }),
        freshness_check(transcript_age, signal_age).name == "signal freshness"@,
{
}

/// Recent transcript activity demands a recent signal inbox.
/// `transcript_age` is the age of the newest transcript (`None`: no
/// transcript tree or no transcript in it); `signal_age` that of the signal
/// inbox (`None`: missing). An inner `None` is a time in the future.
pub fn check_signal_freshness(
    transcript_age: Option<Option<u128>>,
    signal_age: Option<Option<u128>>,
) -> (c: Check)
    ensures
        c@ == freshness_check(transcript_age, signal_age),
{
    let passes = match transcript_age {
        None => true,
        Some(t) => !is_within_window(t) || match signal_age {
            Some(s) => is_within_window(s),
            None => false,
        },
    };
    if passes {
        Check::pass("signal freshness")
    } else {
        Check::fail(
            "signal freshness",
            String::from_str(
                "agent active but no signals arriving \u{2014} hooks may be disconnected (`agentrec doctor` after `agentrec init`)",
            ),
        )
    }
}

pub open spec fn degraded_reasons(snapshot: u64, prompt: u64, non_utf8: u64) -> Seq<Seq<char>> {
    let a: Seq<Seq<char>> = if snapshot > 0 {
        seq![dec(snapshot as nat) + " snapshot writes failed"@]
    } else {
        seq![]
    };
    let b: Seq<Seq<char>> = if prompt > 0 {
        seq![dec(prompt as nat) + " prompt writes failed"@]
    } else {
        seq![]
    };
    let c: Seq<Seq<char>> = if non_utf8 > 0 {
        seq![dec(non_utf8 as nat) + " non-UTF8 paths skipped"@]
    } else {
        seq![]
    };
    a + b + c
}

/// `parts` joined by `sep`.
pub open spec fn joined(parts: Seq<Seq<char>>, sep: Seq<char>) -> Seq<char>
    decreases parts.len(),
{
    if parts.len() == 0 {
        seq![]
    } else if parts.len() == 1 {
        parts[0]
    } else {
        joined(parts.drop_last(), sep) + sep + parts.last()
    }
}

/// Appends `part` to a `sep`-joined list built so far.
fn push_part(out: &mut Vec<char>, first: bool, sep: &str, part: &Vec<char>)
    ensures
        final(out)@ == if first {
            old(out)@ + part@
        } else {
            old(out)@ + sep@ + part@
        },
{
    if !first {
        push_str(out, sep);
    }
    crate::text::push_chars(out, part);
}

/// The `store health` check's result.
pub open spec fn degraded_check(snapshot_failures: u64, prompt_put_failures: u64, non_utf8_path_skips: u64) -> CheckV {
    if snapshot_failures > 0 || prompt_put_failures > 0 || non_utf8_path_skips > 0 {
        fail_v(
            "store health"@,
            "store DEGRADED \u{2014} "@ + joined(
                degraded_reasons(snapshot_failures, prompt_put_failures, non_utf8_path_skips),
                ", "@,
            ) + "; investigate disk/permissions, then `agentrec status --ack-degraded`"@,
        )
    } else {
        pass_v("store health"@)
    }
}

/// Store health fails exactly when some write failed or some path was
/// skipped, and its reasons name each nonzero count before its own kind,
/// in the order snapshots, prompts, non-UTF-8 paths.
pub proof fn law_store_health(snapshot: u64, prompt: u64, non_utf8: u64)
    ensures
        (degraded_check(snapshot, prompt, non_utf8).status == CheckStatus::Fail) == (snapshot > 0 || prompt > 0
            || non_utf8 > 0),
        degraded_check(snapshot, prompt, non_utf8).name == "store health"@,
        degraded_reasons(snapshot, prompt, non_utf8) == (if snapshot > 0 {
            seq![dec(snapshot as nat) + " snapshot writes failed"@]
        } else {
            seq![]
        }) + (if prompt > 0 {
            seq![dec(prompt as nat) + " prompt writes failed"@]
        } else {
            seq![]
        }) + (if non_utf8 > 0 {
            seq![dec(non_utf8 as nat) + " non-UTF8 paths skipped"@]
        } else {
            seq![]
        }),
{
}

/// Store health: any failed snapshot write, failed prompt write or skipped
/// non-UTF-8 path fails it, naming each nonzero counter.
pub fn check_degraded(snapshot_failures: u64, prompt_put_failures: u64, non_utf8_path_skips: u64) -> (c: Check)
    ensures
        c@ == degraded_check(snapshot_failures, prompt_put_failures, non_utf8_path_skips),
{
    if !(snapshot_failures > 0 || prompt_put_failures > 0 || non_utf8_path_skips > 0) {
        return Check::pass("store health");
    }
    let ghost reasons = degraded_reasons(snapshot_failures, prompt_put_failures, non_utf8_path_skips);
    let mut list: Vec<char> = Vec::new();
    let mut n: usize = 0;
    let ghost mut done: Seq<Seq<char>> = seq![];
    if snapshot_failures > 0 {
        let mut part: Vec<char> = Vec::new();
        push_decimal(&mut part, snapshot_failures);
        push_str(&mut part, " snapshot writes failed");
        push_part(&mut list, n == 0, ", ", &part);
        proof {
            done = done.push(part@);
        }
        n = n + 1;
    }
    assert(list@ == joined(done, ", "@));
    if prompt_put_failures > 0 {
        let mut part: Vec<char> = Vec::new();
        push_decimal(&mut part, prompt_put_failures);
        push_str(&mut part, " prompt writes failed");
        push_part(&mut list, n == 0, ", ", &part);
        proof {
            let d0 = done;
            done = done.push(part@);
            assert(done.drop_last() == d0);
        }
        n = n + 1;
    }
    assert(list@ == joined(done, ", "@));
    if non_utf8_path_skips > 0 {
        let mut part: Vec<char> = Vec::new();
        push_decimal(&mut part, non_utf8_path_skips);
        push_str(&mut part, " non-UTF8 paths skipped");
        push_part(&mut list, n == 0, ", ", &part);
        proof {
            let d0 = done;
            done = done.push(part@);
            assert(done.drop_last() == d0);
        }
        n = n + 1;
    }
    assert(done == reasons);
    let mut out: Vec<char> = Vec::new();
    push_str(&mut out, "store DEGRADED \u{2014} ");
    crate::text::push_chars(&mut out, &list);
    push_str(&mut out, "; investigate disk/permissions, then `agentrec status --ack-degraded`");
    Check::fail("store health", string_of(&out))
}


/// The `state parse` check's result.
pub open spec fn state_parse_v(failures: u64, state_path: Seq<char>, last_bad_field: Option<Seq<char>>) -> CheckV {
    if failures > 0 {
        advisory_v(
            "state parse"@,
            dec(failures as nat) + " field(s) in "@ + state_path + " fell back to defaults (last: "@
                + match last_bad_field {
                Some(f) => f,
                None => "unknown"@,
            } + ") \u{2014} advisory only, self-heals on the next write; investigate if this recurs"@,
        )
    } else {
        pass_v("state parse"@)
    }
}

/// `state.json` parse health: advisory only (it self-heals on the next
/// write), so it always renders `pass`.
pub fn check_state_parse(state_parse_failures: u64, state_path: &str, last_bad_field: Option<&str>) -> (c: Check)
    ensures
        c@ == state_parse_v(state_parse_failures, state_path@, crate::hookcmds::opt_view(last_bad_field)),
{
    if state_parse_failures == 0 {
        return Check::pass("state parse");
    }
    let mut out: Vec<char> = Vec::new();
    push_decimal(&mut out, state_parse_failures);
    push_str(&mut out, " field(s) in ");
    push_str(&mut out, state_path);
    push_str(&mut out, " fell back to defaults (last: ");
    match last_bad_field {
        Some(f) => push_str(&mut out, f),
        None => push_str(&mut out, "unknown"),
    }
    push_str(
        &mut out,
        ") \u{2014} advisory only, self-heals on the next write; investigate if this recurs",
    );
    Check::advisory("state parse", string_of(&out))
}

/// The permission bits of a mode.
pub open spec fn perm_bits(mode: u32) -> u32 {
    mode & 0o777
}

pub open spec fn permissions_ok(dir_mode: Option<u32>, log_mode: Option<u32>, blob_mode: Option<u32>) -> bool {
    &&& dir_mode matches Some(m) && perm_bits(m) == 0o700
    &&& match log_mode {
        Some(m) => perm_bits(m) == 0o600,
        None => true,
    }
    &&& match blob_mode {
        Some(m) => perm_bits(m) == 0o600,
        None => true,
    }
}

/// The `store permissions` check's result.
pub open spec fn permissions_check(dir_mode: Option<u32>, log_mode: Option<u32>, blob_mode: Option<u32>) -> CheckV {
    if permissions_ok(dir_mode, log_mode, blob_mode) {
        pass_v("store permissions"@)
    } else {
        fail_v(
            "store permissions"@,
            "store permissions too open \u{2014} reinitialize or chmod 0700/.agentrec 0600 files"@,
        )
    }
}

/// The store-permissions check passes exactly when `.agentrec/` exists with
/// permission bits `0700` and the log and the first blob, where they exist,
/// have `0600`; otherwise it fails, naming the permissions too open.
pub proof fn law_store_permissions(dir_mode: Option<u32>, log_mode: Option<u32>, blob_mode: Option<u32>)
    ensures
        permissions_check(dir_mode, log_mode, blob_mode) == if (dir_mode matches Some(d) && d & 0o777 == 0o700)
            && (log_mode matches Some(l) ==> l & 0o777 == 0o600) && (blob_mode matches Some(b) ==> b & 0o777
            == 0o600) {
            (CheckV { name: "store permissions"@, status: CheckStatus::Pass, remedy: None })
        } else {
            (CheckV {
                name: "store permissions"@,
                status: CheckStatus::Fail,
                remedy: Some("store permissions too open \u{2014} reinitialize or chmod 0700/.agentrec 0600 files"@),
            })
        },
{
}

/// Store permissions: `.agentrec/` must be `0700`; the log and the first
/// blob, where they exist, `0600`. Modes are as `stat` reports them.
pub fn check_permissions(dir_mode: Option<u32>, log_mode: Option<u32>, blob_mode: Option<u32>) -> (c: Check)
    ensures
        c@ == permissions_check(dir_mode, log_mode, blob_mode),
{
    let dir_ok = match dir_mode {
        Some(m) => m & 0o777 == 0o700,
        None => false,
    };
    let log_ok = match log_mode {
        Some(m) => m & 0o777 == 0o600,
        None => true,
    };
    let blob_ok = match blob_mode {
        Some(m) => m & 0o777 == 0o600,
        None => true,
    };
    if dir_ok && log_ok && blob_ok {
        Check::pass("store permissions")
    } else {
        Check::fail(
            "store permissions",
            String::from_str(
                "store permissions too open \u{2014} reinitialize or chmod 0700/.agentrec 0600 files",
            ),
        )
    }
}

/// An installed service unit whose recorded root is not present: its label,
/// that root, and the command that removes it.
pub struct VanishedRoot {
    pub label: String,
    pub root: String,
    pub remove_command: String,
}

/// An installed service unit on a live root whose recorded binary is not
/// present: its label and that binary's path.
pub struct MissingExec {
    pub label: String,
    pub binary: String,
}

pub open spec fn plural(n: nat) -> Seq<char> {
    if n == 1 {
        seq![]
    } else {
        "s"@
    }
}

pub open spec fn vanished_note(n: nat, label: Seq<char>, root: Seq<char>, cmd: Seq<char>) -> Seq<char> {
    dec(n) + " installed service unit"@ + plural(n) + " record a --root that is not present (e.g. "@
        + label + " -> "@ + root
        + ") \u{2014} usually a leftover `agentrec init` in a directory since deleted, though an unmounted volume looks the same from here. If the root is genuinely gone, remove each with: "@
        + cmd
}

pub open spec fn missing_exec_note(n: nat, label: Seq<char>, binary: Seq<char>) -> Seq<char> {
    dec(n) + " installed service unit"@ + plural(n)
        + " record an agentrec binary that is not present (e.g. "@ + label + " -> "@ + binary
        + ") \u{2014} the recorded exec is a snapshot taken at `init` time and is never re-resolved, so moving or upgrading the binary strands it. These fail at spawn and will not record anything at next login; re-run `agentrec init` in that repo to re-record the current binary."@
}

pub open spec fn orphan_notes(vanished: Seq<VanishedRoot>, missing: Seq<MissingExec>) -> Seq<Seq<char>> {
    let a: Seq<Seq<char>> = if vanished.len() > 0 {
        seq![vanished_note(vanished.len(), vanished[0].label@, vanished[0].root@, vanished[0].remove_command@)]
    } else {
        seq![]
    };
    let b: Seq<Seq<char>> = if missing.len() > 0 {
        seq![missing_exec_note(missing.len(), missing[0].label@, missing[0].binary@)]
    } else {
        seq![]
    };
    a + b
}

fn push_plural(out: &mut Vec<char>, n: usize)
    ensures
        final(out)@ == old(out)@ + plural(n as nat),
{
    if n != 1 {
        out.push('s');
        assert(seq!['s'] == "s"@) by {
            reveal_strlit("s");
        }
    }
}

/// The `orphaned services` check's result.
pub open spec fn orphans_v(vanished: Seq<VanishedRoot>, missing_exec: Seq<MissingExec>) -> CheckV {
    if vanished.len() == 0 && missing_exec.len() == 0 {
        pass_v("orphaned services"@)
    } else {
        advisory_v("orphaned services"@, joined(orphan_notes(vanished, missing_exec), " "@))
    }
}

/// Orphaned service units: advisory only (the unit directory is per user,
/// not per repo), naming how many units record a root that is not present
/// and how many record a binary that is not present, with the first of each.
pub fn check_orphan_services(vanished: &Vec<VanishedRoot>, missing_exec: &Vec<MissingExec>) -> (c: Check)
    ensures
        c@ == orphans_v(vanished@, missing_exec@),
{
    if vanished.len() == 0 && missing_exec.len() == 0 {
        return Check::pass("orphaned services");
    }
    let mut out: Vec<char> = Vec::new();
    let ghost mut done: Seq<Seq<char>> = seq![];
    if vanished.len() > 0 {
        let mut part: Vec<char> = Vec::new();
        push_decimal(&mut part, vanished.len() as u64);
        push_str(&mut part, " installed service unit");
        push_plural(&mut part, vanished.len());
        push_str(&mut part, " record a --root that is not present (e.g. ");
        push_str(&mut part, vanished[0].label.as_str());
        push_str(&mut part, " -> ");
        push_str(&mut part, vanished[0].root.as_str());
        push_str(
            &mut part,
            ") \u{2014} usually a leftover `agentrec init` in a directory since deleted, though an unmounted volume looks the same from here. If the root is genuinely gone, remove each with: ",
        );
        push_str(&mut part, vanished[0].remove_command.as_str());
        crate::text::push_chars(&mut out, &part);
        proof {
            done = done.push(part@);
        }
    }
    assert(out@ == joined(done, " "@));
    let first = vanished.len() == 0;
    if missing_exec.len() > 0 {
        let mut part: Vec<char> = Vec::new();
        push_decimal(&mut part, missing_exec.len() as u64);
        push_str(&mut part, " installed service unit");
        push_plural(&mut part, missing_exec.len());
        push_str(&mut part, " record an agentrec binary that is not present (e.g. ");
        push_str(&mut part, missing_exec[0].label.as_str());
        push_str(&mut part, " -> ");
        push_str(&mut part, missing_exec[0].binary.as_str());
        push_str(
            &mut part,
            ") \u{2014} the recorded exec is a snapshot taken at `init` time and is never re-resolved, so moving or upgrading the binary strands it. These fail at spawn and will not record anything at next login; re-run `agentrec init` in that repo to re-record the current binary.",
        );
        push_part(&mut out, first, " ", &part);
        proof {
            let d0 = done;
            done = done.push(part@);
            assert(done.drop_last() == d0);
        }
        assert(out@ == joined(done, " "@));
    }
    assert(done == orphan_notes(vanished@, missing_exec@));
    Check::advisory("orphaned services", string_of(&out))
}

/// Codex hooks: `n/a` unless installed; mangled entries fail; entries that
/// never produced a Codex signal are an advisory (likely still untrusted).
pub fn check_codex_hooks(installed: bool, shape: Result<(), String>, codex_signal_seen: bool) -> (c: Check)
    ensures
        c@ == if !installed {
            na_v("codex hooks"@)
        } else if shape is Err {
            fail_v(
                "codex hooks"@,
                "Codex hook entries missing/mangled ("@ + shape->Err_0@
                    + ") \u{2014} run `agentrec init --codex`"@,
            )
        } else if codex_signal_seen {
            pass_v("codex hooks"@)
        } else {
            advisory_v("codex hooks"@, codex_untrusted_note())
        },
{
    if !installed {
        return Check::na("codex hooks");
    }
    match shape {
        Err(reason) => {
            let mut out: Vec<char> = Vec::new();
            push_str(&mut out, "Codex hook entries missing/mangled (");
            push_str(&mut out, reason.as_str());
            push_str(&mut out, ") \u{2014} run `agentrec init --codex`");
            Check::fail("codex hooks", string_of(&out))
        },
        Ok(()) => {
            if codex_signal_seen {
                Check::pass("codex hooks")
            } else {
                Check::advisory(
                    "codex hooks",
                    String::from_str(
                        "Codex hooks are installed but no tool:\"codex\" line has ever appeared in signal.jsonl \u{2014} if you've used Codex in this repo, the hooks are likely still untrusted: inside Codex run `/hooks` and trust them (`codex exec` gives no warning at all when hooks are silently skipped \u{2014} confirmed live, docs/verify/codex-spike.md). Support verified live against codex-cli 0.146.0.",
                    ),
                )
            }
        },
    }
}

pub open spec fn codex_untrusted_note() -> Seq<char> {
    "Codex hooks are installed but no tool:\"codex\" line has ever appeared in signal.jsonl \u{2014} if you've used Codex in this repo, the hooks are likely still untrusted: inside Codex run `/hooks` and trust them (`codex exec` gives no warning at all when hooks are silently skipped \u{2014} confirmed live, docs/verify/codex-spike.md). Support verified live against codex-cli 0.146.0."@
}


/// The value of the first item named `k` of a nested table.
pub open spec fn item_lookup(items: Seq<(Seq<char>, TomlItemV)>, k: Seq<char>) -> Option<TomlItemV>
    decreases items.len(),
{
    if items.len() == 0 {
        None
    } else if items[0].0 == k {
        Some(items[0].1)
    } else {
        item_lookup(items.drop_first(), k)
    }
}

pub open spec fn table_items_view(items: Seq<(String, TomlItem)>) -> Seq<(Seq<char>, TomlItemV)> {
    items.map_values(|p: (String, TomlItem)| (p.0@, p.1@))
}

/// Whether the item named `key` is the boolean `b`.
fn item_is_bool(items: &Vec<(String, TomlItem)>, key: &str, b: bool) -> (r: bool)
    ensures
        r == (item_lookup(table_items_view(items@), key@) == Some(TomlItemV::Bool(b))),
{
    let k = String::from_str(key);
    let mut i: usize = 0;
    assert(table_items_view(items@).skip(0) == table_items_view(items@));
    while i < items.len()
        invariant
            i <= items.len(),
            k@ == key@,
            item_lookup(table_items_view(items@), key@) == item_lookup(table_items_view(items@).skip(i as int), key@),
        decreases items.len() - i,
    {
        let ghost rest = table_items_view(items@).skip(i as int);
        assert(rest[0] == (items@[i as int].0@, items@[i as int].1@));
        if items[i].0 == k {
            return match &items[i].1 {
                TomlItem::Bool(v) => *v == b,
                _ => false,
            };
        }
        assert(rest.drop_first() == table_items_view(items@).skip(i + 1));
        i = i + 1;
    }
    false
}

pub open spec fn hooks_off_reason() -> Seq<char> {
    "[features] hooks = false disables ALL Codex hooks (confirmed live, codex-cli 0.146.0: `codex features list` reports `hooks  stable  true` by default)"@
}

pub open spec fn codex_hooks_off_reason() -> Seq<char> {
    "[features] codex_hooks = false \u{2014} checked defensively as a possible legacy alias for `hooks`; NOT confirmed live (this key does not appear in `codex features list`'s registry on codex-cli 0.146.0)"@
}

pub open spec fn managed_only_reason() -> Seq<char> {
    "allow_managed_hooks_only = true is declared in this config \u{2014} Codex's own suppression behavior for this key was NOT verified live (spike scope gap); this key is also associated with the enterprise/managed requirements.toml layer, not confirmed to be read from repo-local .codex/config.toml"@
}

pub open spec fn feature_off(es: Seq<(Seq<char>, TomlValueV)>, key: Seq<char>) -> bool {
    match lookup(es, "features"@) {
        Some(TomlValueV::Table(items)) => item_lookup(items, key) == Some(TomlItemV::Bool(false)),
        _ => false,
    }
}

/// The declarations in a parsed `.codex/config.toml` that disable Codex
/// hooks, in check order.
pub open spec fn flag_reasons(es: Seq<(Seq<char>, TomlValueV)>) -> Seq<Seq<char>> {
    let a: Seq<Seq<char>> = if feature_off(es, "hooks"@) {
        seq![hooks_off_reason()]
    } else {
        seq![]
    };
    let b: Seq<Seq<char>> = if feature_off(es, "codex_hooks"@) {
        seq![codex_hooks_off_reason()]
    } else {
        seq![]
    };
    let c: Seq<Seq<char>> = if lookup(es, "allow_managed_hooks_only"@) == Some(TomlValueV::Item(TomlItemV::Bool(true))) {
        seq![managed_only_reason()]
    } else {
        seq![]
    };
    a + b + c
}

fn feature_is_off(es: &Vec<(String, TomlValue)>, key: &str) -> (r: bool)
    ensures
        r == feature_off(entries_view(es@), key@),
{
    match find_entry(es, "features") {
        Some(i) => match &es[i].1 {
            TomlValue::Table(items) => item_is_bool(items, key, false),
            _ => false,
        },
        None => false,
    }
}

/// Codex hook flags: `n/a` unless the hooks are installed; a missing
/// `.codex/config.toml` (`text` is `None`) passes; unparseable TOML fails;
/// otherwise every declaration that disables the hooks is a reason to fail.
pub fn check_codex_hook_flags(installed: bool, config_path: &str, text: Option<&str>) -> (c: Check)
    ensures
        c@ == if !installed {
            na_v("codex hook flags"@)
        } else {
            match text {
                None => pass_v("codex hook flags"@),
                Some(t) => match toml_entries(t@) {
                    Err(_) => fail_v("codex hook flags"@, config_path@ + " is not valid TOML"@),
                    Ok(es) => if flag_reasons(es).len() == 0 {
                        pass_v("codex hook flags"@)
                    } else {
                        fail_v("codex hook flags"@, joined(flag_reasons(es), "; "@))
                    },
                },
            }
        },
{
    if !installed {
        return Check::na("codex hook flags");
    }
    let t = match text {
        None => return Check::pass("codex hook flags"),
        Some(t) => t,
    };
    let es = match parse_toml(t) {
        Err(_) => {
            let mut out: Vec<char> = Vec::new();
            push_str(&mut out, config_path);
            push_str(&mut out, " is not valid TOML");
            return Check::fail("codex hook flags", string_of(&out));
        },
        Ok(es) => es,
    };
    let ghost ev = entries_view(es@);
    let mut out: Vec<char> = Vec::new();
    let mut first = true;
    let ghost mut done: Seq<Seq<char>> = seq![];
    if feature_is_off(&es, "hooks") {
        let part = chars_of(
            "[features] hooks = false disables ALL Codex hooks (confirmed live, codex-cli 0.146.0: `codex features list` reports `hooks  stable  true` by default)",
        );
        push_part(&mut out, first, "; ", &part);
        first = false;
        proof {
            done = done.push(part@);
        }
    }
    assert(out@ == joined(done, "; "@) && first == (done.len() == 0));
    if feature_is_off(&es, "codex_hooks") {
        let part = chars_of(
            "[features] codex_hooks = false \u{2014} checked defensively as a possible legacy alias for `hooks`; NOT confirmed live (this key does not appear in `codex features list`'s registry on codex-cli 0.146.0)",
        );
        push_part(&mut out, first, "; ", &part);
        first = false;
        proof {
            let d0 = done;
            done = done.push(part@);
            assert(done.drop_last() == d0);
        }
    }
    assert(out@ == joined(done, "; "@) && first == (done.len() == 0));
    let managed = match find_entry(&es, "allow_managed_hooks_only") {
        Some(i) => match &es[i].1 {
            TomlValue::Item(TomlItem::Bool(v)) => *v,
            _ => false,
        },
        None => false,
    };
    if managed {
        let part = chars_of(
            "allow_managed_hooks_only = true is declared in this config \u{2014} Codex's own suppression behavior for this key was NOT verified live (spike scope gap); this key is also associated with the enterprise/managed requirements.toml layer, not confirmed to be read from repo-local .codex/config.toml",
        );
        push_part(&mut out, first, "; ", &part);
        first = false;
        proof {
            let d0 = done;
            done = done.push(part@);
            assert(done.drop_last() == d0);
        }
    }
    assert(out@ == joined(done, "; "@) && first == (done.len() == 0));
    assert(done == flag_reasons(ev));
    if first {
        Check::pass("codex hook flags")
    } else {
        Check::fail("codex hook flags", string_of(&out))
    }
}

/// The kernel's `max_user_watches` as read from procfs (`None`: unreadable),
/// trimmed and parsed; 8192 when absent or unparseable.
pub open spec fn max_user_watches(text: Option<Seq<char>>) -> u64 {
    match text {
        Some(t) => match parse_u64_spec(trim(t)) {
            Some(n) => n,
            None => 8192,
        },
        None => 8192,
    }
}

pub fn max_user_watches_from(text: Option<&str>) -> (n: u64)
    ensures
        n == max_user_watches(match text {
            Some(t) => Some(t@),
            None => None,
        }),
{
    match text {
        Some(t) => {
            let cs = chars_of(t);
            let trimmed = trim_chars(&cs);
            match parse_u64(&trimmed) {
                Some(n) => n,
                None => 8192,
            }
        },
        None => 8192,
    }
}

/// The walk never counts past this many directories.
pub const WATCH_CEILING: u64 = 2_000_000;

/// A running count of the directories a recursive watcher would arm, which
/// stops as soon as it exceeds the limit under test (or reaches the
/// ceiling).
pub struct WatchEstimate {
    pub count: u64,
    pub limit: u64,
}

impl WatchEstimate {
    /// A count that stops once it reaches `min(stop_above + 1, ceiling)`.
    pub fn new(stop_above: u64) -> (e: WatchEstimate)
        ensures
            e.count == 0,
            e.limit == if stop_above + 1 <= WATCH_CEILING {
                stop_above + 1
            } else {
                WATCH_CEILING as int
            },
    {
        let limit = if stop_above < WATCH_CEILING {
            stop_above + 1
        } else {
            WATCH_CEILING
        };
        WatchEstimate { count: 0, limit }
    }

    /// One walked entry: a directory is counted. Returns whether the walk
    /// may stop.
    pub fn observe(&mut self, is_dir: bool) -> (stop: bool)
        requires
            old(self).count < old(self).limit,
        ensures
            final(self).limit == old(self).limit,
            final(self).count == if is_dir {
                old(self).count + 1
            } else {
                old(self).count as int
            },
            stop == (final(self).count >= final(self).limit),
    {
        if is_dir {
            self.count = self.count + 1;
        }
        self.count >= self.limit
    }
}

/// The `inotify headroom` check's result.
pub open spec fn inotify_check(estimate: u64, max_watches: u64) -> CheckV {
    if estimate > max_watches {
        fail_v(
            "inotify headroom"@,
            "inotify headroom too low (at least "@ + dec(estimate as nat) + " dirs to watch vs "@
                + dec(max_watches as nat)
                + " max_user_watches) \u{2014} raise it: sudo sysctl fs.inotify.max_user_watches=524288"@,
        )
    } else {
        pass_v("inotify headroom"@)
    }
}

/// The inotify check fails exactly when more directories are to be watched
/// than the limit allows, and its remedy names both counts, the estimate
/// first.
pub proof fn law_inotify_headroom(estimate: u64, max_watches: u64)
    ensures
        inotify_check(estimate, max_watches).name == "inotify headroom"@,
        (inotify_check(estimate, max_watches).status == CheckStatus::Fail) == (estimate > max_watches),
        inotify_check(estimate, max_watches).status != CheckStatus::Na,
        estimate > max_watches ==> inotify_check(estimate, max_watches).remedy == Some(
            "inotify headroom too low (at least "@ + dec(estimate as nat) + " dirs to watch vs "@ + dec(
                max_watches as nat,
            ) + " max_user_watches) \u{2014} raise it: sudo sysctl fs.inotify.max_user_watches=524288"@,
        ),
{
}

/// inotify headroom: fails when at least `estimate` directories need a watch
/// and that exceeds `max_watches`.
pub fn check_inotify(estimate: u64, max_watches: u64) -> (c: Check)
    ensures
        c@ == inotify_check(estimate, max_watches),
{
    if estimate <= max_watches {
        return Check::pass("inotify headroom");
    }
    let mut out: Vec<char> = Vec::new();
    push_str(&mut out, "inotify headroom too low (at least ");
    push_decimal(&mut out, estimate);
    push_str(&mut out, " dirs to watch vs ");
    push_decimal(&mut out, max_watches);
    push_str(
        &mut out,
        " max_user_watches) \u{2014} raise it: sudo sysctl fs.inotify.max_user_watches=524288",
    );
    Check::fail("inotify headroom", string_of(&out))
}

/// The `mcp server` check's result.
pub open spec fn mcp_server_v(exe: Result<bool, String>, probe: Option<Result<(), String>>) -> CheckV {
    match exe {
        Err(e) => advisory_v("mcp server"@, "cannot resolve agentrec's own binary ("@ + e@ + ")"@),
        Ok(false) => advisory_v("mcp server"@, mcp_probe_skipped_note()),
        Ok(true) => match probe {
            Some(Ok(())) => pass_v("mcp server"@),
            Some(Err(reason)) => advisory_v(
                "mcp server"@,
                "`agentrec mcp` did not answer `initialize` ("@ + reason@
                    + ") \u{2014} MCP hosts will see a dead server; try running `agentrec mcp` by hand to see the startup error"@,
            ),
            None => pass_v("mcp server"@),
        },
    }
}

/// The MCP server probe: advisory only. `exe` is the resolution of the
/// running binary (whether its file stem is `agentrec`, or the error);
/// `probe` is the outcome of the `initialize` round-trip, run exactly when
/// that stem is `agentrec`.
pub fn check_mcp_server(exe: Result<bool, String>, probe: Option<Result<(), String>>) -> (c: Check)
    requires
        (exe == Ok::<bool, String>(true)) == (probe is Some),
    ensures
        c@ == mcp_server_v(exe, probe),
{
    match exe {
        Err(e) => {
            let mut out: Vec<char> = Vec::new();
            push_str(&mut out, "cannot resolve agentrec's own binary (");
            push_str(&mut out, e.as_str());
            push_str(&mut out, ")");
            Check::advisory("mcp server", string_of(&out))
        },
        Ok(false) => Check::advisory(
            "mcp server",
            String::from_str(
                "probe skipped \u{2014} doctor is not running from the `agentrec` binary (in-process test harness); run `agentrec doctor` to exercise it",
            ),
        ),
        Ok(true) => match probe {
            Some(Err(reason)) => {
                let mut out: Vec<char> = Vec::new();
                push_str(&mut out, "`agentrec mcp` did not answer `initialize` (");
                push_str(&mut out, reason.as_str());
                push_str(
                    &mut out,
                    ") \u{2014} MCP hosts will see a dead server; try running `agentrec mcp` by hand to see the startup error",
                );
                Check::advisory("mcp server", string_of(&out))
            },
            _ => Check::pass("mcp server"),
        },
    }
}

pub open spec fn mcp_probe_skipped_note() -> Seq<char> {
    "probe skipped \u{2014} doctor is not running from the `agentrec` binary (in-process test harness); run `agentrec doctor` to exercise it"@
}


pub open spec fn claude_mcp_note(path: Seq<char>, state: Result<McpRegState, String>) -> Seq<Seq<char>> {
    match state {
        Ok(McpRegState::Ours) => seq![],
        Ok(McpRegState::Absent) => seq![
            "the agentrec MCP server is not registered in "@ + path
                + " \u{2014} run `agentrec init` to add it"@,
        ],
        Ok(McpRegState::Foreign) => seq![
            path + " declares a server named \"agentrec\" that is not `agentrec mcp` \u{2014} left untouched by init and uninstall"@,
        ],
        Err(e) => seq![e@],
    }
}

pub open spec fn codex_mcp_note(path: Seq<char>, state: Result<McpRegState, String>) -> Seq<Seq<char>> {
    match state {
        Ok(McpRegState::Ours) => seq![],
        Ok(McpRegState::Absent) => seq![
            "Codex hooks are installed but "@ + path
                + " declares no [mcp_servers.agentrec] \u{2014} run `agentrec init --codex`"@,
        ],
        Ok(McpRegState::Foreign) => seq![
            path + " declares an [mcp_servers.agentrec] that is not `agentrec mcp` \u{2014} left untouched by init and uninstall"@,
        ],
        Err(e) => seq![e@],
    }
}

pub open spec fn mcp_registration_notes(
    claude_path: Seq<char>,
    claude_state: Result<McpRegState, String>,
    codex_path: Seq<char>,
    codex_state: Result<McpRegState, String>,
    codex_hooks_installed: bool,
) -> Seq<Seq<char>> {
    let codex_opted_in = codex_hooks_installed || codex_state == Ok::<McpRegState, String>(
        McpRegState::Ours,
    );
    claude_mcp_note(claude_path, claude_state) + if codex_opted_in {
        codex_mcp_note(codex_path, codex_state)
    } else {
        seq![]
    }
}

fn mcp_note(claude: bool, path: &str, state: &Result<McpRegState, String>) -> (r: Option<Vec<char>>)
    ensures
        match r {
            Some(n) => (if claude {
                claude_mcp_note(path@, *state)
            } else {
                codex_mcp_note(path@, *state)
            }) == seq![n@],
            None => (if claude {
                claude_mcp_note(path@, *state)
            } else {
                codex_mcp_note(path@, *state)
            }).len() == 0,
        },
{
    let mut out: Vec<char> = Vec::new();
    match state {
        Ok(McpRegState::Ours) => {
            return None;
        },
        Ok(McpRegState::Absent) => {
            if claude {
                push_str(&mut out, "the agentrec MCP server is not registered in ");
                push_str(&mut out, path);
                push_str(&mut out, " \u{2014} run `agentrec init` to add it");
            } else {
                push_str(&mut out, "Codex hooks are installed but ");
                push_str(&mut out, path);
                push_str(
                    &mut out,
                    " declares no [mcp_servers.agentrec] \u{2014} run `agentrec init --codex`",
                );
            }
        },
        Ok(McpRegState::Foreign) => {
            push_str(&mut out, path);
            if claude {
                push_str(
                    &mut out,
                    " declares a server named \"agentrec\" that is not `agentrec mcp` \u{2014} left untouched by init and uninstall",
                );
            } else {
                push_str(
                    &mut out,
                    " declares an [mcp_servers.agentrec] that is not `agentrec mcp` \u{2014} left untouched by init and uninstall",
                );
            }
        },
        Err(e) => {
            push_str(&mut out, e.as_str());
        },
    }
    Some(out)
}

/// The `mcp registration` check's result.
pub open spec fn mcp_registration_v(
    claude_path: Seq<char>,
    claude_state: Result<McpRegState, String>,
    codex_path: Seq<char>,
    codex_state: Result<McpRegState, String>,
    codex_hooks_installed: bool,
) -> CheckV {
    let notes = mcp_registration_notes(claude_path, claude_state, codex_path, codex_state, codex_hooks_installed);
    if notes.len() == 0 {
        pass_v("mcp registration"@)
    } else {
        advisory_v("mcp registration"@, joined(notes, "; "@))
    }
}

/// The advisory checks — state parse, orphaned services, mcp registration
/// and mcp server — never fail, whatever they found.
pub proof fn law_advisory_checks_never_fail(
    failures: u64,
    state_path: Seq<char>,
    last_bad_field: Option<Seq<char>>,
    vanished: Seq<VanishedRoot>,
    missing_exec: Seq<MissingExec>,
    claude_path: Seq<char>,
    claude_state: Result<McpRegState, String>,
    codex_path: Seq<char>,
    codex_state: Result<McpRegState, String>,
    codex_hooks_installed: bool,
    exe: Result<bool, String>,
    probe: Option<Result<(), String>>,
)
    ensures
        state_parse_v(failures, state_path, last_bad_field).status != CheckStatus::Fail,
        orphans_v(vanished, missing_exec).status != CheckStatus::Fail,
        mcp_registration_v(claude_path, claude_state, codex_path, codex_state, codex_hooks_installed).status
            != CheckStatus::Fail,
        mcp_server_v(exe, probe).status != CheckStatus::Fail,
{
}

/// MCP registration: advisory only. The `.mcp.json` registry is always
/// inspected; the Codex one only when Codex was opted into (its hooks are
/// installed, or our entry is already registered there).
pub fn check_mcp_registration(
    claude_path: &str,
    claude_state: Result<McpRegState, String>,
    codex_path: &str,
    codex_state: Result<McpRegState, String>,
    codex_hooks_installed: bool,
) -> (c: Check)
    ensures
        c@ == mcp_registration_v(claude_path@, claude_state, codex_path@, codex_state, codex_hooks_installed),
{
    let ghost notes = mcp_registration_notes(
        claude_path@,
        claude_state,
        codex_path@,
        codex_state,
        codex_hooks_installed,
    );
    let mut out: Vec<char> = Vec::new();
    let mut first = true;
    let ghost mut done: Seq<Seq<char>> = seq![];
    match mcp_note(true, claude_path, &claude_state) {
        Some(n) => {
            push_part(&mut out, first, "; ", &n);
            first = false;
            proof {
                done = done.push(n@);
            }
        },
        None => {},
    }
    assert(out@ == joined(done, "; "@) && first == (done.len() == 0));
    assert(done == claude_mcp_note(claude_path@, claude_state));
    let opted_in = codex_hooks_installed || match &codex_state {
        Ok(McpRegState::Ours) => true,
        _ => false,
    };
    if opted_in {
        match mcp_note(false, codex_path, &codex_state) {
            Some(n) => {
                push_part(&mut out, first, "; ", &n);
                first = false;
                proof {
                    let d0 = done;
                    done = done.push(n@);
                    assert(done.drop_last() == d0);
                }
            },
            None => {},
        }
    }
    assert(out@ == joined(done, "; "@) && first == (done.len() == 0));
    assert(done == notes);
    if first {
        Check::pass("mcp registration")
    } else {
        Check::advisory("mcp registration", string_of(&out))
    }
}

/// The verdict on the MCP server's first reply line to `initialize`
/// (`parsed`: the line read as JSON, or the parser's message): answered
/// when the reply's `result.protocolVersion` is a string.
pub open spec fn probe_answer_spec(line: Seq<char>, parsed: Result<DocV, Seq<char>>) -> Result<(), Seq<char>> {
    match parsed {
        Err(e) => Err("response was not JSON ("@ + e + ")"@),
        Ok(v) => if str_of(field_of(field(v, "result"@), "protocolVersion"@)) is Some {
            Ok(())
        } else {
            Err("unexpected first frame: "@ + crate::text::trim(line))
        },
    }
}

pub fn probe_answer(line: &str, parsed: Result<&Doc, &str>) -> (r: Result<(), String>)
    ensures
        match r {
            Ok(()) => probe_answer_spec(line@, match parsed {
                Ok(d) => Ok(d@),
                Err(e) => Err(e@),
            }) == Ok::<(), Seq<char>>(()),
            Err(m) => probe_answer_spec(line@, match parsed {
                Ok(d) => Ok(d@),
                Err(e) => Err(e@),
            }) == Err::<(), Seq<char>>(m@),
        },
{
    match parsed {
        Err(e) => {
            let mut out: Vec<char> = Vec::new();
            push_str(&mut out, "response was not JSON (");
            push_str(&mut out, e);
            push_str(&mut out, ")");
            Err(string_of(&out))
        },
        Ok(v) => {
            if as_str(get_in(get(v, "result"), "protocolVersion")).is_some() {
                Ok(())
            } else {
                let mut out: Vec<char> = Vec::new();
                push_str(&mut out, "unexpected first frame: ");
                let t = crate::text::trim_chars(&chars_of(line));
                push_chars(&mut out, &t);
                Err(string_of(&out))
            }
        },
    }
}

/// The verdict on the MCP server's first reply line, read as JSON after
/// trimming.
pub fn probe_answer_text(line: &str) -> (r: Result<(), String>)
    ensures
        match r {
            Ok(()) => probe_answer_spec(line@, json_parse(trim(line@))) == Ok::<(), Seq<char>>(()),
            Err(m) => probe_answer_spec(line@, json_parse(trim(line@))) == Err::<(), Seq<char>>(m@),
        },
{
    let t = string_of(&trim_chars(&chars_of(line)));
    match parse_json(t.as_str()) {
        Ok(d) => probe_answer(line, Ok(&d)),
        Err(e) => probe_answer(line, Err(e.as_str())),
    }
}

} // verus!
