//! `agentrec status`: the report rendered from the figures the store, the
//! log and the recorder's state give. Byte sizes arrive already rendered
//! (`12.5 KiB`), and so does the rich-rate percentage: both are floating
//! point renderings made where the figures are read. Everything else —
//! which lines appear, their wording, the gap breakdown, the liveness
//! warning, the rich-rate window and warning, the eviction notice and the
//! degraded banners — is decided here.

use vstd::prelude::*;
use crate::text::{
    contains_seq, dec, lemma_contains_seq_extend, lemma_contains_seq_part, push_chars, push_decimal, push_str,
    string_of,
};

verus! {

/// What the store's budget situation calls for.
pub enum Eviction {
    /// The store is within its budget.
    Within,
    /// The bytes counted toward the budget exceed it: the next eviction
    /// pass would free `freed` (all sizes rendered).
    OverBudget {
        budgeted: String,
        budget: String,
        freed: String,
        protected_bytes: u64,
        protected: String,
        orphan_bytes: u64,
        orphans: String,
    },
    /// Only the bytes on disk exceed the budget: the evictor has nothing
    /// to take.
    OnDiskOnly { size: String, budget: String, budgeted: String, orphan_bytes: u64, orphans: String },
}

/// The rich-rate over the trailing agent turns: how many of them are rich,
/// how many there are, and the percentage as rendered.
pub struct RichRate {
    pub rich: u64,
    pub window: u64,
    pub percent: String,
}

/// The figures `status` reports.
pub struct StatusFacts {
    /// Every byte under the store, rendered.
    pub store: String,
    /// The bytes counted toward the budget, rendered.
    pub budgeted: String,
    /// The signal inbox's size, rendered.
    pub inbox: String,
    /// The inbox bytes already consumed (the offset, clamped to the size),
    /// and their rendering.
    pub consumed_bytes: u64,
    pub consumed: String,
    /// Agent turns in the log.
    pub turns: u64,
    pub crash_gaps: u64,
    pub restart_gaps: u64,
    pub trailing_stop_gaps: u64,
    /// Something holds the recorder's lock.
    pub daemon_live: bool,
    /// Ignore-file reloads in the current recorder epoch, and when the last
    /// one happened (rendered relative to now).
    pub epoch_reloads: u64,
    pub last_reload: String,
    /// `None` when there are no agent turns yet.
    pub rich_rate: Option<RichRate>,
    pub memories_fresh: u64,
    pub memories_stale: u64,
    pub memory_rejects: u64,
    pub injections: u64,
    pub memory_failures: u64,
    pub eviction: Eviction,
    pub snapshot_failures: u64,
    pub io_failed: Vec<String>,
    pub non_utf8_path_skips: u64,
    pub prompt_put_failures: u64,
    pub state_parse_failures: u64,
    pub last_bad_field: Option<String>,
}

/// `s` when `b`, else nothing.
pub open spec fn when(b: bool, s: Seq<char>) -> Seq<char> {
    if b {
        s
    } else {
        seq![]
    }
}

pub open spec fn store_line(f: StatusFacts) -> Seq<char> {
    "store:      "@ + f.store@ + " on disk, "@ + f.budgeted@ + " counted toward the budget\n"@
}

pub open spec fn inbox_line(f: StatusFacts) -> Seq<char> {
    "inbox:      "@ + f.inbox@ + " signal.jsonl"@ + when(
        f.consumed_bytes > 0,
        " ("@ + f.consumed@ + " consumed \u{2014} reclaim with `agentrec purge --signals-consumed`)"@,
    ) + "\n"@
}

pub open spec fn turns_line(f: StatusFacts) -> Seq<char> {
    "turns:      "@ + dec(f.turns as nat) + " (agent turns; git activity hidden)\n"@
}

/// Every recording gap, whatever its kind.
pub open spec fn total_gaps(f: StatusFacts) -> nat {
    (f.crash_gaps + f.restart_gaps + f.trailing_stop_gaps) as nat
}

/// The gap count, broken down by kind when there is any.
pub open spec fn gaps_line(f: StatusFacts) -> Seq<char> {
    "gaps:       "@ + dec(total_gaps(f)) + " recording gap(s)"@ + when(
        total_gaps(f) > 0,
        " ("@ + dec(f.crash_gaps as nat) + " crash, "@ + dec(f.restart_gaps as nat) + " restart, "@ + dec(
            f.trailing_stop_gaps as nat,
        ) + " since last stop)"@,
    ) + "\n"@
}

/// The recorder's liveness, with a warning when it is not running.
pub open spec fn daemon_lines(f: StatusFacts) -> Seq<char> {
    if f.daemon_live {
        "daemon:     running\n"@
    } else {
        "daemon:     not running\n"@
            + "  \u{26a0} recorder not running \u{2014} nothing is being recorded (run `agentrec record`)\n"@
    }
}

/// The reload line, shown only while the recorder runs and has reloaded.
pub open spec fn ignore_line(f: StatusFacts) -> Seq<char> {
    when(
        f.daemon_live && f.epoch_reloads > 0,
        "ignore:     reloaded "@ + dec(f.epoch_reloads as nat) + " time(s), last "@ + f.last_reload@ + "\n"@,
    )
}

/// Below 90 % rich warns.
pub open spec fn rate_is_low(r: RichRate) -> bool {
    10 * r.rich < 9 * r.window
}

pub open spec fn rich_lines(f: StatusFacts) -> Seq<char> {
    match f.rich_rate {
        None => "rich-rate:  n/a (no agent turns yet)\n"@,
        Some(r) => "rich-rate:  "@ + r.percent@ + "% over trailing "@ + dec(r.window as nat) + " agent turn(s)\n"@
            + when(
            rate_is_low(r),
            "  \u{26a0} rich-rate below 90% \u{2014} hooks may be broken (check `agentrec doctor`)\n"@,
        ),
    }
}

pub open spec fn memory_line(f: StatusFacts) -> Seq<char> {
    "memory:     "@ + dec(f.memories_fresh as nat) + " fresh, "@ + dec(f.memories_stale as nat) + " stale, "@ + dec(
        f.memory_rejects as nat,
    ) + " rejects, "@ + dec(f.injections as nat) + " injections, "@ + dec(f.memory_failures as nat)
        + " failures\n"@
}

pub open spec fn orphans_clause(orphan_bytes: u64, orphans: Seq<char>) -> Seq<char> {
    when(
        orphan_bytes > 0,
        "; "@ + orphans + " is unreferenced (superseded snapshots) \u{2014} run `agentrec purge --orphans` to reclaim"@,
    )
}

/// The budget notice: what eviction would free and why it may be little,
/// or why it can free nothing; nothing within budget.
pub open spec fn eviction_lines(f: StatusFacts) -> Seq<char> {
    match f.eviction {
        Eviction::Within => seq![],
        Eviction::OverBudget { budgeted, budget, freed, protected_bytes, protected, orphan_bytes, orphans } => "store "@
            + budgeted@ + " counted toward budget, over "@ + budget@ + " \u{2014} would free "@ + freed@ + when(
            protected_bytes > 0,
            "; "@ + protected@ + " protected (pinned or in-flight \u{2014} never evicted)"@,
        ) + orphans_clause(orphan_bytes, orphans@) + when(
            !f.daemon_live,
            "; daemon not running \u{2014} nothing is evicting"@,
        ) + "\n"@,
        Eviction::OnDiskOnly { size, budget, budgeted, orphan_bytes, orphans } => "store "@ + size@
            + " on disk is over the "@ + budget@ + " budget, but only "@ + budgeted@
            + " is subject to eviction \u{2014} the evictor has no candidates and will free nothing"@
            + orphans_clause(orphan_bytes, orphans@) + "\n"@,
    }
}

/// One indented line per affected file.
pub open spec fn affected_lines(ps: Seq<String>) -> Seq<char>
    decreases ps.len(),
{
    if ps.len() == 0 {
        seq![]
    } else {
        affected_lines(ps.drop_last()) + "    "@ + ps.last()@ + "\n"@
    }
}

/// The file-write banners: failed snapshots (with the files affected) and
/// paths skipped for not being UTF-8.
pub open spec fn degraded_lines(f: StatusFacts) -> Seq<char> {
    when(
        f.snapshot_failures > 0 || f.non_utf8_path_skips > 0,
        "\n"@ + when(
            f.snapshot_failures > 0,
            "DEGRADED \u{2014} "@ + dec(f.snapshot_failures as nat)
                + " snapshot write(s) failed (likely disk full or permissions); undo on affected files has no snapshot. Run `agentrec status --ack-degraded` to acknowledge.\n"@
                + when(f.io_failed@.len() > 0, "  affected files:\n"@ + affected_lines(f.io_failed@)),
        ) + when(
            f.non_utf8_path_skips > 0,
            "DEGRADED \u{2014} "@ + dec(f.non_utf8_path_skips as nat)
                + " file change(s) skipped (non-UTF8 path \u{2014} cannot be represented in a wire record); those files have no coverage and undo/blame can't track them. Run `agentrec status --ack-degraded` to acknowledge.\n"@,
        ),
    )
}

pub open spec fn prompt_lines(f: StatusFacts) -> Seq<char> {
    when(
        f.prompt_put_failures > 0,
        "\n"@ + "DEGRADED \u{2014} "@ + dec(f.prompt_put_failures as nat)
            + " prompt write(s) failed (likely disk full or permissions); `show --prompt` on affected turns has no full-text prompt (the excerpt is unaffected). Run `agentrec status --ack-degraded` to acknowledge.\n"@,
    )
}

pub open spec fn state_lines(f: StatusFacts) -> Seq<char> {
    when(
        f.state_parse_failures > 0,
        "\n"@ + "state.json had "@ + dec(f.state_parse_failures as nat) + " field(s) fall back to defaults (last: "@
            + match f.last_bad_field {
            Some(b) => b@,
            None => "unknown"@,
        } + ") \u{2014} self-heals on the next write; run `agentrec doctor` for detail.\n"@,
    )
}

/// The whole report, line group by line group.
pub open spec fn status_text_spec(f: StatusFacts) -> Seq<char> {
    store_line(f) + inbox_line(f) + turns_line(f) + gaps_line(f) + daemon_lines(f) + ignore_line(f)
        + rich_lines(f) + memory_line(f) + eviction_lines(f) + degraded_lines(f) + prompt_lines(f)
        + state_lines(f)
}

fn push_store_line(out: &mut Vec<char>, f: &StatusFacts)
    ensures
        final(out)@ == old(out)@ + store_line(*f),
{
    let mut l: Vec<char> = Vec::new();
    push_str(&mut l, "store:      ");
    push_str(&mut l, f.store.as_str());
    push_str(&mut l, " on disk, ");
    push_str(&mut l, f.budgeted.as_str());
    push_str(&mut l, " counted toward the budget\n");
    assert(l@ =~= store_line(*f));
    push_chars(out, &l);
}

fn push_inbox_line(out: &mut Vec<char>, f: &StatusFacts)
    ensures
        final(out)@ == old(out)@ + inbox_line(*f),
{
    let mut l: Vec<char> = Vec::new();
    push_str(&mut l, "inbox:      ");
    push_str(&mut l, f.inbox.as_str());
    push_str(&mut l, " signal.jsonl");
    if f.consumed_bytes > 0 {
        push_str(&mut l, " (");
        push_str(&mut l, f.consumed.as_str());
        push_str(&mut l, " consumed \u{2014} reclaim with `agentrec purge --signals-consumed`)");
    }
    push_str(&mut l, "\n");
    assert(l@ =~= inbox_line(*f));
    push_chars(out, &l);
}

fn push_turns_line(out: &mut Vec<char>, f: &StatusFacts)
    ensures
        final(out)@ == old(out)@ + turns_line(*f),
{
    let mut l: Vec<char> = Vec::new();
    push_str(&mut l, "turns:      ");
    push_decimal(&mut l, f.turns);
    push_str(&mut l, " (agent turns; git activity hidden)\n");
    assert(l@ =~= turns_line(*f));
    push_chars(out, &l);
}

fn push_gaps_line(out: &mut Vec<char>, f: &StatusFacts)
    requires
        f.crash_gaps + f.restart_gaps + f.trailing_stop_gaps <= u64::MAX,
    ensures
        final(out)@ == old(out)@ + gaps_line(*f),
{
    let total = f.crash_gaps + f.restart_gaps + f.trailing_stop_gaps;
    let mut l: Vec<char> = Vec::new();
    push_str(&mut l, "gaps:       ");
    push_decimal(&mut l, total);
    push_str(&mut l, " recording gap(s)");
    if total > 0 {
        push_str(&mut l, " (");
        push_decimal(&mut l, f.crash_gaps);
        push_str(&mut l, " crash, ");
        push_decimal(&mut l, f.restart_gaps);
        push_str(&mut l, " restart, ");
        push_decimal(&mut l, f.trailing_stop_gaps);
        push_str(&mut l, " since last stop)");
    }
    push_str(&mut l, "\n");
    assert(l@ =~= gaps_line(*f));
    push_chars(out, &l);
}

fn push_daemon_lines(out: &mut Vec<char>, f: &StatusFacts)
    ensures
        final(out)@ == old(out)@ + daemon_lines(*f),
{
    let mut l: Vec<char> = Vec::new();
    if f.daemon_live {
        push_str(&mut l, "daemon:     running\n");
    } else {
        push_str(&mut l, "daemon:     not running\n");
        push_str(
            &mut l,
            "  \u{26a0} recorder not running \u{2014} nothing is being recorded (run `agentrec record`)\n",
        );
    }
    assert(l@ =~= daemon_lines(*f));
    push_chars(out, &l);
}

fn push_ignore_line(out: &mut Vec<char>, f: &StatusFacts)
    ensures
        final(out)@ == old(out)@ + ignore_line(*f),
{
    let mut l: Vec<char> = Vec::new();
    if f.daemon_live && f.epoch_reloads > 0 {
        push_str(&mut l, "ignore:     reloaded ");
        push_decimal(&mut l, f.epoch_reloads);
        push_str(&mut l, " time(s), last ");
        push_str(&mut l, f.last_reload.as_str());
        push_str(&mut l, "\n");
    }
    assert(l@ =~= ignore_line(*f));
    push_chars(out, &l);
}

fn push_rich_lines(out: &mut Vec<char>, f: &StatusFacts)
    ensures
        final(out)@ == old(out)@ + rich_lines(*f),
{
    let mut l: Vec<char> = Vec::new();
    match &f.rich_rate {
        None => {
            push_str(&mut l, "rich-rate:  n/a (no agent turns yet)\n");
        },
        Some(r) => {
            push_str(&mut l, "rich-rate:  ");
            push_str(&mut l, r.percent.as_str());
            push_str(&mut l, "% over trailing ");
            push_decimal(&mut l, r.window);
            push_str(&mut l, " agent turn(s)\n");
            if (r.rich as u128) * 10 < (r.window as u128) * 9 {
                push_str(
                    &mut l,
                    "  \u{26a0} rich-rate below 90% \u{2014} hooks may be broken (check `agentrec doctor`)\n",
                );
            }
        },
    }
    assert(l@ =~= rich_lines(*f));
    push_chars(out, &l);
}

fn push_memory_line(out: &mut Vec<char>, f: &StatusFacts)
    ensures
        final(out)@ == old(out)@ + memory_line(*f),
{
    let mut l: Vec<char> = Vec::new();
    push_str(&mut l, "memory:     ");
    push_decimal(&mut l, f.memories_fresh);
    push_str(&mut l, " fresh, ");
    push_decimal(&mut l, f.memories_stale);
    push_str(&mut l, " stale, ");
    push_decimal(&mut l, f.memory_rejects);
    push_str(&mut l, " rejects, ");
    push_decimal(&mut l, f.injections);
    push_str(&mut l, " injections, ");
    push_decimal(&mut l, f.memory_failures);
    push_str(&mut l, " failures\n");
    assert(l@ =~= memory_line(*f));
    push_chars(out, &l);
}

fn push_orphans_clause(out: &mut Vec<char>, orphan_bytes: u64, orphans: &String)
    ensures
        final(out)@ == old(out)@ + orphans_clause(orphan_bytes, orphans@),
{
    let mut l: Vec<char> = Vec::new();
    if orphan_bytes > 0 {
        push_str(&mut l, "; ");
        push_str(&mut l, orphans.as_str());
        push_str(
            &mut l,
            " is unreferenced (superseded snapshots) \u{2014} run `agentrec purge --orphans` to reclaim",
        );
    }
    assert(l@ =~= orphans_clause(orphan_bytes, orphans@));
    push_chars(out, &l);
}

fn push_eviction_lines(out: &mut Vec<char>, f: &StatusFacts)
    ensures
        final(out)@ == old(out)@ + eviction_lines(*f),
{
    let mut l: Vec<char> = Vec::new();
    match &f.eviction {
        Eviction::Within => {},
        Eviction::OverBudget { budgeted, budget, freed, protected_bytes, protected, orphan_bytes, orphans } => {
            push_str(&mut l, "store ");
            push_str(&mut l, budgeted.as_str());
            push_str(&mut l, " counted toward budget, over ");
            push_str(&mut l, budget.as_str());
            push_str(&mut l, " \u{2014} would free ");
            push_str(&mut l, freed.as_str());
            if *protected_bytes > 0 {
                push_str(&mut l, "; ");
                push_str(&mut l, protected.as_str());
                push_str(&mut l, " protected (pinned or in-flight \u{2014} never evicted)");
            }
            push_orphans_clause(&mut l, *orphan_bytes, orphans);
            if !f.daemon_live {
                push_str(&mut l, "; daemon not running \u{2014} nothing is evicting");
            }
            push_str(&mut l, "\n");
        },
        Eviction::OnDiskOnly { size, budget, budgeted, orphan_bytes, orphans } => {
            push_str(&mut l, "store ");
            push_str(&mut l, size.as_str());
            push_str(&mut l, " on disk is over the ");
            push_str(&mut l, budget.as_str());
            push_str(&mut l, " budget, but only ");
            push_str(&mut l, budgeted.as_str());
            push_str(
                &mut l,
                " is subject to eviction \u{2014} the evictor has no candidates and will free nothing",
            );
            push_orphans_clause(&mut l, *orphan_bytes, orphans);
            push_str(&mut l, "\n");
        },
    }
    assert(l@ =~= eviction_lines(*f));
    push_chars(out, &l);
}

fn push_affected_lines(out: &mut Vec<char>, ps: &Vec<String>)
    ensures
        final(out)@ == old(out)@ + affected_lines(ps@),
{
    let ghost start = out@;
    let mut i: usize = 0;
    while i < ps.len()
        invariant
            i <= ps.len(),
            out@ == start + affected_lines(ps@.take(i as int)),
        decreases ps.len() - i,
    {
        assert(ps@.take(i + 1).drop_last() == ps@.take(i as int));
        assert(ps@.take(i + 1).last() == ps@[i as int]);
        push_str(out, "    ");
        push_str(out, ps[i].as_str());
        push_str(out, "\n");
        assert(out@ =~= start + affected_lines(ps@.take(i + 1)));
        i = i + 1;
    }
    assert(ps@.take(ps.len() as int) == ps@);
}

fn push_degraded_lines(out: &mut Vec<char>, f: &StatusFacts)
    ensures
        final(out)@ == old(out)@ + degraded_lines(*f),
{
    let mut l: Vec<char> = Vec::new();
    if f.snapshot_failures > 0 || f.non_utf8_path_skips > 0 {
        push_str(&mut l, "\n");
        let mut a: Vec<char> = Vec::new();
        if f.snapshot_failures > 0 {
            push_str(&mut a, "DEGRADED \u{2014} ");
            push_decimal(&mut a, f.snapshot_failures);
            push_str(
                &mut a,
                " snapshot write(s) failed (likely disk full or permissions); undo on affected files has no snapshot. Run `agentrec status --ack-degraded` to acknowledge.\n",
            );
            let mut files: Vec<char> = Vec::new();
            if f.io_failed.len() > 0 {
                push_str(&mut files, "  affected files:\n");
                push_affected_lines(&mut files, &f.io_failed);
            }
            assert(files@ =~= when(f.io_failed@.len() > 0, "  affected files:\n"@ + affected_lines(f.io_failed@)));
            push_chars(&mut a, &files);
        }
        let mut b: Vec<char> = Vec::new();
        if f.non_utf8_path_skips > 0 {
            push_str(&mut b, "DEGRADED \u{2014} ");
            push_decimal(&mut b, f.non_utf8_path_skips);
            push_str(
                &mut b,
                " file change(s) skipped (non-UTF8 path \u{2014} cannot be represented in a wire record); those files have no coverage and undo/blame can't track them. Run `agentrec status --ack-degraded` to acknowledge.\n",
            );
        }
        push_chars(&mut l, &a);
        push_chars(&mut l, &b);
    }
    assert(l@ =~= degraded_lines(*f));
    push_chars(out, &l);
}

fn push_prompt_lines(out: &mut Vec<char>, f: &StatusFacts)
    ensures
        final(out)@ == old(out)@ + prompt_lines(*f),
{
    let mut l: Vec<char> = Vec::new();
    if f.prompt_put_failures > 0 {
        push_str(&mut l, "\n");
        push_str(&mut l, "DEGRADED \u{2014} ");
        push_decimal(&mut l, f.prompt_put_failures);
        push_str(
            &mut l,
            " prompt write(s) failed (likely disk full or permissions); `show --prompt` on affected turns has no full-text prompt (the excerpt is unaffected). Run `agentrec status --ack-degraded` to acknowledge.\n",
        );
    }
    assert(l@ =~= prompt_lines(*f));
    push_chars(out, &l);
}

fn push_state_lines(out: &mut Vec<char>, f: &StatusFacts)
    ensures
        final(out)@ == old(out)@ + state_lines(*f),
{
    let mut l: Vec<char> = Vec::new();
    if f.state_parse_failures > 0 {
        push_str(&mut l, "\n");
        push_str(&mut l, "state.json had ");
        push_decimal(&mut l, f.state_parse_failures);
        push_str(&mut l, " field(s) fall back to defaults (last: ");
        match &f.last_bad_field {
            Some(b) => push_str(&mut l, b.as_str()),
            None => push_str(&mut l, "unknown"),
        }
        push_str(&mut l, ") \u{2014} self-heals on the next write; run `agentrec doctor` for detail.\n");
    }
    assert(l@ =~= state_lines(*f));
    push_chars(out, &l);
}

/// `status`'s report for the given figures.
pub fn status_text(f: &StatusFacts) -> (out: String)
    requires
        f.crash_gaps + f.restart_gaps + f.trailing_stop_gaps <= u64::MAX,
    ensures
        out@ == status_text_spec(*f),
{
    let mut o: Vec<char> = Vec::new();
    push_store_line(&mut o, f);
    push_inbox_line(&mut o, f);
    push_turns_line(&mut o, f);
    push_gaps_line(&mut o, f);
    push_daemon_lines(&mut o, f);
    push_ignore_line(&mut o, f);
    push_rich_lines(&mut o, f);
    push_memory_line(&mut o, f);
    push_eviction_lines(&mut o, f);
    push_degraded_lines(&mut o, f);
    push_prompt_lines(&mut o, f);
    push_state_lines(&mut o, f);
    assert(o@ =~= status_text_spec(*f));
    string_of(&o)
}

// ---- what the report says -------------------------------------------------------------

/// The report's line groups, in order.
pub open spec fn report_parts(f: StatusFacts) -> Seq<Seq<char>> {
    seq![store_line(f), inbox_line(f), turns_line(f), gaps_line(f), daemon_lines(f), ignore_line(f), rich_lines(f), memory_line(f), eviction_lines(f), degraded_lines(f), prompt_lines(f), state_lines(f)]
}

proof fn lemma_prefix_holds(ps: Seq<Seq<char>>, n: int, k: int, p: Seq<char>)
    requires
        0 <= k < n <= ps.len(),
        contains_seq(ps[k], p),
    ensures
        contains_seq(prefix_sum(ps, n), p),
    decreases n,
{
    if k == n - 1 {
        lemma_contains_seq_extend(ps[k], prefix_sum(ps, n - 1), p);
    } else {
        lemma_prefix_holds(ps, n - 1, k, p);
        lemma_contains_seq_extend(prefix_sum(ps, n - 1), ps[n - 1], p);
    }
}

proof fn lemma_report_holds(f: StatusFacts, k: int, p: Seq<char>)
    requires
        0 <= k < 12,
        contains_seq(report_parts(f)[k], p),
    ensures
        contains_seq(status_text_spec(f), p),
{
    let ps = report_parts(f);
    lemma_prefix_holds(ps, 12, k, p);
    assert(prefix_sum(ps, 12) == status_text_spec(f)) by {
        reveal_with_fuel(prefix_sum, 13);
    }
}

/// The first `n` parts, joined.
pub open spec fn prefix_sum(ps: Seq<Seq<char>>, n: int) -> Seq<char>
    decreases n,
{
    if n <= 0 {
        seq![]
    } else {
        prefix_sum(ps, n - 1) + ps[n - 1]
    }
}

proof fn lemma_part_holds(f: StatusFacts, k: int, a: Seq<char>, p: Seq<char>, b: Seq<char>)
    requires
        0 <= k < 12,
        report_parts(f)[k] == a + p + b,
    ensures
        contains_seq(status_text_spec(f), p),
{
    lemma_contains_seq_part(a, p, b);
    lemma_report_holds(f, k, p);
}

/// The store line gives the bytes on disk, then the bytes counted toward
/// the budget.
pub proof fn law_status_store_line(f: StatusFacts)
    ensures
        contains_seq(
            status_text_spec(f),
            "store:      "@ + f.store@ + " on disk, "@ + f.budgeted@ + " counted toward the budget\n"@,
        ),
{
    lemma_part_holds(f, 0, seq![], store_line(f), seq![]);
}

/// The inbox line gives the inbox size, and the consumed share with the
/// command that reclaims it exactly when some of it is consumed.
pub proof fn law_status_inbox_line(f: StatusFacts)
    ensures
        f.consumed_bytes > 0 ==> contains_seq(
            status_text_spec(f),
            "inbox:      "@ + f.inbox@ + " signal.jsonl"@ + (" ("@ + f.consumed@
                + " consumed \u{2014} reclaim with `agentrec purge --signals-consumed`)"@) + "\n"@,
        ),
        f.consumed_bytes == 0 ==> contains_seq(
            status_text_spec(f),
            "inbox:      "@ + f.inbox@ + " signal.jsonl"@ + "\n"@,
        ),
{
    if f.consumed_bytes == 0 {
        assert(inbox_line(f) == "inbox:      "@ + f.inbox@ + " signal.jsonl"@ + "\n"@);
    }
    lemma_part_holds(f, 1, seq![], inbox_line(f), seq![]);
}

/// The recorder's liveness is reported both ways, and a stopped recorder is
/// warned about.
pub proof fn law_status_daemon_line(f: StatusFacts)
    ensures
        f.daemon_live ==> contains_seq(status_text_spec(f), "daemon:     running\n"@),
        !f.daemon_live ==> contains_seq(status_text_spec(f), "daemon:     not running\n"@),
        !f.daemon_live ==> contains_seq(
            status_text_spec(f),
            "  \u{26a0} recorder not running \u{2014} nothing is being recorded (run `agentrec record`)\n"@,
        ),
{
    if f.daemon_live {
        lemma_part_holds(f, 4, seq![], "daemon:     running\n"@, seq![]);
    } else {
        let w = "  \u{26a0} recorder not running \u{2014} nothing is being recorded (run `agentrec record`)\n"@;
        lemma_part_holds(f, 4, seq![], "daemon:     not running\n"@, w);
        lemma_part_holds(f, 4, "daemon:     not running\n"@, w, seq![]);
    }
}

/// The turn count is reported.
pub proof fn law_status_turns_line(f: StatusFacts)
    ensures
        contains_seq(status_text_spec(f), "turns:      "@ + dec(f.turns as nat) + " (agent turns; git activity hidden)\n"@),
{
    lemma_part_holds(f, 2, seq![], turns_line(f), seq![]);
}

/// The reload line appears when the recorder runs and has reloaded.
pub proof fn law_status_reload_line(f: StatusFacts)
    ensures
        f.daemon_live && f.epoch_reloads > 0 ==> contains_seq(
            status_text_spec(f),
            "ignore:     reloaded "@ + dec(f.epoch_reloads as nat) + " time(s), last "@ + f.last_reload@ + "\n"@,
        ),
        !(f.daemon_live && f.epoch_reloads > 0) ==> ignore_line(f).len() == 0,
{
    if f.daemon_live && f.epoch_reloads > 0 {
        lemma_part_holds(f, 5, seq![], ignore_line(f), seq![]);
    }
}

/// The rich-rate line gives the rendered rate and the window, and warns
/// when fewer than nine in ten turns of the window are rich; with no agent
/// turns it says so.
pub proof fn law_status_rich_rate_line(f: StatusFacts)
    ensures
        f.rich_rate is None ==> contains_seq(status_text_spec(f), "rich-rate:  n/a (no agent turns yet)\n"@),
        f.rich_rate matches Some(r) ==> contains_seq(
            status_text_spec(f),
            "rich-rate:  "@ + r.percent@ + "% over trailing "@ + dec(r.window as nat) + " agent turn(s)\n"@,
        ),
        f.rich_rate matches Some(r) && 10 * r.rich < 9 * r.window ==> contains_seq(
            status_text_spec(f),
            "  \u{26a0} rich-rate below 90% \u{2014} hooks may be broken (check `agentrec doctor`)\n"@,
        ),
{
    match f.rich_rate {
        None => {
            lemma_part_holds(f, 6, seq![], rich_lines(f), seq![]);
        },
        Some(r) => {
            let head = "rich-rate:  "@ + r.percent@ + "% over trailing "@ + dec(r.window as nat) + " agent turn(s)\n"@;
            let w = "  \u{26a0} rich-rate below 90% \u{2014} hooks may be broken (check `agentrec doctor`)\n"@;
            if 10 * r.rich < 9 * r.window {
                lemma_part_holds(f, 6, seq![], head, w);
                lemma_part_holds(f, 6, head, w, seq![]);
            } else {
                assert(rich_lines(f) == head + Seq::<char>::empty());
                lemma_part_holds(f, 6, seq![], head, seq![]);
            }
        },
    }
}

/// Within budget there is no budget notice; over it by the counted bytes,
/// the notice offers what eviction would free; over it on disk alone, it
/// says eviction can free nothing.
pub proof fn law_status_budget_notice(f: StatusFacts)
    ensures
        f.eviction is Within ==> eviction_lines(f).len() == 0,
        f.eviction matches Eviction::OverBudget { budgeted, budget, freed, .. } ==> contains_seq(
            status_text_spec(f),
            "store "@ + budgeted@ + " counted toward budget, over "@ + budget@ + " \u{2014} would free "@ + freed@,
        ),
        f.eviction matches Eviction::OnDiskOnly { size, budget, budgeted, .. } ==> contains_seq(
            status_text_spec(f),
            "store "@ + size@ + " on disk is over the "@ + budget@ + " budget, but only "@ + budgeted@
                + " is subject to eviction \u{2014} the evictor has no candidates and will free nothing"@,
        ),
{
    match f.eviction {
        Eviction::Within => {},
        Eviction::OverBudget { budgeted, budget, freed, protected_bytes, protected, orphan_bytes, orphans } => {
            let head = "store "@ + budgeted@ + " counted toward budget, over "@ + budget@ + " \u{2014} would free "@
                + freed@;
            let rest = eviction_lines(f).skip(head.len() as int);
            assert(eviction_lines(f) == head + rest);
            lemma_part_holds(f, 8, seq![], head, rest);
        },
        Eviction::OnDiskOnly { size, budget, budgeted, orphan_bytes, orphans } => {
            let head = "store "@ + size@ + " on disk is over the "@ + budget@ + " budget, but only "@ + budgeted@
                + " is subject to eviction \u{2014} the evictor has no candidates and will free nothing"@;
            let rest = eviction_lines(f).skip(head.len() as int);
            assert(eviction_lines(f) == head + rest);
            lemma_part_holds(f, 8, seq![], head, rest);
        },
    }
}

/// The report counts the recording gaps, and when there are any breaks
/// them down by kind: the crash count before `crash`, the restart count
/// before `restart`, the count since the last stop before `since last stop`.
pub proof fn law_status_reports_each_gap_kind(f: StatusFacts)
    ensures
        contains_seq(
            status_text_spec(f),
            "gaps:       "@ + dec((f.crash_gaps + f.restart_gaps + f.trailing_stop_gaps) as nat)
                + " recording gap(s)"@,
        ),
        f.crash_gaps + f.restart_gaps + f.trailing_stop_gaps > 0 ==> contains_seq(
            status_text_spec(f),
            " ("@ + dec(f.crash_gaps as nat) + " crash, "@ + dec(f.restart_gaps as nat) + " restart, "@ + dec(
                f.trailing_stop_gaps as nat,
            ) + " since last stop)"@ + "\n"@,
        ),
        f.crash_gaps + f.restart_gaps + f.trailing_stop_gaps == 0 ==> contains_seq(
            status_text_spec(f),
            "gaps:       "@ + dec(0) + " recording gap(s)"@ + "\n"@,
        ),
{
    let total = (f.crash_gaps + f.restart_gaps + f.trailing_stop_gaps) as nat;
    let a = "gaps:       "@ + dec(total) + " recording gap(s)"@;
    let b = " ("@ + dec(f.crash_gaps as nat) + " crash, "@ + dec(f.restart_gaps as nat) + " restart, "@ + dec(
        f.trailing_stop_gaps as nat,
    ) + " since last stop)"@;
    assert(total == total_gaps(f));
    if total > 0 {
        assert(gaps_line(f) == a + b + "\n"@);
        lemma_contains_seq_part(seq![], a, b + "\n"@);
        assert(seq![] + a + (b + "\n"@) == gaps_line(f));
        lemma_contains_seq_part(a, b + "\n"@, seq![]);
        assert(a + (b + "\n"@) + seq![] == gaps_line(f));
        lemma_report_holds(f, 3, b + "\n"@);
    } else {
        assert(gaps_line(f) == a + "\n"@);
        lemma_contains_seq_part(seq![], a, "\n"@);
        assert(seq![] + a + "\n"@ == gaps_line(f));
        lemma_contains_seq_part(seq![], a + "\n"@, seq![]);
        assert(seq![] + (a + "\n"@) + seq![] == gaps_line(f));
        lemma_report_holds(f, 3, a + "\n"@);
    }
    lemma_report_holds(f, 3, a);
}

/// The memory line gives, in order, the fresh, stale, rejected, injected
/// and failed counts, each before its own word.
pub proof fn law_status_reports_memory_counts_in_order(f: StatusFacts)
    ensures
        contains_seq(
            status_text_spec(f),
            "memory:     "@ + dec(f.memories_fresh as nat) + " fresh, "@ + dec(f.memories_stale as nat)
                + " stale, "@ + dec(f.memory_rejects as nat) + " rejects, "@ + dec(f.injections as nat)
                + " injections, "@ + dec(f.memory_failures as nat) + " failures\n"@,
        ),
{
    let m = "memory:     "@ + dec(f.memories_fresh as nat) + " fresh, "@ + dec(f.memories_stale as nat)
        + " stale, "@ + dec(f.memory_rejects as nat) + " rejects, "@ + dec(f.injections as nat)
        + " injections, "@ + dec(f.memory_failures as nat) + " failures\n"@;
    assert(memory_line(f) == m);
    lemma_contains_seq_part(seq![], m, seq![]);
    assert(seq![] + m + seq![] == m);
    lemma_report_holds(f, 7, m);
}

// ---- the rich-rate window -------------------------------------------------------------

/// The grades (`true`: rich) of the last `n` agent turns, oldest first; each
/// turn is `(imported, rich)`, and imported turns are not agent turns.
pub open spec fn trailing_grades(turns: Seq<(bool, bool)>, n: nat) -> Seq<bool>
    decreases turns.len(),
{
    if turns.len() == 0 || n == 0 {
        seq![]
    } else if turns.last().0 {
        trailing_grades(turns.drop_last(), n)
    } else {
        trailing_grades(turns.drop_last(), (n - 1) as nat).push(turns.last().1)
    }
}

/// How many of `gs` are `true`.
pub open spec fn count_true(gs: Seq<bool>) -> nat
    decreases gs.len(),
{
    if gs.len() == 0 {
        0
    } else {
        (if gs[0] {
            1nat
        } else {
            0nat
        }) + count_true(gs.drop_first())
    }
}

/// Imported turns play no part in the rich-rate window: taking one out, from
/// anywhere in the log, leaves the window as it was.
pub proof fn law_imported_turns_do_not_count(a: Seq<(bool, bool)>, rich: bool, b: Seq<(bool, bool)>, n: nat)
    ensures
        trailing_grades(a + seq![(true, rich)] + b, n) == trailing_grades(a + b, n),
    decreases b.len(), n,
{
    let x = a + seq![(true, rich)] + b;
    if b.len() == 0 {
        assert(x.drop_last() == a);
        assert(a + b == a);
    } else {
        assert(x.drop_last() == a + seq![(true, rich)] + b.drop_last());
        assert((a + b).drop_last() == a + b.drop_last());
        assert(x.last() == b.last());
        assert((a + b).last() == b.last());
        law_imported_turns_do_not_count(a, rich, b.drop_last(), n);
        if n > 0 {
            law_imported_turns_do_not_count(a, rich, b.drop_last(), (n - 1) as nat);
        }
    }
}

/// The window never holds more than its size, and holds only agent turns'
/// grades: as many as there are agent turns, up to the size.
pub proof fn law_window_size(turns: Seq<(bool, bool)>, n: nat)
    ensures
        trailing_grades(turns, n).len() <= n,
        trailing_grades(turns, n).len() == if agent_turns(turns) < n {
            agent_turns(turns)
        } else {
            n
        },
    decreases turns.len(), n,
{
    if turns.len() > 0 && n > 0 {
        law_window_size(turns.drop_last(), n);
        law_window_size(turns.drop_last(), (n - 1) as nat);
    }
}

/// How many turns are agent turns (not imported).
pub open spec fn agent_turns(turns: Seq<(bool, bool)>) -> nat
    decreases turns.len(),
{
    if turns.len() == 0 {
        0
    } else {
        agent_turns(turns.drop_last()) + if turns.last().0 {
            0nat
        } else {
            1nat
        }
    }
}

/// The rich-rate window over the log's turns, in log order, each as
/// `(imported, rich)`: the last 20 agent turns (imported turns left out),
/// as the count of rich ones and the window's size.
pub fn rich_window(turns: &Vec<(bool, bool)>) -> (r: (u64, u64))
    ensures
        r.0 == count_true(trailing_grades(turns@, 20)),
        r.1 == trailing_grades(turns@, 20).len(),
{
    let ghost ts = turns@;
    let mut i: usize = turns.len();
    let mut k: u64 = 20;
    let mut rich: u64 = 0;
    let mut window: u64 = 0;
    let ghost mut acc: Seq<bool> = seq![];
    assert(ts.take(i as int) == ts);
    while i > 0 && k > 0
        invariant
            i <= ts.len(),
            ts == turns@,
            k + window == 20,
            trailing_grades(ts, 20) == trailing_grades(ts.take(i as int), k as nat) + acc,
            window == acc.len(),
            rich == count_true(acc),
            rich <= window,
        decreases i,
    {
        let (imported, is_rich) = turns[i - 1];
        let ghost pre = ts.take(i as int);
        assert(pre.drop_last() == ts.take(i - 1));
        assert(pre.last() == ts[i - 1]);
        if !imported {
            proof {
                let rest = trailing_grades(ts.take(i - 1), (k - 1) as nat);
                assert(rest.push(is_rich) + acc =~= rest + (seq![is_rich] + acc));
                assert((seq![is_rich] + acc).drop_first() =~= acc);
                acc = seq![is_rich] + acc;
            }
            k = k - 1;
            window = window + 1;
            if is_rich {
                rich = rich + 1;
            }
        }
        i = i - 1;
    }
    proof {
        assert(trailing_grades(ts.take(i as int), k as nat) == Seq::<bool>::empty());
        assert(Seq::<bool>::empty() + acc =~= acc);
    }
    (rich, window)
}

// ---- the figures ----------------------------------------------------------------------

/// The raw figures `status` reads, before anything is rendered or decided.
pub struct StatusFigures {
    /// Every byte under the store.
    pub store_bytes: u64,
    /// The bytes the budget ranges over.
    pub budgeted_bytes: u64,
    pub budget: u64,
    /// The signal inbox's size, and the recorder's read offset into it.
    pub signal_bytes: u64,
    pub signal_offset: u64,
    pub turns: u64,
    pub crash_gaps: u64,
    pub restart_gaps: u64,
    pub trailing_stop_gaps: u64,
    pub daemon_live: bool,
    pub epoch_reloads: u64,
    pub last_reload: String,
    /// The log's turns in order, each as `(imported, rich)`.
    pub grades: Vec<(bool, bool)>,
    pub memories_fresh: u64,
    pub memories_stale: u64,
    pub memory_rejects: u64,
    pub injections: u64,
    pub memory_failures: u64,
    /// What the next eviction pass would free and would leave as
    /// protected, and the bytes no turn references.
    pub freed_bytes: u64,
    pub protected_bytes: u64,
    pub orphan_bytes: u64,
    pub snapshot_failures: u64,
    pub io_failed: Vec<String>,
    pub non_utf8_path_skips: u64,
    pub prompt_put_failures: u64,
    pub state_parse_failures: u64,
    pub last_bad_field: Option<String>,
}

/// The consumed share of the inbox: the read offset, never more than the
/// inbox holds.
pub open spec fn consumed_of(signal_offset: u64, signal_bytes: u64) -> u64 {
    if signal_offset <= signal_bytes {
        signal_offset
    } else {
        signal_bytes
    }
}

/// The report's facts from the raw figures: the consumed share clamped to
/// the inbox, the rich-rate window taken from the turns, the budget notice
/// chosen from the sizes (counted bytes over the budget: what eviction
/// would free; else the bytes on disk over it: that eviction cannot help;
/// else none), and every size rendered by `human` and the rate by
/// `percent` (from the rich count and the window).
pub fn status_facts<H: Fn(u64) -> String, P: Fn(u64, u64) -> String>(fig: StatusFigures, human: H, percent: P) -> (f:
    StatusFacts)
    requires
        forall|n: u64| human.requires((n,)),
        forall|a: u64, b: u64| percent.requires((a, b)),
    ensures
        human.ensures((fig.store_bytes,), f.store),
        human.ensures((fig.budgeted_bytes,), f.budgeted),
        human.ensures((fig.signal_bytes,), f.inbox),
        f.consumed_bytes == consumed_of(fig.signal_offset, fig.signal_bytes),
        human.ensures((f.consumed_bytes,), f.consumed),
        f.turns == fig.turns,
        f.crash_gaps == fig.crash_gaps && f.restart_gaps == fig.restart_gaps && f.trailing_stop_gaps
            == fig.trailing_stop_gaps,
        f.daemon_live == fig.daemon_live,
        f.epoch_reloads == fig.epoch_reloads && f.last_reload == fig.last_reload,
        ({
            let window = trailing_grades(fig.grades@, 20);
            if window.len() == 0 {
                f.rich_rate is None
            } else {
                f.rich_rate matches Some(r) && r.rich == count_true(window) && r.window == window.len()
                    && percent.ensures((r.rich, r.window), r.percent)
            }
        }),
        f.memories_fresh == fig.memories_fresh && f.memories_stale == fig.memories_stale,
        f.memory_rejects == fig.memory_rejects && f.injections == fig.injections && f.memory_failures
            == fig.memory_failures,
        fig.budgeted_bytes > fig.budget ==> (f.eviction matches Eviction::OverBudget {
            budgeted,
            budget,
            freed,
            protected_bytes,
            protected,
            orphan_bytes,
            orphans,
        } && {
            &&& human.ensures((fig.budgeted_bytes,), budgeted)
            &&& human.ensures((fig.budget,), budget)
            &&& human.ensures((fig.freed_bytes,), freed)
            &&& protected_bytes == fig.protected_bytes
            &&& human.ensures((fig.protected_bytes,), protected)
            &&& orphan_bytes == fig.orphan_bytes
            &&& human.ensures((fig.orphan_bytes,), orphans)
        }),
        fig.budgeted_bytes <= fig.budget && fig.store_bytes > fig.budget ==> (f.eviction matches Eviction::OnDiskOnly {
            size,
            budget,
            budgeted,
            orphan_bytes,
            orphans,
        } && {
            &&& human.ensures((fig.store_bytes,), size)
            &&& human.ensures((fig.budget,), budget)
            &&& human.ensures((fig.budgeted_bytes,), budgeted)
            &&& orphan_bytes == fig.orphan_bytes
            &&& human.ensures((fig.orphan_bytes,), orphans)
        }),
        fig.budgeted_bytes <= fig.budget && fig.store_bytes <= fig.budget ==> f.eviction is Within,
        f.snapshot_failures == fig.snapshot_failures && f.io_failed == fig.io_failed,
        f.non_utf8_path_skips == fig.non_utf8_path_skips && f.prompt_put_failures == fig.prompt_put_failures,
        f.state_parse_failures == fig.state_parse_failures && f.last_bad_field == fig.last_bad_field,
{
    let consumed_bytes = if fig.signal_offset <= fig.signal_bytes {
        fig.signal_offset
    } else {
        fig.signal_bytes
    };
    let (rich, window) = rich_window(&fig.grades);
    let rich_rate = if window == 0 {
        None
    } else {
        Some(RichRate { rich, window, percent: percent(rich, window) })
    };
    let eviction = if fig.budgeted_bytes > fig.budget {
        Eviction::OverBudget {
            budgeted: human(fig.budgeted_bytes),
            budget: human(fig.budget),
            freed: human(fig.freed_bytes),
            protected_bytes: fig.protected_bytes,
            protected: human(fig.protected_bytes),
            orphan_bytes: fig.orphan_bytes,
            orphans: human(fig.orphan_bytes),
        }
    } else if fig.store_bytes > fig.budget {
        Eviction::OnDiskOnly {
            size: human(fig.store_bytes),
            budget: human(fig.budget),
            budgeted: human(fig.budgeted_bytes),
            orphan_bytes: fig.orphan_bytes,
            orphans: human(fig.orphan_bytes),
        }
    } else {
        Eviction::Within
    };
    StatusFacts {
        store: human(fig.store_bytes),
        budgeted: human(fig.budgeted_bytes),
        inbox: human(fig.signal_bytes),
        consumed_bytes,
        consumed: human(consumed_bytes),
        turns: fig.turns,
        crash_gaps: fig.crash_gaps,
        restart_gaps: fig.restart_gaps,
        trailing_stop_gaps: fig.trailing_stop_gaps,
        daemon_live: fig.daemon_live,
        epoch_reloads: fig.epoch_reloads,
        last_reload: fig.last_reload,
        rich_rate,
        memories_fresh: fig.memories_fresh,
        memories_stale: fig.memories_stale,
        memory_rejects: fig.memory_rejects,
        injections: fig.injections,
        memory_failures: fig.memory_failures,
        eviction,
        snapshot_failures: fig.snapshot_failures,
        io_failed: fig.io_failed,
        non_utf8_path_skips: fig.non_utf8_path_skips,
        prompt_put_failures: fig.prompt_put_failures,
        state_parse_failures: fig.state_parse_failures,
        last_bad_field: fig.last_bad_field,
    }
}

/// The budget notice follows from the sizes alone: counted bytes over the
/// budget offer what eviction would free; otherwise bytes on disk over it
/// say that eviction has nothing to take; otherwise nothing is said.
pub proof fn law_budget_notice_follows_the_sizes(f: StatusFacts, store_bytes: u64, budgeted_bytes: u64, budget: u64)
    requires
        budgeted_bytes > budget ==> f.eviction is OverBudget,
        budgeted_bytes <= budget && store_bytes > budget ==> f.eviction is OnDiskOnly,
        budgeted_bytes <= budget && store_bytes <= budget ==> f.eviction is Within,
    ensures
        budgeted_bytes > budget ==> eviction_lines(f).len() > 0,
        budgeted_bytes <= budget && store_bytes <= budget ==> eviction_lines(f) == Seq::<char>::empty(),
{
    reveal_strlit("store ");
    assert("store "@.len() == 6);
}

} // verus!
