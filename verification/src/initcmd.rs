//! `agentrec init`: the decisions it takes before touching anything — whether
//! to install the per-repo service unit, which Codex config file receives the
//! hooks, whether an MCP registry entry is agentrec's own — and the lines it
//! prints about them.

use vstd::prelude::*;
use crate::config::{find_entry, parse_toml, toml_entries, lookup};
use crate::doc::{
    as_str, entries_view, entry_of, field, field_of, get, get_in, items_view, key_pos, key_position,
    lemma_array_view, lemma_key_pos, lemma_object_view, lemma_set_entry, opt_view, set_entry,
    str_of, json_parse, Doc, DocV,
};
use crate::text::{contains, contains_seq};
use crate::paths::{components, is_abs, join, join_spec, path_starts_with, paths_equal, same_path, starts_with_path};
use crate::text::{chars_of, has_char, push_str, starts_with, string_of, has_prefix};

verus! {

/// The configuration `init` writes when the repo has none.
pub const DEFAULT_CONFIG: &'static str = "# agentrec configuration\nttl_days = 90\nmcp_destructive = \"off\"   # off | confirm | auto (used from v2)\nmemory_enabled = true      # inject recalled memories into UserPromptSubmit hooks\nmemory_inject_max = 5      # max facts injected per hook call\n# store_budget_bytes = 2147483648  # snapshot-store budget in bytes (default 2 GiB); the daemon's eviction tick enforces it\n# noise_globs = [\".remember/**\"]  # fold matching file entries out of log/show (see README); --all-files to reveal\n";

/// Whether `init` installs the per-repo service unit, and if not, why.
#[derive(Debug, PartialEq, Eq)]
pub enum ServiceDecision {
    Install,
    /// `--no-service` was passed.
    SkipFlag,
    /// The root lives under this temporary-directory prefix.
    SkipTemp(String),
}

/// The candidate temporary-directory prefixes, before canonicalisation:
/// `$TMPDIR` when set and non-empty, then `/tmp`, `/private/tmp` and
/// `/var/folders` (the macOS per-user temp root, matched statically so the
/// common case never depends on the environment).
pub open spec fn temp_candidates(tmpdir: Option<Seq<char>>) -> Seq<Seq<char>> {
    let statics = seq!["/tmp"@, "/private/tmp"@, "/var/folders"@];
    match tmpdir {
        Some(t) => if t.len() > 0 {
            seq![t] + statics
        } else {
            statics
        },
        None => statics,
    }
}

pub fn temp_prefix_candidates(tmpdir: Option<&str>) -> (v: Vec<String>)
    ensures
        v@.map_values(|s: String| s@) == temp_candidates(match tmpdir {
            Some(t) => Some(t@),
            None => None,
        }),
{
    let mut v: Vec<String> = Vec::new();
    match tmpdir {
        Some(t) => {
            if t.unicode_len() > 0 {
                v.push(String::from_str(t));
            }
        },
        None => {},
    }
    let ghost before = v@;
    v.push(String::from_str("/tmp"));
    v.push(String::from_str("/private/tmp"));
    v.push(String::from_str("/var/folders"));
    assert(v@.map_values(|s: String| s@) == before.map_values(|s: String| s@) + seq![
        "/tmp"@,
        "/private/tmp"@,
        "/var/folders"@,
    ]);
    v
}

/// `ps` without later repeats of a path already listed, first-seen order.
pub open spec fn distinct_paths(ps: Seq<Seq<char>>) -> Seq<Seq<char>>
    decreases ps.len(),
{
    if ps.len() == 0 {
        seq![]
    } else {
        let prev = distinct_paths(ps.drop_last());
        if exists|i: int| 0 <= i < prev.len() && same_path(#[trigger] prev[i], ps.last()) {
            prev
        } else {
            prev.push(ps.last())
        }
    }
}

/// The canonicalised candidate prefixes with repeats dropped.
pub fn distinct_prefixes(canonical: Vec<String>) -> (v: Vec<String>)
    ensures
        v@.map_values(|s: String| s@) == distinct_paths(canonical@.map_values(|s: String| s@)),
{
    let ghost cs = canonical@.map_values(|s: String| s@);
    let mut v: Vec<String> = Vec::new();
    let mut i: usize = 0;
    while i < canonical.len()
        invariant
            i <= canonical.len(),
            cs == canonical@.map_values(|s: String| s@),
            v@.map_values(|s: String| s@) == distinct_paths(cs.take(i as int)),
        decreases canonical.len() - i,
    {
        let ghost prev = v@.map_values(|s: String| s@);
        assert(cs.take(i + 1).drop_last() == cs.take(i as int));
        assert(cs.take(i + 1).last() == canonical@[i as int]@);
        let mut j: usize = 0;
        let mut seen = false;
        while j < v.len()
            invariant
                j <= v.len(),
                i < canonical.len(),
                prev == v@.map_values(|s: String| s@),
                !seen ==> forall|k: int| 0 <= k < j ==> !same_path(#[trigger] prev[k], canonical@[i as int]@),
                seen ==> exists|k: int| 0 <= k < prev.len() && same_path(#[trigger] prev[k], canonical@[i as int]@),
            decreases v.len() - j,
        {
            if !seen && paths_equal(v[j].as_str(), canonical[i].as_str()) {
                assert(prev[j as int] == v@[j as int]@);
                seen = true;
            }
            proof {
                if !seen {
                    assert(prev[j as int] == v@[j as int]@);
                }
            }
            j = j + 1;
        }
        if !seen {
            let s = canonical[i].clone();
            v.push(s);
            assert(v@.map_values(|s: String| s@) == prev.push(canonical@[i as int]@));
        }
        i = i + 1;
    }
    assert(cs.take(canonical.len() as int) == cs);
    v
}

/// The index of the first prefix that `root` lies under.
pub open spec fn first_prefix_of(root: Seq<char>, prefixes: Seq<Seq<char>>) -> Option<int>
    decreases prefixes.len(),
{
    if prefixes.len() == 0 {
        None
    } else {
        match first_prefix_of(root, prefixes.drop_last()) {
            Some(i) => Some(i),
            None => if path_starts_with(root, prefixes.last()) {
                Some(prefixes.len() - 1)
            } else {
                None
            },
        }
    }
}

/// The service decision for the (canonicalised) root: `--no-service` wins,
/// then `--service` forces an install; otherwise a root under one of the
/// (canonicalised) temporary prefixes is skipped, naming the first prefix
/// that matched, and any other root installs.
pub fn service_decision(
    canonical_root: &str,
    no_service: bool,
    force_service: bool,
    prefixes: &Vec<String>,
) -> (d: ServiceDecision)
    ensures
        no_service ==> d == ServiceDecision::SkipFlag,
        !no_service && force_service ==> d == ServiceDecision::Install,
        !no_service && !force_service ==> match first_prefix_of(
            canonical_root@,
            prefixes@.map_values(|s: String| s@),
        ) {
            Some(i) => d matches ServiceDecision::SkipTemp(p) && p@ == prefixes@[i]@,
            None => d == ServiceDecision::Install,
        },
{
    if no_service {
        return ServiceDecision::SkipFlag;
    }
    if force_service {
        return ServiceDecision::Install;
    }
    let ghost ps = prefixes@.map_values(|s: String| s@);
    let mut i: usize = 0;
    while i < prefixes.len()
        invariant
            i <= prefixes.len(),
            !no_service,
            !force_service,
            ps == prefixes@.map_values(|s: String| s@),
            first_prefix_of(canonical_root@, ps.take(i as int)) is None,
        decreases prefixes.len() - i,
    {
        assert(ps.take(i + 1).drop_last() == ps.take(i as int));
        assert(ps.take(i + 1).last() == prefixes@[i as int]@);
        if starts_with_path(canonical_root, prefixes[i].as_str()) {
            proof {
                lemma_first_prefix_extends(canonical_root@, ps, i as int);
            }
            return ServiceDecision::SkipTemp(prefixes[i].clone());
        }
        i = i + 1;
    }
    assert(ps.take(prefixes.len() as int) == ps);
    ServiceDecision::Install
}

proof fn lemma_first_prefix_extends(root: Seq<char>, ps: Seq<Seq<char>>, i: int)
    requires
        0 <= i < ps.len(),
        first_prefix_of(root, ps.take(i)) is None,
        path_starts_with(root, ps[i]),
    ensures
        first_prefix_of(root, ps) == Some(i),
    decreases ps.len() - i,
{
    if i == ps.len() - 1 {
        assert(ps.drop_last() == ps.take(i));
    } else {
        assert(ps.drop_last().take(i) == ps.take(i));
        assert(ps.drop_last()[i] == ps[i]);
        lemma_first_prefix_extends(root, ps.drop_last(), i);
    }
}

pub open spec fn temp_skip_line_spec(prefix: Seq<char>) -> Seq<char> {
    "skipped service install: root is under a temporary directory ("@ + prefix
        + ") \u{2014} a service installed here outlives the directory; pass --service to install anyway"@
}

/// What `init` prints when it declines to install a service unit under a
/// temporary root.
pub fn temp_skip_line(prefix: &str) -> (s: String)
    ensures
        s@ == temp_skip_line_spec(prefix@),
{
    let mut out: Vec<char> = Vec::new();
    push_str(&mut out, "skipped service install: root is under a temporary directory (");
    push_str(&mut out, prefix);
    push_str(
        &mut out,
        ") \u{2014} a service installed here outlives the directory; pass --service to install anyway",
    );
    string_of(&out)
}

// ---- Codex hook config --------------------------------------------------------------

/// `<root>/.codex/hooks.json`.
pub fn codex_hooks_json_path(root: &str) -> (p: String)
    ensures
        p@ == join_spec(join_spec(root@, ".codex"@), "hooks.json"@),
{
    let dir = join(root, ".codex");
    join(dir.as_str(), "hooks.json")
}

/// `<root>/.codex/config.toml`.
pub fn codex_config_toml_path(root: &str) -> (p: String)
    ensures
        p@ == join_spec(join_spec(root@, ".codex"@), "config.toml"@),
{
    let dir = join(root, ".codex");
    join(dir.as_str(), "config.toml")
}

/// `<root>/.mcp.json`.
pub fn mcp_json_path(root: &str) -> (p: String)
    ensures
        p@ == join_spec(root@, ".mcp.json"@),
{
    join(root, ".mcp.json")
}

/// Which Codex config file receives the hooks.
#[derive(Debug, PartialEq, Eq, Clone, Copy, Structural)]
pub enum CodexHooksTarget {
    /// `.codex/hooks.json`: when it exists, or when neither it nor an inline
    /// `[hooks]` table does.
    HooksJson,
    /// The inline `[hooks]` table of `.codex/config.toml`, when hooks.json
    /// is absent and that table exists.
    ConfigToml,
    /// Both exist: agentrec refuses to add a third source.
    Refuse,
}

pub open spec fn target_for(hooks_json_present: bool, inline_present: bool) -> CodexHooksTarget {
    if hooks_json_present && inline_present {
        CodexHooksTarget::Refuse
    } else if inline_present {
        CodexHooksTarget::ConfigToml
    } else {
        CodexHooksTarget::HooksJson
    }
}

/// The Codex hook target, decided by inspection only. `config_toml` is the
/// read of `.codex/config.toml`: its text, `None` when it does not exist, or
/// the read error's message.
pub fn codex_hooks_target(
    hooks_json_present: bool,
    config_toml_path: &str,
    config_toml: Result<Option<&str>, String>,
) -> (r: Result<CodexHooksTarget, String>)
    ensures
        match config_toml {
            Err(e) => r is Err && r->Err_0@ == "cannot read "@ + config_toml_path@ + " ("@ + e@
                + "); not touching Codex hook config"@,
            Ok(None) => r == Ok::<CodexHooksTarget, String>(target_for(hooks_json_present, false)),
            Ok(Some(text)) => match toml_entries(text@) {
                Err(m) => r is Err && r->Err_0@ == "existing "@ + config_toml_path@
                    + " is not valid TOML ("@ + m + "); not touching Codex hook config"@,
                Ok(es) => r == Ok::<CodexHooksTarget, String>(
                    target_for(hooks_json_present, lookup(es, "hooks"@) is Some),
                ),
            },
        },
{
    let inline_present = match config_toml {
        Err(e) => {
            let mut out: Vec<char> = Vec::new();
            push_str(&mut out, "cannot read ");
            push_str(&mut out, config_toml_path);
            push_str(&mut out, " (");
            push_str(&mut out, e.as_str());
            push_str(&mut out, "); not touching Codex hook config");
            return Err(string_of(&out));
        },
        Ok(None) => false,
        Ok(Some(text)) => match parse_toml(text) {
            Err(m) => {
                let mut out: Vec<char> = Vec::new();
                push_str(&mut out, "existing ");
                push_str(&mut out, config_toml_path);
                push_str(&mut out, " is not valid TOML (");
                push_str(&mut out, m.as_str());
                push_str(&mut out, "); not touching Codex hook config");
                return Err(string_of(&out));
            },
            Ok(es) => find_entry(&es, "hooks").is_some(),
        },
    };
    if hooks_json_present && inline_present {
        Ok(CodexHooksTarget::Refuse)
    } else if inline_present {
        Ok(CodexHooksTarget::ConfigToml)
    } else {
        Ok(CodexHooksTarget::HooksJson)
    }
}

pub open spec fn codex_refuse_line_spec(root: Seq<char>) -> Seq<char> {
    "skipped Codex hook install: both "@ + join_spec(join_spec(root, ".codex"@), "hooks.json"@)
        + " and an inline [hooks] table in "@ + join_spec(join_spec(root, ".codex"@), "config.toml"@)
        + " exist \u{2014} Codex loads and merges both, printing a startup warning (\"prefer a single representation for this layer\", confirmed live); agentrec refuses to add a third source and contribute to that warned state. Consolidate to one file, then re-run `agentrec init --codex`."@
}

/// What `init` prints when both Codex config forms exist.
pub fn codex_refuse_line(root: &str) -> (s: String)
    ensures
        s@ == codex_refuse_line_spec(root@),
{
    let hooks = codex_hooks_json_path(root);
    let config = codex_config_toml_path(root);
    let mut out: Vec<char> = Vec::new();
    push_str(&mut out, "skipped Codex hook install: both ");
    push_str(&mut out, hooks.as_str());
    push_str(&mut out, " and an inline [hooks] table in ");
    push_str(&mut out, config.as_str());
    push_str(
        &mut out,
        " exist \u{2014} Codex loads and merges both, printing a startup warning (\"prefer a single representation for this layer\", confirmed live); agentrec refuses to add a third source and contribute to that warned state. Consolidate to one file, then re-run `agentrec init --codex`.",
    );
    string_of(&out)
}

/// The file a hook install went to.
pub fn codex_target_label(target: CodexHooksTarget, root: &str) -> (s: String)
    requires
        target != CodexHooksTarget::Refuse,
    ensures
        target == CodexHooksTarget::HooksJson ==> s@ == join_spec(
            join_spec(root@, ".codex"@),
            "hooks.json"@,
        ),
        target == CodexHooksTarget::ConfigToml ==> s@ == join_spec(
            join_spec(root@, ".codex"@),
            "config.toml"@,
        ),
{
    match target {
        CodexHooksTarget::HooksJson => codex_hooks_json_path(root),
        _ => codex_config_toml_path(root),
    }
}

// ---- MCP registration ---------------------------------------------------------------

/// What the `agentrec` key holds in one MCP registry file.
#[derive(Debug, PartialEq, Eq, Clone, Copy, Structural)]
pub enum McpRegState {
    Absent,
    Ours,
    Foreign,
}

/// `Path::file_stem(command) == "agentrec"`: the last component is not `..`
/// and is `agentrec`, or `agentrec.` followed by an extension with no
/// further dot.
pub open spec fn stem_is_agentrec(command: Seq<char>) -> bool {
    let cs = components(command);
    &&& cs.len() > 0
    &&& {
        let name = cs.last();
        name == "agentrec"@ || (starts_with(name, "agentrec."@) && !has_char(name.skip(9), '.'))
    }
}

/// A registry entry is agentrec's own when its command's file stem is
/// `agentrec` and `mcp` is among its arguments (the key alone proves
/// nothing: a user's server may occupy it).
pub open spec fn mcp_entry_is_ours_spec(command: Option<Seq<char>>, args: Seq<Seq<char>>) -> bool {
    &&& command matches Some(c) && stem_is_agentrec(c)
    &&& args.contains("mcp"@)
}

fn stem_check(command: &str) -> (r: bool)
    ensures
        r == stem_is_agentrec(command@),
{
    let cs = crate::paths::components_of(command);
    if cs.len() == 0 {
        return false;
    }
    let name = chars_of(cs[cs.len() - 1].as_str());
    let exact = chars_of("agentrec");
    let dotted = chars_of("agentrec.");
    proof {
        reveal_strlit("agentrec.");
        assert(cs@.map_values(|c: String| c@).last() == cs@[cs.len() - 1]@);
    }
    if crate::paths::same_chars(&name, &exact) {
        return true;
    }
    if !has_prefix(&name, &dotted) {
        return false;
    }
    let mut i: usize = 9;
    while i < name.len()
        invariant
            9 <= i <= name.len(),
            name@ == components(command@).last(),
            components(command@).len() > 0,
            name@ != "agentrec"@,
            starts_with(name@, "agentrec."@),
            forall|k: int| 9 <= k < i ==> name@[k] != '.',
        decreases name.len() - i,
    {
        if name[i] == '.' {
            assert(name@.skip(9)[i - 9] == '.');
            return false;
        }
        i = i + 1;
    }
    assert forall|k: int| 0 <= k < name@.skip(9).len() implies name@.skip(9)[k] != '.' by {
        assert(name@.skip(9)[k] == name@[k + 9]);
    }
    true
}

pub fn mcp_entry_is_ours(command: Option<&str>, args: &Vec<String>) -> (r: bool)
    ensures
        r == mcp_entry_is_ours_spec(
            match command {
                Some(c) => Some(c@),
                None => None,
            },
            args@.map_values(|s: String| s@),
        ),
{
    let ours = match command {
        Some(c) => stem_check(c),
        None => false,
    };
    if !ours {
        return false;
    }
    let mcp = String::from_str("mcp");
    let ghost av = args@.map_values(|s: String| s@);
    let mut i: usize = 0;
    while i < args.len()
        invariant
            i <= args.len(),
            mcp@ == "mcp"@,
            match command {
                Some(c) => stem_is_agentrec(c@),
                None => false,
            },
            av == args@.map_values(|s: String| s@),
            forall|k: int| 0 <= k < i ==> av[k] != "mcp"@,
        decreases args.len() - i,
    {
        if args[i] == mcp {
            assert(av[i as int] == "mcp"@);
            return true;
        }
        i = i + 1;
    }
    false
}

pub open spec fn mcp_foreign_line_spec(path: Seq<char>) -> Seq<char> {
    "skipped MCP registration: "@ + path
        + " already declares a server named \"agentrec\" that is not agentrec's own (`agentrec mcp`) \u{2014} left untouched; rename or remove it, then re-run `agentrec init`"@
}

/// What `init` prints when a foreign server occupies agentrec's key.
pub fn mcp_foreign_line(path: &str) -> (s: String)
    ensures
        s@ == mcp_foreign_line_spec(path@),
{
    let mut out: Vec<char> = Vec::new();
    push_str(&mut out, "skipped MCP registration: ");
    push_str(&mut out, path);
    push_str(
        &mut out,
        " already declares a server named \"agentrec\" that is not agentrec's own (`agentrec mcp`) \u{2014} left untouched; rename or remove it, then re-run `agentrec init`",
    );
    string_of(&out)
}


// ---- hook entries in JSON and TOML configuration -----------------------------------

/// Every agentrec hook command contains this marker.
pub const HOOK_MARKER: &'static str = "agentrec hook";
/// The marker, and the command, of agentrec's Codex hooks.
pub const CODEX_HOOK_MARKER: &'static str = "agentrec hook codex";
pub const CODEX_HOOK_COMMAND: &'static str = "agentrec hook codex";
/// The per-hook timeout, in seconds, of every installed Codex hook.
pub const CODEX_HOOK_TIMEOUT_SECS: u64 = 10;

/// A hook object whose `command` contains `marker`.
pub open spec fn hook_has_marker(h: DocV, marker: Seq<char>) -> bool {
    match str_of(field(h, "command"@)) {
        Some(c) => contains_seq(c, marker),
        None => false,
    }
}

/// An entry whose inner `hooks` array holds a marked hook.
pub open spec fn entry_has_marker(e: DocV, marker: Seq<char>) -> bool {
    match field(e, "hooks"@) {
        Some(DocV::Array(hs)) => exists|i: int| 0 <= i < hs.len() && hook_has_marker(#[trigger] hs[i], marker),
        _ => false,
    }
}

/// An array of entries one of which is marked.
pub open spec fn entries_have_marker(v: Option<DocV>, marker: Seq<char>) -> bool {
    match v {
        Some(DocV::Array(es)) => exists|i: int| 0 <= i < es.len() && entry_has_marker(#[trigger] es[i], marker),
        _ => false,
    }
}

/// `hooks.<event>[].hooks[].command` of a settings document contains
/// `marker` somewhere.
pub open spec fn event_marked(settings: DocV, event: Seq<char>, marker: Seq<char>) -> bool {
    entries_have_marker(field_of(field(settings, "hooks"@), event), marker)
}

fn hook_marked(h: &Doc, marker: &Vec<char>) -> (r: bool)
    ensures
        r == hook_has_marker(h@, marker@),
{
    match as_str(get(h, "command")) {
        Some(c) => {
            let cs = chars_of(c);
            contains(&cs, marker)
        },
        None => false,
    }
}

/// Whether some item of `items` is a marked hook.
fn any_hook_marked(items: &Vec<Doc>, marker: &Vec<char>) -> (r: bool)
    ensures
        r == exists|k: int| 0 <= k < items@.len() && hook_has_marker(#[trigger] items_view(items@)[k], marker@),
{
    let mut i: usize = 0;
    while i < items.len()
        invariant
            i <= items.len(),
            forall|k: int| 0 <= k < i ==> !hook_has_marker(#[trigger] items_view(items@)[k], marker@),
        decreases items.len() - i,
    {
        assert(items_view(items@)[i as int] == items@[i as int]@);
        if hook_marked(&items[i], marker) {
            return true;
        }
        i = i + 1;
    }
    false
}

/// Whether some item of `items` is a marked entry.
fn any_entry_marked(items: &Vec<Doc>, marker: &Vec<char>) -> (r: bool)
    ensures
        r == exists|k: int| 0 <= k < items@.len() && entry_has_marker(#[trigger] items_view(items@)[k], marker@),
{
    let mut i: usize = 0;
    while i < items.len()
        invariant
            i <= items.len(),
            forall|k: int| 0 <= k < i ==> !entry_has_marker(#[trigger] items_view(items@)[k], marker@),
        decreases items.len() - i,
    {
        assert(items_view(items@)[i as int] == items@[i as int]@);
        if entry_marked(&items[i], marker) {
            return true;
        }
        i = i + 1;
    }
    false
}

fn entry_marked(e: &Doc, marker: &Vec<char>) -> (r: bool)
    ensures
        r == entry_has_marker(e@, marker@),
{
    match get(e, "hooks") {
        Some(Doc::Array(hs)) => {
            proof {
                lemma_array_view(*hs);
            }
            let r = any_hook_marked(hs, marker);
            proof {
                if r {
                    let k = choose|k: int| 0 <= k < hs@.len() && hook_has_marker(items_view(hs@)[k], marker@);
                    assert(hook_has_marker(items_view(hs@)[k], marker@));
                }
            }
            r
        },
        _ => false,
    }
}

fn entries_marked(v: Option<&Doc>, marker: &Vec<char>) -> (r: bool)
    ensures
        r == entries_have_marker(opt_view(v), marker@),
{
    match v {
        Some(Doc::Array(es)) => {
            proof {
                lemma_array_view(*es);
            }
            any_entry_marked(es, marker)
        },
        _ => false,
    }
}

/// Does `hooks.<event>[].hooks[].command` contain `marker`?
pub fn event_has_marker_with(settings: &Doc, event: &str, marker: &str) -> (r: bool)
    ensures
        r == event_marked(settings@, event@, marker@),
{
    let m = chars_of(marker);
    entries_marked(get_in(get(settings, "hooks"), event), &m)
}

/// Does the event carry any agentrec hook?
pub fn event_has_marker(settings: &Doc, event: &str) -> (r: bool)
    ensures
        r == event_marked(settings@, event@, HOOK_MARKER@),
{
    event_has_marker_with(settings, event, HOOK_MARKER)
}

/// The same walk on a TOML `[hooks]` table: `<event>[].hooks[].command`.
pub fn toml_event_has_marker(hooks_table: &Doc, event: &str, marker: &str) -> (r: bool)
    ensures
        r == entries_have_marker(field(hooks_table@, event@), marker@),
{
    let m = chars_of(marker);
    entries_marked(get(hooks_table, event), &m)
}

/// The two events turn bracketing depends on.
pub open spec fn bracket_hooks_marked(settings: DocV) -> bool {
    event_marked(settings, "UserPromptSubmit"@, HOOK_MARKER@) && event_marked(settings, "Stop"@, HOOK_MARKER@)
}

/// Whether both bracketing hooks are installed in a settings document.
pub fn bracket_hooks_present(settings: &Doc) -> (r: bool)
    ensures
        r == bracket_hooks_marked(settings@),
{
    event_has_marker(settings, "UserPromptSubmit") && event_has_marker(settings, "Stop")
}

/// The hook entry agentrec installs: the matcher (when given) beside an
/// inner `hooks` array holding one command hook, with a timeout when given.
pub open spec fn hook_entry_v(matcher: Option<Seq<char>>, command: Seq<char>, timeout: Option<Seq<char>>) -> DocV {
    let hook = match timeout {
        Some(t) => DocV::Object(
            seq![("type"@, DocV::Str("command"@)), ("command"@, DocV::Str(command)), ("timeout"@, DocV::Number(t))],
        ),
        None => DocV::Object(seq![("type"@, DocV::Str("command"@)), ("command"@, DocV::Str(command))]),
    };
    let inner = ("hooks"@, DocV::Array(seq![hook]));
    match matcher {
        Some(m) => DocV::Object(seq![("matcher"@, DocV::Str(m)), inner]),
        None => DocV::Object(seq![inner]),
    }
}

fn string_doc(s: &str) -> (d: Doc)
    ensures
        d@ == DocV::Str(s@),
{
    Doc::Str(String::from_str(s))
}

/// A hook entry.
pub fn hook_entry(matcher: Option<&str>, command: &str, timeout_secs: Option<u64>) -> (d: Doc)
    ensures
        d@ == hook_entry_v(
            match matcher {
                Some(m) => Some(m@),
                None => None,
            },
            command@,
            match timeout_secs {
                Some(t) => Some(crate::text::dec(t as nat)),
                None => None,
            },
        ),
{
    let ghost tv: Option<Seq<char>> = match timeout_secs {
        Some(t) => Some(crate::text::dec(t as nat)),
        None => None,
    };
    let ghost mv: Option<Seq<char>> = match matcher {
        Some(m) => Some(m@),
        None => None,
    };
    let mut hook: Vec<(String, Doc)> = Vec::new();
    let t = string_doc("command");
    let c = string_doc(command);
    hook.push((String::from_str("type"), t));
    hook.push((String::from_str("command"), c));
    let ghost base = seq![("type"@, DocV::Str("command"@)), ("command"@, DocV::Str(command@))];
    assert(entries_view(hook@) =~= base);
    match timeout_secs {
        Some(t) => {
            let mut digits: Vec<char> = Vec::new();
            crate::text::push_decimal(&mut digits, t);
            assert(digits@ =~= crate::text::dec(t as nat));
            let n = Doc::Number(crate::text::string_of(&digits));
            let ghost before = hook@;
            hook.push((String::from_str("timeout"), n));
            assert(entries_view(hook@) =~= base.push(("timeout"@, DocV::Number(crate::text::dec(t as nat)))));
        },
        None => {},
    }
    assert(entries_view(hook@) == match tv {
        Some(t) => base.push(("timeout"@, DocV::Number(t))),
        None => base,
    });
    proof {
        lemma_object_view(hook);
    }
    let hook_doc = Doc::Object(hook);
    let ghost hook_v = hook_doc@;
    assert(hook_v == DocV::Object(entries_view(hook@)));
    proof {
        match tv {
            Some(t) => {
                assert(base.push(("timeout"@, DocV::Number(t))) =~= seq![
                    ("type"@, DocV::Str("command"@)),
                    ("command"@, DocV::Str(command@)),
                    ("timeout"@, DocV::Number(t)),
                ]);
            },
            None => {},
        }
    }
    assert(hook_v == match tv {
        Some(t) => DocV::Object(
            seq![("type"@, DocV::Str("command"@)), ("command"@, DocV::Str(command@)), ("timeout"@, DocV::Number(t))],
        ),
        None => DocV::Object(seq![("type"@, DocV::Str("command"@)), ("command"@, DocV::Str(command@))]),
    });
    let mut inner: Vec<Doc> = Vec::new();
    inner.push(hook_doc);
    proof {
        lemma_array_view(inner);
    }
    assert(items_view(inner@) =~= seq![hook_v]);
    let inner_doc = Doc::Array(inner);
    let ghost inner_v = inner_doc@;
    assert(inner_v == DocV::Array(seq![hook_v]));
    let mut entry: Vec<(String, Doc)> = Vec::new();
    match matcher {
        Some(m) => {
            let md = string_doc(m);
            entry.push((String::from_str("matcher"), md));
            entry.push((String::from_str("hooks"), inner_doc));
            assert(entries_view(entry@) =~= seq![("matcher"@, DocV::Str(m@)), ("hooks"@, inner_v)]);
        },
        None => {
            entry.push((String::from_str("hooks"), inner_doc));
            assert(entries_view(entry@) =~= seq![("hooks"@, inner_v)]);
        },
    }
    proof {
        lemma_object_view(entry);
    }
    Doc::Object(entry)
}

/// The Codex hook entry (in either file format).
pub fn codex_hook_entry(matcher: Option<&str>) -> (d: Doc)
    ensures
        d@ == hook_entry_v(
            match matcher {
                Some(m) => Some(m@),
                None => None,
            },
            CODEX_HOOK_COMMAND@,
            Some("10"@),
        ),
{
    proof {
        reveal_strlit("10");
        assert(crate::text::dec(1) == seq!['1']);
        assert(crate::text::dec(10) =~= seq!['1', '0']);
        assert(crate::text::dec(10) =~= "10"@);
    }
    hook_entry(matcher, CODEX_HOOK_COMMAND, Some(CODEX_HOOK_TIMEOUT_SECS))
}

/// `settings` with `entry` appended to `hooks.<event>`, creating `hooks`
/// and the event's array as needed; `top_msg` when `settings` is not an
/// object, and `who`-named refusals when `hooks` is not an object or the
/// event's value not an array.
pub open spec fn with_hook(settings: DocV, event: Seq<char>, entry: DocV, top_msg: Seq<char>, who: Seq<char>) -> Result<DocV, Seq<char>> {
    match settings {
        DocV::Object(es) => {
            let hooks: Result<Seq<(Seq<char>, DocV)>, Seq<char>> = match entry_of(es, "hooks"@) {
                None => Ok(seq![]),
                Some(DocV::Object(h)) => Ok(h),
                Some(_) => Err(who + " \"hooks\" is not a JSON object"@),
            };
            match hooks {
                Err(m) => Err(m),
                Ok(h) => {
                    let arr: Result<Seq<DocV>, Seq<char>> = match entry_of(h, event) {
                        None => Ok(seq![]),
                        Some(DocV::Array(a)) => Ok(a),
                        Some(_) => Err(who + " \"hooks."@ + event + "\" is not a JSON array"@),
                    };
                    match arr {
                        Err(m) => Err(m),
                        Ok(a) => Ok(
                            DocV::Object(
                                set_entry(
                                    es,
                                    "hooks"@,
                                    DocV::Object(set_entry(h, event, DocV::Array(a.push(entry)))),
                                ),
                            ),
                        ),
                    }
                },
            }
        },
        _ => Err(top_msg),
    }
}

fn msg2(a: &str, b: &str) -> (s: String)
    ensures
        s@ == a@ + b@,
{
    let mut out: Vec<char> = Vec::new();
    crate::text::push_str(&mut out, a);
    crate::text::push_str(&mut out, b);
    crate::text::string_of(&out)
}

fn msg4(a: &str, b: &str, c: &str, d: &str) -> (s: String)
    ensures
        s@ == a@ + b@ + c@ + d@,
{
    let mut out: Vec<char> = Vec::new();
    crate::text::push_str(&mut out, a);
    crate::text::push_str(&mut out, b);
    crate::text::push_str(&mut out, c);
    crate::text::push_str(&mut out, d);
    crate::text::string_of(&out)
}

/// Takes the value of the first entry named `k` out of `es` (leaving the
/// position to be filled again by [`put_back`]).
fn take_entry(es: &mut Vec<(String, Doc)>, k: &str) -> (r: (usize, Option<Doc>))
    ensures
        r.0 <= old(es)@.len(),
        r.0 <= final(es)@.len(),
        key_pos(entries_view(old(es)@), k@) < 0 ==> r.1 is None && r.0 == old(es)@.len() && final(es)@ == old(es)@,
        key_pos(entries_view(old(es)@), k@) >= 0 ==> (r.0 == key_pos(entries_view(old(es)@), k@) && (r.1 matches Some(v)
            && Some(v@) == entry_of(entries_view(old(es)@), k@)) && final(es)@ == old(es)@.remove(r.0 as int)),
{
    proof {
        lemma_key_pos(entries_view(es@), k@);
    }
    match key_position(es, k) {
        Some(i) => {
            let ghost before = es@;
            let (_, v) = es.remove(i);
            assert(entries_view(before)[i as int] == (before[i as int].0@, before[i as int].1@));
            (i, Some(v))
        },
        None => (es.len(), None),
    }
}

proof fn lemma_put_back(es: Seq<(String, Doc)>, i: int, k: String, v: Doc)
    requires
        0 <= i <= es.len(),
        key_pos(entries_view(es), k@) < 0 ==> i == es.len(),
        key_pos(entries_view(es), k@) >= 0 ==> i == key_pos(entries_view(es), k@),
    ensures
        ({
            let back = if key_pos(entries_view(es), k@) >= 0 {
                es.remove(i).insert(i, (k, v))
            } else {
                es.insert(i, (k, v))
            };
            entries_view(back) == set_entry(entries_view(es), k@, v@)
        }),
{
    lemma_key_pos(entries_view(es), k@);
    if key_pos(entries_view(es), k@) >= 0 {
        assert(es.remove(i).insert(i, (k, v)) =~= es.update(i, (k, v)));
        assert(entries_view(es.update(i, (k, v))) =~= entries_view(es).update(i, (k@, v@)));
    } else {
        assert(es.insert(i, (k, v)) =~= es.push((k, v)));
        assert(entries_view(es.push((k, v))) =~= entries_view(es).push((k@, v@)));
    }
}

/// Appends `entry` to `hooks.<event>` of `settings`.
pub fn add_hook_entry(settings: Doc, event: &str, entry: Doc, top_msg: &str, who: &str) -> (r: Result<Doc, String>)
    ensures
        match r {
            Ok(d) => with_hook(settings@, event@, entry@, top_msg@, who@) == Ok::<DocV, Seq<char>>(d@),
            Err(m) => with_hook(settings@, event@, entry@, top_msg@, who@) == Err::<DocV, Seq<char>>(m@),
        },
{
    let ghost sv = settings@;
    let ghost ev = entry@;
    let mut top = match settings {
        Doc::Object(es) => {
            proof {
                lemma_object_view(es);
            }
            es
        },
        _ => return Err(String::from_str(top_msg)),
    };
    let ghost top0 = top@;
    let (hi, hooks_val) = take_entry(&mut top, "hooks");
    let mut hooks: Vec<(String, Doc)> = match hooks_val {
        None => Vec::new(),
        Some(Doc::Object(h)) => {
            proof {
                lemma_object_view(h);
            }
            h
        },
        Some(_) => return Err(msg2(who, " \"hooks\" is not a JSON object")),
    };
    let ghost hooks0 = hooks@;
    assert(entries_view(hooks0) == match entry_of(entries_view(top0), "hooks"@) {
        Some(DocV::Object(h)) => h,
        _ => seq![],
    });
    let (ei, arr_val) = take_entry(&mut hooks, event);
    let mut arr: Vec<Doc> = match arr_val {
        None => Vec::new(),
        Some(Doc::Array(a)) => {
            proof {
                lemma_array_view(a);
            }
            a
        },
        Some(_) => return Err(msg4(who, " \"hooks.", event, "\" is not a JSON array")),
    };
    let ghost arr0 = arr@;
    assert(items_view(arr0) == match entry_of(entries_view(hooks0), event@) {
        Some(DocV::Array(a)) => a,
        _ => seq![],
    });
    arr.push(entry);
    assert(items_view(arr@) == items_view(arr0).push(ev));
    let arr_doc = Doc::Array(arr);
    proof {
        lemma_array_view(arr);
    }
    let ek = String::from_str(event);
    hooks.insert(ei, (ek, arr_doc));
    proof {
        lemma_put_back(hooks0, ei as int, ek, arr_doc);
        lemma_object_view(hooks);
    }
    let ghost new_hooks = set_entry(entries_view(hooks0), event@, DocV::Array(items_view(arr0).push(ev)));
    assert(entries_view(hooks@) == new_hooks);
    let hooks_doc = Doc::Object(hooks);
    assert(hooks_doc@ == DocV::Object(new_hooks));
    let hk = String::from_str("hooks");
    top.insert(hi, (hk, hooks_doc));
    proof {
        lemma_put_back(top0, hi as int, hk, hooks_doc);
        lemma_object_view(top);
    }
    assert(entries_view(top@) == set_entry(entries_view(top0), "hooks"@, DocV::Object(new_hooks)));
    assert(sv == DocV::Object(entries_view(top0)));
    Ok(Doc::Object(top))
}

/// `init`'s hook merge for one event of an agent settings file: nothing to
/// do when the event already carries an agentrec hook; otherwise the entry
/// for `command` (with `matcher`, when given) is appended.
pub fn merge_hook(settings: Doc, event: &str, matcher: Option<&str>, command: &str) -> (r: Result<(Doc, bool), String>)
    ensures
        event_marked(settings@, event@, HOOK_MARKER@) ==> (r matches Ok((d, changed)) && !changed && d@ == settings@),
        !event_marked(settings@, event@, HOOK_MARKER@) ==> match with_hook(
            settings@,
            event@,
            hook_entry_v(
                match matcher {
                    Some(m) => Some(m@),
                    None => None,
                },
                command@,
                None,
            ),
            "settings.local.json is not a JSON object"@,
            "settings"@,
        ) {
            Ok(w) => (r matches Ok((d, changed)) && changed && d@ == w),
            Err(m) => (r matches Err(e) && e@ == m),
        },
{
    if event_has_marker(&settings, event) {
        return Ok((settings, false));
    }
    let entry = hook_entry(matcher, command, None);
    match add_hook_entry(settings, event, entry, "settings.local.json is not a JSON object", "settings") {
        Ok(d) => Ok((d, true)),
        Err(m) => Err(m),
    }
}


proof fn lemma_entry_has_marker(e: DocV, hs: Seq<DocV>, i: int, marker: Seq<char>)
    requires
        field(e, "hooks"@) == Some(DocV::Array(hs)),
        0 <= i < hs.len(),
        hook_has_marker(hs[i], marker),
    ensures
        entry_has_marker(e, marker),
{
    match field(e, "hooks"@) {
        Some(DocV::Array(hs2)) => {
            assert(hs2 == hs);
            assert(hook_has_marker(hs2[i], marker));
        },
        _ => {
            assert(false);
        },
    }
}

proof fn lemma_entries_have_marker(v: Option<DocV>, es: Seq<DocV>, i: int, marker: Seq<char>)
    requires
        v == Some(DocV::Array(es)),
        0 <= i < es.len(),
        entry_has_marker(es[i], marker),
    ensures
        entries_have_marker(v, marker),
{
    match v {
        Some(DocV::Array(es2)) => {
            assert(es2 == es);
            assert(entry_has_marker(es2[i], marker));
        },
        _ => {
            assert(false);
        },
    }
}

/// The entry a successful [`with_hook`] appended is marked by `marker` when
/// its command contains the marker.
proof fn lemma_with_hook_marks(
    v: DocV,
    event: Seq<char>,
    matcher: Option<Seq<char>>,
    command: Seq<char>,
    timeout: Option<Seq<char>>,
    top_msg: Seq<char>,
    who: Seq<char>,
    marker: Seq<char>,
)
    requires
        contains_seq(command, marker),
        with_hook(v, event, hook_entry_v(matcher, command, timeout), top_msg, who) is Ok,
    ensures
        event_marked(
            with_hook(v, event, hook_entry_v(matcher, command, timeout), top_msg, who)->Ok_0,
            event,
            marker,
        ),
{
    let e = hook_entry_v(matcher, command, timeout);
    let w = with_hook(v, event, e, top_msg, who)->Ok_0;
    reveal_strlit("hooks");
    reveal_strlit("matcher");
    reveal_strlit("type");
    reveal_strlit("command");
    reveal_strlit("timeout");
    if let DocV::Object(es) = v {
        let h = match entry_of(es, "hooks"@) {
            Some(DocV::Object(h)) => h,
            _ => seq![],
        };
        let a = match entry_of(h, event) {
            Some(DocV::Array(a)) => a,
            _ => seq![],
        };
        let hx = DocV::Object(set_entry(h, event, DocV::Array(a.push(e))));
        lemma_set_entry(es, "hooks"@, hx, "hooks"@);
        lemma_set_entry(h, event, DocV::Array(a.push(e)), event);
        assert(field(w, "hooks"@) == Some(hx));
        assert(field_of(field(w, "hooks"@), event) == Some(DocV::Array(a.push(e))));
        let hes: Seq<(Seq<char>, DocV)> = match timeout {
            Some(t) => seq![("type"@, DocV::Str("command"@)), ("command"@, DocV::Str(command)), ("timeout"@, DocV::Number(t))],
            None => seq![("type"@, DocV::Str("command"@)), ("command"@, DocV::Str(command))],
        };
        let hook = DocV::Object(hes);
        assert("type"@.len() == 4 && "command"@.len() == 7 && "hooks"@.len() == 5 && "matcher"@.len() == 7);
        assert(hes[0].0 == "type"@);
        assert(hes[0].0 != "command"@);
        assert(hes.drop_first()[0].0 == "command"@);
        assert(key_pos(hes.drop_first(), "command"@) == 0);
        assert(key_pos(hes, "command"@) == 1);
        assert(entry_of(hes, "command"@) == Some(DocV::Str(command)));
        assert(hook_has_marker(hook, marker));
        let inner = ("hooks"@, DocV::Array(seq![hook]));
        let ees: Seq<(Seq<char>, DocV)> = match matcher {
            Some(m) => seq![("matcher"@, DocV::Str(m)), inner],
            None => seq![inner],
        };
        assert(e == DocV::Object(ees));
        if matcher is Some {
            assert(ees[0].0 != "hooks"@);
            assert(ees.drop_first()[0].0 == "hooks"@);
            assert(key_pos(ees.drop_first(), "hooks"@) == 0);
            assert(key_pos(ees, "hooks"@) == 1);
        } else {
            assert(key_pos(ees, "hooks"@) == 0);
        }
        let hs = seq![hook];
        assert(field(e, "hooks"@) == Some(DocV::Array(hs)));
        assert(hs[0] == hook);
        assert(0 <= 0 < hs.len() && hook_has_marker(hs[0], marker));
        lemma_entry_has_marker(e, hs, 0, marker);
        assert(a.push(e)[a.len() as int] == e);
        lemma_entries_have_marker(field_of(field(w, "hooks"@), event), a.push(e), a.len() as int, marker);
    }
}

/// Re-running the hook merge changes nothing: once an entry whose command
/// carries the marker has been appended for an event, that event is marked,
/// so a second merge of the same event returns its input unchanged.
pub proof fn law_merge_hook_is_idempotent(v: DocV, event: Seq<char>, matcher: Option<Seq<char>>, command: Seq<char>)
    requires
        contains_seq(command, HOOK_MARKER@),
    ensures
        with_hook(
            v,
            event,
            hook_entry_v(matcher, command, None),
            "settings.local.json is not a JSON object"@,
            "settings"@,
        ) matches Ok(w) ==> event_marked(w, event, HOOK_MARKER@),
{
    if with_hook(
        v,
        event,
        hook_entry_v(matcher, command, None),
        "settings.local.json is not a JSON object"@,
        "settings"@,
    ) is Ok {
        lemma_with_hook_marks(
            v,
            event,
            matcher,
            command,
            None,
            "settings.local.json is not a JSON object"@,
            "settings"@,
            HOOK_MARKER@,
        );
    }
}

/// The settings after [`merge_hook`] has merged agentrec's hook for each
/// `(event, matcher)` of `evs` in turn: an event already carrying the
/// marker is left as it is.
pub open spec fn merge_hooks_all(v: DocV, evs: Seq<(Seq<char>, Option<Seq<char>>)>, command: Seq<char>) -> Result<
    DocV,
    Seq<char>,
>
    decreases evs.len(),
{
    if evs.len() == 0 {
        Ok(v)
    } else {
        match merge_hooks_all(v, evs.drop_last(), command) {
            Err(m) => Err(m),
            Ok(w) => if event_marked(w, evs.last().0, HOOK_MARKER@) {
                Ok(w)
            } else {
                with_hook(
                    w,
                    evs.last().0,
                    hook_entry_v(evs.last().1, command, None),
                    "settings.local.json is not a JSON object"@,
                    "settings"@,
                )
            },
        }
    }
}

proof fn lemma_merge_hooks_all_marks(v: DocV, evs: Seq<(Seq<char>, Option<Seq<char>>)>, command: Seq<char>)
    requires
        contains_seq(command, HOOK_MARKER@),
        forall|i: int, j: int| 0 <= i < j < evs.len() ==> (#[trigger] evs[i]).0 != (#[trigger] evs[j]).0,
    ensures
        merge_hooks_all(v, evs, command) matches Ok(w) ==> forall|i: int|
            0 <= i < evs.len() ==> event_marked(w, (#[trigger] evs[i]).0, HOOK_MARKER@),
    decreases evs.len(),
{
    if evs.len() > 0 {
        let rest = evs.drop_last();
        assert forall|i: int, j: int| 0 <= i < j < rest.len() implies (#[trigger] rest[i]).0 != (#[trigger] rest[j]).0 by {
            assert(rest[i] == evs[i] && rest[j] == evs[j]);
        }
        lemma_merge_hooks_all_marks(v, rest, command);
        if let Ok(w1) = merge_hooks_all(v, rest, command) {
            let e = evs.last().0;
            if !event_marked(w1, e, HOOK_MARKER@) {
                let entry = hook_entry_v(evs.last().1, command, None);
                let top = "settings.local.json is not a JSON object"@;
                if let Ok(w) = with_hook(w1, e, entry, top, "settings"@) {
                    law_merge_hook_is_idempotent(w1, e, evs.last().1, command);
                    reveal_strlit("hooks");
                    reveal_strlit("settings");
                    assert("settings"@ != "hooks"@);
                    assert forall|i: int| 0 <= i < evs.len() implies event_marked(w, (#[trigger] evs[i]).0, HOOK_MARKER@) by {
                        if i < evs.len() - 1 {
                            assert(evs[i] == rest[i]);
                            assert(evs[i].0 != evs[evs.len() - 1].0);
                            law_merge_hook_preserves_unrelated_hooks(w1, e, entry, top, "settings"@, "settings"@, evs[i].0);
                        }
                    }
                }
            } else {
                assert forall|i: int| 0 <= i < evs.len() implies event_marked(w1, (#[trigger] evs[i]).0, HOOK_MARKER@) by {
                    if i < evs.len() - 1 {
                        assert(evs[i] == rest[i]);
                    }
                }
            }
        }
    }
}

proof fn lemma_merge_hooks_all_settled(w: DocV, evs: Seq<(Seq<char>, Option<Seq<char>>)>, command: Seq<char>)
    requires
        forall|i: int| 0 <= i < evs.len() ==> event_marked(w, (#[trigger] evs[i]).0, HOOK_MARKER@),
    ensures
        merge_hooks_all(w, evs, command) == Ok::<DocV, Seq<char>>(w),
    decreases evs.len(),
{
    if evs.len() > 0 {
        let rest = evs.drop_last();
        assert forall|i: int| 0 <= i < rest.len() implies event_marked(w, (#[trigger] rest[i]).0, HOOK_MARKER@) by {
            assert(rest[i] == evs[i]);
        }
        lemma_merge_hooks_all_settled(w, rest, command);
        assert(event_marked(w, evs[evs.len() - 1].0, HOOK_MARKER@));
    }
}

/// A second hook install over the same events changes nothing: once every
/// event has been merged, each carries the marker, so merging them all
/// again gives back the same settings.
pub proof fn law_second_hook_install_changes_nothing(
    v: DocV,
    evs: Seq<(Seq<char>, Option<Seq<char>>)>,
    command: Seq<char>,
)
    requires
        contains_seq(command, HOOK_MARKER@),
        forall|i: int, j: int| 0 <= i < j < evs.len() ==> (#[trigger] evs[i]).0 != (#[trigger] evs[j]).0,
    ensures
        merge_hooks_all(v, evs, command) matches Ok(w) ==> merge_hooks_all(w, evs, command) == Ok::<
            DocV,
            Seq<char>,
        >(w),
{
    lemma_merge_hooks_all_marks(v, evs, command);
    if let Ok(w) = merge_hooks_all(v, evs, command) {
        lemma_merge_hooks_all_settled(w, evs, command);
    }
}

/// Merging one event's hook leaves every other top-level key and every other
/// event's hooks exactly as they were.
pub proof fn law_merge_hook_preserves_unrelated_hooks(
    v: DocV,
    event: Seq<char>,
    entry: DocV,
    top_msg: Seq<char>,
    who: Seq<char>,
    other_key: Seq<char>,
    other_event: Seq<char>,
)
    requires
        other_key != "hooks"@,
        other_event != event,
    ensures
        with_hook(v, event, entry, top_msg, who) matches Ok(w) ==> field(w, other_key) == field(v, other_key)
            && field_of(field(w, "hooks"@), other_event) == field_of(field(v, "hooks"@), other_event),
{
    if let DocV::Object(es) = v {
        if with_hook(v, event, entry, top_msg, who) is Ok {
            let h = match entry_of(es, "hooks"@) {
                Some(DocV::Object(h)) => h,
                _ => seq![],
            };
            let a = match entry_of(h, event) {
                Some(DocV::Array(a)) => a,
                _ => seq![],
            };
            let hx = DocV::Object(set_entry(h, event, DocV::Array(a.push(entry))));
            lemma_set_entry(es, "hooks"@, hx, other_key);
            lemma_set_entry(es, "hooks"@, hx, "hooks"@);
            lemma_set_entry(h, event, DocV::Array(a.push(entry)), other_event);
            lemma_key_pos(es, "hooks"@);
        }
    }
}


// ---- Codex hooks: hooks.json -----------------------------------------------------------

pub open spec fn opt_seq(o: Option<&str>) -> Option<Seq<char>> {
    match o {
        Some(s) => Some(s@),
        None => None,
    }
}

/// The Codex hook entry, in either file format.
pub open spec fn codex_entry_v(matcher: Option<Seq<char>>) -> DocV {
    hook_entry_v(matcher, CODEX_HOOK_COMMAND@, Some("10"@))
}

/// One event of the hooks.json merge: skipped when already marked,
/// otherwise the Codex entry is appended.
pub open spec fn codex_json_step(
    r: Result<(DocV, bool), Seq<char>>,
    event: Seq<char>,
    matcher: Option<Seq<char>>,
) -> Result<(DocV, bool), Seq<char>> {
    match r {
        Err(m) => Err(m),
        Ok((v, changed)) => if event_marked(v, event, CODEX_HOOK_MARKER@) {
            Ok((v, changed))
        } else {
            match with_hook(v, event, codex_entry_v(matcher), "hooks.json is not a JSON object"@, "hooks.json"@) {
                Ok(w) => Ok((w, true)),
                Err(m) => Err(m),
            }
        },
    }
}

/// The hooks.json merge over the three Codex events, in order.
pub open spec fn codex_json_merged(v: DocV) -> Result<(DocV, bool), Seq<char>> {
    codex_json_step(
        codex_json_step(
            codex_json_step(Ok((v, false)), "UserPromptSubmit"@, None),
            "PostToolUse"@,
            Some("apply_patch"@),
        ),
        "Stop"@,
        None,
    )
}

fn codex_json_event(settings: Doc, changed: bool, event: &str, matcher: Option<&str>) -> (r: Result<(Doc, bool), String>)
    ensures
        match codex_json_step(Ok((settings@, changed)), event@, opt_seq(matcher)) {
            Ok((w, c)) => r matches Ok((d, rc)) && d@ == w && rc == c,
            Err(m) => r matches Err(e) && e@ == m,
        },
{
    if event_has_marker_with(&settings, event, CODEX_HOOK_MARKER) {
        return Ok((settings, changed));
    }
    let entry = codex_hook_entry(matcher);
    match add_hook_entry(settings, event, entry, "hooks.json is not a JSON object", "hooks.json") {
        Ok(d) => Ok((d, true)),
        Err(m) => Err(m),
    }
}

/// `.codex/hooks.json`'s merge: each of the three Codex events
/// (`UserPromptSubmit`, `PostToolUse` with matcher `apply_patch`, `Stop`)
/// that carries no Codex hook gets the Codex entry; the flag says whether
/// anything was added.
pub fn merge_codex_hooks_json(settings: Doc) -> (r: Result<(Doc, bool), String>)
    ensures
        match codex_json_merged(settings@) {
            Ok((w, c)) => r matches Ok((d, rc)) && d@ == w && rc == c,
            Err(m) => r matches Err(e) && e@ == m,
        },
{
    let (d, c) = match codex_json_event(settings, false, "UserPromptSubmit", None) {
        Ok(x) => x,
        Err(m) => return Err(m),
    };
    let (d, c) = match codex_json_event(d, c, "PostToolUse", Some("apply_patch")) {
        Ok(x) => x,
        Err(m) => return Err(m),
    };
    codex_json_event(d, c, "Stop", None)
}

/// After a successful hooks.json merge, every Codex event is marked, so a
/// second merge adds nothing.
pub proof fn law_codex_json_merge_is_idempotent(v: DocV)
    ensures
        codex_json_merged(v) matches Ok((w, _)) ==> event_marked(w, "UserPromptSubmit"@, CODEX_HOOK_MARKER@)
            && event_marked(w, "PostToolUse"@, CODEX_HOOK_MARKER@) && event_marked(
            w,
            "Stop"@,
            CODEX_HOOK_MARKER@,
        ),
        codex_json_merged(v) matches Ok((w, _)) ==> codex_json_merged(w) == Ok::<(DocV, bool), Seq<char>>(
            (w, false),
        ),
{
    reveal_strlit("agentrec hook codex");
    assert(contains_seq(CODEX_HOOK_COMMAND@, CODEX_HOOK_MARKER@)) by {
        let c = CODEX_HOOK_COMMAND@;
        assert(c == CODEX_HOOK_MARKER@);
        assert(c.subrange(0, c.len() as int) =~= c);
        assert(crate::text::occurs_at(c, CODEX_HOOK_MARKER@, 0));
    }
    let m1 = "hooks.json is not a JSON object"@;
    let m2 = "hooks.json"@;
    let e1 = "UserPromptSubmit"@;
    let e2 = "PostToolUse"@;
    let e3 = "Stop"@;
    reveal_strlit("UserPromptSubmit");
    reveal_strlit("PostToolUse");
    reveal_strlit("Stop");
    reveal_strlit("hooks");
    reveal_strlit("x");
    assert(e1.len() == 16 && e2.len() == 11 && e3.len() == 4 && "hooks"@.len() == 5 && "x"@.len() == 1);
    assert(e1 != e2 && e1 != e3 && e2 != e3 && e1 != "hooks"@ && "x"@ != "hooks"@);
    let r1 = codex_json_step(Ok((v, false)), e1, None);
    if let Ok((v1, _)) = r1 {
        if !event_marked(v, e1, CODEX_HOOK_MARKER@) {
            lemma_with_hook_marks(v, e1, None, CODEX_HOOK_COMMAND@, Some("10"@), m1, m2, CODEX_HOOK_MARKER@);
        }
        assert(event_marked(v1, e1, CODEX_HOOK_MARKER@));
        let r2 = codex_json_step(r1, e2, Some("apply_patch"@));
        if let Ok((v2, _)) = r2 {
            if !event_marked(v1, e2, CODEX_HOOK_MARKER@) {
                lemma_with_hook_marks(v1, e2, Some("apply_patch"@), CODEX_HOOK_COMMAND@, Some("10"@), m1, m2, CODEX_HOOK_MARKER@);
                law_merge_hook_preserves_unrelated_hooks(v1, e2, codex_entry_v(Some("apply_patch"@)), m1, m2, "x"@, e1);
            }
            assert(event_marked(v2, e1, CODEX_HOOK_MARKER@));
            assert(event_marked(v2, e2, CODEX_HOOK_MARKER@));
            let r3 = codex_json_step(r2, e3, None);
            if let Ok((v3, _)) = r3 {
                if !event_marked(v2, e3, CODEX_HOOK_MARKER@) {
                    lemma_with_hook_marks(v2, e3, None, CODEX_HOOK_COMMAND@, Some("10"@), m1, m2, CODEX_HOOK_MARKER@);
                    law_merge_hook_preserves_unrelated_hooks(v2, e3, codex_entry_v(None), m1, m2, "x"@, e1);
                    law_merge_hook_preserves_unrelated_hooks(v2, e3, codex_entry_v(None), m1, m2, "x"@, e2);
                }
                assert(event_marked(v3, e1, CODEX_HOOK_MARKER@));
                assert(event_marked(v3, e2, CODEX_HOOK_MARKER@));
                assert(event_marked(v3, e3, CODEX_HOOK_MARKER@));
            }
        }
    }
}


// ---- Codex hooks: config.toml -------------------------------------------------------------

/// One event of the `[hooks]` table merge.
pub open spec fn codex_toml_step(
    r: Result<(Seq<(Seq<char>, DocV)>, bool), Seq<char>>,
    event: Seq<char>,
    matcher: Option<Seq<char>>,
    path: Seq<char>,
) -> Result<(Seq<(Seq<char>, DocV)>, bool), Seq<char>> {
    match r {
        Err(m) => Err(m),
        Ok((h, changed)) => if entries_have_marker(entry_of(h, event), CODEX_HOOK_MARKER@) {
            Ok((h, changed))
        } else {
            match entry_of(h, event) {
                None => Ok((set_entry(h, event, DocV::Array(seq![codex_entry_v(matcher)])), true)),
                Some(DocV::Array(a)) => Ok((set_entry(h, event, DocV::Array(a.push(codex_entry_v(matcher)))), true)),
                Some(_) => Err(path + " \"hooks."@ + event + "\" is not a TOML array"@),
            }
        },
    }
}

/// The merge of agentrec's Codex hooks into the inline `[hooks]` table of
/// a parsed `.codex/config.toml` (its top-level entries `doc`), read from
/// `path`: `[hooks]` is created when absent and must be a table; each Codex
/// event without a Codex hook gets the entry.
pub open spec fn codex_toml_merged(doc: Seq<(Seq<char>, DocV)>, path: Seq<char>) -> Result<(Seq<(Seq<char>, DocV)>, bool), Seq<char>> {
    let hooks: Result<Seq<(Seq<char>, DocV)>, Seq<char>> = match entry_of(doc, "hooks"@) {
        None => Ok(seq![]),
        Some(DocV::Object(h)) => Ok(h),
        Some(_) => Err(path + " \"hooks\" is not a TOML table"@),
    };
    match hooks {
        Err(m) => Err(m),
        Ok(h) => {
            let steps = codex_toml_step(
                codex_toml_step(
                    codex_toml_step(Ok((h, false)), "UserPromptSubmit"@, None, path),
                    "PostToolUse"@,
                    Some("apply_patch"@),
                    path,
                ),
                "Stop"@,
                None,
                path,
            );
            match steps {
                Err(m) => Err(m),
                Ok((h2, changed)) => Ok((set_entry(doc, "hooks"@, DocV::Object(h2)), changed)),
            }
        },
    }
}

fn codex_toml_event(hooks: Vec<(String, Doc)>, changed: bool, event: &str, matcher: Option<&str>, path: &str) -> (r: Result<(Vec<(String, Doc)>, bool), String>)
    ensures
        match codex_toml_step(Ok((entries_view(hooks@), changed)), event@, opt_seq(matcher), path@) {
            Ok((h, c)) => r matches Ok((d, rc)) && entries_view(d@) == h && rc == c,
            Err(m) => r matches Err(e) && e@ == m,
        },
{
    let marker = chars_of(CODEX_HOOK_MARKER);
    if entries_marked(crate::doc::get_entry(&hooks, event), &marker) {
        return Ok((hooks, changed));
    }
    let ghost h0 = hooks@;
    let mut hooks = hooks;
    let (i, val) = take_entry(&mut hooks, event);
    let mut arr: Vec<Doc> = match val {
        None => Vec::new(),
        Some(Doc::Array(a)) => {
            proof {
                lemma_array_view(a);
            }
            a
        },
        Some(_) => return Err(msg4(path, " \"hooks.", event, "\" is not a TOML array")),
    };
    let ghost a0 = arr@;
    let entry = codex_hook_entry(matcher);
    let ghost ev = entry@;
    arr.push(entry);
    assert(items_view(arr@) == items_view(a0).push(ev));
    proof {
        lemma_array_view(arr);
    }
    let arr_doc = Doc::Array(arr);
    let k = String::from_str(event);
    hooks.insert(i, (k, arr_doc));
    proof {
        lemma_put_back(h0, i as int, k, arr_doc);
        if entry_of(entries_view(h0), event@) is None {
            assert(items_view(a0) == Seq::<DocV>::empty());
            assert(items_view(a0).push(ev) =~= seq![ev]);
        }
    }
    Ok((hooks, true))
}

/// An entry built by [`hook_entry_v`] is marked by any marker its command
/// contains.
proof fn lemma_hook_entry_marked(matcher: Option<Seq<char>>, command: Seq<char>, timeout: Option<Seq<char>>, marker: Seq<char>)
    requires
        contains_seq(command, marker),
    ensures
        entry_has_marker(hook_entry_v(matcher, command, timeout), marker),
{
    let e = hook_entry_v(matcher, command, timeout);
    reveal_strlit("hooks");
    reveal_strlit("matcher");
    reveal_strlit("type");
    reveal_strlit("command");
    reveal_strlit("timeout");
    let hes: Seq<(Seq<char>, DocV)> = match timeout {
        Some(t) => seq![("type"@, DocV::Str("command"@)), ("command"@, DocV::Str(command)), ("timeout"@, DocV::Number(t))],
        None => seq![("type"@, DocV::Str("command"@)), ("command"@, DocV::Str(command))],
    };
    let hook = DocV::Object(hes);
    assert("type"@.len() == 4 && "command"@.len() == 7 && "hooks"@.len() == 5 && "matcher"@.len() == 7);
    assert(hes[0].0 == "type"@);
    assert(hes[0].0 != "command"@);
    assert(hes.drop_first()[0].0 == "command"@);
    assert(key_pos(hes.drop_first(), "command"@) == 0);
    assert(key_pos(hes, "command"@) == 1);
    assert(entry_of(hes, "command"@) == Some(DocV::Str(command)));
    assert(hook_has_marker(hook, marker));
    let inner = ("hooks"@, DocV::Array(seq![hook]));
    let ees: Seq<(Seq<char>, DocV)> = match matcher {
        Some(m) => seq![("matcher"@, DocV::Str(m)), inner],
        None => seq![inner],
    };
    assert(e == DocV::Object(ees));
    if matcher is Some {
        assert(ees[0].0 != "hooks"@);
        assert(ees.drop_first()[0].0 == "hooks"@);
        assert(key_pos(ees.drop_first(), "hooks"@) == 0);
        assert(key_pos(ees, "hooks"@) == 1);
    } else {
        assert(key_pos(ees, "hooks"@) == 0);
    }
    let hs = seq![hook];
    assert(field(e, "hooks"@) == Some(DocV::Array(hs)));
    lemma_entry_has_marker(e, hs, 0, marker);
}

/// A successful `[hooks]` step leaves its event marked and every other
/// event's value as it was.
proof fn lemma_toml_step(h: Seq<(Seq<char>, DocV)>, changed: bool, event: Seq<char>, matcher: Option<Seq<char>>, path: Seq<char>, other: Seq<char>)
    requires
        codex_toml_step(Ok((h, changed)), event, matcher, path) is Ok,
    ensures
        ({
            let h2 = codex_toml_step(Ok((h, changed)), event, matcher, path)->Ok_0.0;
            &&& entries_have_marker(entry_of(h2, event), CODEX_HOOK_MARKER@)
            &&& other != event ==> entry_of(h2, other) == entry_of(h, other)
        }),
{
    if !entries_have_marker(entry_of(h, event), CODEX_HOOK_MARKER@) {
        reveal_strlit("agentrec hook codex");
        assert(contains_seq(CODEX_HOOK_COMMAND@, CODEX_HOOK_MARKER@)) by {
            let c = CODEX_HOOK_COMMAND@;
            assert(c.subrange(0, c.len() as int) =~= c);
            assert(crate::text::occurs_at(c, CODEX_HOOK_MARKER@, 0));
        }
        lemma_hook_entry_marked(matcher, CODEX_HOOK_COMMAND@, Some("10"@), CODEX_HOOK_MARKER@);
        let x = codex_entry_v(matcher);
        let a: Seq<DocV> = match entry_of(h, event) {
            Some(DocV::Array(a)) => a,
            _ => seq![],
        };
        let arr = a.push(x);
        if entry_of(h, event) is None {
            assert(arr =~= seq![x]);
        }
        lemma_set_entry(h, event, DocV::Array(arr), event);
        lemma_set_entry(h, event, DocV::Array(arr), other);
        assert(arr[a.len() as int] == x);
        lemma_entries_have_marker(Some(DocV::Array(arr)), arr, a.len() as int, CODEX_HOOK_MARKER@);
    }
}

/// Setting an entry to the value it already has changes nothing.
proof fn lemma_set_entry_same(es: Seq<(Seq<char>, DocV)>, k: Seq<char>, v: DocV)
    requires
        entry_of(es, k) == Some(v),
    ensures
        set_entry(es, k, v) == es,
{
    lemma_key_pos(es, k);
    let p = key_pos(es, k);
    assert(es[p] == (k, v));
    assert(es.update(p, (k, v)) =~= es);
}

/// After a successful `[hooks]` merge every Codex event is marked, so a
/// second merge of the result adds nothing and returns it unchanged.
pub proof fn law_codex_toml_merge_is_idempotent(doc: Seq<(Seq<char>, DocV)>, path: Seq<char>)
    ensures
        codex_toml_merged(doc, path) matches Ok((d, _)) ==> codex_toml_merged(d, path) == Ok::<
            (Seq<(Seq<char>, DocV)>, bool),
            Seq<char>,
        >((d, false)),
{
    let e1 = "UserPromptSubmit"@;
    let e2 = "PostToolUse"@;
    let e3 = "Stop"@;
    reveal_strlit("UserPromptSubmit");
    reveal_strlit("PostToolUse");
    reveal_strlit("Stop");
    assert(e1.len() == 16 && e2.len() == 11 && e3.len() == 4);
    assert(e1 != e2 && e1 != e3 && e2 != e3);
    if let Ok((d, _)) = codex_toml_merged(doc, path) {
        let h0: Seq<(Seq<char>, DocV)> = match entry_of(doc, "hooks"@) {
            Some(DocV::Object(h)) => h,
            _ => seq![],
        };
        let r1 = codex_toml_step(Ok((h0, false)), e1, None, path);
        lemma_toml_step(h0, false, e1, None, path, e2);
        let h1 = r1->Ok_0.0;
        let r2 = codex_toml_step(r1, e2, Some("apply_patch"@), path);
        lemma_toml_step(h1, r1->Ok_0.1, e2, Some("apply_patch"@), path, e1);
        let h2 = r2->Ok_0.0;
        let r3 = codex_toml_step(r2, e3, None, path);
        lemma_toml_step(h2, r2->Ok_0.1, e3, None, path, e1);
        lemma_toml_step(h2, r2->Ok_0.1, e3, None, path, e2);
        let h3 = r3->Ok_0.0;
        assert(entries_have_marker(entry_of(h3, e1), CODEX_HOOK_MARKER@));
        assert(entries_have_marker(entry_of(h3, e2), CODEX_HOOK_MARKER@));
        assert(entries_have_marker(entry_of(h3, e3), CODEX_HOOK_MARKER@));
        assert(d == set_entry(doc, "hooks"@, DocV::Object(h3)));
        lemma_set_entry(doc, "hooks"@, DocV::Object(h3), "hooks"@);
        assert(entry_of(d, "hooks"@) == Some(DocV::Object(h3)));
        let s1 = codex_toml_step(Ok((h3, false)), e1, None, path);
        assert(s1 == Ok::<(Seq<(Seq<char>, DocV)>, bool), Seq<char>>((h3, false)));
        let s2 = codex_toml_step(s1, e2, Some("apply_patch"@), path);
        assert(s2 == Ok::<(Seq<(Seq<char>, DocV)>, bool), Seq<char>>((h3, false)));
        let s3 = codex_toml_step(s2, e3, None, path);
        assert(s3 == Ok::<(Seq<(Seq<char>, DocV)>, bool), Seq<char>>((h3, false)));
        lemma_set_entry_same(d, "hooks"@, DocV::Object(h3));
    }
}

/// The `[hooks]` merge of a parsed `.codex/config.toml` whose top-level
/// entries are `doc`.
pub fn merge_codex_hooks_toml(doc: Vec<(String, Doc)>, path: &str) -> (r: Result<(Vec<(String, Doc)>, bool), String>)
    ensures
        match codex_toml_merged(entries_view(doc@), path@) {
            Ok((d, c)) => r matches Ok((out, rc)) && entries_view(out@) == d && rc == c,
            Err(m) => r matches Err(e) && e@ == m,
        },
{
    let ghost d0 = doc@;
    let mut doc = doc;
    let (i, val) = take_entry(&mut doc, "hooks");
    let hooks: Vec<(String, Doc)> = match val {
        None => Vec::new(),
        Some(Doc::Object(h)) => {
            proof {
                lemma_object_view(h);
            }
            h
        },
        Some(_) => return Err(msg2(path, " \"hooks\" is not a TOML table")),
    };
    assert(entries_view(hooks@) == match entry_of(entries_view(d0), "hooks"@) {
        Some(DocV::Object(h)) => h,
        _ => seq![],
    });
    let (h, c) = match codex_toml_event(hooks, false, "UserPromptSubmit", None, path) {
        Ok(x) => x,
        Err(m) => return Err(m),
    };
    let (h, c) = match codex_toml_event(h, c, "PostToolUse", Some("apply_patch"), path) {
        Ok(x) => x,
        Err(m) => return Err(m),
    };
    let (h, c) = match codex_toml_event(h, c, "Stop", None, path) {
        Ok(x) => x,
        Err(m) => return Err(m),
    };
    proof {
        lemma_object_view(h);
    }
    let hd = Doc::Object(h);
    let k = String::from_str("hooks");
    doc.insert(i, (k, hd));
    proof {
        lemma_put_back(d0, i as int, k, hd);
    }
    Ok((doc, c))
}


// ---- MCP registration in documents ------------------------------------------------------

/// The string items of an array, in order.
pub open spec fn strs_of(items: Seq<DocV>) -> Seq<Seq<char>>
    decreases items.len(),
{
    if items.len() == 0 {
        seq![]
    } else {
        let rest = strs_of(items.drop_last());
        match items.last() {
            DocV::Str(s) => rest.push(s),
            _ => rest,
        }
    }
}

/// A registry entry's string arguments.
pub open spec fn args_of(e: DocV) -> Seq<Seq<char>> {
    match field(e, "args"@) {
        Some(DocV::Array(items)) => strs_of(items),
        _ => seq![],
    }
}

/// A registry entry (a JSON object or a TOML table) that is agentrec's own.
pub open spec fn doc_entry_is_ours(e: DocV) -> bool {
    mcp_entry_is_ours_spec(str_of(field(e, "command"@)), args_of(e))
}

/// What `<servers_key>.agentrec` holds in a registry document.
pub open spec fn mcp_state_of(v: DocV, servers_key: Seq<char>) -> McpRegState {
    match field_of(field(v, servers_key), "agentrec"@) {
        None => McpRegState::Absent,
        Some(e) => if doc_entry_is_ours(e) {
            McpRegState::Ours
        } else {
            McpRegState::Foreign
        },
    }
}

/// Whether a registry entry, in either file format, is agentrec's own.
pub fn mcp_doc_entry_is_ours(entry: &Doc) -> (r: bool)
    ensures
        r == doc_entry_is_ours(entry@),
{
    let command = as_str(get(entry, "command"));
    let mut args: Vec<String> = Vec::new();
    match get(entry, "args") {
        Some(Doc::Array(items)) => {
            proof {
                lemma_array_view(*items);
            }
            let ghost iv = items_view(items@);
            let mut i: usize = 0;
            while i < items.len()
                invariant
                    i <= items.len(),
                    iv == items_view(items@),
                    args@.map_values(|s: String| s@) == strs_of(iv.take(i as int)),
                decreases items.len() - i,
            {
                assert(iv.take(i + 1).drop_last() == iv.take(i as int));
                assert(iv.take(i + 1).last() == items@[i as int]@);
                match &items[i] {
                    Doc::Str(s) => {
                        let ghost before = args@;
                        args.push(s.clone());
                        assert(args@.map_values(|s: String| s@) == before.map_values(|s: String| s@).push(s@));
                    },
                    _ => {},
                }
                i = i + 1;
            }
            assert(iv.take(items.len() as int) == iv);
        },
        _ => {},
    }
    mcp_entry_is_ours(command, &args)
}

/// What the `agentrec` key holds under `servers_key` of a parsed registry.
pub fn mcp_state_in(doc: &Doc, servers_key: &str) -> (s: McpRegState)
    ensures
        s == mcp_state_of(doc@, servers_key@),
{
    match get_in(get(doc, servers_key), "agentrec") {
        None => McpRegState::Absent,
        Some(e) => if mcp_doc_entry_is_ours(e) {
            McpRegState::Ours
        } else {
            McpRegState::Foreign
        },
    }
}

/// A registry file as read: its read error's message, `None` when it does
/// not exist, or its parse (the parser's error message, or the document).
pub open spec fn registry_state(
    path: Seq<char>,
    file: Result<Option<Result<DocV, Seq<char>>>, Seq<char>>,
    format: Seq<char>,
    servers_key: Seq<char>,
) -> Result<McpRegState, Seq<char>> {
    match file {
        Err(e) => Err("cannot read existing "@ + path + " ("@ + e + "); not touching it"@),
        Ok(None) => Ok(McpRegState::Absent),
        Ok(Some(Err(e))) => Err("existing "@ + path + " is not valid "@ + format + " ("@ + e
            + "); not touching it"@),
        Ok(Some(Ok(v))) => Ok(mcp_state_of(v, servers_key)),
    }
}

pub open spec fn file_view(file: Result<Option<Result<Doc, String>>, String>) -> Result<Option<Result<DocV, Seq<char>>>, Seq<char>> {
    match file {
        Err(e) => Err(e@),
        Ok(None) => Ok(None),
        Ok(Some(Err(e))) => Ok(Some(Err(e@))),
        Ok(Some(Ok(d))) => Ok(Some(Ok(d@))),
    }
}

/// A JSON file as read (`Err`: the read error's message; `None`: it does
/// not exist), with its text parsed.
pub fn json_file(read: Result<Option<String>, String>) -> (r: Result<Option<Result<Doc, String>>, String>)
    ensures
        file_view(r) == match read {
            Err(e) => Err(e@),
            Ok(None) => Ok(None),
            Ok(Some(t)) => Ok(Some(json_parse(t@))),
        },
{
    match read {
        Err(e) => Err(e),
        Ok(None) => Ok(None),
        Ok(Some(t)) => {
            let p = crate::doc::parse_json(t.as_str());
            Ok(Some(p))
        },
    }
}

/// A TOML file as read (`Err`: the read error's message; `None`: it does
/// not exist), with its text parsed into its top-level table.
pub fn toml_file(read: Result<Option<String>, String>) -> (r: Result<Option<Result<Doc, String>>, String>)
    ensures
        file_view(r) == match read {
            Err(e) => Err(e@),
            Ok(None) => Ok(None),
            Ok(Some(t)) => Ok(
                Some(
                    match crate::config::toml_parse(t@) {
                        Ok(ds) => Ok(DocV::Object(ds)),
                        Err(m) => Err(m),
                    },
                ),
            ),
        },
{
    match read {
        Err(e) => Err(e),
        Ok(None) => Ok(None),
        Ok(Some(t)) => match crate::config::parse_toml_doc(t.as_str()) {
            Ok(es) => {
                proof {
                    lemma_object_view(es);
                }
                Ok(Some(Ok(Doc::Object(es))))
            },
            Err(m) => Ok(Some(Err(m))),
        },
    }
}

fn read_failure(path: &str, e: &str) -> (m: String)
    ensures
        m@ == "cannot read existing "@ + path@ + " ("@ + e@ + "); not touching it"@,
{
    let mut out: Vec<char> = Vec::new();
    crate::text::push_str(&mut out, "cannot read existing ");
    crate::text::push_str(&mut out, path);
    crate::text::push_str(&mut out, " (");
    crate::text::push_str(&mut out, e);
    crate::text::push_str(&mut out, "); not touching it");
    crate::text::string_of(&out)
}

fn parse_failure(path: &str, format: &str, e: &str) -> (m: String)
    ensures
        m@ == "existing "@ + path@ + " is not valid "@ + format@ + " ("@ + e@ + "); not touching it"@,
{
    let mut out: Vec<char> = Vec::new();
    crate::text::push_str(&mut out, "existing ");
    crate::text::push_str(&mut out, path);
    crate::text::push_str(&mut out, " is not valid ");
    crate::text::push_str(&mut out, format);
    crate::text::push_str(&mut out, " (");
    crate::text::push_str(&mut out, e);
    crate::text::push_str(&mut out, "); not touching it");
    crate::text::string_of(&out)
}

/// Read-only inspection of `.mcp.json` as read from `path`.
pub fn mcp_json_state(path: &str, file: &Result<Option<Result<Doc, String>>, String>) -> (r: Result<McpRegState, String>)
    ensures
        match registry_state(path@, file_view(*file), "JSON"@, "mcpServers"@) {
            Ok(s) => r == Ok::<McpRegState, String>(s),
            Err(m) => r matches Err(e) && e@ == m,
        },
{
    registry_state_exec(path, file, "JSON", "mcpServers")
}

/// Read-only inspection of `.codex/config.toml`'s `[mcp_servers.agentrec]`.
pub fn codex_mcp_state(path: &str, file: &Result<Option<Result<Doc, String>>, String>) -> (r: Result<McpRegState, String>)
    ensures
        match registry_state(path@, file_view(*file), "TOML"@, "mcp_servers"@) {
            Ok(s) => r == Ok::<McpRegState, String>(s),
            Err(m) => r matches Err(e) && e@ == m,
        },
{
    registry_state_exec(path, file, "TOML", "mcp_servers")
}

fn registry_state_exec(
    path: &str,
    file: &Result<Option<Result<Doc, String>>, String>,
    format: &str,
    servers_key: &str,
) -> (r: Result<McpRegState, String>)
    ensures
        match registry_state(path@, file_view(*file), format@, servers_key@) {
            Ok(s) => r == Ok::<McpRegState, String>(s),
            Err(m) => r matches Err(e) && e@ == m,
        },
{
    match file {
        Err(e) => Err(read_failure(path, e.as_str())),
        Ok(None) => Ok(McpRegState::Absent),
        Ok(Some(Err(e))) => Err(parse_failure(path, format, e.as_str())),
        Ok(Some(Ok(d))) => Ok(mcp_state_in(d, servers_key)),
    }
}

/// agentrec's registry entry: the command `agentrec` with the argument
/// `mcp`.
pub open spec fn ours_entry_v() -> DocV {
    DocV::Object(seq![("command"@, DocV::Str("agentrec"@)), ("args"@, DocV::Array(seq![DocV::Str("mcp"@)]))])
}

fn ours_entry() -> (d: Doc)
    ensures
        d@ == ours_entry_v(),
{
    let mut args: Vec<Doc> = Vec::new();
    args.push(string_doc("mcp"));
    proof {
        lemma_array_view(args);
    }
    assert(items_view(args@) =~= seq![DocV::Str("mcp"@)]);
    let args_doc = Doc::Array(args);
    let ghost av = args_doc@;
    let mut es: Vec<(String, Doc)> = Vec::new();
    es.push((String::from_str("command"), string_doc("agentrec")));
    es.push((String::from_str("args"), args_doc));
    assert(entries_view(es@) =~= seq![("command"@, DocV::Str("agentrec"@)), ("args"@, av)]);
    proof {
        lemma_object_view(es);
    }
    Doc::Object(es)
}

/// `top` with `<servers_key>.agentrec` set to agentrec's entry, creating the
/// servers table when absent; `not_table` when it is not a table.
pub open spec fn with_server(top: Seq<(Seq<char>, DocV)>, servers_key: Seq<char>, not_table: Seq<char>) -> Result<Seq<(Seq<char>, DocV)>, Seq<char>> {
    let servers: Result<Seq<(Seq<char>, DocV)>, Seq<char>> = match entry_of(top, servers_key) {
        None => Ok(seq![]),
        Some(DocV::Object(s)) => Ok(s),
        Some(_) => Err(not_table),
    };
    match servers {
        Err(m) => Err(m),
        Ok(s) => Ok(set_entry(top, servers_key, DocV::Object(set_entry(s, "agentrec"@, ours_entry_v())))),
    }
}

fn set_server(top: Vec<(String, Doc)>, servers_key: &str, not_table: String) -> (r: Result<Vec<(String, Doc)>, String>)
    ensures
        match with_server(entries_view(top@), servers_key@, not_table@) {
            Ok(t) => r matches Ok(out) && entries_view(out@) == t,
            Err(m) => r matches Err(e) && e@ == m,
        },
{
    let ghost t0 = top@;
    let mut top = top;
    let (i, val) = take_entry(&mut top, servers_key);
    let mut servers: Vec<(String, Doc)> = match val {
        None => Vec::new(),
        Some(Doc::Object(s)) => {
            proof {
                lemma_object_view(s);
            }
            s
        },
        Some(_) => return Err(not_table),
    };
    let ghost s0 = servers@;
    assert(entries_view(s0) == match entry_of(entries_view(t0), servers_key@) {
        Some(DocV::Object(s)) => s,
        _ => seq![],
    });
    let (j, _) = take_entry(&mut servers, "agentrec");
    let e = ours_entry();
    let name = String::from_str("agentrec");
    servers.insert(j, (name, e));
    proof {
        lemma_put_back(s0, j as int, name, e);
        lemma_object_view(servers);
    }
    let sd = Doc::Object(servers);
    let k = String::from_str(servers_key);
    top.insert(i, (k, sd));
    proof {
        lemma_put_back(t0, i as int, k, sd);
    }
    Ok(top)
}

/// What registering agentrec in a registry file comes to.
pub enum McpPlan {
    /// Someone else's server holds the key: nothing is written.
    Foreign,
    /// agentrec's entry is already there: nothing is written.
    Unchanged,
    /// The document to write.
    Write(Doc),
}

pub open spec fn mcp_json_plan_spec(path: Seq<char>, file: Result<Option<Result<DocV, Seq<char>>>, Seq<char>>) -> Result<Option<DocV>, Seq<char>> {
    match registry_state(path, file, "JSON"@, "mcpServers"@) {
        Err(m) => Err(m),
        Ok(McpRegState::Foreign) => Ok(None),
        Ok(McpRegState::Ours) => Ok(None),
        Ok(McpRegState::Absent) => {
            let v = match file {
                Ok(Some(Ok(v))) => v,
                _ => DocV::Object(seq![]),
            };
            match v {
                DocV::Object(es) => match with_server(es, "mcpServers"@, path + " \"mcpServers\" is not a JSON object"@) {
                    Ok(t) => Ok(Some(DocV::Object(t))),
                    Err(m) => Err(m),
                },
                _ => Err(path + " is not a JSON object"@),
            }
        },
    }
}

/// Registering agentrec in `.mcp.json` (read from `path`): a foreign entry
/// under the key, or agentrec's own, means no write; otherwise the document
/// (an empty object when the file does not exist) gains
/// `mcpServers.agentrec`.
pub fn plan_mcp_json(path: &str, file: Result<Option<Result<Doc, String>>, String>) -> (r: Result<McpPlan, String>)
    ensures
        match mcp_json_plan_spec(path@, file_view(file)) {
            Err(m) => r matches Err(e) && e@ == m,
            Ok(None) => r matches Ok(p) && (p is Foreign || p is Unchanged) && (p is Foreign <==> registry_state(
                path@,
                file_view(file),
                "JSON"@,
                "mcpServers"@,
            ) == Ok::<McpRegState, Seq<char>>(McpRegState::Foreign)),
            Ok(Some(w)) => r matches Ok(McpPlan::Write(d)) && d@ == w,
        },
{
    let state = match mcp_json_state(path, &file) {
        Ok(s) => s,
        Err(m) => return Err(m),
    };
    match state {
        McpRegState::Foreign => return Ok(McpPlan::Foreign),
        McpRegState::Ours => return Ok(McpPlan::Unchanged),
        McpRegState::Absent => {},
    }
    let doc = match file {
        Ok(Some(Ok(d))) => d,
        _ => {
            let empty: Vec<(String, Doc)> = Vec::new();
            proof {
                lemma_object_view(empty);
                assert(entries_view(empty@) =~= seq![]);
            }
            Doc::Object(empty)
        },
    };
    let es = match doc {
        Doc::Object(es) => {
            proof {
                lemma_object_view(es);
            }
            es
        },
        _ => return Err(msg2(path, " is not a JSON object")),
    };
    match set_server(es, "mcpServers", msg2(path, " \"mcpServers\" is not a JSON object")) {
        Ok(t) => {
            proof {
                lemma_object_view(t);
            }
            Ok(McpPlan::Write(Doc::Object(t)))
        },
        Err(m) => Err(m),
    }
}

pub open spec fn codex_mcp_plan_spec(path: Seq<char>, file: Result<Option<Result<DocV, Seq<char>>>, Seq<char>>) -> Result<Option<DocV>, Seq<char>> {
    match registry_state(path, file, "TOML"@, "mcp_servers"@) {
        Err(m) => Err(m),
        Ok(McpRegState::Foreign) => Ok(None),
        Ok(McpRegState::Ours) => Ok(None),
        Ok(McpRegState::Absent) => {
            let es = match file {
                Ok(Some(Ok(DocV::Object(es)))) => es,
                _ => seq![],
            };
            match with_server(es, "mcp_servers"@, path + " \"mcp_servers\" is not a TOML table"@) {
                Ok(t) => Ok(Some(DocV::Object(t))),
                Err(m) => Err(m),
            }
        },
    }
}

/// Registering agentrec in `.codex/config.toml` (read from `path`; a parsed
/// TOML document is a table): as for `.mcp.json`, with `[mcp_servers]`.
pub fn plan_codex_mcp(path: &str, file: Result<Option<Result<Doc, String>>, String>) -> (r: Result<McpPlan, String>)
    requires
        file matches Ok(Some(Ok(d))) ==> d is Object,
    ensures
        match codex_mcp_plan_spec(path@, file_view(file)) {
            Err(m) => r matches Err(e) && e@ == m,
            Ok(None) => r matches Ok(p) && (p is Foreign || p is Unchanged) && (p is Foreign <==> registry_state(
                path@,
                file_view(file),
                "TOML"@,
                "mcp_servers"@,
            ) == Ok::<McpRegState, Seq<char>>(McpRegState::Foreign)),
            Ok(Some(w)) => r matches Ok(McpPlan::Write(d)) && d@ == w,
        },
{
    let state = match codex_mcp_state(path, &file) {
        Ok(s) => s,
        Err(m) => return Err(m),
    };
    match state {
        McpRegState::Foreign => return Ok(McpPlan::Foreign),
        McpRegState::Ours => return Ok(McpPlan::Unchanged),
        McpRegState::Absent => {},
    }
    let es: Vec<(String, Doc)> = match file {
        Ok(Some(Ok(Doc::Object(es)))) => {
            proof {
                lemma_object_view(es);
            }
            es
        },
        _ => {
            let empty: Vec<(String, Doc)> = Vec::new();
            assert(entries_view(empty@) =~= seq![]);
            empty
        },
    };
    match set_server(es, "mcp_servers", msg2(path, " \"mcp_servers\" is not a TOML table")) {
        Ok(t) => {
            proof {
                lemma_object_view(t);
            }
            Ok(McpPlan::Write(Doc::Object(t)))
        },
        Err(m) => Err(m),
    }
}


// ---- Codex hook shape -------------------------------------------------------------------

/// Does one of the event's entries carry the matcher `m`?
pub open spec fn has_matcher(v: Option<DocV>, m: Seq<char>) -> bool {
    match v {
        Some(DocV::Array(es)) => exists|i: int| 0 <= i < es.len() && str_of(field(#[trigger] es[i], "matcher"@)) == Some(m),
        _ => false,
    }
}

/// The shape verdict for the Codex events under `container` (the `hooks`
/// object of hooks.json, or the `[hooks]` table), naming the file in
/// `suffix`: each event must carry a Codex hook, and `PostToolUse` the
/// `apply_patch` matcher.
pub open spec fn shape_verdict(container: Option<DocV>, suffix: Seq<char>) -> Result<(), Seq<char>> {
    let m = CODEX_HOOK_MARKER@;
    if !entries_have_marker(field_of(container, "UserPromptSubmit"@), m) {
        Err("UserPromptSubmit entry missing from "@ + suffix)
    } else if !entries_have_marker(field_of(container, "PostToolUse"@), m) {
        Err("PostToolUse entry missing from "@ + suffix)
    } else if !has_matcher(field_of(container, "PostToolUse"@), "apply_patch"@) {
        Err("PostToolUse entry missing matcher \"apply_patch\" in "@ + suffix)
    } else if !entries_have_marker(field_of(container, "Stop"@), m) {
        Err("Stop entry missing from "@ + suffix)
    } else {
        Ok(())
    }
}

fn any_matcher(es: &Vec<Doc>, m: &str) -> (r: bool)
    ensures
        r == exists|k: int| 0 <= k < es@.len() && str_of(field(#[trigger] items_view(es@)[k], "matcher"@)) == Some(m@),
{
    let mut i: usize = 0;
    while i < es.len()
        invariant
            i <= es.len(),
            forall|k: int| 0 <= k < i ==> str_of(field(#[trigger] items_view(es@)[k], "matcher"@)) != Some(m@),
        decreases es.len() - i,
    {
        assert(items_view(es@)[i as int] == es@[i as int]@);
        match as_str(get(&es[i], "matcher")) {
            Some(x) => {
                if crate::paths::same_chars(&chars_of(x), &chars_of(m)) {
                    return true;
                }
            },
            None => {},
        }
        i = i + 1;
    }
    false
}

proof fn lemma_has_matcher(v: Option<DocV>, es: Seq<DocV>, m: Seq<char>)
    requires
        v == Some(DocV::Array(es)),
    ensures
        has_matcher(v, m) == exists|k: int| 0 <= k < es.len() && str_of(field(#[trigger] es[k], "matcher"@)) == Some(m),
{
    match v {
        Some(DocV::Array(es2)) => {
            assert(es2 == es);
        },
        _ => {},
    }
}

fn matcher_present(v: Option<&Doc>, m: &str) -> (r: bool)
    ensures
        r == has_matcher(opt_view(v), m@),
{
    match v {
        Some(Doc::Array(es)) => {
            proof {
                lemma_array_view(*es);
                lemma_has_matcher(opt_view(v), items_view(es@), m@);
            }
            any_matcher(es, m)
        },
        _ => false,
    }
}

fn shape_in(container: Option<&Doc>, suffix: &str) -> (r: Result<(), String>)
    ensures
        match shape_verdict(opt_view(container), suffix@) {
            Ok(()) => r is Ok,
            Err(m) => r matches Err(e) && e@ == m,
        },
{
    let marker = chars_of(CODEX_HOOK_MARKER);
    if !entries_marked(get_in(container, "UserPromptSubmit"), &marker) {
        return Err(msg2("UserPromptSubmit entry missing from ", suffix));
    }
    let post = get_in(container, "PostToolUse");
    if !entries_marked(post, &marker) {
        return Err(msg2("PostToolUse entry missing from ", suffix));
    }
    if !matcher_present(post, "apply_patch") {
        return Err(msg2("PostToolUse entry missing matcher \"apply_patch\" in ", suffix));
    }
    if !entries_marked(get_in(container, "Stop"), &marker) {
        return Err(msg2("Stop entry missing from ", suffix));
    }
    Ok(())
}

/// The shape of agentrec's entries in a parsed hooks.json.
pub fn codex_hooks_shape_json(settings: &Doc) -> (r: Result<(), String>)
    ensures
        match shape_verdict(field(settings@, "hooks"@), "hooks.json"@) {
            Ok(()) => r is Ok,
            Err(m) => r matches Err(e) && e@ == m,
        },
{
    shape_in(get(settings, "hooks"), "hooks.json")
}

/// The shape of agentrec's entries in a `[hooks]` table.
pub fn codex_hooks_shape_toml(hooks_table: &Doc) -> (r: Result<(), String>)
    ensures
        match shape_verdict(Some(hooks_table@), "config.toml [hooks]"@) {
            Ok(()) => r is Ok,
            Err(m) => r matches Err(e) && e@ == m,
        },
{
    shape_in(Some(hooks_table), "config.toml [hooks]")
}

/// Some Codex event under `container` carries a Codex hook.
pub open spec fn any_codex_event_marked(container: Option<DocV>) -> bool {
    entries_have_marker(field_of(container, "UserPromptSubmit"@), CODEX_HOOK_MARKER@)
        || entries_have_marker(field_of(container, "PostToolUse"@), CODEX_HOOK_MARKER@)
        || entries_have_marker(field_of(container, "Stop"@), CODEX_HOOK_MARKER@)
}

fn any_codex_marked(container: Option<&Doc>) -> (r: bool)
    ensures
        r == any_codex_event_marked(opt_view(container)),
{
    let marker = chars_of(CODEX_HOOK_MARKER);
    entries_marked(get_in(container, "UserPromptSubmit"), &marker) || entries_marked(
        get_in(container, "PostToolUse"),
        &marker,
    ) || entries_marked(get_in(container, "Stop"), &marker)
}

/// The `[hooks]` table of a parsed config.toml, when it is a table.
pub open spec fn hooks_table_of(toml: Option<DocV>) -> Option<DocV> {
    match field_of(toml, "hooks"@) {
        Some(DocV::Object(h)) => Some(DocV::Object(h)),
        _ => None,
    }
}

fn hooks_table<'a>(toml: Option<&'a Doc>) -> (r: Option<&'a Doc>)
    ensures
        opt_view(r) == hooks_table_of(opt_view(toml)),
{
    match get_in(toml, "hooks") {
        Some(h) => match h {
            Doc::Object(_) => Some(h),
            _ => None,
        },
        None => None,
    }
}

/// Whether any agentrec Codex hook is installed: in hooks.json (when read
/// and parsed) or in the `[hooks]` table of config.toml (likewise).
pub fn codex_hooks_installed(hooks_json: Option<&Doc>, config_toml: Option<&Doc>) -> (r: bool)
    ensures
        r == (any_codex_event_marked(field_of(opt_view(hooks_json), "hooks"@)) || any_codex_event_marked(
            hooks_table_of(opt_view(config_toml)),
        )),
{
    if any_codex_marked(get_in(hooks_json, "hooks")) {
        return true;
    }
    any_codex_marked(hooks_table(config_toml))
}

/// The shape of the Codex hook config in use: hooks.json when it carries
/// our marker, else the `[hooks]` table of config.toml when there is one.
pub fn codex_hooks_shape(hooks_json: Option<&Doc>, config_toml: Option<&Doc>) -> (r: Result<(), String>)
    ensures
        any_codex_event_marked(field_of(opt_view(hooks_json), "hooks"@)) ==> match shape_verdict(
            field_of(opt_view(hooks_json), "hooks"@),
            "hooks.json"@,
        ) {
            Ok(()) => r is Ok,
            Err(m) => r matches Err(e) && e@ == m,
        },
        !any_codex_event_marked(field_of(opt_view(hooks_json), "hooks"@)) && hooks_table_of(
            opt_view(config_toml),
        ) is Some ==> match shape_verdict(hooks_table_of(opt_view(config_toml)), "config.toml [hooks]"@) {
            Ok(()) => r is Ok,
            Err(m) => r matches Err(e) && e@ == m,
        },
        !any_codex_event_marked(field_of(opt_view(hooks_json), "hooks"@)) && hooks_table_of(
            opt_view(config_toml),
        ) is None ==> (r matches Err(e) && e@
            == "no Codex hook config found (neither hooks.json nor config.toml [hooks])"@),
{
    let container = get_in(hooks_json, "hooks");
    if any_codex_marked(container) {
        return shape_in(container, "hooks.json");
    }
    match hooks_table(config_toml) {
        Some(h) => shape_in(Some(h), "config.toml [hooks]"),
        None => Err(String::from_str("no Codex hook config found (neither hooks.json nor config.toml [hooks])")),
    }
}


// ---- laws of MCP registration -------------------------------------------------------------

proof fn lemma_scan_without_slash(p: Seq<char>)
    requires
        !has_char(p, '/'),
    ensures
        crate::paths::scan(p) == (Seq::<Seq<char>>::empty(), p),
    decreases p.len(),
{
    if p.len() > 0 {
        assert(!has_char(p.drop_last(), '/')) by {
            if has_char(p.drop_last(), '/') {
                let i = choose|i: int| 0 <= i < p.drop_last().len() && p.drop_last()[i] == '/';
                assert(p[i] == '/');
            }
        }
        lemma_scan_without_slash(p.drop_last());
        assert(p[p.len() - 1] != '/');
        assert(p.drop_last().push(p.last()) =~= p);
    }
}

/// agentrec's own entry is recognised as agentrec's own.
proof fn lemma_ours_entry_is_ours()
    ensures
        doc_entry_is_ours(ours_entry_v()),
{
    let name = "agentrec"@;
    reveal_strlit("agentrec");
    reveal_strlit("command");
    reveal_strlit("args");
    reveal_strlit("mcp");
    reveal_strlit(".");
    assert(!has_char(name, '/'));
    lemma_scan_without_slash(name);
    assert(name != "."@);
    assert(components(name) == seq![name]);
    let es = seq![("command"@, DocV::Str("agentrec"@)), ("args"@, DocV::Array(seq![DocV::Str("mcp"@)]))];
    assert(key_pos(es, "command"@) == 0);
    assert("command"@.len() == 7 && "args"@.len() == 4);
    assert(es[0].0 != "args"@);
    assert(key_pos(es.drop_first(), "args"@) == 0);
    assert(key_pos(es, "args"@) == 1);
    let items = seq![DocV::Str("mcp"@)];
    assert(items.drop_last() =~= Seq::<DocV>::empty());
    assert(strs_of(items.drop_last()) == Seq::<Seq<char>>::empty());
    assert(items.last() == DocV::Str("mcp"@));
    assert(strs_of(items) =~= seq!["mcp"@]);
    assert(seq!["mcp"@][0] == "mcp"@);
    assert(seq!["mcp"@].contains("mcp"@));
}

/// Registering agentrec makes the registry hold agentrec's own entry (so a
/// second registration writes nothing), and leaves every other server and
/// every other top-level key as it was.
pub proof fn law_mcp_registration_is_idempotent_and_preserves_others(
    top: Seq<(Seq<char>, DocV)>,
    servers_key: Seq<char>,
    not_table: Seq<char>,
    other_server: Seq<char>,
    other_key: Seq<char>,
)
    requires
        other_server != "agentrec"@,
        other_key != servers_key,
    ensures
        with_server(top, servers_key, not_table) matches Ok(t) ==> {
            &&& mcp_state_of(DocV::Object(t), servers_key) == McpRegState::Ours
            &&& field_of(field(DocV::Object(t), servers_key), other_server) == field_of(
                field(DocV::Object(top), servers_key),
                other_server,
            )
            &&& field(DocV::Object(t), other_key) == field(DocV::Object(top), other_key)
        },
{
    if with_server(top, servers_key, not_table) is Ok {
        let s = match entry_of(top, servers_key) {
            Some(DocV::Object(s)) => s,
            _ => seq![],
        };
        let sx = DocV::Object(set_entry(s, "agentrec"@, ours_entry_v()));
        lemma_set_entry(top, servers_key, sx, servers_key);
        lemma_set_entry(top, servers_key, sx, other_key);
        lemma_set_entry(s, "agentrec"@, ours_entry_v(), "agentrec"@);
        lemma_set_entry(s, "agentrec"@, ours_entry_v(), other_server);
        lemma_ours_entry_is_ours();
        lemma_key_pos(s, other_server);
        if entry_of(top, servers_key) is None {
            assert(entry_of(s, other_server) is None);
        }
    }
}

// ---- .gitignore ---------------------------------------------------------------------

/// Some line of the `.gitignore` text, trimmed, is `.agentrec/` or
/// `.agentrec`.
pub open spec fn ignores_store(text: Seq<char>) -> bool {
    exists|i: int|
        0 <= i < crate::text::lines(text).len() && (crate::text::trim(#[trigger] crate::text::lines(text)[i])
            == ".agentrec/"@ || crate::text::trim(crate::text::lines(text)[i]) == ".agentrec"@)
}

/// The text with `.agentrec/` appended on a line of its own.
pub open spec fn with_store_entry(text: Seq<char>) -> Seq<char> {
    (if text.len() > 0 && text.last() != '\n' {
        text.push('\n')
    } else {
        text
    }) + ".agentrec/\n"@
}

/// The `.gitignore` text that `init` writes ignores the store, so a second
/// run leaves it as it is.
pub proof fn law_gitignore_entry_makes_rerun_a_no_op(text: Seq<char>)
    ensures
        ignores_store(with_store_entry(text)),
{
    let entry = ".agentrec/\n"@;
    let line = ".agentrec/"@;
    reveal_strlit(".agentrec/\n");
    reveal_strlit(".agentrec/");
    let u = if text.len() > 0 && text.last() != '\n' {
        text.push('\n')
    } else {
        text
    };
    crate::text::lemma_lines_append(u, entry);
    assert forall|k: int| 0 <= k < 10 implies entry[k] != '\n' by {}
    crate::text::lemma_index_of_found(entry, '\n', 10);
    assert(entry.take(10) == line);
    assert(entry.skip(11).len() == 0);
    assert(crate::text::lines(entry.skip(11)) == Seq::<Seq<char>>::empty());
    assert(crate::text::strip_cr(line) == line);
    assert(crate::text::lines(entry) == seq![line]);
    let ls = crate::text::lines(with_store_entry(text));
    let n = crate::text::lines(u).len();
    assert(ls[n as int] == line);
    assert(crate::text::lead_ws(line) == 0);
    assert(crate::text::trail_ws(line) == 0);
    assert(crate::text::trim(line) == line);
}

/// How many of the lines, trimmed, are the store entry `.agentrec/`.
pub open spec fn store_entry_lines(ls: Seq<Seq<char>>) -> nat
    decreases ls.len(),
{
    if ls.len() == 0 {
        0
    } else {
        store_entry_lines(ls.drop_last()) + if crate::text::trim(ls.last()) == ".agentrec/"@ {
            1nat
        } else {
            0nat
        }
    }
}

proof fn lemma_no_store_entry_lines(ls: Seq<Seq<char>>)
    requires
        forall|k: int| 0 <= k < ls.len() ==> crate::text::trim(#[trigger] ls[k]) != ".agentrec/"@,
    ensures
        store_entry_lines(ls) == 0,
    decreases ls.len(),
{
    if ls.len() > 0 {
        assert(crate::text::trim(ls[ls.len() - 1]) != ".agentrec/"@);
        let r = ls.drop_last();
        assert forall|k: int| 0 <= k < r.len() implies crate::text::trim(#[trigger] r[k]) != ".agentrec/"@ by {
            assert(r[k] == ls[k]);
        }
        lemma_no_store_entry_lines(r);
    }
}

/// When `init` adds the store entry to `.gitignore`, the text then holds
/// the line `.agentrec/` exactly once.
pub proof fn law_gitignore_entry_is_added_once(text: Seq<char>)
    requires
        !ignores_store(text),
    ensures
        store_entry_lines(crate::text::lines(with_store_entry(text))) == 1,
{
    let entry = ".agentrec/\n"@;
    let line = ".agentrec/"@;
    reveal_strlit(".agentrec/\n");
    reveal_strlit(".agentrec/");
    let u = if text.len() > 0 && text.last() != '\n' {
        text.push('\n')
    } else {
        text
    };
    crate::text::lemma_lines_append(u, entry);
    assert forall|k: int| 0 <= k < 10 implies entry[k] != '\n' by {}
    crate::text::lemma_index_of_found(entry, '\n', 10);
    assert(entry.take(10) == line);
    assert(entry.skip(11).len() == 0);
    assert(crate::text::lines(entry.skip(11)) == Seq::<Seq<char>>::empty());
    assert(crate::text::strip_cr(line) == line);
    assert(crate::text::lines(entry) == seq![line]);
    assert(crate::text::lead_ws(line) == 0);
    assert(crate::text::trail_ws(line) == 0);
    assert(crate::text::trim(line) == line);
    let lt = crate::text::lines(text);
    let lu = crate::text::lines(u);
    assert forall|k: int| 0 <= k < lu.len() implies crate::text::trim(#[trigger] lu[k]) != ".agentrec/"@ by {
        if u == text {
            assert(lu[k] == lt[k]);
            assert(crate::text::trim(lt[k]) != ".agentrec/"@);
        } else {
            crate::text::lemma_lines_newline(text);
            if k < lt.len() - 1 {
                assert(lu[k] == lt[k]);
                assert(crate::text::trim(lt[k]) != ".agentrec/"@);
            } else {
                let x = lt[k];
                assert(crate::text::trim(x) != ".agentrec/"@);
                if x.len() > 0 && x.last() == '\r' {
                    assert(x.drop_last().push('\r') == x);
                    crate::text::lemma_trim_ignores_trailing_cr(x.drop_last());
                }
            }
        }
    }
    lemma_no_store_entry_lines(lu);
    let all = crate::text::lines(with_store_entry(text));
    assert(all == lu.push(line));
    assert(all.drop_last() == lu);
}

/// The new `.gitignore` text, or `None` when it already ignores the store.
pub fn gitignore_update(current: &str) -> (r: Option<String>)
    ensures
        match r {
            None => ignores_store(current@),
            Some(t) => !ignores_store(current@) && t@ == with_store_entry(current@),
        },
{
    let text = crate::text::chars_of(current);
    let ls = crate::text::split_lines(&text);
    let a = crate::text::chars_of(".agentrec/");
    let b = crate::text::chars_of(".agentrec");
    let mut i: usize = 0;
    while i < ls.len()
        invariant
            i <= ls@.len(),
            text@ == current@,
            a@ == ".agentrec/"@,
            b@ == ".agentrec"@,
            ls@.len() == crate::text::lines(text@).len(),
            forall|k: int| 0 <= k < ls@.len() ==> #[trigger] ls@[k]@ == crate::text::lines(text@)[k],
            forall|k: int|
                0 <= k < i ==> crate::text::trim(#[trigger] crate::text::lines(text@)[k]) != ".agentrec/"@
                    && crate::text::trim(crate::text::lines(text@)[k]) != ".agentrec"@,
        decreases ls@.len() - i,
    {
        let t = crate::text::trim_chars(&ls[i]);
        assert(ls@[i as int]@ == crate::text::lines(text@)[i as int]);
        if crate::paths::same_chars(&t, &a) || crate::paths::same_chars(&t, &b) {
            return None;
        }
        i = i + 1;
    }
    let mut out: Vec<char> = text.clone();
    if text.len() > 0 && text[text.len() - 1] != '\n' {
        out.push('\n');
    }
    crate::text::push_str(&mut out, ".agentrec/\n");
    Some(crate::text::string_of(&out))
}

// ---- a whole run ----------------------------------------------------------------------

/// The files a run of `init` without services or Codex manages: the agent
/// settings document (an empty object when the file is absent), the text of
/// `.agentrec/config.toml` and of `.gitignore` (`None`: absent), and whether
/// the root is a git repository.
pub struct InitFiles {
    pub settings: DocV,
    pub config: Option<Seq<char>>,
    pub has_git: bool,
    pub gitignore: Option<Seq<char>>,
}

/// `.gitignore` after `init`: outside a git repository it is not touched
/// (nor created); inside one, the store entry is appended unless a line
/// already ignores the store.
pub open spec fn gitignore_after(has_git: bool, g: Option<Seq<char>>) -> Option<Seq<char>> {
    if !has_git {
        g
    } else {
        let cur = match g {
            Some(t) => t,
            None => seq![],
        };
        if ignores_store(cur) {
            g
        } else {
            Some(with_store_entry(cur))
        }
    }
}

/// The files after one run of `init`: agentrec's hook merged into the
/// settings for each `(event, matcher)` of `evs`, the default configuration
/// written when there is none, and the store ignored in a git repository;
/// the merge's refusal when the settings cannot take the hooks.
pub open spec fn init_run(f: InitFiles, evs: Seq<(Seq<char>, Option<Seq<char>>)>, command: Seq<char>) -> Result<
    InitFiles,
    Seq<char>,
> {
    match merge_hooks_all(f.settings, evs, command) {
        Err(m) => Err(m),
        Ok(settings) => Ok(
            InitFiles {
                settings,
                config: match f.config {
                    Some(c) => Some(c),
                    None => Some(DEFAULT_CONFIG@),
                },
                has_git: f.has_git,
                gitignore: gitignore_after(f.has_git, f.gitignore),
            },
        ),
    }
}

/// A second run of `init` changes nothing: once a run has succeeded, running
/// it again over the files it left gives back the same files. Outside a git
/// repository no `.gitignore` is created; inside one, the one `init` leaves
/// ignores the store.
pub proof fn law_second_init_changes_nothing(
    f: InitFiles,
    evs: Seq<(Seq<char>, Option<Seq<char>>)>,
    command: Seq<char>,
)
    requires
        contains_seq(command, HOOK_MARKER@),
        forall|i: int, j: int| 0 <= i < j < evs.len() ==> (#[trigger] evs[i]).0 != (#[trigger] evs[j]).0,
    ensures
        init_run(f, evs, command) matches Ok(g) ==> {
            &&& init_run(g, evs, command) == Ok::<InitFiles, Seq<char>>(g)
            &&& !f.has_git ==> g.gitignore == f.gitignore
            &&& f.has_git && g.gitignore is Some ==> ignores_store(g.gitignore.unwrap())
            &&& f.has_git && !ignores_store(
                match f.gitignore {
                    Some(t) => t,
                    None => seq![],
                },
            ) ==> (g.gitignore matches Some(x) && store_entry_lines(crate::text::lines(x)) == 1)
        },
{
    law_second_hook_install_changes_nothing(f.settings, evs, command);
    if let Ok(g) = init_run(f, evs, command) {
        if f.has_git {
            let cur = match f.gitignore {
                Some(t) => t,
                None => seq![],
            };
            if !ignores_store(cur) {
                law_gitignore_entry_makes_rerun_a_no_op(cur);
                law_gitignore_entry_is_added_once(cur);
            }
            match g.gitignore {
                Some(x) => {
                    assert(ignores_store(x));
                },
                None => {
                    assert(ignores_store(Seq::<char>::empty()));
                },
            }
        }
        assert(init_run(g, evs, command) == Ok::<InitFiles, Seq<char>>(g));
    }
}

} // verus!
