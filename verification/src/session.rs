//! One session transcript, walked line by line by the importer: the
//! session-level facts the lines establish (its id, its `cwd`), the backups
//! its `trackedFileBackups` snapshots announce (relative keys held back
//! until the `cwd` is known), and what each line is to the tier ladder.

use vstd::prelude::*;
use crate::doc::{
    json_line, json_parse, as_str, field, field_of, get, get_in, lemma_object_view, entries_view, str_of, Doc, DocV,
};
use crate::importcmd::{
    backup_key_path, extract_user_text, genuine_user_prompt, has_tool_result, is_genuine_user_prompt,
    normalize_backup_key, record_backup, str_lt, user_text, PendingTurn, TierCounts,
};
use crate::record::FileEntry;
use crate::paths::{is_abs, lexical_normal, lexical_normalize};
use crate::strmap::StrMap;
use crate::text::trim;

verus! {

/// The backup names of a map, as text.
pub open spec fn names_view(m: Map<Seq<char>, String>) -> Map<Seq<char>, Seq<char>> {
    m.map_values(|s: String| s@)
}

pub open spec fn pairs_view(v: Seq<(String, String)>) -> Seq<(Seq<char>, Seq<char>)> {
    v.map_values(|p: (String, String)| (p.0@, p.1@))
}

/// The backups and staleness counts after recording backup `name` for
/// `path`: the count restarts at 0 unless the same backup was already held.
pub open spec fn put_backup(
    b: Map<Seq<char>, Seq<char>>,
    e: Map<Seq<char>, usize>,
    path: Seq<char>,
    name: Seq<char>,
) -> (Map<Seq<char>, Seq<char>>, Map<Seq<char>, usize>) {
    (
        b.insert(path, name),
        if b.dom().contains(path) && b[path] == name {
            e
        } else {
            e.insert(path, 0)
        },
    )
}

/// The held-back relative keys recorded, in order, once `cwd` is known.
pub open spec fn drain_spec(
    b: Map<Seq<char>, Seq<char>>,
    e: Map<Seq<char>, usize>,
    pending: Seq<(Seq<char>, Seq<char>)>,
    cwd: Seq<char>,
) -> (Map<Seq<char>, Seq<char>>, Map<Seq<char>, usize>)
    decreases pending.len(),
{
    if pending.len() == 0 {
        (b, e)
    } else {
        let prev = drain_spec(b, e, pending.drop_last(), cwd);
        put_backup(prev.0, prev.1, backup_key_path(pending.last().0, cwd), pending.last().1)
    }
}

/// The entries of a `trackedFileBackups` object taken in order: an entry
/// with a `backupFileName` is recorded under its absolute path (an absolute
/// key normalised, a relative one resolved against `cwd`), or held back when
/// it is relative and no `cwd` is known yet.
pub open spec fn harvest_spec(
    b: Map<Seq<char>, Seq<char>>,
    e: Map<Seq<char>, usize>,
    p: Seq<(Seq<char>, Seq<char>)>,
    entries: Seq<(Seq<char>, DocV)>,
    cwd: Option<Seq<char>>,
) -> (Map<Seq<char>, Seq<char>>, Map<Seq<char>, usize>, Seq<(Seq<char>, Seq<char>)>)
    decreases entries.len(),
{
    if entries.len() == 0 {
        (b, e, p)
    } else {
        let prev = harvest_spec(b, e, p, entries.drop_last(), cwd);
        let fp = entries.last().0;
        match str_of(field(entries.last().1, "backupFileName"@)) {
            None => prev,
            Some(name) => if is_abs(fp) {
                let r = put_backup(prev.0, prev.1, lexical_normal(fp), name);
                (r.0, r.1, prev.2)
            } else if cwd is Some {
                let r = put_backup(prev.0, prev.1, backup_key_path(fp, cwd.unwrap()), name);
                (r.0, r.1, prev.2)
            } else {
                (prev.0, prev.1, prev.2.push((fp, name)))
            },
        }
    }
}

/// What the session knows so far.
pub struct SessionBackups {
    /// The first `sessionId` seen.
    pub session_id: Option<String>,
    /// The first `cwd` seen.
    pub cwd: Option<String>,
    /// Absolute path → the latest backup announced for it.
    pub backups: StrMap<String>,
    /// Absolute path → edits of it classified since that backup.
    pub edits_since_backup: StrMap<usize>,
    /// Relative keys announced before the `cwd` was known, in order.
    pub pending_relative: Vec<(String, String)>,
}

/// The session state as values: id, `cwd`, backups, staleness counts and
/// held-back keys.
pub struct SessionV {
    pub session_id: Option<Seq<char>>,
    pub cwd: Option<Seq<char>>,
    pub backups: Map<Seq<char>, Seq<char>>,
    pub edits: Map<Seq<char>, usize>,
    pub pending: Seq<(Seq<char>, Seq<char>)>,
}

impl View for SessionBackups {
    type V = SessionV;

    open spec fn view(&self) -> SessionV {
        SessionV {
            session_id: crate::hookcmds::string_opt_view(self.session_id),
            cwd: crate::hookcmds::string_opt_view(self.cwd),
            backups: names_view(self.backups@),
            edits: self.edits_since_backup@,
            pending: pairs_view(self.pending_relative@),
        }
    }
}

/// The state after one parsed line `v`: the first `sessionId` and the first
/// `cwd` are kept (the held-back keys are recorded the moment the `cwd` is
/// known), then the line's `snapshot.trackedFileBackups` entries, if it has
/// that object, are harvested.
pub open spec fn after_line(s: SessionV, v: DocV) -> SessionV {
    let sid = if s.session_id is None {
        str_of(field(v, "sessionId"@))
    } else {
        s.session_id
    };
    let s1 = if s.cwd is None && str_of(field(v, "cwd"@)) is Some {
        let c = str_of(field(v, "cwd"@)).unwrap();
        let d = drain_spec(s.backups, s.edits, s.pending, c);
        SessionV { session_id: sid, cwd: Some(c), backups: d.0, edits: d.1, pending: seq![] }
    } else {
        SessionV { session_id: sid, ..s }
    };
    match field_of(field(v, "snapshot"@), "trackedFileBackups"@) {
        Some(DocV::Object(entries)) => {
            let h = harvest_spec(s1.backups, s1.edits, s1.pending, entries, s1.cwd);
            SessionV { backups: h.0, edits: h.1, pending: h.2, ..s1 }
        },
        _ => s1,
    }
}

/// The line carries `snapshot.trackedFileBackups` and no tool result: it is
/// bookkeeping only.
pub open spec fn bookkeeping_only(v: DocV) -> bool {
    field_of(field(v, "snapshot"@), "trackedFileBackups"@) matches Some(DocV::Object(_)) && field(
        v,
        "toolUseResult"@,
    ) is None
}

proof fn lemma_names_insert(m: Map<Seq<char>, String>, k: Seq<char>, v: String)
    ensures
        names_view(m.insert(k, v)) == names_view(m).insert(k, v@),
{
    assert(names_view(m.insert(k, v)) =~= names_view(m).insert(k, v@));
}

impl SessionBackups {
    pub fn new() -> (s: SessionBackups)
        ensures
            s@.session_id is None,
            s@.cwd is None,
            s@.backups == Map::<Seq<char>, Seq<char>>::empty(),
            s@.edits == Map::<Seq<char>, usize>::empty(),
            s@.pending == Seq::<(Seq<char>, Seq<char>)>::empty(),
    {
        let s = SessionBackups {
            session_id: None,
            cwd: None,
            backups: StrMap::new(),
            edits_since_backup: StrMap::new(),
            pending_relative: Vec::new(),
        };
        assert(names_view(s.backups@) =~= Map::<Seq<char>, Seq<char>>::empty());
        assert(pairs_view(s.pending_relative@) =~= Seq::<(Seq<char>, Seq<char>)>::empty());
        s
    }

    fn put(&mut self, path: String, name: String)
        ensures
            (final(self)@.backups, final(self)@.edits) == put_backup(
                old(self)@.backups,
                old(self)@.edits,
                path@,
                name@,
            ),
            final(self)@.session_id == old(self)@.session_id,
            final(self)@.cwd == old(self)@.cwd,
            final(self)@.pending == old(self)@.pending,
    {
        let ghost b0 = self.backups@;
        record_backup(&mut self.backups, &mut self.edits_since_backup, path, name);
        proof {
            lemma_names_insert(b0, path@, name);
        }
    }

    fn drain(&mut self, cwd: &str)
        ensures
            (final(self)@.backups, final(self)@.edits) == drain_spec(
                old(self)@.backups,
                old(self)@.edits,
                old(self)@.pending,
                cwd@,
            ),
            final(self)@.pending == Seq::<(Seq<char>, Seq<char>)>::empty(),
            final(self)@.session_id == old(self)@.session_id,
            final(self)@.cwd == old(self)@.cwd,
    {
        let ghost p = old(self)@.pending;
        let n = self.pending_relative.len();
        let mut i: usize = 0;
        while i < n
            invariant
                i <= n,
                n == self.pending_relative@.len(),
                p == pairs_view(self.pending_relative@),
                self@.session_id == old(self)@.session_id,
                self@.cwd == old(self)@.cwd,
                (self@.backups, self@.edits) == drain_spec(old(self)@.backups, old(self)@.edits, p.take(i as int), cwd@),
            decreases n - i,
        {
            assert(p.take(i + 1).drop_last() == p.take(i as int));
            assert(p.take(i + 1).last() == p[i as int]);
            let key = self.pending_relative[i].0.clone();
            let name = self.pending_relative[i].1.clone();
            assert(p[i as int] == (key@, name@));
            let path = normalize_backup_key(key.as_str(), cwd);
            self.put(path, name);
            i = i + 1;
        }
        assert(p.take(n as int) == p);
        self.pending_relative = Vec::new();
        assert(pairs_view(self.pending_relative@) =~= Seq::<(Seq<char>, Seq<char>)>::empty());
    }

    fn harvest(&mut self, entries: &Vec<(String, Doc)>)
        ensures
            ({
                let h = harvest_spec(
                    old(self)@.backups,
                    old(self)@.edits,
                    old(self)@.pending,
                    entries_view(entries@),
                    old(self)@.cwd,
                );
                &&& final(self)@.backups == h.0
                &&& final(self)@.edits == h.1
                &&& final(self)@.pending == h.2
            }),
            final(self)@.session_id == old(self)@.session_id,
            final(self)@.cwd == old(self)@.cwd,
    {
        let ghost es = entries_view(entries@);
        let mut i: usize = 0;
        while i < entries.len()
            invariant
                i <= entries@.len(),
                es == entries_view(entries@),
                self@.session_id == old(self)@.session_id,
                self@.cwd == old(self)@.cwd,
                ({
                    let h = harvest_spec(
                        old(self)@.backups,
                        old(self)@.edits,
                        old(self)@.pending,
                        es.take(i as int),
                        old(self)@.cwd,
                    );
                    &&& self@.backups == h.0
                    &&& self@.edits == h.1
                    &&& self@.pending == h.2
                }),
            decreases entries@.len() - i,
        {
            assert(es.take(i + 1).drop_last() == es.take(i as int));
            assert(es.take(i + 1).last() == es[i as int]);
            assert(es[i as int] == (entries@[i as int].0@, entries@[i as int].1@));
            let fp = &entries[i].0;
            match as_str(get(&entries[i].1, "backupFileName")) {
                Some(name) => {
                    let fc = crate::text::chars_of(fp.as_str());
                    if fc.len() > 0 && fc[0] == '/' {
                        let path = lexical_normalize(fp.as_str());
                        self.put(path, String::from_str(name));
                    } else {
                        match &self.cwd {
                            Some(c) => {
                                let path = normalize_backup_key(fp.as_str(), c.as_str());
                                self.put(path, String::from_str(name));
                            },
                            None => {
                                let ghost before = self.pending_relative@;
                                self.pending_relative.push((fp.clone(), String::from_str(name)));
                                assert(pairs_view(self.pending_relative@) == pairs_view(before).push(
                                    (fp@, name@),
                                ));
                            },
                        }
                    }
                },
                None => {},
            }
            i = i + 1;
        }
        assert(es.take(entries@.len() as int) == es);
    }

    /// Takes in one parsed transcript line; says whether it was bookkeeping
    /// only (a backup snapshot with no tool result).
    pub fn observe(&mut self, v: &Doc) -> (bookkeeping: bool)
        ensures
            final(self)@ == after_line(old(self)@, v@),
            bookkeeping == bookkeeping_only(v@),
    {
        if self.session_id.is_none() {
            match as_str(get(v, "sessionId")) {
                Some(s) => {
                    self.session_id = Some(String::from_str(s));
                },
                None => {},
            }
        }
        if self.cwd.is_none() {
            match as_str(get(v, "cwd")) {
                Some(c) => {
                    self.drain(c);
                    self.cwd = Some(String::from_str(c));
                },
                None => {},
            }
        }
        match get_in(get(v, "snapshot"), "trackedFileBackups") {
            Some(Doc::Object(entries)) => {
                proof {
                    lemma_object_view(*entries);
                }
                self.harvest(entries);
                get(v, "toolUseResult").is_none()
            },
            _ => false,
        }
    }
}

// ---- the dry-run walk --------------------------------------------------------------

/// The line is flagged `isSidechain: true`.
pub open spec fn sidechain_flag(v: DocV) -> bool {
    field(v, "isSidechain"@) == Some(DocV::Bool(true))
}

/// What a (non-bookkeeping) line is to the tier ladder.
pub enum ToolLine {
    /// Shaped as a tool result (`message.content[]` holds a `tool_result`
    /// block) but carrying no `toolUseResult`.
    MissingToolUseResult,
    /// No tool result at all: plain chat, or a call with no result yet.
    NotToolResult,
    /// A tool result on a sidechain line.
    Sidechain,
    /// A tool result naming no file (a shell call, a task).
    Opaque,
    /// A file-producing tool result: its `filePath`.
    File(String),
}

pub enum ToolLineV {
    MissingToolUseResult,
    NotToolResult,
    Sidechain,
    Opaque,
    File(Seq<char>),
}

pub open spec fn tool_line_view(t: ToolLine) -> ToolLineV {
    match t {
        ToolLine::MissingToolUseResult => ToolLineV::MissingToolUseResult,
        ToolLine::NotToolResult => ToolLineV::NotToolResult,
        ToolLine::Sidechain => ToolLineV::Sidechain,
        ToolLine::Opaque => ToolLineV::Opaque,
        ToolLine::File(p) => ToolLineV::File(p@),
    }
}

pub open spec fn tool_line_of(v: DocV) -> ToolLineV {
    let tur = field(v, "toolUseResult"@);
    if has_tool_result(field_of(field(v, "message"@), "content"@)) && tur is None {
        ToolLineV::MissingToolUseResult
    } else if tur is None {
        ToolLineV::NotToolResult
    } else if sidechain_flag(v) {
        ToolLineV::Sidechain
    } else {
        match str_of(field(tur.unwrap(), "filePath"@)) {
            Some(fp) => ToolLineV::File(fp),
            None => ToolLineV::Opaque,
        }
    }
}

fn is_sidechain(v: &Doc) -> (r: bool)
    ensures
        r == sidechain_flag(v@),
{
    match get(v, "isSidechain") {
        Some(Doc::Bool(b)) => *b,
        _ => false,
    }
}

/// Classify one parsed line for the tier ladder.
pub fn tool_line(v: &Doc) -> (t: ToolLine)
    ensures
        tool_line_view(t) == tool_line_of(v@),
{
    let tur = get(v, "toolUseResult");
    let shaped = crate::importcmd::tool_result_shaped(get_in(get(v, "message"), "content"));
    if shaped && tur.is_none() {
        return ToolLine::MissingToolUseResult;
    }
    let tur = match tur {
        Some(t) => t,
        None => return ToolLine::NotToolResult,
    };
    if is_sidechain(v) {
        return ToolLine::Sidechain;
    }
    match as_str(get(tur, "filePath")) {
        Some(fp) => ToolLine::File(String::from_str(fp)),
        None => ToolLine::Opaque,
    }
}

/// The corpus-wide counters of a dry run, but for the tiers and the
/// opaque share.
pub struct ImportCounters {
    pub sessions_total: usize,
    pub sessions_importable: usize,
    pub sessions_in_root: usize,
    pub opaque_calls: usize,
    pub skipped_sidechain: usize,
    pub skipped_malformed_line: usize,
    pub skipped_missing_cwd: usize,
    pub skipped_missing_tool_use_result: usize,
    pub skipped_non_utf8_line: usize,
    pub skipped_io_error: usize,
}

impl ImportCounters {
    pub open spec fn bounded(&self) -> bool {
        &&& self.sessions_importable < usize::MAX
        &&& self.sessions_in_root < usize::MAX
        &&& self.opaque_calls < usize::MAX
        &&& self.skipped_sidechain < usize::MAX
        &&& self.skipped_missing_cwd < usize::MAX
        &&& self.skipped_missing_tool_use_result < usize::MAX
    }

    pub fn new() -> (c: ImportCounters)
        ensures
            c.sessions_total == 0 && c.sessions_importable == 0 && c.sessions_in_root == 0,
            c.opaque_calls == 0 && c.skipped_sidechain == 0 && c.skipped_malformed_line == 0,
            c.skipped_missing_cwd == 0 && c.skipped_missing_tool_use_result == 0,
            c.skipped_non_utf8_line == 0 && c.skipped_io_error == 0,
    {
        ImportCounters {
            sessions_total: 0,
            sessions_importable: 0,
            sessions_in_root: 0,
            opaque_calls: 0,
            skipped_sidechain: 0,
            skipped_malformed_line: 0,
            skipped_missing_cwd: 0,
            skipped_missing_tool_use_result: 0,
            skipped_non_utf8_line: 0,
            skipped_io_error: 0,
        }
    }
}

/// What one parsed line `v` does to a dry-run session (`s0` to `s1`) and
/// to the counters (`c0` to `c1`), and the entry it hands back.
pub open spec fn dry_line(
    s0: DryRunSession,
    s1: DryRunSession,
    c0: ImportCounters,
    c1: ImportCounters,
    v: DocV,
    entry: Option<String>,
) -> bool {
    let t = tool_line_of(v);
    let counted = !bookkeeping_only(v);
    let one = |b: bool| if b { 1int } else { 0int };
    &&& s1.book@ == after_line(s0.book@, v)
    &&& s1.any_line_parsed
    &&& s1.total_parsed_lines == s0.total_parsed_lines + 1
    &&& s1.sidechain_flagged_lines == s0.sidechain_flagged_lines + one(sidechain_flag(v))
    &&& s1.hit_ac8 == (s0.hit_ac8 || (counted && t == ToolLineV::MissingToolUseResult))
    &&& s1.opaque == s0.opaque + one(counted && t == ToolLineV::Opaque)
    &&& s1.entries == s0.entries + one(counted && (t == ToolLineV::Opaque || t is File))
    &&& c1.skipped_missing_tool_use_result == c0.skipped_missing_tool_use_result + one(
        counted && t == ToolLineV::MissingToolUseResult,
    )
    &&& c1.skipped_sidechain == c0.skipped_sidechain + one(counted && t == ToolLineV::Sidechain)
    &&& c1.opaque_calls == c0.opaque_calls + one(counted && t == ToolLineV::Opaque)
    &&& c1.sessions_total == c0.sessions_total
    &&& c1.sessions_importable == c0.sessions_importable
    &&& c1.sessions_in_root == c0.sessions_in_root
    &&& c1.skipped_malformed_line == c0.skipped_malformed_line
    &&& c1.skipped_missing_cwd == c0.skipped_missing_cwd
    &&& c1.skipped_non_utf8_line == c0.skipped_non_utf8_line
    &&& c1.skipped_io_error == c0.skipped_io_error
    &&& match entry {
        Some(fp) => counted && t == ToolLineV::File(fp@),
        None => !(counted && t is File),
    }
}

/// What one line of text does in a dry run: a blank line changes nothing;
/// a line that is not JSON counts as malformed and changes nothing else; a
/// parsed line is [`dry_line`].
pub open spec fn dry_raw_line(
    s0: DryRunSession,
    s1: DryRunSession,
    c0: ImportCounters,
    c1: ImportCounters,
    line: Seq<char>,
    entry: Option<String>,
) -> bool {
    &&& trim(line).len() == 0 ==> s1 == s0 && c1 == c0 && entry is None
    &&& trim(line).len() > 0 ==> match json_parse(line) {
        Err(_) => {
            &&& s1 == s0
            &&& c1 == (ImportCounters { skipped_malformed_line: (c0.skipped_malformed_line + 1) as usize, ..c0 })
            &&& entry is None
        },
        Ok(v) => dry_line(s0, s1, c0, c1, v, entry),
    }
}

/// A line of a subagent transcript that produced a file: parsed JSON whose
/// `toolUseResult.filePath` is a string.
pub open spec fn sidechain_file_line(line: Seq<char>) -> bool {
    trim(line).len() > 0 && match json_parse(line) {
        Ok(v) => str_of(field_of(field(v, "toolUseResult"@), "filePath"@)) is Some,
        Err(_) => false,
    }
}

/// One line, in bytes, of a subagent transcript, which is outside the
/// session count: a line that is not UTF-8 is counted as such, and a
/// file-producing line as a sidechain entry; nothing else is counted.
pub fn sidechain_byte_line(bytes: Vec<u8>, c: &mut ImportCounters)
    requires
        old(c).skipped_non_utf8_line < usize::MAX,
        old(c).skipped_sidechain < usize::MAX,
    ensures
        *final(c) == if !vstd::utf8::valid_utf8(bytes@) {
            ImportCounters { skipped_non_utf8_line: (old(c).skipped_non_utf8_line + 1) as usize, ..*old(c) }
        } else if sidechain_file_line(vstd::utf8::decode_utf8(bytes@)) {
            ImportCounters { skipped_sidechain: (old(c).skipped_sidechain + 1) as usize, ..*old(c) }
        } else {
            *old(c)
        },
{
    broadcast use vstd::utf8::encode_utf8_decode_utf8, vstd::utf8::encode_utf8_valid_utf8;

    let ghost b = bytes@;
    match crate::importcmd::utf8_text(bytes) {
        None => {
            c.skipped_non_utf8_line = c.skipped_non_utf8_line + 1;
        },
        Some(text) => {
            assert(vstd::utf8::decode_utf8(b) == text@);
            match json_line(text.as_str()) {
                Some(Ok(v)) => {
                    if as_str(get_in(get(&v, "toolUseResult"), "filePath")).is_some() {
                        c.skipped_sidechain = c.skipped_sidechain + 1;
                    }
                },
                _ => {},
            }
        },
    }
}

/// One top-level session file in a dry run.
pub struct DryRunSession {
    pub book: SessionBackups,
    pub any_line_parsed: bool,
    /// A line that disqualifies the session from import was met.
    pub hit_ac8: bool,
    pub total_parsed_lines: usize,
    pub sidechain_flagged_lines: usize,
    /// Opaque calls and tier-classified entries of this session.
    pub opaque: usize,
    pub entries: usize,
}

impl DryRunSession {
    pub open spec fn bounded(&self) -> bool {
        &&& self.total_parsed_lines < usize::MAX
        &&& self.sidechain_flagged_lines < usize::MAX
        &&& self.opaque < usize::MAX
        &&& self.entries < usize::MAX
    }

    pub fn new() -> (s: DryRunSession)
        ensures
            s.book@.session_id is None && s.book@.cwd is None,
            s.book@.backups == Map::<Seq<char>, Seq<char>>::empty(),
            s.book@.edits == Map::<Seq<char>, usize>::empty(),
            s.book@.pending == Seq::<(Seq<char>, Seq<char>)>::empty(),
            !s.any_line_parsed && !s.hit_ac8,
            s.total_parsed_lines == 0 && s.sidechain_flagged_lines == 0,
            s.opaque == 0 && s.entries == 0,
    {
        DryRunSession {
            book: SessionBackups::new(),
            any_line_parsed: false,
            hit_ac8: false,
            total_parsed_lines: 0,
            sidechain_flagged_lines: 0,
            opaque: 0,
            entries: 0,
        }
    }

    /// One parsed line. A file-producing entry is handed back (its path)
    /// for the tier ladder; every other line is counted here.
    pub fn line(&mut self, v: &Doc, c: &mut ImportCounters) -> (entry: Option<String>)
        requires
            old(self).bounded(),
            old(c).bounded(),
        ensures
            dry_line(*old(self), *final(self), *old(c), *final(c), v@, entry),
    {
        self.any_line_parsed = true;
        self.total_parsed_lines = self.total_parsed_lines + 1;
        let side = is_sidechain(v);
        if side {
            self.sidechain_flagged_lines = self.sidechain_flagged_lines + 1;
        }
        if self.book.observe(v) {
            return None;
        }
        match tool_line(v) {
            ToolLine::MissingToolUseResult => {
                c.skipped_missing_tool_use_result = c.skipped_missing_tool_use_result + 1;
                self.hit_ac8 = true;
                None
            },
            ToolLine::NotToolResult => None,
            ToolLine::Sidechain => {
                c.skipped_sidechain = c.skipped_sidechain + 1;
                None
            },
            ToolLine::Opaque => {
                c.opaque_calls = c.opaque_calls + 1;
                self.opaque = self.opaque + 1;
                self.entries = self.entries + 1;
                None
            },
            ToolLine::File(fp) => {
                self.entries = self.entries + 1;
                Some(fp)
            },
        }
    }

    /// One raw line of the transcript: a blank line changes nothing; a
    /// line that is not JSON counts as a malformed line and changes nothing
    /// else; a parsed line is [`DryRunSession::line`].
    pub fn raw_line(&mut self, line: &str, c: &mut ImportCounters) -> (entry: Option<String>)
        requires
            old(self).bounded(),
            old(c).bounded(),
            old(c).skipped_malformed_line < usize::MAX,
        ensures
            dry_raw_line(*old(self), *final(self), *old(c), *final(c), line@, entry),
    {
        match json_line(line) {
            None => None,
            Some(Err(_)) => {
                c.skipped_malformed_line = c.skipped_malformed_line + 1;
                None
            },
            Some(Ok(v)) => self.line(&v, c),
        }
    }

    /// One line of the transcript as read, in bytes: a line that is not
    /// UTF-8 is counted as such and changes nothing else; any other is
    /// [`DryRunSession::raw_line`] on its text.
    pub fn byte_line(&mut self, bytes: Vec<u8>, c: &mut ImportCounters) -> (entry: Option<String>)
        requires
            old(self).bounded(),
            old(c).bounded(),
            old(c).skipped_malformed_line < usize::MAX,
            old(c).skipped_non_utf8_line < usize::MAX,
        ensures
            !vstd::utf8::valid_utf8(bytes@) ==> {
                &&& *final(self) == *old(self)
                &&& *final(c) == (ImportCounters {
                    skipped_non_utf8_line: (old(c).skipped_non_utf8_line + 1) as usize,
                    ..*old(c)
                })
                &&& entry is None
            },
            vstd::utf8::valid_utf8(bytes@) ==> dry_raw_line(
                *old(self),
                *final(self),
                *old(c),
                *final(c),
                vstd::utf8::decode_utf8(bytes@),
                entry,
            ),
    {
        broadcast use vstd::utf8::encode_utf8_decode_utf8, vstd::utf8::encode_utf8_valid_utf8;

        let ghost b = bytes@;
        match crate::importcmd::utf8_text(bytes) {
            None => {
                c.skipped_non_utf8_line = c.skipped_non_utf8_line + 1;
                None
            },
            Some(text) => {
                assert(vstd::utf8::decode_utf8(b) == text@);
                self.raw_line(text.as_str(), c)
            },
        }
    }

    /// The end of the file: a session that parsed but never named a `cwd`
    /// is disqualified; one that parsed, was never disqualified and is not
    /// entirely sidechain is importable; one whose `cwd` lies under the root
    /// (`cwd_under_root`, decided on the canonical paths) is in scope.
    pub fn finish(&mut self, c: &mut ImportCounters, cwd_under_root: bool)
        requires
            old(c).bounded(),
        ensures
            final(self).hit_ac8 == (old(self).hit_ac8 || (old(self).any_line_parsed && old(self).book@.cwd is None)),
            final(c).skipped_missing_cwd == old(c).skipped_missing_cwd + if old(self).any_line_parsed
                && old(self).book@.cwd is None {
                1int
            } else {
                0
            },
            final(c).sessions_importable == old(c).sessions_importable + if old(self).any_line_parsed
                && !final(self).hit_ac8 && !(old(self).total_parsed_lines > 0
                && old(self).sidechain_flagged_lines == old(self).total_parsed_lines) {
                1int
            } else {
                0
            },
            final(c).sessions_in_root == old(c).sessions_in_root + if old(self).book@.cwd is Some
                && cwd_under_root {
                1int
            } else {
                0
            },
            final(c).sessions_total == old(c).sessions_total,
            final(c).opaque_calls == old(c).opaque_calls,
            final(c).skipped_sidechain == old(c).skipped_sidechain,
            final(c).skipped_malformed_line == old(c).skipped_malformed_line,
            final(c).skipped_missing_tool_use_result == old(c).skipped_missing_tool_use_result,
            final(c).skipped_non_utf8_line == old(c).skipped_non_utf8_line,
            final(c).skipped_io_error == old(c).skipped_io_error,
            final(self).book@ == old(self).book@,
    {
        if self.any_line_parsed && self.book.cwd.is_none() {
            c.skipped_missing_cwd = c.skipped_missing_cwd + 1;
            self.hit_ac8 = true;
        }
        let entirely_sidechain = self.total_parsed_lines > 0 && self.sidechain_flagged_lines
            == self.total_parsed_lines;
        if self.any_line_parsed && !self.hit_ac8 && !entirely_sidechain {
            c.sessions_importable = c.sessions_importable + 1;
        }
        if self.book.cwd.is_some() && cwd_under_root {
            c.sessions_in_root = c.sessions_in_root + 1;
        }
    }

    /// The edit's first tier rung, counted (see [`crate::importcmd::classify_entry`])
    /// against this session's backups.
    pub fn classify(&mut self, is_secret: bool, tur: &Doc, file_path: &str, tiers: &mut TierCounts) -> (r: crate::importcmd::Rung)
        requires
            old(tiers).bounded(),
            old(self).book.edits_since_backup@.dom().contains(file_path@) ==> old(self).book.edits_since_backup@[file_path@]
                < usize::MAX,
        ensures
            r == crate::importcmd::rung_of(
                is_secret,
                str_of(field(tur@, "originalFile"@)),
                str_of(field(tur@, "type"@)),
                crate::importcmd::backup_of(old(self).book.backups@, file_path@),
                old(self).book@.session_id,
                crate::importcmd::count_of(old(self).book@.edits, file_path@),
            ),
            TierCounts::rung_counted(*old(tiers), *final(tiers), r),
            old(tiers).wf() ==> final(tiers).wf(),
            final(self).book@.edits == if old(self).book@.edits.dom().contains(file_path@) {
                old(self).book@.edits.insert(file_path@, (old(self).book@.edits[file_path@] + 1) as usize)
            } else {
                old(self).book@.edits
            },
            final(self).book@.backups == old(self).book@.backups,
            final(self).book@.session_id == old(self).book@.session_id,
            final(self).book@.cwd == old(self).book@.cwd,
            final(self).book@.pending == old(self).book@.pending,
            final(self).any_line_parsed == old(self).any_line_parsed,
            final(self).hit_ac8 == old(self).hit_ac8,
            final(self).total_parsed_lines == old(self).total_parsed_lines,
            final(self).sidechain_flagged_lines == old(self).sidechain_flagged_lines,
            final(self).opaque == old(self).opaque,
            final(self).entries == old(self).entries,
    {
        let sid: Option<&str> = match &self.book.session_id {
            Some(s) => Some(s.as_str()),
            None => None,
        };
        crate::importcmd::classify_entry(
            is_secret,
            tur,
            file_path,
            sid,
            &self.book.backups,
            &mut self.book.edits_since_backup,
            tiers,
        )
    }
}

// ---- the persisting walk: turn segmentation -----------------------------------------

/// A pending turn as values.
pub struct PendingV {
    pub turn_index: nat,
    pub prompt: Option<Seq<char>>,
    pub started: Option<Seq<char>>,
    pub ended: Option<Seq<char>>,
    pub files: Seq<FileEntry>,
}

pub open spec fn pending_view(t: PendingTurn) -> PendingV {
    PendingV {
        turn_index: t.turn_index as nat,
        prompt: crate::hookcmds::string_opt_view(t.prompt_raw),
        started: crate::hookcmds::string_opt_view(t.started),
        ended: crate::hookcmds::string_opt_view(t.ended),
        files: t.files@,
    }
}

pub open spec fn pendings_view(ts: Seq<PendingTurn>) -> Seq<PendingV> {
    ts.map_values(|t: PendingTurn| pending_view(t))
}

pub open spec fn fresh_turn(i: nat) -> PendingV {
    PendingV { turn_index: i, prompt: None, started: None, ended: None, files: seq![] }
}

/// The turn widened to cover the line's timestamp, if it has one.
pub open spec fn touch_v(t: PendingV, ts: Option<Seq<char>>) -> PendingV {
    match ts {
        None => t,
        Some(x) => PendingV {
            started: match t.started {
                Some(s) => if str_lt(x, s) {
                    Some(x)
                } else {
                    Some(s)
                },
                None => Some(x),
            },
            ended: match t.ended {
                Some(e) => if str_lt(e, x) {
                    Some(x)
                } else {
                    Some(e)
                },
                None => Some(x),
            },
            ..t
        },
    }
}

/// The turn holds a prompt or a file.
pub open spec fn has_content(t: PendingV) -> bool {
    t.prompt is Some || t.files.len() > 0
}

/// The line opens a turn: a genuine user prompt with text, not on a
/// sidechain.
pub open spec fn opens_turn(v: DocV) -> bool {
    !sidechain_flag(v) && genuine_user_prompt(v) && user_text(v) is Some
}

/// The segmentation state after a line that is not bookkeeping only: a
/// prompt line closes the current turn (when it holds anything) and becomes
/// the new turn's prompt; a file-producing line widens the current turn's
/// span; any other line changes nothing.
pub open spec fn segment(idx: nat, cur: PendingV, fin: Seq<PendingV>, v: DocV) -> (nat, PendingV, Seq<PendingV>) {
    let ts = str_of(field(v, "timestamp"@));
    if opens_turn(v) {
        let (i2, base, f2) = if has_content(cur) {
            (idx + 1, fresh_turn(idx + 1), fin.push(cur))
        } else {
            (idx, cur, fin)
        };
        (i2, touch_v(PendingV { prompt: user_text(v), ..base }, ts), f2)
    } else if tool_line_of(v) is File {
        (idx, touch_v(cur, ts), fin)
    } else {
        (idx, cur, fin)
    }
}

/// What one parsed line `v` does to a session being segmented (`s0` to
/// `s1`), and the entry it hands back.
pub open spec fn persist_line(s0: PersistSession, s1: PersistSession, v: DocV, entry: Option<String>) -> bool {
    let r = segment(s0.turn_index as nat, pending_view(s0.cur), pendings_view(s0.finished@), v);
    &&& s0.wf() ==> s1.wf()
    &&& s1.book@ == after_line(s0.book@, v)
    &&& bookkeeping_only(v) ==> {
        &&& s1.turn_index == s0.turn_index
        &&& pending_view(s1.cur) == pending_view(s0.cur)
        &&& pendings_view(s1.finished@) == pendings_view(s0.finished@)
        &&& entry is None
    }
    &&& !bookkeeping_only(v) ==> {
        &&& s1.turn_index == r.0
        &&& pending_view(s1.cur) == r.1
        &&& pendings_view(s1.finished@) == r.2
        &&& match entry {
            Some(fp) => !opens_turn(v) && tool_line_of(v) == ToolLineV::File(fp@),
            None => opens_turn(v) || !(tool_line_of(v) is File),
        }
    }
}

/// What one line of text does to a session being segmented: a blank line,
/// or one that is not JSON, changes nothing; a parsed line is
/// [`persist_line`].
pub open spec fn persist_raw_line(s0: PersistSession, s1: PersistSession, line: Seq<char>, entry: Option<String>) -> bool {
    match json_parse(line) {
        Ok(v) if trim(line).len() > 0 => persist_line(s0, s1, v, entry),
        _ => s1 == s0 && entry is None,
    }
}

/// A session file being turned into turns.
pub struct PersistSession {
    pub book: SessionBackups,
    pub turn_index: usize,
    pub cur: PendingTurn,
    pub finished: Vec<PendingTurn>,
}

impl PersistSession {
    pub open spec fn bounded(&self) -> bool {
        self.turn_index < usize::MAX
    }

    /// The turns closed so far are numbered 0, 1, … in order, and the open
    /// one carries the next number.
    pub open spec fn wf(&self) -> bool {
        &&& self.cur.turn_index == self.turn_index
        &&& self.finished@.len() == self.turn_index
        &&& forall|i: int| 0 <= i < self.finished@.len() ==> (#[trigger] self.finished@[i]).turn_index == i
    }

    pub fn new() -> (s: PersistSession)
        ensures
            s.book@.session_id is None && s.book@.cwd is None,
            s.book@.backups == Map::<Seq<char>, Seq<char>>::empty(),
            s.book@.edits == Map::<Seq<char>, usize>::empty(),
            s.book@.pending == Seq::<(Seq<char>, Seq<char>)>::empty(),
            s.turn_index == 0,
            pending_view(s.cur) == fresh_turn(0),
            s.finished@.len() == 0,
            s.wf(),
    {
        let s = PersistSession { book: SessionBackups::new(), turn_index: 0, cur: PendingTurn::new(0), finished: Vec::new() };
        assert(pending_view(s.cur) == fresh_turn(0)) by {
            assert(s.cur.files@ =~= Seq::<FileEntry>::empty());
        }
        s
    }

    /// One parsed line; a file-producing entry is handed back (its path) to
    /// be resolved and then added with [`PersistSession::add_file`].
    pub fn line(&mut self, v: &Doc) -> (entry: Option<String>)
        requires
            old(self).bounded(),
        ensures
            persist_line(*old(self), *final(self), v@, entry),
    {
        if self.book.observe(v) {
            return None;
        }
        let side = is_sidechain(v);
        let ts = as_str(get(v, "timestamp"));
        if !side && is_genuine_user_prompt(v) {
            match extract_user_text(v) {
                Some(text) => {
                    if self.cur.prompt_raw.is_some() || self.cur.files.len() > 0 {
                        self.turn_index = self.turn_index + 1;
                        let mut fresh = PendingTurn::new(self.turn_index);
                        std::mem::swap(&mut self.cur, &mut fresh);
                        let ghost before = pendings_view(self.finished@);
                        self.finished.push(fresh);
                        assert(pendings_view(self.finished@) == before.push(pending_view(fresh)));
                        assert(self.cur.files@ =~= Seq::<FileEntry>::empty());
                    }
                    self.cur.prompt_raw = Some(text);
                    match ts {
                        Some(t) => self.cur.touch_ts(t),
                        None => {},
                    }
                    return None;
                },
                None => {},
            }
        }
        match tool_line(v) {
            ToolLine::File(fp) => {
                match ts {
                    Some(t) => self.cur.touch_ts(t),
                    None => {},
                }
                Some(fp)
            },
            _ => None,
        }
    }

    /// One raw line of the transcript: a blank line, or one that is not
    /// JSON, changes nothing; a parsed line is [`PersistSession::line`].
    pub fn raw_line(&mut self, line: &str) -> (entry: Option<String>)
        requires
            old(self).bounded(),
        ensures
            persist_raw_line(*old(self), *final(self), line@, entry),
    {
        match json_line(line) {
            Some(Ok(v)) => self.line(&v),
            _ => None,
        }
    }

    /// One line of the transcript as read, in bytes: a line that is not
    /// UTF-8 changes nothing; any other is [`PersistSession::raw_line`] on
    /// its text.
    pub fn byte_line(&mut self, bytes: Vec<u8>) -> (entry: Option<String>)
        requires
            old(self).bounded(),
        ensures
            !vstd::utf8::valid_utf8(bytes@) ==> *final(self) == *old(self) && entry is None,
            vstd::utf8::valid_utf8(bytes@) ==> persist_raw_line(
                *old(self),
                *final(self),
                vstd::utf8::decode_utf8(bytes@),
                entry,
            ),
    {
        broadcast use vstd::utf8::encode_utf8_decode_utf8, vstd::utf8::encode_utf8_valid_utf8;

        let ghost b = bytes@;
        match crate::importcmd::utf8_text(bytes) {
            None => None,
            Some(text) => {
                assert(vstd::utf8::decode_utf8(b) == text@);
                self.raw_line(text.as_str())
            },
        }
    }

    /// A resolved file of the current turn.
    pub fn add_file(&mut self, entry: FileEntry)
        ensures
            old(self).wf() ==> final(self).wf(),
            final(self).turn_index == old(self).turn_index,
            final(self).book@ == old(self).book@,
            pendings_view(final(self).finished@) == pendings_view(old(self).finished@),
            pending_view(final(self).cur) == (PendingV {
                files: pending_view(old(self).cur).files.push(entry),
                ..pending_view(old(self).cur)
            }),
    {
        self.cur.files.push(entry);
    }

    /// The end of the file: the turns in order, the last one only when it
    /// holds a prompt or a file.
    pub fn finish(self) -> (turns: Vec<PendingTurn>)
        ensures
            self.wf() ==> forall|i: int| 0 <= i < turns@.len() ==> (#[trigger] turns@[i]).turn_index == i,
            pendings_view(turns@) == if has_content(pending_view(self.cur)) {
                pendings_view(self.finished@).push(pending_view(self.cur))
            } else {
                pendings_view(self.finished@)
            },
    {
        let PersistSession { book: _, turn_index: _, cur, finished } = self;
        let mut turns = finished;
        let ghost before = pendings_view(turns@);
        if cur.prompt_raw.is_some() || cur.files.len() > 0 {
            let ghost c = pending_view(cur);
            turns.push(cur);
            assert(pendings_view(turns@) == before.push(c));
        }
        turns
    }
}

/// A turn's span as recorded: its earliest timestamp (the epoch when it has
/// none) and its latest (its start when it has none).
pub fn turn_span(t: &PendingTurn) -> (span: (String, String))
    ensures
        span.0@ == match t.started {
            Some(s) => s@,
            None => "1970-01-01T00:00:00.000Z"@,
        },
        span.1@ == match t.ended {
            Some(e) => e@,
            None => span.0@,
        },
{
    let started = match &t.started {
        Some(s) => s.clone(),
        None => String::from_str("1970-01-01T00:00:00.000Z"),
    };
    let ended = match &t.ended {
        Some(e) => e.clone(),
        None => started.clone(),
    };
    (started, ended)
}

} // verus!
