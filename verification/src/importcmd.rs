//! `agentrec import`: the pure rules of the transcript importer —
//! resolving a backup key against a session's `cwd`, the staleness
//! bookkeeping of tracked-file backups, the guard on transcript-supplied path
//! components, byte search in resolved blobs, and the debug sink.

use vstd::prelude::*;
use crate::paths::{join, join_spec, lexical_normal, lexical_normalize};
use crate::strmap::StrMap;
use crate::record::FileEntry;
use crate::doc::{as_str, field, field_of, get, get_in, items_view, lemma_array_view, str_of, Doc, DocV};
use crate::text::{
    chars_of, has_char, has_prefix, occurs_at, parse_u64, parse_u64_spec, push_chars, slice_chars,
    starts_with, string_of,
};

verus! {

/// A backup key with a leading `./` removed.
pub open spec fn without_dot_slash(key: Seq<char>) -> Seq<char> {
    if starts_with(key, "./"@) {
        key.skip(2)
    } else {
        key
    }
}

/// The absolute path a `trackedFileBackups` key names: an absolute key
/// normalised as it is; a relative one (without a leading `./`) joined onto
/// the session's `cwd` first.
pub open spec fn backup_key_path(key: Seq<char>, cwd: Seq<char>) -> Seq<char> {
    if key.len() > 0 && key[0] == '/' {
        lexical_normal(key)
    } else {
        lexical_normal(join_spec(cwd, without_dot_slash(key)))
    }
}

pub fn normalize_backup_key(key: &str, cwd: &str) -> (p: String)
    ensures
        p@ == backup_key_path(key@, cwd@),
{
    let k = chars_of(key);
    if k.len() > 0 && k[0] == '/' {
        return lexical_normalize(key);
    }
    let dot_slash = chars_of("./");
    let stripped = if has_prefix(&k, &dot_slash) {
        proof {
            reveal_strlit("./");
        }
        string_of(&slice_chars(&k, 2, k.len()))
    } else {
        String::from_str(key)
    };
    assert(k@.subrange(2, k@.len() as int) == k@.skip(2));
    let joined = join(cwd, stripped.as_str());
    lexical_normalize(joined.as_str())
}

/// Records a resolved backup for `path`. The staleness count is reset to 0
/// only when `backup_name` differs from the backup already held for `path`
/// (or none was held): re-announcing the same backup keeps the count.
pub fn record_backup(
    backups: &mut StrMap<String>,
    edits_since_backup: &mut StrMap<usize>,
    path: String,
    backup_name: String,
)
    ensures
        final(backups)@ == old(backups)@.insert(path@, backup_name),
        final(edits_since_backup)@ == if old(backups)@.dom().contains(path@) && old(backups)@[path@]@
            == backup_name@ {
            old(edits_since_backup)@
        } else {
            old(edits_since_backup)@.insert(path@, 0)
        },
{
    let is_new_backup = match backups.get(path.as_str()) {
        Some(held) => *held != backup_name,
        None => true,
    };
    let key = path.clone();
    backups.insert(key, backup_name);
    if is_new_backup {
        edits_since_backup.insert(path, 0);
    }
}

/// One classified edit of `path`: the count of edits since the held backup
/// goes up by one (a path with no held backup has no count).
pub fn mark_edit(edits_since_backup: &mut StrMap<usize>, path: &str)
    requires
        old(edits_since_backup)@.dom().contains(path@) ==> old(edits_since_backup)@[path@]
            < usize::MAX,
    ensures
        final(edits_since_backup)@ == if old(edits_since_backup)@.dom().contains(path@) {
            old(edits_since_backup)@.insert(path@, (old(edits_since_backup)@[path@] + 1) as usize)
        } else {
            old(edits_since_backup)@
        },
{
    edits_since_backup.increment(path);
}

/// Re-announcing the backup already held does not clear the staleness an
/// intervening edit created; a different backup name does.
pub proof fn law_reannounced_backup_keeps_staleness(
    backups: Map<Seq<char>, String>,
    edits: Map<Seq<char>, usize>,
    path: Seq<char>,
    name: String,
    other: String,
)
    requires
        backups.dom().contains(path),
        backups[path]@ == name@,
        edits.dom().contains(path),
        edits[path] == 1,
        other@ != name@,
    ensures
        ({
            let kept = if backups.dom().contains(path) && backups[path]@ == name@ {
                edits
            } else {
                edits.insert(path, 0)
            };
            kept[path] == 1
        }),
        ({
            let reset = if backups.dom().contains(path) && backups[path]@ == other@ {
                edits
            } else {
                edits.insert(path, 0)
            };
            reset[path] == 0
        }),
{
}

/// A transcript-supplied `sessionId` or `backupFileName` that is safe to
/// join under the source directory: non-empty, not `.` or `..`, no `/` or
/// `\`, not absolute.
pub open spec fn safe_component(s: Seq<char>) -> bool {
    &&& s.len() > 0
    &&& s != "."@
    &&& s != ".."@
    &&& !has_char(s, '/')
    &&& !has_char(s, '\\')
    &&& !(s.len() > 0 && s[0] == '/')
}

pub fn is_safe_path_component(s: &str) -> (r: bool)
    ensures
        r == safe_component(s@),
{
    let cs = chars_of(s);
    proof {
        reveal_strlit(".");
        reveal_strlit("..");
    }
    if cs.len() == 0 {
        return false;
    }
    if cs.len() == 1 && cs[0] == '.' {
        assert(cs@ == "."@);
        return false;
    }
    if cs.len() == 2 && cs[0] == '.' && cs[1] == '.' {
        assert(cs@ == ".."@);
        return false;
    }
    let mut i: usize = 0;
    while i < cs.len()
        invariant
            i <= cs.len(),
            cs@ == s@,
            forall|k: int| 0 <= k < i ==> cs@[k] != '/' && cs@[k] != '\\',
        decreases cs.len() - i,
    {
        if cs[i] == '/' || cs[i] == '\\' {
            assert(s@[i as int] == cs[i as int]);
            return false;
        }
        i = i + 1;
    }
    assert(cs@ != "."@ && cs@ != ".."@) by {
        if cs@ == "."@ {
            assert(cs@.len() == 1 && cs@[0] == '.');
        }
        if cs@ == ".."@ {
            assert(cs@.len() == 2 && cs@[0] == '.' && cs@[1] == '.');
        }
    }
    true
}

/// `hash` without a leading `sha256:`.
pub fn strip_hash_prefix(hash: &str) -> (r: String)
    ensures
        r@ == if starts_with(hash@, "sha256:"@) {
            hash@.skip(7)
        } else {
            hash@
        },
{
    let h = chars_of(hash);
    let p = chars_of("sha256:");
    proof {
        reveal_strlit("sha256:");
    }
    if has_prefix(&h, &p) {
        assert(h@.subrange(7, h@.len() as int) == h@.skip(7));
        string_of(&slice_chars(&h, 7, h.len()))
    } else {
        String::from_str(hash)
    }
}

// ---- byte search -----------------------------------------------------------------

pub open spec fn bytes_at(h: Seq<u8>, n: Seq<u8>, at: int) -> bool {
    0 <= at && at + n.len() <= h.len() && h.subrange(at, at + n.len()) == n
}

fn matches_at(h: &[u8], n: &[u8], at: usize) -> (r: bool)
    requires
        at + n@.len() <= h@.len(),
    ensures
        r == bytes_at(h@, n@, at as int),
{
    let mut i: usize = 0;
    while i < n.len()
        invariant
            i <= n@.len(),
            at + n.len() <= h.len(),
            forall|k: int| 0 <= k < i ==> h@[at + k] == n@[k],
        decreases n.len() - i,
    {
        if h[at + i] != n[i] {
            assert(h@.subrange(at as int, at + n@.len())[i as int] != n@[i as int]);
            return false;
        }
        i = i + 1;
    }
    assert(h@.subrange(at as int, at + n@.len()) == n@);
    true
}

/// Whether `needle` occurs in `haystack` (the empty needle always does).
pub fn bytes_contain(haystack: &[u8], needle: &[u8]) -> (r: bool)
    ensures
        r == (needle@.len() == 0 || exists|at: int| bytes_at(haystack@, needle@, at)),
{
    if needle.len() == 0 {
        return true;
    }
    match bytes_find(haystack, needle) {
        Some(_) => true,
        None => false,
    }
}

/// The offset of the first occurrence of a non-empty `needle`.
pub fn bytes_find(haystack: &[u8], needle: &[u8]) -> (r: Option<usize>)
    ensures
        match r {
            Some(at) => needle@.len() > 0 && bytes_at(haystack@, needle@, at as int) && forall|k: int|
                0 <= k < at ==> !bytes_at(haystack@, needle@, k),
            None => needle@.len() == 0 || forall|k: int| !bytes_at(haystack@, needle@, k),
        },
{
    if needle.len() == 0 || needle.len() > haystack.len() {
        return None;
    }
    let last: usize = haystack.len() - needle.len();
    let mut at: usize = 0;
    while at <= last
        invariant
            last + needle.len() == haystack.len(),
            at <= last + 1,
            needle@.len() > 0,
            forall|k: int| 0 <= k < at ==> !bytes_at(haystack@, needle@, k),
        decreases last + 1 - at,
    {
        if matches_at(haystack, needle, at) {
            return Some(at);
        }
        at = at + 1;
    }
    assert forall|k: int| !bytes_at(haystack@, needle@, k) by {
        if 0 <= k && k + needle@.len() <= haystack@.len() {
            assert(k <= last);
        }
    }
    None
}

/// Non-overlapping occurrences of `n` in `h` from offset `start`, taken
/// greedily left to right.
pub open spec fn count_from(h: Seq<u8>, n: Seq<u8>, start: int) -> nat
    recommends
        n.len() > 0,
    decreases h.len() - start,
    when n.len() > 0 && start >= 0
{
    if start + n.len() > h.len() {
        0
    } else if bytes_at(h, n, start) {
        1 + count_from(h, n, start + n.len())
    } else {
        count_from(h, n, start + 1)
    }
}

/// The number of non-overlapping occurrences of `needle` (0 for the empty
/// needle).
pub fn bytes_count(haystack: &[u8], needle: &[u8]) -> (c: usize)
    ensures
        c == if needle@.len() == 0 {
            0
        } else {
            count_from(haystack@, needle@, 0)
        },
{
    if needle.len() == 0 {
        return 0;
    }
    let mut count: usize = 0;
    let mut start: usize = 0;
    while start <= haystack.len() && needle.len() <= haystack.len() - start
        invariant
            needle@.len() > 0,
            start <= haystack@.len() + needle@.len(),
            count + count_from(haystack@, needle@, start as int) == count_from(haystack@, needle@, 0),
            count <= start,
        decreases haystack@.len() - start + needle@.len(),
    {
        if matches_at(haystack, needle, start) {
            count = count + 1;
            start = start + needle.len();
        } else {
            start = start + 1;
        }
    }
    count
}

// ---- debug sink -------------------------------------------------------------------

/// One classified entry, for the debug dump.
#[derive(Debug)]
pub struct DebugEntry {
    pub session_file: String,
    pub path: String,
    pub tier: String,
    pub sha256: Option<String>,
}

/// Collects debug entries only when enabled: when disabled a push is a
/// no-op, so the list never grows with the corpus.
pub struct DebugSink {
    pub enabled: bool,
    pub entries: Vec<DebugEntry>,
}

impl DebugSink {
    pub fn new(enabled: bool) -> (s: DebugSink)
        ensures
            s.enabled == enabled,
            s.entries@.len() == 0,
    {
        DebugSink { enabled, entries: Vec::new() }
    }

    pub fn push(&mut self, session_file: &str, path: &str, tier: &str, sha256: Option<String>)
        ensures
            final(self).enabled == old(self).enabled,
            !old(self).enabled ==> final(self).entries@ == old(self).entries@,
            old(self).enabled ==> {
                &&& final(self).entries@.len() == old(self).entries@.len() + 1
                &&& final(self).entries@.drop_last() == old(self).entries@
                &&& final(self).entries@.last().session_file@ == session_file@
                &&& final(self).entries@.last().path@ == path@
                &&& final(self).entries@.last().tier@ == tier@
                &&& final(self).entries@.last().sha256 == sha256
            },
    {
        if !self.enabled {
            return;
        }
        self.entries.push(
            DebugEntry {
                session_file: String::from_str(session_file),
                path: String::from_str(path),
                tier: String::from_str(tier),
                sha256,
            },
        );
    }
}


// ---- transcript lines ----------------------------------------------------------------

/// Some item of a content array is a `tool_result` block.
pub open spec fn has_tool_result(v: Option<DocV>) -> bool {
    match v {
        Some(DocV::Array(items)) => exists|i: int|
            0 <= i < items.len() && str_of(field(#[trigger] items[i], "type"@)) == Some("tool_result"@),
        _ => false,
    }
}

/// A line is a genuine user-authored turn boundary when its `message` is an
/// object with role `user` whose content is not a tool result.
pub open spec fn genuine_user_prompt(v: DocV) -> bool {
    match field(v, "message"@) {
        Some(DocV::Object(es)) => {
            let msg = DocV::Object(es);
            str_of(field(msg, "role"@)) == Some("user"@) && !has_tool_result(field(msg, "content"@))
        },
        _ => false,
    }
}

proof fn lemma_has_tool_result(v: Option<DocV>, items: Seq<DocV>)
    requires
        v == Some(DocV::Array(items)),
    ensures
        has_tool_result(v) == exists|i: int|
            0 <= i < items.len() && str_of(field(#[trigger] items[i], "type"@)) == Some("tool_result"@),
{
    match v {
        Some(DocV::Array(it2)) => {
            assert(it2 == items);
        },
        _ => {},
    }
}

fn any_tool_result(items: &Vec<Doc>) -> (r: bool)
    ensures
        r == exists|i: int|
            0 <= i < items@.len() && str_of(field(#[trigger] items_view(items@)[i], "type"@)) == Some("tool_result"@),
{
    let mut i: usize = 0;
    while i < items.len()
        invariant
            i <= items.len(),
            forall|k: int| 0 <= k < i ==> str_of(field(#[trigger] items_view(items@)[k], "type"@)) != Some("tool_result"@),
        decreases items.len() - i,
    {
        assert(items_view(items@)[i as int] == items@[i as int]@);
        match as_str(get(&items[i], "type")) {
            Some(t) => {
                if crate::paths::same_chars(&chars_of(t), &chars_of("tool_result")) {
                    return true;
                }
            },
            None => {},
        }
        i = i + 1;
    }
    false
}

/// Whether a `message.content` value is an array holding a `tool_result`
/// block.
pub fn tool_result_shaped(content: Option<&Doc>) -> (r: bool)
    ensures
        r == has_tool_result(crate::doc::opt_view(content)),
{
    match content {
        Some(Doc::Array(items)) => {
            proof {
                lemma_array_view(*items);
                lemma_has_tool_result(crate::doc::opt_view(content), items_view(items@));
            }
            any_tool_result(items)
        },
        _ => false,
    }
}

pub fn is_genuine_user_prompt(value: &Doc) -> (r: bool)
    ensures
        r == genuine_user_prompt(value@),
{
    let msg = match get(value, "message") {
        Some(m) => match m {
            Doc::Object(_) => m,
            _ => return false,
        },
        None => return false,
    };
    match as_str(get(msg, "role")) {
        Some(role) => {
            if !crate::paths::same_chars(&chars_of(role), &chars_of("user")) {
                return false;
            }
        },
        None => return false,
    }
    match get(msg, "content") {
        Some(Doc::Array(items)) => {
            proof {
                lemma_array_view(*items);
                lemma_has_tool_result(field(msg@, "content"@), items_view(items@));
            }
            !any_tool_result(items)
        },
        _ => true,
    }
}

/// The text blocks of a user message joined by newlines (a newline only
/// after text already collected).
pub open spec fn joined_text(items: Seq<DocV>) -> Seq<char>
    decreases items.len(),
{
    if items.len() == 0 {
        seq![]
    } else {
        let acc = joined_text(items.drop_last());
        let it = items.last();
        if str_of(field(it, "type"@)) == Some("text"@) {
            match str_of(field(it, "text"@)) {
                Some(t) => if acc.len() > 0 {
                    acc.push('\n') + t
                } else {
                    acc + t
                },
                None => acc,
            }
        } else {
            acc
        }
    }
}

/// A user line's text: non-empty string content, or the non-empty join of
/// its text blocks.
pub open spec fn user_text(v: DocV) -> Option<Seq<char>> {
    match field_of(field(v, "message"@), "content"@) {
        Some(DocV::Str(s)) => if s.len() > 0 {
            Some(s)
        } else {
            None
        },
        Some(DocV::Array(items)) => if joined_text(items).len() > 0 {
            Some(joined_text(items))
        } else {
            None
        },
        _ => None,
    }
}

pub fn extract_user_text(value: &Doc) -> (r: Option<String>)
    ensures
        crate::hookcmds::string_opt_view(r) == user_text(value@),
{
    match get_in(get(value, "message"), "content") {
        Some(Doc::Str(s)) => {
            if s.unicode_len() > 0 {
                Some(s.clone())
            } else {
                None
            }
        },
        Some(Doc::Array(items)) => {
            proof {
                lemma_array_view(*items);
            }
            let ghost iv = items_view(items@);
            let mut out: Vec<char> = Vec::new();
            let mut i: usize = 0;
            while i < items.len()
                invariant
                    i <= items.len(),
                    iv == items_view(items@),
                    out@ == joined_text(iv.take(i as int)),
                decreases items.len() - i,
            {
                assert(iv.take(i + 1).drop_last() == iv.take(i as int));
                assert(iv.take(i + 1).last() == items@[i as int]@);
                let it = &items[i];
                let is_text = match as_str(get(it, "type")) {
                    Some(t) => crate::paths::same_chars(&chars_of(t), &chars_of("text")),
                    None => false,
                };
                if is_text {
                    match as_str(get(it, "text")) {
                        Some(t) => {
                            if out.len() > 0 {
                                out.push('\n');
                            }
                            let tc = chars_of(t);
                            crate::text::push_chars(&mut out, &tc);
                        },
                        None => {},
                    }
                }
                i = i + 1;
            }
            assert(iv.take(items.len() as int) == iv);
            if out.len() > 0 {
                Some(string_of(&out))
            } else {
                None
            }
        },
        _ => None,
    }
}

// ---- turn segmentation ----------------------------------------------------------------

/// Lexicographic order of strings (by code point, as `str`'s `<` orders
/// UTF-8 text).
pub open spec fn str_lt(a: Seq<char>, b: Seq<char>) -> bool
    decreases a.len(),
{
    if a.len() == 0 {
        b.len() > 0
    } else if b.len() == 0 {
        false
    } else if a[0] != b[0] {
        a[0] < b[0]
    } else {
        str_lt(a.drop_first(), b.drop_first())
    }
}

/// `a < b` on strings.
pub fn less_than(a: &str, b: &str) -> (r: bool)
    ensures
        r == str_lt(a@, b@),
{
    let x = chars_of(a);
    let y = chars_of(b);
    let mut i: usize = 0;
    assert(x@.skip(0) == x@ && y@.skip(0) == y@);
    while i < x.len() && i < y.len() && x[i] == y[i]
        invariant
            i <= x.len(),
            i <= y.len(),
            str_lt(x@, y@) == str_lt(x@.skip(i as int), y@.skip(i as int)),
        decreases x.len() - i,
    {
        assert(x@.skip(i as int).drop_first() == x@.skip(i + 1));
        assert(y@.skip(i as int).drop_first() == y@.skip(i + 1));
        i = i + 1;
    }
    proof {
        assert(x@ == a@ && y@ == b@);
    }
    if i == x.len() {
        i < y.len()
    } else if i == y.len() {
        false
    } else {
        assert(x@.skip(i as int)[0] == x@[i as int]);
        assert(y@.skip(i as int)[0] == y@[i as int]);
        x[i] < y[i]
    }
}

/// A candidate turn being segmented out of a session: its index in the
/// session, its prompt, the earliest and latest timestamps seen, and its
/// resolved files.
pub struct PendingTurn {
    pub turn_index: usize,
    pub prompt_raw: Option<String>,
    pub started: Option<String>,
    pub ended: Option<String>,
    pub files: Vec<crate::record::FileEntry>,
}

impl PendingTurn {
    pub fn new(turn_index: usize) -> (t: PendingTurn)
        ensures
            t.turn_index == turn_index,
            t.prompt_raw is None,
            t.started is None,
            t.ended is None,
            t.files@.len() == 0,
    {
        PendingTurn { turn_index, prompt_raw: None, started: None, ended: None, files: Vec::new() }
    }

    /// Widens the turn's time span to cover `ts`: `started` is the least
    /// timestamp seen, `ended` the greatest.
    pub fn touch_ts(&mut self, ts: &str)
        ensures
            final(self).turn_index == old(self).turn_index,
            final(self).prompt_raw == old(self).prompt_raw,
            final(self).files == old(self).files,
            crate::hookcmds::string_opt_view(final(self).started) == match old(self).started {
                Some(s) => if str_lt(ts@, s@) {
                    Some(ts@)
                } else {
                    Some(s@)
                },
                None => Some(ts@),
            },
            crate::hookcmds::string_opt_view(final(self).ended) == match old(self).ended {
                Some(e) => if str_lt(e@, ts@) {
                    Some(ts@)
                } else {
                    Some(e@)
                },
                None => Some(ts@),
            },
    {
        let earlier = match &self.started {
            Some(s) => less_than(ts, s.as_str()),
            None => true,
        };
        if earlier {
            self.started = Some(String::from_str(ts));
        }
        let later = match &self.ended {
            Some(e) => less_than(e.as_str(), ts),
            None => true,
        };
        if later {
            self.ended = Some(String::from_str(ts));
        }
    }
}


// ---- the before-bytes ladder -----------------------------------------------------------

/// Where the before-bytes ladder puts a file edit, as far as it is decided
/// before any backup blob is read (first hit wins).
#[derive(Debug, PartialEq, Eq, Clone, Copy, Structural)]
pub enum Rung {
    /// A secret path: never tier-counted, never hashed.
    Secret,
    /// `originalFile` is present: T1 from its bytes.
    T1Original,
    /// A create (`type` `"create"`): T1 with no pre-edit bytes.
    T1Create,
    /// A backup is held, but an edit of the path was classified since it was
    /// recorded: refused as stale, on to T2/T3.
    Stale,
    /// The session id or the backup name is not a safe path component:
    /// refused, on to T2/T3.
    UnsafePath,
    /// Read the backup blob `<source>/file-history/<session>/<backup>`.
    ReadBlob,
    /// No backup (or no session id) to try: on to T2/T3.
    NoBackup,
}

pub open spec fn rung_of(
    is_secret: bool,
    original_file: Option<Seq<char>>,
    op_type: Option<Seq<char>>,
    backup_name: Option<Seq<char>>,
    session_id: Option<Seq<char>>,
    edits_since_backup: Option<usize>,
) -> Rung {
    if is_secret {
        Rung::Secret
    } else if original_file is Some {
        Rung::T1Original
    } else if op_type == Some("create"@) {
        Rung::T1Create
    } else if backup_name is None || session_id is None {
        Rung::NoBackup
    } else if edits_since_backup matches Some(n) && n > 0 {
        Rung::Stale
    } else if !safe_component(session_id.unwrap()) || !safe_component(backup_name.unwrap()) {
        Rung::UnsafePath
    } else {
        Rung::ReadBlob
    }
}

/// The first rungs of the ladder for one edit: `tur` is its tool-use
/// result, `backup_name` the backup held for its path, `edits_since_backup`
/// the count of edits of the path classified since that backup.
pub fn entry_rung(
    is_secret: bool,
    tur: &Doc,
    backup_name: Option<&str>,
    session_id: Option<&str>,
    edits_since_backup: Option<usize>,
) -> (r: Rung)
    ensures
        r == rung_of(
            is_secret,
            str_of(field(tur@, "originalFile"@)),
            str_of(field(tur@, "type"@)),
            crate::hookcmds::opt_view(backup_name),
            crate::hookcmds::opt_view(session_id),
            edits_since_backup,
        ),
{
    if is_secret {
        return Rung::Secret;
    }
    if as_str(get(tur, "originalFile")).is_some() {
        return Rung::T1Original;
    }
    let is_create = match as_str(get(tur, "type")) {
        Some(t) => crate::paths::same_chars(&chars_of(t), &chars_of("create")),
        None => false,
    };
    if is_create {
        return Rung::T1Create;
    }
    let (name, sid) = match (backup_name, session_id) {
        (Some(n), Some(s)) => (n, s),
        _ => return Rung::NoBackup,
    };
    let stale = match edits_since_backup {
        Some(n) => n > 0,
        None => false,
    };
    if stale {
        return Rung::Stale;
    }
    if !is_safe_path_component(sid) || !is_safe_path_component(name) {
        return Rung::UnsafePath;
    }
    Rung::ReadBlob
}

/// What a read backup blob proves about an edit's pre-state.
#[derive(Debug, PartialEq, Eq, Clone, Copy, Structural)]
pub enum BlobVerdict {
    /// The blob contains the edit's `oldString`: T1.5, content-proven.
    Verified,
    /// No `oldString` to check: T1.5 on the blob reference alone.
    Unverified,
    /// The blob lacks the edit's `oldString`: refused, on to T2/T3.
    Unverifiable,
    /// The blob could not be read: on to T2/T3.
    Missing,
}

/// Whether `needle` occurs somewhere in `hay`.
pub open spec fn occurs_in(hay: Seq<u8>, needle: Seq<u8>) -> bool {
    exists|at: int| bytes_at(hay, needle, at)
}

pub open spec fn blob_verdict_of(blob: Option<Seq<u8>>, old_string: Option<Seq<char>>) -> BlobVerdict {
    match blob {
        None => BlobVerdict::Missing,
        Some(bytes) => match old_string {
            Some(old) => if old.len() > 0 {
                if occurs_in(bytes, vstd::utf8::encode_utf8(old)) {
                    BlobVerdict::Verified
                } else {
                    BlobVerdict::Unverifiable
                }
            } else {
                BlobVerdict::Unverified
            },
            None => BlobVerdict::Unverified,
        },
    }
}

/// The verdict on a backup blob (`None`: it could not be read) against the
/// edit's `oldString`.
pub fn blob_verdict(blob: Option<&[u8]>, old_string: Option<&str>) -> (v: BlobVerdict)
    ensures
        v == blob_verdict_of(
            match blob {
                Some(b) => Some(b@),
                None => None,
            },
            crate::hookcmds::opt_view(old_string),
        ),
{
    let bytes = match blob {
        None => return BlobVerdict::Missing,
        Some(b) => b,
    };
    match old_string {
        Some(old) => {
            if old.unicode_len() > 0 {
                proof {
                    let first = vstd::utf8::encode_scalar(old@[0] as u32);
                    assert(vstd::utf8::encode_utf8(old@) == first + vstd::utf8::encode_utf8(old@.drop_first()));
                    assert(first.len() >= 1);
                }
                let needle = old.as_bytes();
                assert(needle@ == vstd::utf8::encode_utf8(old@));
                assert(needle@.len() > 0);
                if bytes_contain(bytes, needle) {
                    assert(occurs_in(bytes@, needle@));
                    BlobVerdict::Verified
                } else {
                    assert(!occurs_in(bytes@, needle@));
                    BlobVerdict::Unverifiable
                }
            } else {
                BlobVerdict::Unverified
            }
        },
        None => BlobVerdict::Unverified,
    }
}

/// The fidelity counters of the ladder.
pub struct TierCounts {
    pub t1: usize,
    pub t1_5: usize,
    /// Part of `t1_5`: classified on the blob reference alone.
    pub t15_unverified: usize,
    pub t15_rejected_unverifiable: usize,
    pub t15_rejected_stale: usize,
    pub t15_blob_missing: usize,
    pub t15_rejected_unsafe_path: usize,
    pub t2_candidate: usize,
    pub t3: usize,
    pub skipped_secret_path: usize,
}

impl TierCounts {
    /// The unverified T1.5 entries are a part of the T1.5 entries.
    pub open spec fn wf(&self) -> bool {
        self.t15_unverified <= self.t1_5
    }

    pub open spec fn bounded(&self) -> bool {
        &&& self.t1 < usize::MAX
        &&& self.t1_5 < usize::MAX
        &&& self.t15_unverified < usize::MAX
        &&& self.t15_rejected_unverifiable < usize::MAX
        &&& self.t15_rejected_stale < usize::MAX
        &&& self.t15_blob_missing < usize::MAX
        &&& self.t15_rejected_unsafe_path < usize::MAX
        &&& self.t2_candidate < usize::MAX
        &&& self.t3 < usize::MAX
        &&& self.skipped_secret_path < usize::MAX
    }

    /// The sum of every counter.
    pub open spec fn total(&self) -> int {
        self.t1 + self.t1_5 + self.t15_unverified + self.t15_rejected_unverifiable + self.t15_rejected_stale
            + self.t15_blob_missing + self.t15_rejected_unsafe_path + self.t2_candidate + self.t3
            + self.skipped_secret_path
    }

    /// `after` is `before` with a decided first rung counted: a secret
    /// skip, a T1, or a stale or unsafe-path refusal (a blob to read, or no
    /// backup, counts nothing yet).
    pub open spec fn rung_counted(before: TierCounts, after: TierCounts, rung: Rung) -> bool {
        &&& after.t1 == before.t1 + if rung == Rung::T1Original || rung == Rung::T1Create {
            1int
        } else {
            0
        }
        &&& after.skipped_secret_path == before.skipped_secret_path + if rung == Rung::Secret {
            1int
        } else {
            0
        }
        &&& after.t15_rejected_stale == before.t15_rejected_stale + if rung == Rung::Stale {
            1int
        } else {
            0
        }
        &&& after.t15_rejected_unsafe_path == before.t15_rejected_unsafe_path + if rung
            == Rung::UnsafePath {
            1int
        } else {
            0
        }
        &&& after.t1_5 == before.t1_5
        &&& after.t15_unverified == before.t15_unverified
        &&& after.t15_rejected_unverifiable == before.t15_rejected_unverifiable
        &&& after.t15_blob_missing == before.t15_blob_missing
        &&& after.t2_candidate == before.t2_candidate
        &&& after.t3 == before.t3
    }

    /// `after` is `before` with a blob verdict counted: `Verified` and
    /// `Unverified` are T1.5 (the latter also counted as unverified), the
    /// other two are refusals of their own kind.
    pub open spec fn blob_counted(before: TierCounts, after: TierCounts, v: BlobVerdict) -> bool {
        &&& after.t1_5 == before.t1_5 + if v == BlobVerdict::Verified || v == BlobVerdict::Unverified {
            1int
        } else {
            0
        }
        &&& after.t15_unverified == before.t15_unverified + if v == BlobVerdict::Unverified {
            1int
        } else {
            0
        }
        &&& after.t15_rejected_unverifiable == before.t15_rejected_unverifiable + if v
            == BlobVerdict::Unverifiable {
            1int
        } else {
            0
        }
        &&& after.t15_blob_missing == before.t15_blob_missing + if v == BlobVerdict::Missing {
            1int
        } else {
            0
        }
        &&& after.t1 == before.t1
        &&& after.t15_rejected_stale == before.t15_rejected_stale
        &&& after.t15_rejected_unsafe_path == before.t15_rejected_unsafe_path
        &&& after.t2_candidate == before.t2_candidate
        &&& after.t3 == before.t3
        &&& after.skipped_secret_path == before.skipped_secret_path
    }

    pub fn new() -> (c: TierCounts)
        ensures
            c.wf(),
            c.total() == 0,
    {
        TierCounts {
            t1: 0,
            t1_5: 0,
            t15_unverified: 0,
            t15_rejected_unverifiable: 0,
            t15_rejected_stale: 0,
            t15_blob_missing: 0,
            t15_rejected_unsafe_path: 0,
            t2_candidate: 0,
            t3: 0,
            skipped_secret_path: 0,
        }
    }

    /// Counts a decided first rung: a secret skip, a T1, or a stale or
    /// unsafe-path refusal (a blob to read, or no backup, counts nothing
    /// yet).
    pub fn record_rung(&mut self, rung: Rung)
        requires
            old(self).bounded(),
        ensures
            TierCounts::rung_counted(*old(self), *final(self), rung),
            old(self).wf() ==> final(self).wf(),
    {
        match rung {
            Rung::Secret => self.skipped_secret_path = self.skipped_secret_path + 1,
            Rung::T1Original | Rung::T1Create => self.t1 = self.t1 + 1,
            Rung::Stale => self.t15_rejected_stale = self.t15_rejected_stale + 1,
            Rung::UnsafePath => self.t15_rejected_unsafe_path = self.t15_rejected_unsafe_path + 1,
            Rung::ReadBlob | Rung::NoBackup => {},
        }
    }

    /// Counts a blob verdict; the verdict decides T1.5 exactly when it is
    /// `Verified` or `Unverified`.
    pub fn record_blob(&mut self, v: BlobVerdict) -> (t15: bool)
        requires
            old(self).bounded(),
        ensures
            t15 == (v == BlobVerdict::Verified || v == BlobVerdict::Unverified),
            TierCounts::blob_counted(*old(self), *final(self), v),
            old(self).wf() ==> final(self).wf(),
    {
        match v {
            BlobVerdict::Verified => {
                self.t1_5 = self.t1_5 + 1;
                true
            },
            BlobVerdict::Unverified => {
                self.t1_5 = self.t1_5 + 1;
                self.t15_unverified = self.t15_unverified + 1;
                true
            },
            BlobVerdict::Unverifiable => {
                self.t15_rejected_unverifiable = self.t15_rejected_unverifiable + 1;
                false
            },
            BlobVerdict::Missing => {
                self.t15_blob_missing = self.t15_blob_missing + 1;
                false
            },
        }
    }

    /// The last rung: a git-tracked path is a T2 candidate, any other T3.
    pub fn record_fallthrough(&mut self, git_tracked: bool)
        requires
            old(self).bounded(),
        ensures
            final(self).t2_candidate == old(self).t2_candidate + if git_tracked {
                1int
            } else {
                0
            },
            final(self).t3 == old(self).t3 + if git_tracked {
                0int
            } else {
                1
            },
            final(self).t1 == old(self).t1,
            final(self).t1_5 == old(self).t1_5,
            final(self).t15_unverified == old(self).t15_unverified,
            final(self).t15_rejected_unverifiable == old(self).t15_rejected_unverifiable,
            final(self).t15_rejected_stale == old(self).t15_rejected_stale,
            final(self).t15_blob_missing == old(self).t15_blob_missing,
            final(self).t15_rejected_unsafe_path == old(self).t15_rejected_unsafe_path,
            final(self).skipped_secret_path == old(self).skipped_secret_path,
            old(self).wf() ==> final(self).wf(),
    {
        if git_tracked {
            self.t2_candidate = self.t2_candidate + 1;
        } else {
            self.t3 = self.t3 + 1;
        }
    }
}

/// The count held for `path`, if any.
pub open spec fn count_of(edits: Map<Seq<char>, usize>, path: Seq<char>) -> Option<usize> {
    if edits.dom().contains(path) {
        Some(edits[path])
    } else {
        None
    }
}

/// The name of the backup held for `path`, if any.
pub open spec fn backup_of(backups: Map<Seq<char>, String>, path: Seq<char>) -> Option<Seq<char>> {
    if backups.dom().contains(path) {
        Some(backups[path]@)
    } else {
        None
    }
}

/// The part of one edit's classification that comes before any backup blob
/// is read: its first rung, decided from the backup held for `file_path` and
/// the count of edits since, is counted; the edit itself is counted against
/// the held backup. A `ReadBlob` result goes on to [`blob_verdict`] and
/// [`TierCounts::record_blob`]; every result that does not decide a tier goes
/// on to [`TierCounts::record_fallthrough`].
pub fn classify_entry(
    is_secret: bool,
    tur: &Doc,
    file_path: &str,
    session_id: Option<&str>,
    backups: &StrMap<String>,
    edits_since_backup: &mut StrMap<usize>,
    counts: &mut TierCounts,
) -> (r: Rung)
    requires
        old(counts).bounded(),
        old(edits_since_backup)@.dom().contains(file_path@) ==> old(edits_since_backup)@[file_path@]
            < usize::MAX,
    ensures
        r == rung_of(
            is_secret,
            str_of(field(tur@, "originalFile"@)),
            str_of(field(tur@, "type"@)),
            backup_of(backups@, file_path@),
            crate::hookcmds::opt_view(session_id),
            count_of(old(edits_since_backup)@, file_path@),
        ),
        TierCounts::rung_counted(*old(counts), *final(counts), r),
        old(counts).wf() ==> final(counts).wf(),
        final(edits_since_backup)@ == if old(edits_since_backup)@.dom().contains(file_path@) {
            old(edits_since_backup)@.insert(
                file_path@,
                (old(edits_since_backup)@[file_path@] + 1) as usize,
            )
        } else {
            old(edits_since_backup)@
        },
{
    let backup_name: Option<&str> = match backups.get(file_path) {
        Some(b) => Some(b.as_str()),
        None => None,
    };
    let edits: Option<usize> = match edits_since_backup.get(file_path) {
        Some(n) => Some(*n),
        None => None,
    };
    let r = entry_rung(is_secret, tur, backup_name, session_id, edits);
    counts.record_rung(r);
    mark_edit(edits_since_backup, file_path);
    r
}

// ---- the T2 gate -------------------------------------------------------------------------

/// `structuredPatch[0].oldStart`: the 1-based line the edit's hunk starts at
/// in the pre-edit file, when the transcript gives one as a whole number.
pub open spec fn old_start_of(structured_patch: Option<DocV>) -> Option<u64> {
    match structured_patch {
        Some(DocV::Array(items)) => if items.len() > 0 {
            match field(items[0], "oldStart"@) {
                Some(DocV::Number(t)) => parse_u64_spec(t),
                _ => None,
            }
        } else {
            None
        },
        _ => None,
    }
}

/// The hunk's expected start line from an edit's `structuredPatch`; `None`
/// when it is absent or not a whole number (no positional signal, never a
/// match).
pub fn expected_old_start_line(structured_patch: Option<&Doc>) -> (r: Option<u64>)
    ensures
        r == old_start_of(crate::doc::opt_view(structured_patch)),
{
    let items = match structured_patch {
        Some(Doc::Array(a)) => a,
        _ => return None,
    };
    proof {
        lemma_array_view(*items);
    }
    if items.len() == 0 {
        return None;
    }
    assert(items_view(items@)[0] == items@[0]@);
    match get(&items[0], "oldStart") {
        Some(Doc::Number(t)) => parse_u64(&chars_of(t.as_str())),
        _ => None,
    }
}

/// The number of `\n` bytes in `s`.
pub open spec fn newlines(s: Seq<u8>) -> nat
    decreases s.len(),
{
    if s.len() == 0 {
        0
    } else {
        newlines(s.drop_last()) + if s.last() == 10u8 {
            1nat
        } else {
            0nat
        }
    }
}

/// `at` is the offset of the first occurrence of `n` in `h`.
pub open spec fn is_first_at(h: Seq<u8>, n: Seq<u8>, at: int) -> bool {
    bytes_at(h, n, at) && forall|k: int| 0 <= k < at ==> !bytes_at(h, n, k)
}

pub open spec fn first_at(h: Seq<u8>, n: Seq<u8>) -> int {
    choose|at: int| is_first_at(h, n, at)
}

/// The verdict of the content gate on a commit blob found for an edit.
#[derive(Debug, PartialEq, Eq, Clone, Copy, Structural)]
pub enum T2Gate {
    /// `oldString` occurs exactly once, on the hunk's start line when the
    /// transcript names one: the blob is the edit's pre-state.
    Resolved,
    /// `oldString` occurs other than once, or on another line: refused.
    Unverifiable,
    /// No `oldString` to check: refused outright.
    NoOldString,
}

pub open spec fn t2_gate_of(blob: Seq<u8>, old_string: Option<Seq<char>>, expected_line: Option<u64>) -> T2Gate {
    if old_string is Some && old_string.unwrap().len() > 0 {
        let n = vstd::utf8::encode_utf8(old_string.unwrap());
        if count_from(blob, n, 0) != 1 {
            T2Gate::Unverifiable
        } else {
            match expected_line {
                Some(e) => if newlines(blob.take(first_at(blob, n))) + 1 == e {
                    T2Gate::Resolved
                } else {
                    T2Gate::Unverifiable
                },
                None => T2Gate::Resolved,
            }
        }
    } else {
        T2Gate::NoOldString
    }
}

proof fn lemma_no_match_counts_zero(h: Seq<u8>, n: Seq<u8>, start: int)
    requires
        n.len() > 0,
        start >= 0,
        forall|k: int| !bytes_at(h, n, k),
    ensures
        count_from(h, n, start) == 0,
    decreases h.len() - start,
{
    if start + n.len() <= h.len() {
        assert(!bytes_at(h, n, start));
        lemma_no_match_counts_zero(h, n, start + 1);
    }
}

/// The line breaks in `s[..end]`.
fn newlines_before(s: &[u8], end: usize) -> (c: usize)
    requires
        end <= s@.len(),
    ensures
        c == newlines(s@.take(end as int)),
        c <= end,
{
    let mut c: usize = 0;
    let mut i: usize = 0;
    while i < end
        invariant
            i <= end,
            end <= s@.len(),
            c <= i,
            c == newlines(s@.take(i as int)),
        decreases end - i,
    {
        assert(s@.take(i + 1).drop_last() == s@.take(i as int));
        assert(s@.take(i + 1).last() == s@[i as int]);
        if s[i] == 10u8 {
            c = c + 1;
        }
        i = i + 1;
    }
    c
}

/// The content gate on the commit blob found for an edit: its `oldString`
/// must occur exactly once, and on the hunk's start line when
/// `expected_line` names one.
pub fn t2_gate(blob: &[u8], old_string: Option<&str>, expected_line: Option<u64>) -> (g: T2Gate)
    ensures
        g == t2_gate_of(blob@, crate::hookcmds::opt_view(old_string), expected_line),
{
    let old = match old_string {
        Some(o) => o,
        None => return T2Gate::NoOldString,
    };
    if old.unicode_len() == 0 {
        return T2Gate::NoOldString;
    }
    let needle = old.as_bytes();
    proof {
        let first = vstd::utf8::encode_scalar(old@[0] as u32);
        assert(vstd::utf8::encode_utf8(old@) == first + vstd::utf8::encode_utf8(old@.drop_first()));
        assert(first.len() >= 1);
    }
    assert(needle@ == vstd::utf8::encode_utf8(old@));
    if bytes_count(blob, needle) != 1 {
        return T2Gate::Unverifiable;
    }
    let at = match bytes_find(blob, needle) {
        Some(a) => a,
        None => {
            proof {
                lemma_no_match_counts_zero(blob@, needle@, 0);
            }
            return T2Gate::Unverifiable;
        },
    };
    proof {
        assert(is_first_at(blob@, needle@, at as int));
        let c = first_at(blob@, needle@);
        assert(is_first_at(blob@, needle@, c));
        if c < at {
            assert(!bytes_at(blob@, needle@, c));
        } else if c > at {
            assert(!bytes_at(blob@, needle@, at as int));
        }
        assert(c == at);
    }
    match expected_line {
        Some(e) => {
            let line = newlines_before(blob, at);
            if e >= 1 && line as u64 == e - 1 {
                T2Gate::Resolved
            } else {
                T2Gate::Unverifiable
            }
        },
        None => T2Gate::Resolved,
    }
}

/// The counters of the T2 step.
pub struct T2Counters {
    pub resolved: usize,
    pub no_commit: usize,
    pub blob_missing: usize,
    pub rejected_unverifiable: usize,
    pub no_oldstring: usize,
    /// An earlier edit of the same path in this session: refused before any
    /// commit is looked up.
    pub rejected_prior_edit_in_session: usize,
}

impl T2Counters {
    pub open spec fn bounded(&self) -> bool {
        &&& self.resolved < usize::MAX
        &&& self.rejected_unverifiable < usize::MAX
        &&& self.no_oldstring < usize::MAX
    }

    pub fn new() -> (c: T2Counters)
        ensures
            c.resolved == 0 && c.no_commit == 0 && c.blob_missing == 0,
            c.rejected_unverifiable == 0 && c.no_oldstring == 0,
            c.rejected_prior_edit_in_session == 0,
    {
        T2Counters {
            resolved: 0,
            no_commit: 0,
            blob_missing: 0,
            rejected_unverifiable: 0,
            no_oldstring: 0,
            rejected_prior_edit_in_session: 0,
        }
    }

    /// Counts a gate verdict; the blob is the edit's pre-state exactly when
    /// the verdict is `Resolved`.
    pub fn record_gate(&mut self, g: T2Gate) -> (accepted: bool)
        requires
            old(self).bounded(),
        ensures
            accepted == (g == T2Gate::Resolved),
            final(self).resolved == old(self).resolved + if g == T2Gate::Resolved {
                1int
            } else {
                0
            },
            final(self).rejected_unverifiable == old(self).rejected_unverifiable + if g
                == T2Gate::Unverifiable {
                1int
            } else {
                0
            },
            final(self).no_oldstring == old(self).no_oldstring + if g == T2Gate::NoOldString {
                1int
            } else {
                0
            },
            final(self).no_commit == old(self).no_commit,
            final(self).blob_missing == old(self).blob_missing,
            final(self).rejected_prior_edit_in_session == old(self).rejected_prior_edit_in_session,
    {
        match g {
            T2Gate::Resolved => {
                self.resolved = self.resolved + 1;
                true
            },
            T2Gate::Unverifiable => {
                self.rejected_unverifiable = self.rejected_unverifiable + 1;
                false
            },
            T2Gate::NoOldString => {
                self.no_oldstring = self.no_oldstring + 1;
                false
            },
        }
    }
}

// ---- the synthesised after-state ----------------------------------------------------

/// `str::replacen(p, r, 1)`: the first occurrence of `p` replaced (the empty
/// pattern matches at the start).
pub open spec fn replace_first(s: Seq<char>, p: Seq<char>, r: Seq<char>) -> Seq<char>
    decreases s.len(),
{
    if p.len() == 0 {
        r + s
    } else if s.len() < p.len() {
        s
    } else if s.take(p.len() as int) == p {
        r + s.skip(p.len() as int)
    } else {
        seq![s[0]] + replace_first(s.skip(1), p, r)
    }
}

/// `str::replace(p, r)`: every occurrence of `p`, left to right and not
/// overlapping, replaced (the empty pattern matches before every character
/// and at the end).
pub open spec fn replace_every(s: Seq<char>, p: Seq<char>, r: Seq<char>) -> Seq<char>
    decreases s.len(),
{
    if p.len() == 0 {
        if s.len() == 0 {
            r
        } else {
            r + seq![s[0]] + replace_every(s.skip(1), p, r)
        }
    } else if s.len() < p.len() {
        s
    } else if s.take(p.len() as int) == p {
        r + replace_every(s.skip(p.len() as int), p, r)
    } else {
        seq![s[0]] + replace_every(s.skip(1), p, r)
    }
}

fn starts_at(s: &Vec<char>, at: usize, p: &Vec<char>) -> (b: bool)
    requires
        at <= s@.len(),
    ensures
        b == (s@.skip(at as int).len() >= p@.len() && s@.skip(at as int).take(p@.len() as int) == p@),
{
    if s.len() - at < p.len() {
        return false;
    }
    let slen = s.len();
    let mut i: usize = 0;
    while i < p.len()
        invariant
            i <= p@.len(),
            slen == s@.len(),
            at + p@.len() <= s@.len(),
            forall|k: int| 0 <= k < i ==> s@[at + k] == p@[k],
        decreases p@.len() - i,
    {
        if s[at + i] != p[i] {
            assert(s@.skip(at as int).take(p@.len() as int)[i as int] != p@[i as int]);
            return false;
        }
        i = i + 1;
    }
    assert(s@.skip(at as int).take(p@.len() as int) =~= p@);
    true
}

/// `text` with `old` replaced by `new`: every occurrence when `all`, else
/// the first.
pub fn replace_text(text: &str, old: &str, new: &str, all: bool) -> (out: String)
    ensures
        out@ == if all {
            replace_every(text@, old@, new@)
        } else {
            replace_first(text@, old@, new@)
        },
{
    let s = chars_of(text);
    let p = chars_of(old);
    let r = chars_of(new);
    let ghost goal = if all {
        replace_every(s@, p@, r@)
    } else {
        replace_first(s@, p@, r@)
    };
    let mut out: Vec<char> = Vec::new();
    let mut i: usize = 0;
    let mut done = false;
    assert(s@.skip(0) =~= s@);
    assert(out@ + goal =~= goal);
    while i < s.len()
        invariant
            i <= s@.len(),
            goal == if all {
                replace_every(s@, p@, r@)
            } else {
                replace_first(s@, p@, r@)
            },
            done ==> !all,
            done ==> out@ + s@.skip(i as int) == goal,
            !done ==> out@ + (if all {
                replace_every(s@.skip(i as int), p@, r@)
            } else {
                replace_first(s@.skip(i as int), p@, r@)
            }) == goal,
        decreases s@.len() - i, if done {
            0int
        } else {
            1int
        },
    {
        let ghost rest = s@.skip(i as int);
        if done {
            assert(rest.skip(1) == s@.skip(i + 1));
            assert(out@.push(s@[i as int]) + s@.skip(i + 1) == out@ + rest);
            out.push(s[i]);
            i = i + 1;
        } else if p.len() == 0 {
            assert(rest.skip(1) == s@.skip(i + 1));
            assert(rest[0] == s@[i as int]);
            if all {
                push_chars(&mut out, &r);
                out.push(s[i]);
                i = i + 1;
            } else {
                push_chars(&mut out, &r);
                done = true;
            }
        } else if starts_at(&s, i, &p) {
            assert(rest.skip(p@.len() as int) == s@.skip(i + p@.len()));
            push_chars(&mut out, &r);
            if all {
                i = i + p.len();
            } else {
                i = i + p.len();
                done = true;
            }
        } else {
            assert(rest.skip(1) == s@.skip(i + 1));
            assert(rest[0] == s@[i as int]);
            out.push(s[i]);
            i = i + 1;
        }
    }
    let ghost rest = s@.skip(i as int);
    assert(rest.len() == 0);
    if !done {
        if p.len() == 0 {
            push_chars(&mut out, &r);
        }
    }
    assert(s@.skip(s@.len() as int) =~= Seq::<char>::empty());
    string_of(&out)
}

/// The text `bytes` encode, when they are valid UTF-8.
#[verifier::external_body]
pub(crate) fn utf8_text(bytes: Vec<u8>) -> (r: Option<String>)
    ensures
        match r {
            Some(s) => vstd::utf8::encode_utf8(s@) == bytes@,
            None => !vstd::utf8::valid_utf8(bytes@),
        },
{
    String::from_utf8(bytes).ok()
}

/// The after-state of an edit whose new content is not given: `oldString`
/// replaced by `newString` in the pre-edit text (the transcript's
/// `originalFile`, else the resolved before-bytes when they are text).
pub open spec fn synthesized_after(
    content: Option<Seq<char>>,
    old_string: Option<Seq<char>>,
    new_string: Option<Seq<char>>,
    original_file: Option<Seq<char>>,
    base_from_bytes: Option<Seq<char>>,
    replace_all: bool,
) -> Option<Seq<char>> {
    match content {
        Some(c) => Some(c),
        None => if old_string is Some && new_string is Some {
            let base = if original_file is Some {
                original_file
            } else {
                base_from_bytes
            };
            match base {
                Some(t) => Some(
                    if replace_all {
                        replace_every(t, old_string.unwrap(), new_string.unwrap())
                    } else {
                        replace_first(t, old_string.unwrap(), new_string.unwrap())
                    },
                ),
                None => None,
            }
        } else {
            None
        },
    }
}

/// The after-state text of an edit: its `content` when present, else the
/// synthesised replacement (see [`synthesized_after`]); `before` is the
/// resolved pre-edit bytes, used as the base only when they decode.
pub fn after_text(
    content: Option<&str>,
    old_string: Option<&str>,
    new_string: Option<&str>,
    original_file: Option<&str>,
    before: Option<Vec<u8>>,
    replace_all: bool,
) -> (r: Option<String>)
    ensures
        ({
            let decoded = match before {
                Some(b) => if vstd::utf8::valid_utf8(b@) {
                    Some(vstd::utf8::decode_utf8(b@))
                } else {
                    None
                },
                None => None,
            };
            crate::hookcmds::string_opt_view(r) == synthesized_after(
                crate::hookcmds::opt_view(content),
                crate::hookcmds::opt_view(old_string),
                crate::hookcmds::opt_view(new_string),
                crate::hookcmds::opt_view(original_file),
                decoded,
                replace_all,
            )
        }),
{
    if let Some(c) = content {
        return Some(String::from_str(c));
    }
    let (old, new) = match (old_string, new_string) {
        (Some(o), Some(n)) => (o, n),
        _ => return None,
    };
    let base: Option<String> = match original_file {
        Some(t) => Some(String::from_str(t)),
        None => match before {
            Some(b) => {
                let ghost bv = b@;
                let t = utf8_text(b);
                proof {
                    broadcast use vstd::utf8::encode_utf8_decode_utf8;
                    broadcast use vstd::utf8::encode_utf8_valid_utf8;

                    if t is Some {
                        assert(vstd::utf8::decode_utf8(vstd::utf8::encode_utf8(t->0@)) == t->0@);
                    }
                }
                t
            },
            None => None,
        },
    };
    match base {
        Some(t) => Some(replace_text(t.as_str(), old, new, replace_all)),
        None => None,
    }
}

// ---- the persisting ladder --------------------------------------------------------------

/// The rung of the persisting ladder before any blob is read (first hit
/// wins). It differs from [`rung_of`] in one place: a backup held for the
/// path is refused as stale whether or not the session has an id.
pub open spec fn persist_rung_of(
    is_secret: bool,
    original_file: Option<Seq<char>>,
    op_type: Option<Seq<char>>,
    backup_name: Option<Seq<char>>,
    session_id: Option<Seq<char>>,
    edits_since_backup: Option<usize>,
) -> Rung {
    if is_secret {
        Rung::Secret
    } else if original_file is Some {
        Rung::T1Original
    } else if op_type == Some("create"@) {
        Rung::T1Create
    } else if backup_name is None {
        Rung::NoBackup
    } else if edits_since_backup matches Some(n) && n > 0 {
        Rung::Stale
    } else if session_id is None {
        Rung::NoBackup
    } else if !safe_component(session_id.unwrap()) || !safe_component(backup_name.unwrap()) {
        Rung::UnsafePath
    } else {
        Rung::ReadBlob
    }
}

/// The persisting ladder's first rung for one edit (`is_secret` is decided
/// on its root-relative path).
pub fn persist_entry_rung(
    is_secret: bool,
    tur: &Doc,
    backup_name: Option<&str>,
    session_id: Option<&str>,
    edits_since_backup: Option<usize>,
) -> (r: Rung)
    ensures
        r == persist_rung_of(
            is_secret,
            str_of(field(tur@, "originalFile"@)),
            str_of(field(tur@, "type"@)),
            crate::hookcmds::opt_view(backup_name),
            crate::hookcmds::opt_view(session_id),
            edits_since_backup,
        ),
{
    if is_secret {
        return Rung::Secret;
    }
    if as_str(get(tur, "originalFile")).is_some() {
        return Rung::T1Original;
    }
    let is_create = match as_str(get(tur, "type")) {
        Some(t) => crate::paths::same_chars(&chars_of(t), &chars_of("create")),
        None => false,
    };
    if is_create {
        return Rung::T1Create;
    }
    let name = match backup_name {
        Some(n) => n,
        None => return Rung::NoBackup,
    };
    let stale = match edits_since_backup {
        Some(n) => n > 0,
        None => false,
    };
    if stale {
        return Rung::Stale;
    }
    let sid = match session_id {
        Some(s) => s,
        None => return Rung::NoBackup,
    };
    if !is_safe_path_component(sid) || !is_safe_path_component(name) {
        return Rung::UnsafePath;
    }
    Rung::ReadBlob
}

/// The persisting ladder's refusal counters.
pub struct T15Counters {
    pub rejected_stale: usize,
    pub rejected_unsafe_path: usize,
    pub blob_missing: usize,
    pub rejected_unverifiable: usize,
}

impl T15Counters {
    pub open spec fn bounded(&self) -> bool {
        &&& self.rejected_stale < usize::MAX
        &&& self.rejected_unsafe_path < usize::MAX
        &&& self.blob_missing < usize::MAX
        &&& self.rejected_unverifiable < usize::MAX
    }

    pub fn new() -> (c: T15Counters)
        ensures
            c.rejected_stale == 0 && c.rejected_unsafe_path == 0,
            c.blob_missing == 0 && c.rejected_unverifiable == 0,
    {
        T15Counters { rejected_stale: 0, rejected_unsafe_path: 0, blob_missing: 0, rejected_unverifiable: 0 }
    }

    /// Counts a refusal of the rung or, after a read, of the blob: a stale
    /// or unsafe rung, an unverifiable or missing blob. Returns whether the
    /// blob stands as the edit's pre-state (`verdict` is that of the read
    /// blob, `None` when none was read).
    pub fn record(&mut self, rung: Rung, verdict: Option<BlobVerdict>) -> (resolved: bool)
        requires
            old(self).bounded(),
        ensures
            resolved == (rung == Rung::ReadBlob && (verdict == Some(BlobVerdict::Verified) || verdict
                == Some(BlobVerdict::Unverified))),
            final(self).rejected_stale == old(self).rejected_stale + if rung == Rung::Stale {
                1int
            } else {
                0
            },
            final(self).rejected_unsafe_path == old(self).rejected_unsafe_path + if rung
                == Rung::UnsafePath {
                1int
            } else {
                0
            },
            final(self).blob_missing == old(self).blob_missing + if rung == Rung::ReadBlob && verdict
                == Some(BlobVerdict::Missing) {
                1int
            } else {
                0
            },
            final(self).rejected_unverifiable == old(self).rejected_unverifiable + if rung
                == Rung::ReadBlob && verdict == Some(BlobVerdict::Unverifiable) {
                1int
            } else {
                0
            },
    {
        match rung {
            Rung::Stale => {
                self.rejected_stale = self.rejected_stale + 1;
                false
            },
            Rung::UnsafePath => {
                self.rejected_unsafe_path = self.rejected_unsafe_path + 1;
                false
            },
            Rung::ReadBlob => match verdict {
                Some(BlobVerdict::Verified) | Some(BlobVerdict::Unverified) => true,
                Some(BlobVerdict::Unverifiable) => {
                    self.rejected_unverifiable = self.rejected_unverifiable + 1;
                    false
                },
                Some(BlobVerdict::Missing) => {
                    self.blob_missing = self.blob_missing + 1;
                    false
                },
                None => false,
            },
            _ => false,
        }
    }
}

// ---- appending a run's turns -------------------------------------------------------

/// The ids of a run of turns, in order.
pub open spec fn turn_ids(ts: Seq<crate::record::TurnRecord>) -> Seq<Seq<char>> {
    ts.map_values(|t: crate::record::TurnRecord| t.id@)
}

/// The candidates whose id is not among `existing`, in order.
pub open spec fn new_turns(existing: Seq<Seq<char>>, cands: Seq<crate::record::TurnRecord>) -> Seq<
    crate::record::TurnRecord,
>
    decreases cands.len(),
{
    if cands.len() == 0 {
        seq![]
    } else {
        let kept = new_turns(existing, cands.drop_last());
        if existing.contains(cands.last().id@) {
            kept
        } else {
            kept.push(cands.last())
        }
    }
}

fn has_id(ids: &Vec<String>, id: &str) -> (r: bool)
    ensures
        r == crate::hookcmds::strings_view(ids@).contains(id@),
{
    let ghost v = crate::hookcmds::strings_view(ids@);
    let mut i: usize = 0;
    while i < ids.len()
        invariant
            i <= ids.len(),
            v == crate::hookcmds::strings_view(ids@),
            forall|k: int| 0 <= k < i ==> v[k] != id@,
        decreases ids.len() - i,
    {
        assert(v[i as int] == ids@[i as int]@);
        if crate::paths::same_chars(&chars_of(ids[i].as_str()), &chars_of(id)) {
            return true;
        }
        i = i + 1;
    }
    false
}

/// The turns of a run that the log does not hold yet: each candidate whose
/// id is not among the ids already logged, in order. A turn's id is fixed
/// by its session and position, so a re-run appends only what is missing.
pub fn turns_to_append(existing: &Vec<String>, cands: Vec<crate::record::TurnRecord>) -> (out: Vec<
    crate::record::TurnRecord,
>)
    ensures
        out@ == new_turns(crate::hookcmds::strings_view(existing@), cands@),
{
    let ghost ex = crate::hookcmds::strings_view(existing@);
    let ghost orig = cands@;
    let mut rest = cands;
    let mut out: Vec<crate::record::TurnRecord> = Vec::new();
    let n = rest.len();
    let mut i: usize = 0;
    while rest.len() > 0
        invariant
            n == orig.len(),
            i <= orig.len(),
            rest@ == orig.skip(i as int),
            out@ == new_turns(ex, orig.take(i as int)),
            ex == crate::hookcmds::strings_view(existing@),
        decreases rest.len(),
    {
        let t = rest.remove(0);
        assert(orig.take(i + 1).drop_last() == orig.take(i as int));
        assert(orig.take(i + 1).last() == t);
        assert(rest@ == orig.skip(i + 1));
        if !has_id(existing, t.id.as_str()) {
            out.push(t);
        }
        i = i + 1;
    }
    assert(orig.take(i as int) == orig);
    out
}

proof fn lemma_new_turns_cover(existing: Seq<Seq<char>>, cands: Seq<crate::record::TurnRecord>, i: int)
    requires
        0 <= i < cands.len(),
    ensures
        existing.contains(cands[i].id@) || turn_ids(new_turns(existing, cands)).contains(cands[i].id@),
    decreases cands.len(),
{
    let kept = new_turns(existing, cands.drop_last());
    if i < cands.len() - 1 {
        lemma_new_turns_cover(existing, cands.drop_last(), i);
        if turn_ids(kept).contains(cands[i].id@) {
            let k = choose|k: int| 0 <= k < turn_ids(kept).len() && turn_ids(kept)[k] == cands[i].id@;
            if !existing.contains(cands.last().id@) {
                assert(turn_ids(new_turns(existing, cands))[k] == cands[i].id@);
            }
        }
    } else if !existing.contains(cands.last().id@) {
        assert(turn_ids(new_turns(existing, cands))[kept.len() as int] == cands[i].id@);
    }
}

proof fn lemma_all_known(known: Seq<Seq<char>>, cands: Seq<crate::record::TurnRecord>)
    requires
        forall|i: int| 0 <= i < cands.len() ==> known.contains(#[trigger] cands[i].id@),
    ensures
        new_turns(known, cands) == Seq::<crate::record::TurnRecord>::empty(),
    decreases cands.len(),
{
    if cands.len() > 0 {
        assert(known.contains(cands[cands.len() - 1].id@));
        lemma_all_known(known, cands.drop_last());
    }
}

/// A second run over the same candidates, against the log as the first
/// run left it (its ids and the ids the first run appended), appends
/// nothing.
pub proof fn law_rerun_appends_nothing(existing: Seq<Seq<char>>, cands: Seq<crate::record::TurnRecord>)
    ensures
        new_turns(existing + turn_ids(new_turns(existing, cands)), cands) == Seq::<
            crate::record::TurnRecord,
        >::empty(),
{
    let known = existing + turn_ids(new_turns(existing, cands));
    assert forall|i: int| 0 <= i < cands.len() implies known.contains(#[trigger] cands[i].id@) by {
        lemma_new_turns_cover(existing, cands, i);
        if existing.contains(cands[i].id@) {
            let k = choose|k: int| 0 <= k < existing.len() && existing[k] == cands[i].id@;
            assert(known[k] == cands[i].id@);
        } else {
            let ids = turn_ids(new_turns(existing, cands));
            let k = choose|k: int| 0 <= k < ids.len() && ids[k] == cands[i].id@;
            assert(known[existing.len() + k] == cands[i].id@);
        }
    }
    lemma_all_known(known, cands);
}

/// The candidates of a run, session file after session file.
pub open spec fn flatten_turns(files: Seq<Seq<crate::record::TurnRecord>>) -> Seq<crate::record::TurnRecord>
    decreases files.len(),
{
    if files.len() == 0 {
        seq![]
    } else {
        flatten_turns(files.drop_last()) + files.last()
    }
}

proof fn lemma_new_turns_append(
    existing: Seq<Seq<char>>,
    a: Seq<crate::record::TurnRecord>,
    b: Seq<crate::record::TurnRecord>,
)
    ensures
        new_turns(existing, a + b) == new_turns(existing, a) + new_turns(existing, b),
    decreases b.len(),
{
    if b.len() == 0 {
        assert(a + b == a);
        assert(new_turns(existing, a) + new_turns(existing, b) == new_turns(existing, a));
    } else {
        lemma_new_turns_append(existing, a, b.drop_last());
        assert((a + b).drop_last() == a + b.drop_last());
        assert((a + b).last() == b.last());
        let x = new_turns(existing, a);
        let y = new_turns(existing, b.drop_last());
        assert((x + y).push(b.last()) == x + y.push(b.last()));
    }
}

/// The turns of each session file.
pub open spec fn turn_lists(files: Seq<Vec<crate::record::TurnRecord>>) -> Seq<Seq<crate::record::TurnRecord>> {
    files.map_values(|f: Vec<crate::record::TurnRecord>| f@)
}

/// What an import run appends to the log: every session file's turns, in
/// file order, each left out when the log already held its id as the run
/// began.
pub fn run_appends(existing: &Vec<String>, files: Vec<Vec<crate::record::TurnRecord>>) -> (out: Vec<
    crate::record::TurnRecord,
>)
    ensures
        out@ == new_turns(crate::hookcmds::strings_view(existing@), flatten_turns(turn_lists(files@))),
{
    let ghost ex = crate::hookcmds::strings_view(existing@);
    let ghost orig = turn_lists(files@);
    let mut rest = files;
    let n = rest.len();
    let mut out: Vec<crate::record::TurnRecord> = Vec::new();
    let mut i: usize = 0;
    while rest.len() > 0
        invariant
            n == orig.len(),
            i <= orig.len(),
            turn_lists(rest@) == orig.skip(i as int),
            out@ == new_turns(ex, flatten_turns(orig.take(i as int))),
            ex == crate::hookcmds::strings_view(existing@),
        decreases rest.len(),
    {
        let ghost before_rest = rest@;
        let f = rest.remove(0);
        assert(before_rest.len() > 0);
        assert(turn_lists(before_rest).len() == before_rest.len());
        assert(i < orig.len());
        assert(f == before_rest[0]);
        assert(turn_lists(before_rest)[0] == before_rest[0]@);
        assert(turn_lists(before_rest)[0] == orig.skip(i as int)[0]);
        assert(orig.skip(i as int)[0] == orig[i as int]);
        assert(f@ == orig[i as int]);
        assert(turn_lists(rest@) =~= orig.skip(i + 1)) by {
            assert forall|k: int| 0 <= k < turn_lists(rest@).len() implies turn_lists(rest@)[k] == orig.skip(i + 1)[k] by {
                assert(rest@[k] == before_rest[k + 1]);
                assert(turn_lists(rest@)[k] == rest@[k]@);
                assert(turn_lists(before_rest)[k + 1] == before_rest[k + 1]@);
                assert(turn_lists(before_rest)[k + 1] == orig.skip(i as int)[k + 1]);
                assert(orig.skip(i as int)[k + 1] == orig[i + 1 + k]);
                assert(orig.skip(i + 1)[k] == orig[i + 1 + k]);
            }
        }
        assert(orig.take(i + 1).drop_last() == orig.take(i as int));
        assert(orig.take(i + 1).last() == orig[i as int]);
        proof {
            lemma_new_turns_append(ex, flatten_turns(orig.take(i as int)), orig[i as int]);
        }
        let mut kept = turns_to_append(existing, f);
        out.append(&mut kept);
        i = i + 1;
    }
    assert(orig.take(i as int) == orig);
    out
}

/// A second import run over the same session files, against the log as the
/// first run left it, appends nothing: every turn of the run is either one
/// the log held or one the first run appended.
pub proof fn law_second_import_run_appends_nothing(
    existing: Seq<Seq<char>>,
    files: Seq<Seq<crate::record::TurnRecord>>,
)
    ensures
        new_turns(existing + turn_ids(new_turns(existing, flatten_turns(files))), flatten_turns(files))
            == Seq::<crate::record::TurnRecord>::empty(),
{
    law_rerun_appends_nothing(existing, flatten_turns(files));
}

// ---- an imported file entry -------------------------------------------------------

/// What storing some bytes in the blob store gave.
pub enum BlobPut {
    Stored(String),
    OverCap,
    IoError,
}

/// Storing failed (over the cap, or a write error): the entry is skipped.
pub open spec fn put_skips(p: Option<BlobPut>) -> bool {
    match p {
        Some(BlobPut::OverCap) => true,
        Some(BlobPut::IoError) => true,
        _ => false,
    }
}

pub open spec fn put_hash(p: Option<BlobPut>) -> Option<Seq<char>> {
    match p {
        Some(BlobPut::Stored(h)) => Some(h@),
        _ => None,
    }
}

/// Whether the after bytes are stored at all: not once storing the before
/// bytes failed.
pub fn stores_after(before: &Option<BlobPut>) -> (r: bool)
    ensures
        r == !put_skips(*before),
{
    match before {
        Some(BlobPut::OverCap) => false,
        Some(BlobPut::IoError) => false,
        _ => true,
    }
}

/// The file entry an imported edit becomes, from its root-relative path,
/// whether that path is secret, whether the edit is a create (`type`
/// `"create"`) and whether the transcript carried the pre-edit text, and
/// what storing the before and after bytes gave (`None`: there were none,
/// or they were not stored). A secret path is withheld with no content; any
/// other entry is a create only when it is one and no pre-edit text was
/// given, and a failed store skips it, dropping both hashes.
pub fn imported_entry(
    path: String,
    secret: bool,
    op_is_create: bool,
    original_present: bool,
    before: Option<BlobPut>,
    after: Option<BlobPut>,
) -> (e: FileEntry)
    ensures
        e.path == path,
        !e.baseline_unknown,
        secret ==> {
            &&& e.before is None && e.after is None
            &&& e.op@ == if op_is_create {
                "create"@
            } else {
                "modify"@
            }
            &&& !e.skipped && e.withheld
        },
        !secret ==> {
            let skipped = put_skips(before) || put_skips(after);
            &&& e.op@ == if op_is_create && !original_present {
                "create"@
            } else {
                "modify"@
            }
            &&& e.skipped == skipped
            &&& crate::hookcmds::string_opt_view(e.before) == if skipped {
                None
            } else {
                put_hash(before)
            }
            &&& crate::hookcmds::string_opt_view(e.after) == if skipped {
                None
            } else {
                put_hash(after)
            }
            &&& !e.withheld
        },
{
    if secret {
        let op = if op_is_create {
            String::from_str("create")
        } else {
            String::from_str("modify")
        };
        return FileEntry {
            path,
            before: None,
            after: None,
            op,
            skipped: false,
            withheld: true,
            baseline_unknown: false,
        };
    }
    let op = if op_is_create && !original_present {
        String::from_str("create")
    } else {
        String::from_str("modify")
    };
    let skipped = !stores_after(&before) || !stores_after(&after);
    let (b, a) = if skipped {
        (None, None)
    } else {
        let b = match before {
            Some(BlobPut::Stored(h)) => Some(h),
            _ => None,
        };
        let a = match after {
            Some(BlobPut::Stored(h)) => Some(h),
            _ => None,
        };
        (b, a)
    };
    FileEntry { path, before: b, after: a, op, skipped, withheld: false, baseline_unknown: false }
}

} // verus!
