//! The records of the turn log as the commands read them: a turn with its
//! files, an epoch marker, and the questions asked of a run of records
//! (which ids a later turn absorbed, whether a recovered turn is already
//! logged).

use vstd::prelude::*;
use crate::paths::same_chars;
use crate::text::chars_of;

verus! {

/// One file of a recorded turn.
pub struct FileEntry {
    pub path: String,
    pub before: Option<String>,
    pub after: Option<String>,
    /// `"create"`, `"modify"` or `"delete"`.
    pub op: String,
    /// The content was not captured (over the size cap or unreadable).
    pub skipped: bool,
    pub withheld: bool,
    pub baseline_unknown: bool,
}

/// A recorded turn, as far as the renderers read it.
pub struct TurnRecord {
    pub v: u32,
    pub id: String,
    /// `"rich"` or `"bare"`.
    pub grade: String,
    pub truncated: bool,
    pub started: String,
    pub ended: String,
    pub tool: Option<String>,
    pub model: Option<String>,
    pub session: Option<String>,
    pub root: String,
    pub prompt_ref: Option<String>,
    pub prompt_excerpt: Option<String>,
    /// Ids of the turns this one absorbed.
    pub merges: Vec<String>,
    pub files: Vec<FileEntry>,
}

/// One line of the turn log.
pub enum LogRecord {
    Turn(TurnRecord),
    /// A recorder start/stop marker.
    Epoch,
}

pub open spec fn file_paths(fs: Seq<FileEntry>) -> Seq<Seq<char>> {
    fs.map_values(|f: FileEntry| f.path@)
}

/// The same set of paths, in any order, and as many entries.
pub open spec fn files_match_spec(a: Seq<FileEntry>, b: Seq<FileEntry>) -> bool {
    a.len() == b.len() && file_paths(a).to_set() == file_paths(b).to_set()
}

fn text_eq(a: &str, b: &str) -> (r: bool)
    ensures
        r == (a@ == b@),
{
    same_chars(&chars_of(a), &chars_of(b))
}

fn has_file(fs: &Vec<FileEntry>, p: &str) -> (r: bool)
    ensures
        r == file_paths(fs@).contains(p@),
{
    let mut i: usize = 0;
    while i < fs.len()
        invariant
            i <= fs@.len(),
            forall|k: int| 0 <= k < i ==> file_paths(fs@)[k] != p@,
        decreases fs@.len() - i,
    {
        assert(file_paths(fs@)[i as int] == fs@[i as int].path@);
        if text_eq(fs[i].path.as_str(), p) {
            return true;
        }
        i = i + 1;
    }
    false
}

fn all_in(a: &Vec<FileEntry>, b: &Vec<FileEntry>) -> (r: bool)
    ensures
        r == (forall|k: int| 0 <= k < a@.len() ==> file_paths(b@).contains(#[trigger] file_paths(a@)[k])),
{
    let mut i: usize = 0;
    while i < a.len()
        invariant
            i <= a@.len(),
            forall|k: int| 0 <= k < i ==> file_paths(b@).contains(#[trigger] file_paths(a@)[k]),
        decreases a@.len() - i,
    {
        assert(file_paths(a@)[i as int] == a@[i as int].path@);
        if !has_file(b, a[i].path.as_str()) {
            return false;
        }
        i = i + 1;
    }
    true
}

/// Whether two file lists name the same paths (order aside) and are as long.
pub fn files_match(a: &Vec<FileEntry>, b: &Vec<FileEntry>) -> (r: bool)
    ensures
        r == files_match_spec(a@, b@),
{
    if a.len() != b.len() {
        return false;
    }
    let ab = all_in(a, b);
    let ba = all_in(b, a);
    let ghost pa = file_paths(a@);
    let ghost pb = file_paths(b@);
    proof {
        if ab && ba {
            assert forall|p: Seq<char>| pa.to_set().contains(p) <==> pb.to_set().contains(p) by {
                if pa.contains(p) {
                    let k = choose|k: int| 0 <= k < pa.len() && pa[k] == p;
                    assert(pb.contains(pa[k]));
                }
                if pb.contains(p) {
                    let k = choose|k: int| 0 <= k < pb.len() && pb[k] == p;
                    assert(pa.contains(pb[k]));
                }
            }
            assert(pa.to_set() =~= pb.to_set());
        } else if !ab {
            let k = choose|k: int| 0 <= k < a@.len() && !pb.contains(#[trigger] pa[k]);
            assert(pa.to_set().contains(pa[k]));
            assert(!pb.to_set().contains(pa[k]));
        } else {
            let k = choose|k: int| 0 <= k < b@.len() && !pa.contains(#[trigger] pb[k]);
            assert(pb.to_set().contains(pb[k]));
            assert(!pa.to_set().contains(pb[k]));
        }
    }
    ab && ba
}

/// How far back a recovered turn is looked for.
pub const RECENT_RECORDS: usize = 50;

/// `r` is the logged form of the recovered turn: the same reserved id, or
/// the same root, start, end and files.
pub open spec fn logs_turn(
    r: LogRecord,
    id: Seq<char>,
    root: Seq<char>,
    started: Seq<char>,
    ended: Seq<char>,
    files: Seq<FileEntry>,
) -> bool {
    match r {
        LogRecord::Turn(t) => t.id@ == id || (t.root@ == root && t.started@ == started && t.ended@
            == ended && files_match_spec(t.files@, files)),
        LogRecord::Epoch => false,
    }
}

/// Whether one of the last [`RECENT_RECORDS`] records already logs the
/// recovered turn, so that recovering it again would duplicate it.
pub fn already_logged(
    records: &Vec<LogRecord>,
    id: &str,
    journal_root: &str,
    started: &str,
    ended: &str,
    files: &Vec<FileEntry>,
) -> (r: bool)
    ensures
        r == exists|i: int|
            records@.len() - RECENT_RECORDS <= i < records@.len() && 0 <= i && #[trigger] logs_turn(
                records@[i],
                id@,
                journal_root@,
                started@,
                ended@,
                files@,
            ),
{
    let n = records.len();
    let from: usize = if n > RECENT_RECORDS {
        n - RECENT_RECORDS
    } else {
        0
    };
    let mut i: usize = from;
    while i < n
        invariant
            from <= i <= n,
            n == records@.len(),
            from == if n > RECENT_RECORDS {
                n - RECENT_RECORDS
            } else {
                0
            },
            forall|k: int|
                from <= k < i ==> !#[trigger] logs_turn(records@[k], id@, journal_root@, started@, ended@, files@),
        decreases n - i,
    {
        let hit = match &records[i] {
            LogRecord::Turn(t) => {
                text_eq(t.id.as_str(), id) || (text_eq(t.root.as_str(), journal_root) && text_eq(
                    t.started.as_str(),
                    started,
                ) && text_eq(t.ended.as_str(), ended) && files_match(&t.files, files))
            },
            LogRecord::Epoch => false,
        };
        if hit {
            assert(logs_turn(records@[i as int], id@, journal_root@, started@, ended@, files@));
            return true;
        }
        i = i + 1;
    }
    false
}

/// The ids the record's turn absorbed, in order.
pub open spec fn merges_of(r: LogRecord) -> Seq<Seq<char>> {
    match r {
        LogRecord::Turn(t) => crate::hookcmds::strings_view(t.merges@),
        LogRecord::Epoch => seq![],
    }
}

/// Every absorbed id of `rs`, in record order.
pub open spec fn all_merges(rs: Seq<LogRecord>) -> Seq<Seq<char>>
    decreases rs.len(),
{
    if rs.len() == 0 {
        seq![]
    } else {
        all_merges(rs.drop_last()) + merges_of(rs.last())
    }
}

/// `s` with every repeat of an earlier element left out.
pub open spec fn first_occurrences(s: Seq<Seq<char>>) -> Seq<Seq<char>>
    decreases s.len(),
{
    if s.len() == 0 {
        seq![]
    } else {
        let d = first_occurrences(s.drop_last());
        if d.contains(s.last()) {
            d
        } else {
            d.push(s.last())
        }
    }
}

/// Every id that some turn absorbed, each once, in the order first met.
pub fn merged_ids(records: &Vec<LogRecord>) -> (out: Vec<String>)
    ensures
        crate::hookcmds::strings_view(out@) == first_occurrences(all_merges(records@)),
{
    let mut out: Vec<String> = Vec::new();
    let mut i: usize = 0;
    while i < records.len()
        invariant
            i <= records@.len(),
            crate::hookcmds::strings_view(out@) == first_occurrences(all_merges(records@.take(i as int))),
        decreases records@.len() - i,
    {
        let ghost done = all_merges(records@.take(i as int));
        assert(records@.take(i + 1).drop_last() == records@.take(i as int));
        assert(records@.take(i + 1).last() == records@[i as int]);
        assert(all_merges(records@.take(i + 1)) == done + merges_of(records@[i as int]));
        match &records[i] {
            LogRecord::Turn(t) => {
                let ghost ms = crate::hookcmds::strings_view(t.merges@);
                assert(merges_of(records@[i as int]) == ms);
                let mut j: usize = 0;
                while j < t.merges.len()
                    invariant
                        j <= t.merges@.len(),
                        ms == crate::hookcmds::strings_view(t.merges@),
                        crate::hookcmds::strings_view(out@) == first_occurrences(done + ms.take(j as int)),
                    decreases t.merges@.len() - j,
                {
                    let ghost before = crate::hookcmds::strings_view(out@);
                    let mut seen = false;
                    let mut k: usize = 0;
                    while k < out.len()
                        invariant
                            k <= out@.len(),
                            j < t.merges@.len(),
                            ms == crate::hookcmds::strings_view(t.merges@),
                            before == crate::hookcmds::strings_view(out@),
                            seen == exists|q: int| 0 <= q < k && before[q] == ms[j as int],
                        decreases out@.len() - k,
                    {
                        assert(before[k as int] == out@[k as int]@);
                        if !seen && text_eq(out[k].as_str(), t.merges[j].as_str()) {
                            seen = true;
                        }
                        k = k + 1;
                    }
                    assert(seen == before.contains(ms[j as int]));
                    assert((done + ms.take(j + 1)).drop_last() == done + ms.take(j as int));
                    assert((done + ms.take(j + 1)).last() == ms[j as int]);
                    if !seen {
                        let m = t.merges[j].clone();
                        out.push(m);
                        assert(crate::hookcmds::strings_view(out@) == before.push(ms[j as int]));
                    }
                    j = j + 1;
                }
                assert(ms.take(t.merges@.len() as int) == ms);
            },
            LogRecord::Epoch => {
                assert(done + merges_of(records@[i as int]) == done);
            },
        }
        i = i + 1;
    }
    assert(records@.take(records@.len() as int) == records@);
    out
}

/// The merged ids name every absorbed id, and each only once.
pub proof fn law_merged_ids_are_the_absorbed_set(s: Seq<Seq<char>>)
    ensures
        first_occurrences(s).no_duplicates(),
        forall|x: Seq<char>| first_occurrences(s).contains(x) <==> s.contains(x),
    decreases s.len(),
{
    if s.len() > 0 {
        law_merged_ids_are_the_absorbed_set(s.drop_last());
        let d = first_occurrences(s.drop_last());
        assert forall|x: Seq<char>| first_occurrences(s).contains(x) <==> s.contains(x) by {
            if s.drop_last().contains(x) {
                let k = choose|k: int| 0 <= k < s.drop_last().len() && s.drop_last()[k] == x;
                assert(s[k] == x);
            }
            if s.contains(x) {
                let k = choose|k: int| 0 <= k < s.len() && s[k] == x;
                if k < s.len() - 1 {
                    assert(s.drop_last()[k] == x);
                }
            }
            if !d.contains(s.last()) {
                assert(d.push(s.last())[d.len() as int] == s.last());
                if d.push(s.last()).contains(x) {
                    let k = choose|k: int| 0 <= k < d.len() + 1 && d.push(s.last())[k] == x;
                    if k < d.len() {
                        assert(d[k] == x);
                    }
                }
                if d.contains(x) {
                    let k = choose|k: int| 0 <= k < d.len() && d[k] == x;
                    assert(d.push(s.last())[k] == x);
                }
            }
        }
    }
}

} // verus!
