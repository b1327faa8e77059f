//! Paths as `/`-separated strings, with the component rules of
//! `std::path::Path` on Unix: a path is absolute when it starts with `/`;
//! its components are the `/`-separated segments, empty and `.` segments
//! dropped (`..` kept). Joining, prefix tests and the lexical `.`/`..`
//! normalisation used by the importer are stated over these components.

use vstd::prelude::*;
use crate::text::{chars_of, push_chars, string_of};

verus! {

pub open spec fn is_abs(p: Seq<char>) -> bool {
    p.len() > 0 && p[0] == '/'
}

/// `cur` closed as a component: kept unless empty or `.`.
pub open spec fn flush(done: Seq<Seq<char>>, cur: Seq<char>) -> Seq<Seq<char>> {
    if cur.len() == 0 || cur == "."@ {
        done
    } else {
        done.push(cur)
    }
}

/// The components closed so far and the segment being read, after reading
/// all of `s`.
pub open spec fn scan(s: Seq<char>) -> (Seq<Seq<char>>, Seq<char>)
    decreases s.len(),
{
    if s.len() == 0 {
        (seq![], seq![])
    } else {
        let (done, cur) = scan(s.drop_last());
        if s.last() == '/' {
            (flush(done, cur), seq![])
        } else {
            (done, cur.push(s.last()))
        }
    }
}

/// The components of `p`.
pub open spec fn components(p: Seq<char>) -> Seq<Seq<char>> {
    flush(scan(p).0, scan(p).1)
}

/// `comps` joined by `/`.
pub open spec fn join_all(comps: Seq<Seq<char>>) -> Seq<char>
    decreases comps.len(),
{
    if comps.len() == 0 {
        seq![]
    } else if comps.len() == 1 {
        comps[0]
    } else {
        join_all(comps.drop_last()) + "/"@ + comps.last()
    }
}

/// The path whose components are `comps` (`PathBuf: FromIterator`), rooted
/// when `abs`.
pub open spec fn render(abs: bool, comps: Seq<Seq<char>>) -> Seq<char> {
    if abs {
        "/"@ + join_all(comps)
    } else {
        join_all(comps)
    }
}

/// `Path::join`: an absolute `rel` replaces `base`; otherwise `rel` is
/// appended after a separator, which is added unless `base` is empty or
/// already ends in one.
pub open spec fn join_spec(base: Seq<char>, rel: Seq<char>) -> Seq<char> {
    if is_abs(rel) || base.len() == 0 {
        rel
    } else if base.last() == '/' {
        base + rel
    } else {
        base + "/"@ + rel
    }
}

/// A relative path that starts with a `.` component (`.`, `./…`).
pub open spec fn leading_curdir(p: Seq<char>) -> bool {
    p.len() > 0 && p[0] == '.' && (p.len() == 1 || p[1] == '/')
}

/// `Path::components`, each as its text: the root (`/`) of an absolute
/// path, or the `.` a relative path starts with, then the components.
pub open spec fn path_components(p: Seq<char>) -> Seq<Seq<char>> {
    if is_abs(p) {
        seq!["/"@] + components(p)
    } else if leading_curdir(p) {
        seq!["."@] + components(p)
    } else {
        components(p)
    }
}

/// `Path::starts_with`: `base`'s path components are a prefix of `p`'s.
pub open spec fn path_starts_with(p: Seq<char>, base: Seq<char>) -> bool {
    path_components(base).len() <= path_components(p).len()
        && path_components(p).take(path_components(base).len() as int) == path_components(base)
}

/// The walk-and-pop of lexical normalisation over `comps`: `..` pops a
/// preceding ordinary component; with nothing to pop it is dropped on an
/// absolute path (there is nothing above `/`) and kept on a relative one.
pub open spec fn normalized(abs: bool, comps: Seq<Seq<char>>) -> Seq<Seq<char>>
    decreases comps.len(),
{
    if comps.len() == 0 {
        seq![]
    } else {
        let prev = normalized(abs, comps.drop_last());
        let c = comps.last();
        if c == ".."@ {
            if prev.len() > 0 && prev.last() != ".."@ {
                prev.drop_last()
            } else if abs {
                prev
            } else {
                prev.push(c)
            }
        } else {
            prev.push(c)
        }
    }
}

proof fn lemma_rooted_walk_has_no_parent(comps: Seq<Seq<char>>)
    ensures
        forall|i: int| 0 <= i < normalized(true, comps).len() ==> #[trigger] normalized(true, comps)[i] != ".."@,
    decreases comps.len(),
{
    if comps.len() > 0 {
        lemma_rooted_walk_has_no_parent(comps.drop_last());
        let prev = normalized(true, comps.drop_last());
        let n = normalized(true, comps);
        if comps.last() == ".."@ {
            if prev.len() > 0 && prev.last() != ".."@ {
                assert forall|i: int| 0 <= i < n.len() implies n[i] != ".."@ by {
                    assert(n[i] == prev[i]);
                }
            }
        } else {
            assert forall|i: int| 0 <= i < n.len() implies n[i] != ".."@ by {
                if i < prev.len() {
                    assert(n[i] == prev[i]);
                }
            }
        }
    }
}

/// Normalising an absolute path never climbs above the root: no `..`
/// remains among its components.
pub proof fn law_absolute_normal_form_stays_under_root(p: Seq<char>)
    requires
        is_abs(p),
    ensures
        forall|i: int|
            0 <= i < normalized(is_abs(p), components(p)).len() ==> #[trigger] normalized(
                is_abs(p),
                components(p),
            )[i] != ".."@,
{
    lemma_rooted_walk_has_no_parent(components(p));
}

/// The lexical normal form of `p`.
pub open spec fn lexical_normal(p: Seq<char>) -> Seq<char> {
    render(is_abs(p), normalized(is_abs(p), components(p)))
}

/// A component as `components` yields it: non-empty, not `.`, and free of
/// separators.
pub open spec fn proper_component(c: Seq<char>) -> bool {
    c.len() > 0 && c != "."@ && !c.contains('/')
}

proof fn lemma_scan_proper(s: Seq<char>)
    ensures
        forall|i: int| 0 <= i < scan(s).0.len() ==> proper_component(#[trigger] scan(s).0[i]),
        !scan(s).1.contains('/'),
    decreases s.len(),
{
    if s.len() > 0 {
        lemma_scan_proper(s.drop_last());
        let (done, cur) = scan(s.drop_last());
        if s.last() == '/' {
            assert(!Seq::<char>::empty().contains('/'));
        } else {
            assert forall|k: int| 0 <= k < cur.push(s.last()).len() implies cur.push(s.last())[k] != '/' by {
                if k < cur.len() {
                    assert(cur.push(s.last())[k] == cur[k]);
                }
            }
        }
    }
}

proof fn lemma_components_proper(p: Seq<char>)
    ensures
        forall|i: int| 0 <= i < components(p).len() ==> proper_component(#[trigger] components(p)[i]),
{
    lemma_scan_proper(p);
}

proof fn lemma_scan_word(q: Seq<char>, w: Seq<char>)
    requires
        !w.contains('/'),
    ensures
        scan(q + w) == (scan(q).0, scan(q).1 + w),
    decreases w.len(),
{
    if w.len() == 0 {
        assert(q + w == q);
        assert(scan(q).1 + w == scan(q).1);
    } else {
        assert(!w.drop_last().contains('/')) by {
            assert forall|k: int| 0 <= k < w.drop_last().len() implies w.drop_last()[k] != '/' by {
                assert(w.drop_last()[k] == w[k]);
            }
        }
        lemma_scan_word(q, w.drop_last());
        assert((q + w).drop_last() == q + w.drop_last());
        assert((q + w).last() == w.last());
        assert(w.last() != '/') by {
            assert(w[w.len() - 1] == w.last());
        }
        assert(scan(q).1 + w == (scan(q).1 + w.drop_last()).push(w.last()));
    }
}

proof fn lemma_scan_slash(q: Seq<char>)
    ensures
        scan(q + "/"@) == (flush(scan(q).0, scan(q).1), Seq::<char>::empty()),
{
    reveal_strlit("/");
    assert((q + "/"@).drop_last() == q);
    assert((q + "/"@).last() == '/');
}

proof fn lemma_scan_render(cs: Seq<Seq<char>>)
    requires
        cs.len() > 0,
        forall|i: int| 0 <= i < cs.len() ==> proper_component(#[trigger] cs[i]),
    ensures
        scan(render(true, cs)) == (cs.drop_last(), cs.last()),
    decreases cs.len(),
{
    reveal_strlit("/");
    reveal_strlit(".");
    let e = Seq::<char>::empty();
    assert(scan("/"@) == (flush(scan(e).0, scan(e).1), e)) by {
        lemma_scan_slash(e);
        assert(e + "/"@ == "/"@);
    }
    assert(proper_component(cs.last())) by {
        assert(cs[cs.len() - 1] == cs.last());
    }
    if cs.len() == 1 {
        lemma_scan_word("/"@, cs[0]);
        assert(render(true, cs) == "/"@ + cs[0]);
        assert(cs.drop_last() =~= Seq::<Seq<char>>::empty());
    } else {
        let rest = cs.drop_last();
        assert forall|i: int| 0 <= i < rest.len() implies proper_component(#[trigger] rest[i]) by {
            assert(rest[i] == cs[i]);
        }
        lemma_scan_render(rest);
        let head = render(true, rest);
        lemma_scan_slash(head);
        assert(proper_component(rest.last())) by {
            assert(rest[rest.len() - 1] == rest.last());
        }
        assert(flush(rest.drop_last(), rest.last()) == rest);
        lemma_scan_word(head + "/"@, cs.last());
        assert(render(true, cs) == head + "/"@ + cs.last());
    }
}

/// The components of a rooted path built from proper components are those
/// components.
proof fn lemma_components_render(cs: Seq<Seq<char>>)
    requires
        forall|i: int| 0 <= i < cs.len() ==> proper_component(#[trigger] cs[i]),
    ensures
        components(render(true, cs)) == cs,
{
    reveal_strlit("/");
    if cs.len() == 0 {
        let e = Seq::<char>::empty();
        lemma_scan_slash(e);
        assert(e + "/"@ == "/"@);
        assert(render(true, cs) == "/"@);
    } else {
        lemma_scan_render(cs);
        assert(proper_component(cs.last())) by {
            assert(cs[cs.len() - 1] == cs.last());
        }
        reveal_strlit(".");
        assert(cs.drop_last().push(cs.last()) == cs);
    }
}

proof fn lemma_normalized_from(abs: bool, cs: Seq<Seq<char>>)
    ensures
        forall|i: int|
            0 <= i < normalized(abs, cs).len() ==> exists|j: int| 0 <= j < cs.len() && #[trigger] normalized(abs, cs)[i] == cs[j],
    decreases cs.len(),
{
    if cs.len() > 0 {
        lemma_normalized_from(abs, cs.drop_last());
        let prev = normalized(abs, cs.drop_last());
        let n = normalized(abs, cs);
        assert forall|i: int| 0 <= i < n.len() implies exists|j: int| 0 <= j < cs.len() && #[trigger] n[i] == cs[j] by {
            if i < prev.len() && n[i] == prev[i] {
                let j = choose|j: int| 0 <= j < cs.drop_last().len() && prev[i] == cs.drop_last()[j];
                assert(cs[j] == cs.drop_last()[j]);
            } else {
                assert(n[i] == cs[cs.len() - 1]);
            }
        }
    }
}

proof fn lemma_normalized_settled(cs: Seq<Seq<char>>)
    requires
        forall|i: int| 0 <= i < cs.len() ==> #[trigger] cs[i] != ".."@,
    ensures
        normalized(true, cs) == cs,
    decreases cs.len(),
{
    if cs.len() > 0 {
        assert(cs[cs.len() - 1] != ".."@);
        let rest = cs.drop_last();
        assert forall|i: int| 0 <= i < rest.len() implies #[trigger] rest[i] != ".."@ by {
            assert(rest[i] == cs[i]);
        }
        lemma_normalized_settled(rest);
        assert(rest.push(cs.last()) == cs);
    }
}

/// The lexical normal form of an absolute path is absolute, has no `.` or
/// `..` component (its components are the path's own, each `..` having
/// cancelled the nearest preceding kept component, a `..` at the root
/// dropped), and normalising it again changes nothing.
pub proof fn law_lexical_normal_form_of_absolute_path(p: Seq<char>)
    requires
        is_abs(p),
    ensures
        is_abs(lexical_normal(p)),
        components(lexical_normal(p)) == normalized(true, components(p)),
        forall|i: int|
            0 <= i < components(lexical_normal(p)).len() ==> #[trigger] components(lexical_normal(p))[i]
                != "."@ && components(lexical_normal(p))[i] != ".."@,
        lexical_normal(lexical_normal(p)) == lexical_normal(p),
{
    reveal_strlit("/");
    let cs = components(p);
    let n = normalized(true, cs);
    lemma_components_proper(p);
    lemma_normalized_from(true, cs);
    assert forall|i: int| 0 <= i < n.len() implies proper_component(#[trigger] n[i]) by {
        let j = choose|j: int| 0 <= j < cs.len() && n[i] == cs[j];
        assert(proper_component(cs[j]));
    }
    lemma_components_render(n);
    lemma_rooted_walk_has_no_parent(cs);
    let r = lexical_normal(p);
    assert(r == "/"@ + join_all(n));
    assert(r[0] == '/');
    assert forall|i: int| 0 <= i < n.len() implies #[trigger] n[i] != "."@ && n[i] != ".."@ by {
        assert(proper_component(n[i]));
    }
    lemma_normalized_settled(n);
}

fn flush_into(done: &mut Vec<Vec<char>>, cur: Vec<char>)
    ensures
        final(done)@.map_values(|c: Vec<char>| c@) == flush(
            old(done)@.map_values(|c: Vec<char>| c@),
            cur@,
        ),
{
    let ghost before = done@;
    if cur.len() == 0 || (cur.len() == 1 && cur[0] == '.') {
        proof {
            if cur@.len() == 1 && cur@[0] == '.' {
                reveal_strlit(".");
                assert(cur@ == "."@);
            }
        }
        return;
    }
    proof {
        reveal_strlit(".");
        assert(cur@ != "."@);
    }
    done.push(cur);
    assert(done@ == before.push(cur));
    assert(done@.map_values(|c: Vec<char>| c@) == before.map_values(|c: Vec<char>| c@).push(cur@));
}

pub open spec fn views(v: Seq<Vec<char>>) -> Seq<Seq<char>> {
    v.map_values(|c: Vec<char>| c@)
}

/// The components of `p`, each as characters.
pub fn component_chars(p: &Vec<char>) -> (out: Vec<Vec<char>>)
    ensures
        views(out@) == components(p@),
{
    let mut done: Vec<Vec<char>> = Vec::new();
    let mut cur: Vec<char> = Vec::new();
    let mut i: usize = 0;
    while i < p.len()
        invariant
            i <= p.len(),
            (views(done@), cur@) == scan(p@.take(i as int)),
        decreases p.len() - i,
    {
        assert(p@.take(i + 1).drop_last() == p@.take(i as int));
        assert(p@.take(i + 1).last() == p@[i as int]);
        if p[i] == '/' {
            let finished = cur;
            cur = Vec::new();
            flush_into(&mut done, finished);
        } else {
            cur.push(p[i]);
        }
        i = i + 1;
    }
    assert(p@.take(p.len() as int) == p@);
    flush_into(&mut done, cur);
    done
}

/// The components of `p`.
pub fn components_of(p: &str) -> (out: Vec<String>)
    ensures
        out@.map_values(|c: String| c@) == components(p@),
{
    let cs = chars_of(p);
    let comps = component_chars(&cs);
    let mut out: Vec<String> = Vec::new();
    let mut i: usize = 0;
    while i < comps.len()
        invariant
            i <= comps.len(),
            out@.map_values(|c: String| c@) == views(comps@).take(i as int),
        decreases comps.len() - i,
    {
        let s = string_of(&comps[i]);
        let ghost before = out@;
        out.push(s);
        assert(out@ == before.push(s));
        assert(out@.map_values(|c: String| c@) == before.map_values(|c: String| c@).push(s@));
        assert(views(comps@).take(i + 1) == views(comps@).take(i as int).push(comps@[i as int]@));
        i = i + 1;
    }
    assert(views(comps@).take(comps.len() as int) == views(comps@));
    out
}

/// Appends `render(abs, comps)` to `out`.
fn push_rendered(out: &mut Vec<char>, abs: bool, comps: &Vec<Vec<char>>)
    ensures
        final(out)@ == old(out)@ + render(abs, views(comps@)),
{
    let ghost start = out@;
    if abs {
        out.push('/');
    }
    let ghost base = out@;
    let mut j: usize = 0;
    while j < comps.len()
        invariant
            j <= comps.len(),
            out@ == base + join_all(views(comps@).take(j as int)),
        decreases comps.len() - j,
    {
        let ghost vs = views(comps@);
        let ghost before = out@;
        assert(vs.take(j + 1).drop_last() == vs.take(j as int));
        assert(vs.take(j + 1).last() == comps@[j as int]@);
        if j > 0 {
            out.push('/');
            proof {
                reveal_strlit("/");
                assert(join_all(vs.take(j + 1)) == join_all(vs.take(j as int)) + "/"@ + comps@[j as int]@);
                assert(out@ == before + "/"@);
            }
        } else {
            assert(vs.take(1) == seq![comps@[0]@]);
            assert(join_all(vs.take(1)) == comps@[0]@);
        }
        push_chars(out, &comps[j]);
        j = j + 1;
    }
    assert(views(comps@).take(comps.len() as int) == views(comps@));
    if abs {
        assert(base == start + "/"@) by {
            reveal_strlit("/");
        }
    } else {
        assert(base == start);
    }
}

fn is_dotdot(c: &Vec<char>) -> (r: bool)
    ensures
        r == (c@ == ".."@),
{
    proof {
        reveal_strlit("..");
    }
    if c.len() == 2 && c[0] == '.' && c[1] == '.' {
        assert(c@ == ".."@);
        true
    } else {
        false
    }
}

/// Lexical `.`/`..` normalisation, without touching the file system.
pub fn lexical_normalize(p: &str) -> (out: String)
    ensures
        out@ == lexical_normal(p@),
{
    let cs = chars_of(p);
    let abs = cs.len() > 0 && cs[0] == '/';
    let comps = component_chars(&cs);
    let mut kept: Vec<Vec<char>> = Vec::new();
    let mut i: usize = 0;
    while i < comps.len()
        invariant
            i <= comps.len(),
            abs == is_abs(p@),
            cs@ == p@,
            views(kept@) == normalized(abs, views(comps@).take(i as int)),
        decreases comps.len() - i,
    {
        let ghost vs = views(comps@);
        let ghost before = kept@;
        assert(vs.take(i + 1).drop_last() == vs.take(i as int));
        assert(vs.take(i + 1).last() == comps@[i as int]@);
        let c = comps[i].clone();
        assert(c@ == comps@[i as int]@);
        if is_dotdot(&c) {
            if kept.len() > 0 && !is_dotdot(&kept[kept.len() - 1]) {
                kept.pop();
                assert(kept@ == before.drop_last());
                assert(views(kept@) == views(before).drop_last());
            } else if !abs {
                kept.push(c);
                assert(views(kept@) == views(before).push(c@));
            }
        } else {
            kept.push(c);
            assert(views(kept@) == views(before).push(c@));
        }
        i = i + 1;
    }
    assert(views(comps@).take(comps.len() as int) == views(comps@));
    let mut out: Vec<char> = Vec::new();
    push_rendered(&mut out, abs, &kept);
    assert(out@ == render(abs, views(kept@)));
    string_of(&out)
}

/// `Path::join` on strings.
pub fn join(base: &str, rel: &str) -> (out: String)
    ensures
        out@ == join_spec(base@, rel@),
{
    let b = chars_of(base);
    let r = chars_of(rel);
    if (r.len() > 0 && r[0] == '/') || b.len() == 0 {
        return String::from_str(rel);
    }
    let mut out = b.clone();
    if b[b.len() - 1] != '/' {
        out.push('/');
        assert(out@ == b@ + "/"@) by {
            reveal_strlit("/");
        }
    }
    push_chars(&mut out, &r);
    string_of(&out)
}

/// `Path::components` of `p`, each as characters.
pub fn path_component_chars(p: &Vec<char>) -> (out: Vec<Vec<char>>)
    ensures
        views(out@) == path_components(p@),
{
    let comps = component_chars(p);
    let mut out: Vec<Vec<char>> = Vec::new();
    proof {
        reveal_strlit("/");
        reveal_strlit(".");
    }
    if p.len() > 0 && p[0] == '/' {
        let mut root: Vec<char> = Vec::new();
        root.push('/');
        assert(root@ == "/"@);
        out.push(root);
    } else if p.len() > 0 && p[0] == '.' && (p.len() == 1 || p[1] == '/') {
        let mut cur: Vec<char> = Vec::new();
        cur.push('.');
        assert(cur@ == "."@);
        out.push(cur);
    }
    let ghost head = views(out@);
    assert(head == if is_abs(p@) {
        seq!["/"@]
    } else if leading_curdir(p@) {
        seq!["."@]
    } else {
        Seq::<Seq<char>>::empty()
    });
    let mut i: usize = 0;
    while i < comps.len()
        invariant
            i <= comps.len(),
            views(out@) == head + views(comps@).take(i as int),
        decreases comps.len() - i,
    {
        let c = comps[i].clone();
        let ghost before = out@;
        out.push(c);
        assert(views(out@) == views(before).push(comps@[i as int]@));
        assert(views(comps@).take(i + 1) == views(comps@).take(i as int).push(comps@[i as int]@));
        i = i + 1;
    }
    assert(views(comps@).take(comps.len() as int) == views(comps@));
    out
}

/// `Path::starts_with` on strings.
pub fn starts_with_path(p: &str, base: &str) -> (r: bool)
    ensures
        r == path_starts_with(p@, base@),
{
    let pc = chars_of(p);
    let bc = chars_of(base);
    let ps = path_component_chars(&pc);
    let bs = path_component_chars(&bc);
    if bs.len() > ps.len() {
        return false;
    }
    let mut i: usize = 0;
    while i < bs.len()
        invariant
            i <= bs.len() <= ps.len(),
            views(ps@) == path_components(p@),
            views(bs@) == path_components(base@),
            forall|k: int| 0 <= k < i ==> views(ps@)[k] == views(bs@)[k],
        decreases bs.len() - i,
    {
        if !same_chars(&ps[i], &bs[i]) {
            assert(views(ps@).take(bs.len() as int)[i as int] != views(bs@)[i as int]);
            return false;
        }
        i = i + 1;
    }
    assert(views(ps@).take(bs.len() as int) == views(bs@));
    true
}

/// Two paths name the same place lexically: the same path components
/// (`Path`'s equality).
pub open spec fn same_path(a: Seq<char>, b: Seq<char>) -> bool {
    path_components(a) == path_components(b)
}

/// `Path`'s equality on strings.
pub fn paths_equal(a: &str, b: &str) -> (r: bool)
    ensures
        r == same_path(a@, b@),
{
    let r = starts_with_path(a, b) && starts_with_path(b, a);
    proof {
        let ca = path_components(a@);
        let cb = path_components(b@);
        if r {
            assert(ca.len() == cb.len());
            assert(ca.take(cb.len() as int) == ca);
        }
        if same_path(a@, b@) {
            assert(ca.take(cb.len() as int) == ca);
        }
    }
    r
}

/// Equality of two character sequences.
pub fn same_chars(a: &Vec<char>, b: &Vec<char>) -> (r: bool)
    ensures
        r == (a@ == b@),
{
    if a.len() != b.len() {
        return false;
    }
    let mut i: usize = 0;
    while i < a.len()
        invariant
            i <= a.len() == b.len(),
            forall|k: int| 0 <= k < i ==> a@[k] == b@[k],
        decreases a.len() - i,
    {
        if a[i] != b[i] {
            return false;
        }
        i = i + 1;
    }
    assert(a@ == b@);
    true
}


/// `parts` joined by the character `sep`.
pub open spec fn join_all_with(parts: Seq<Seq<char>>, sep: char) -> Seq<char>
    decreases parts.len(),
{
    if parts.len() == 0 {
        seq![]
    } else if parts.len() == 1 {
        parts[0]
    } else {
        join_all_with(parts.drop_last(), sep).push(sep) + parts.last()
    }
}

/// Appends `parts` joined by `sep` to `out`.
pub fn push_joined(out: &mut Vec<char>, parts: &Vec<Vec<char>>, sep: char)
    ensures
        final(out)@ == old(out)@ + join_all_with(views(parts@), sep),
{
    let ghost base = out@;
    let mut j: usize = 0;
    while j < parts.len()
        invariant
            j <= parts.len(),
            out@ == base + join_all_with(views(parts@).take(j as int), sep),
        decreases parts.len() - j,
    {
        let ghost vs = views(parts@);
        let ghost before = out@;
        assert(vs.take(j + 1).drop_last() == vs.take(j as int));
        assert(vs.take(j + 1).last() == parts@[j as int]@);
        if j > 0 {
            out.push(sep);
        } else {
            assert(vs.take(1) == seq![parts@[0]@]);
        }
        push_chars(out, &parts[j]);
        j = j + 1;
    }
    assert(views(parts@).take(parts.len() as int) == views(parts@));
}

} // verus!
