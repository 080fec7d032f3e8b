//! Windows path strings: joining as `PathBuf::push` does on Windows, and
//! joining an archive entry's path under an install folder with every name
//! made legal for Windows.

use vstd::prelude::*;
use crate::text::{chars_of, opt_view, push_all, string_of};

verus! {

pub open spec fn is_sep(c: char) -> bool {
    c == '\\' || c == '/'
}

pub open spec fn is_ascii_alpha(c: char) -> bool {
    ('a' <= c && c <= 'z') || ('A' <= c && c <= 'Z')
}

/// The path starts with a disk prefix such as `C:`.
pub open spec fn has_drive(p: Seq<char>) -> bool {
    p.len() >= 2 && is_ascii_alpha(p[0]) && p[1] == ':'
}

// ---- Windows path prefixes, as std's path parsing reads them ----

/// In the first characters of a path, std reads `/` as `\` when it looks for
/// the `\\`, `?\`, `.\` and `UNC\` markers of a prefix.
pub open spec fn norm_sep(c: char) -> char {
    if c == '/' {
        '\\'
    } else {
        c
    }
}

/// The marker `m` stands at position `i` of `p`.
pub open spec fn marker(p: Seq<char>, i: int, m: Seq<char>) -> bool {
    0 <= i && i + m.len() <= p.len() && forall|k: int| 0 <= k < m.len() ==> norm_sep(p[i + k]) == m[k]
}

/// A separator: `\` always, `/` too outside verbatim paths.
pub open spec fn is_sep_in(c: char, verbatim: bool) -> bool {
    c == '\\' || (!verbatim && c == '/')
}

/// The index of the first separator at or after `i`, or the end of `p`.
pub open spec fn first_sep(p: Seq<char>, verbatim: bool, i: int) -> int
    decreases p.len() - i,
{
    if i >= p.len() {
        p.len() as int
    } else if is_sep_in(p[i], verbatim) {
        i
    } else {
        first_sep(p, verbatim, i + 1)
    }
}

/// `\\?\` with back-slashes only: a verbatim path.
pub open spec fn is_verbatim(p: Seq<char>) -> bool {
    marker(p, 0, seq!['\\', '\\']) && marker(p, 2, seq!['?', '\\']) && p[0] != '/' && p[1] != '/'
        && p[2] != '/' && p[3] != '/'
}

/// `\\?\C:` followed by a separator or nothing.
pub open spec fn verbatim_disk(p: Seq<char>) -> bool {
    p.len() >= 6 && is_ascii_alpha(p[4]) && p[5] == ':' && (p.len() == 6 || is_sep(p[6]))
}

/// The length of the prefix of `p`, as std's `parse_prefix` finds it: a
/// verbatim UNC (`\\?\UNC\server\share`), verbatim disk (`\\?\C:`) or
/// verbatim (`\\?\name`) prefix, a device (`\\.\name`), a UNC share
/// (`\\server\share`, both names non-empty) or a disk (`C:`); 0 where there
/// is none.
pub open spec fn prefix_len(p: Seq<char>) -> int {
    if marker(p, 0, seq!['\\', '\\']) {
        if is_verbatim(p) {
            if marker(p, 4, seq!['U', 'N', 'C', '\\']) {
                let server_end = first_sep(p, true, 8);
                if server_end < p.len() && first_sep(p, true, server_end + 1) > server_end + 1 {
                    first_sep(p, true, server_end + 1)
                } else {
                    server_end
                }
            } else if verbatim_disk(p) {
                6
            } else {
                first_sep(p, true, 4)
            }
        } else if marker(p, 2, seq!['.', '\\']) {
            first_sep(p, false, 4)
        } else {
            let server_end = first_sep(p, false, 2);
            if server_end > 2 && server_end < p.len() && first_sep(p, false, server_end + 1)
                > server_end + 1 {
                first_sep(p, false, server_end + 1)
            } else {
                0
            }
        }
    } else if has_drive(p) {
        2
    } else {
        0
    }
}

proof fn lemma_first_sep(p: Seq<char>, verbatim: bool, i: int)
    requires
        0 <= i <= p.len(),
    ensures
        i <= first_sep(p, verbatim, i) <= p.len(),
        forall|k: int| i <= k < first_sep(p, verbatim, i) ==> !is_sep_in(p[k], verbatim),
        first_sep(p, verbatim, i) < p.len() ==> is_sep_in(p[first_sep(p, verbatim, i)], verbatim),
    decreases p.len() - i,
{
    if i < p.len() && !is_sep_in(p[i], verbatim) {
        lemma_first_sep(p, verbatim, i + 1);
    }
}

pub proof fn lemma_prefix_len_bounds(p: Seq<char>)
    ensures
        0 <= prefix_len(p) <= p.len(),
        is_verbatim(p) ==> prefix_len(p) >= 4,
{
    if p.len() >= 2 {
        lemma_first_sep(p, false, 2);
    }
    if p.len() >= 4 {
        lemma_first_sep(p, true, 4);
        lemma_first_sep(p, false, 4);
    }
    if p.len() >= 8 {
        lemma_first_sep(p, true, 8);
        let e = first_sep(p, true, 8);
        if e < p.len() {
            lemma_first_sep(p, true, e + 1);
        }
    }
    if p.len() >= 2 {
        let e = first_sep(p, false, 2);
        if e < p.len() {
            lemma_first_sep(p, false, e + 1);
        }
    }
}

pub fn is_sep_in_exec(c: char, verbatim: bool) -> (b: bool)
    ensures
        b == is_sep_in(c, verbatim),
{
    c == '\\' || (!verbatim && c == '/')
}

fn first_sep_exec(p: &Vec<char>, verbatim: bool, i: usize) -> (r: usize)
    requires
        i <= p.len(),
    ensures
        r == first_sep(p@, verbatim, i as int),
{
    let mut j = i;
    while j < p.len() && !is_sep_in_exec(p[j], verbatim)
        invariant
            i <= j <= p.len(),
            first_sep(p@, verbatim, i as int) == first_sep(p@, verbatim, j as int),
        decreases p.len() - j,
    {
        j += 1;
    }
    j
}

fn marker_exec(p: &Vec<char>, i: usize, m: &Vec<char>) -> (b: bool)
    requires
        i <= p.len(),
    ensures
        b == marker(p@, i as int, m@),
{
    if m.len() > p.len() - i {
        return false;
    }
    let mut k: usize = 0;
    while k < m.len()
        invariant
            i + m.len() <= p.len(),
            k <= m.len(),
            forall|j: int| 0 <= j < k ==> norm_sep(p@[i + j]) == m@[j],
        decreases m.len() - k,
    {
        let c = if p[i + k] == '/' {
            '\\'
        } else {
            p[i + k]
        };
        if c != m[k] {
            return false;
        }
        k += 1;
    }
    true
}

/// The prefix length and whether the path is verbatim.
fn prefix_of(p: &Vec<char>) -> (r: (usize, bool))
    ensures
        r.0 == prefix_len(p@),
        r.1 == is_verbatim(p@),
{
    proof {
        lemma_prefix_len_bounds(p@);
    }
    let two: Vec<char> = vec!['\\', '\\'];
    let q: Vec<char> = vec!['?', '\\'];
    let dot: Vec<char> = vec!['.', '\\'];
    let unc: Vec<char> = vec!['U', 'N', 'C', '\\'];
    assert(two@ == seq!['\\', '\\']);
    assert(q@ == seq!['?', '\\']);
    assert(dot@ == seq!['.', '\\']);
    assert(unc@ == seq!['U', 'N', 'C', '\\']);
    if !marker_exec(p, 0, &two) {
        return (if has_drive_exec(p) { 2 } else { 0 }, false);
    }
    let verbatim = p.len() >= 4 && marker_exec(p, 2, &q) && p[0] != '/' && p[1] != '/' && p[2]
        != '/' && p[3] != '/';
    if verbatim {
        if p.len() >= 8 && marker_exec(p, 4, &unc) {
            let server_end = first_sep_exec(p, true, 8);
            if server_end < p.len() {
                let share_end = first_sep_exec(p, true, server_end + 1);
                if share_end > server_end + 1 {
                    return (share_end, true);
                }
            }
            return (server_end, true);
        }
        if p.len() >= 6 && ((p[4] >= 'a' && p[4] <= 'z') || (p[4] >= 'A' && p[4] <= 'Z')) && p[5]
            == ':' && (p.len() == 6 || is_sep_exec(p[6])) {
            return (6, true);
        }
        return (first_sep_exec(p, true, 4), true);
    }
    if p.len() >= 4 && marker_exec(p, 2, &dot) {
        return (first_sep_exec(p, false, 4), false);
    }
    let server_end = first_sep_exec(p, false, 2);
    if server_end > 2 && server_end < p.len() {
        let share_end = first_sep_exec(p, false, server_end + 1);
        if share_end > server_end + 1 {
            return (share_end, false);
        }
    }
    (0, false)
}

/// The length of a path's prefix, as std's path parsing finds it.
pub fn path_prefix_len(p: &str) -> (n: usize)
    ensures
        n == prefix_len(p@),
{
    prefix_of(&chars_of(p)).0
}

/// Appending a relative piece: a backslash goes between unless `base` is
/// empty, already ends in a separator, or is a bare disk prefix (`C:`).
pub open spec fn push_rel(base: Seq<char>, rel: Seq<char>) -> Seq<char> {
    if base.len() == 0 || is_sep(base.last()) || (has_drive(base) && base.len() == 2) {
        base + rel
    } else {
        base + seq!['\\'] + rel
    }
}

// ---- pushing onto a verbatim path ----

/// How the root stands among a path's components: the text `\`.
pub open spec fn root_part() -> Seq<char> {
    seq!['\\']
}

/// The non-empty segments of `s`.
pub open spec fn nonempty_segments(s: Seq<char>, verbatim: bool) -> Seq<Seq<char>> {
    segments(s, verbatim).filter(|seg: Seq<char>| seg.len() > 0)
}

/// The components of a verbatim path, each by its text: the prefix, the
/// root where a `\` follows the prefix, then the non-empty segments (a `.`
/// or `..` among them stays as it is).
pub open spec fn verbatim_parts(base: Seq<char>) -> Seq<Seq<char>> {
    let pl = prefix_len(base);
    let body = base.skip(pl);
    let head = if body.len() > 0 && body[0] == '\\' {
        seq![base.take(pl), root_part()]
    } else {
        seq![base.take(pl)]
    };
    head + nonempty_segments(body, true)
}

/// The components of a path without a prefix: the root where it starts with
/// a separator, then its non-empty segments.
pub open spec fn relative_parts(rel: Seq<char>) -> Seq<Seq<char>> {
    let head = if rel.len() > 0 && is_sep(rel[0]) {
        seq![root_part()]
    } else {
        Seq::<Seq<char>>::empty()
    };
    head + nonempty_segments(rel, false)
}

/// One component of a pushed path applied to a component list: the root
/// keeps only the prefix, `.` is dropped, `..` removes a preceding name,
/// anything else is appended.
pub open spec fn apply_part(parts: Seq<Seq<char>>, c: Seq<char>) -> Seq<Seq<char>> {
    if c == root_part() {
        parts.take(1).push(c)
    } else if c == seq!['.'] {
        parts
    } else if c == seq!['.', '.'] {
        if parts.len() > 1 && is_normal(parts.last()) && parts.last() != root_part() {
            parts.drop_last()
        } else {
            parts
        }
    } else {
        parts.push(c)
    }
}

/// Every component of `cs` applied in turn.
pub open spec fn apply_parts(parts: Seq<Seq<char>>, cs: Seq<Seq<char>>) -> Seq<Seq<char>>
    decreases cs.len(),
{
    if cs.len() == 0 {
        parts
    } else {
        apply_part(apply_parts(parts, cs.drop_last()), cs.last())
    }
}

/// Components written out, with a backslash between two of them unless one
/// of the two is the root.
pub open spec fn render_parts(parts: Seq<Seq<char>>) -> Seq<char>
    decreases parts.len(),
{
    if parts.len() == 0 {
        Seq::<char>::empty()
    } else if parts.len() == 1 {
        parts[0]
    } else {
        let r = render_parts(parts.drop_last());
        if parts.last() != root_part() && parts[parts.len() - 2] != root_part() {
            r + seq!['\\'] + parts.last()
        } else {
            r + parts.last()
        }
    }
}

/// A path pushed onto a verbatim path, which takes no `.`, `..` or `/`: the
/// result is rebuilt from the components, with `.` dropped and `..` applied.
pub open spec fn verbatim_push(base: Seq<char>, rel: Seq<char>) -> Seq<char> {
    render_parts(apply_parts(verbatim_parts(base), relative_parts(rel)))
}

/// `base.join(rel)` on Windows: a path with a prefix of its own (a disk, a
/// UNC share, a device or a verbatim path) replaces `base`; one that starts
/// at the root keeps only `base`'s prefix; any other is appended (onto a
/// verbatim `base`, component by component).
pub open spec fn join_spec(base: Seq<char>, rel: Seq<char>) -> Seq<char> {
    if prefix_len(rel) > 0 {
        rel
    } else if is_verbatim(base) && rel.len() > 0 {
        verbatim_push(base, rel)
    } else if rel.len() > 0 && is_sep(rel[0]) {
        base.take(prefix_len(base)) + rel
    } else {
        push_rel(base, rel)
    }
}

pub fn is_sep_exec(c: char) -> (b: bool)
    ensures
        b == is_sep(c),
{
    c == '\\' || c == '/'
}

fn has_drive_exec(p: &Vec<char>) -> (b: bool)
    ensures
        b == has_drive(p@),
{
    p.len() >= 2 && (('a' <= p[0] && p[0] <= 'z') || ('A' <= p[0] && p[0] <= 'Z')) && p[1] == ':'
}

/// The texts held by a list of character vectors.
pub open spec fn views(vs: Seq<Vec<char>>) -> Seq<Seq<char>> {
    vs.map_values(|v: Vec<char>| v@)
}

fn is_root_exec(v: &Vec<char>) -> (b: bool)
    ensures
        b == (v@ == root_part()),
{
    if v.len() == 1 && v[0] == '\\' {
        assert(v@ =~= root_part());
        true
    } else {
        assert(v@ != root_part()) by {
            if v@ == root_part() {
                assert(v@[0] == '\\');
            }
        };
        false
    }
}

fn copy_chars(v: &Vec<char>) -> (r: Vec<char>)
    ensures
        r@ == v@,
{
    let mut r: Vec<char> = Vec::new();
    push_all(&mut r, v);
    assert(r@ =~= v@);
    r
}

/// The non-empty segments of `v` from `start` on.
fn nonempty_segments_exec(v: &Vec<char>, start: usize, verbatim: bool) -> (r: Vec<Vec<char>>)
    requires
        start <= v.len(),
    ensures
        views(r@) == nonempty_segments(v@.skip(start as int), verbatim),
{
    let ghost body = v@.skip(start as int);
    let ghost nonempty = |seg: Seq<char>| seg.len() > 0;
    let mut r: Vec<Vec<char>> = Vec::new();
    let mut cur: Vec<char> = Vec::new();
    let mut i: usize = start;
    proof {
        assert(body.take(0) =~= Seq::<char>::empty());
        assert(segments(body.take(0), verbatim).drop_last() =~= Seq::<Seq<char>>::empty());
        reveal(Seq::filter);
        assert(views(r@) =~= Seq::<Seq<char>>::empty());
    }
    while i < v.len()
        invariant
            start <= i <= v.len(),
            body == v@.skip(start as int),
            nonempty == (|seg: Seq<char>| seg.len() > 0),
            segments(body.take(i - start), verbatim).len() >= 1,
            cur@ == segments(body.take(i - start), verbatim).last(),
            views(r@) == segments(body.take(i - start), verbatim).drop_last().filter(nonempty),
        decreases v.len() - i,
    {
        let c = v[i];
        let ghost before = body.take(i - start);
        let ghost after = body.take(i - start + 1);
        let ghost segs_before = segments(before, verbatim);
        proof {
            assert(after.drop_last() =~= before);
            assert(after.last() == c);
            lemma_segments_nonempty(before, verbatim);
        }
        if is_sep_in_exec(c, verbatim) {
            proof {
                assert(segments(after, verbatim) == segs_before.push(Seq::<char>::empty()));
                assert(segments(after, verbatim).drop_last() =~= segs_before);
                assert(segs_before =~= segs_before.drop_last().push(segs_before.last()));
                segs_before.drop_last().lemma_filter_push(segs_before.last(), nonempty);
            }
            if cur.len() > 0 {
                let ghost old_r = r@;
                r.push(cur);
                assert(views(r@) =~= views(old_r).push(segs_before.last()));
            }
            cur = Vec::new();
            assert(segments(after, verbatim).last() =~= Seq::<char>::empty());
        } else {
            cur.push(c);
            proof {
                assert(segments(after, verbatim).drop_last() =~= segs_before.drop_last());
            }
        }
        i += 1;
    }
    let ghost segs = segments(body, verbatim);
    proof {
        assert(body.take(v.len() - start) =~= body);
        lemma_segments_nonempty(body, verbatim);
        assert(segs =~= segs.drop_last().push(segs.last()));
        segs.drop_last().lemma_filter_push(segs.last(), nonempty);
    }
    if cur.len() > 0 {
        let ghost old_r = r@;
        r.push(cur);
        assert(views(r@) =~= views(old_r).push(segs.last()));
    }
    r
}

fn apply_part_exec(parts: &mut Vec<Vec<char>>, c: Vec<char>)
    requires
        old(parts).len() >= 1,
    ensures
        final(parts).len() >= 1,
        views(final(parts)@) == apply_part(views(old(parts)@), c@),
{
    let ghost before = views(parts@);
    if is_root_exec(&c) {
        parts.truncate(1);
        parts.push(c);
        assert(views(parts@) =~= before.take(1).push(root_part()));
    } else if c.len() == 1 && c[0] == '.' {
        assert(c@ =~= seq!['.']);
    } else if c.len() == 2 && c[0] == '.' && c[1] == '.' {
        assert(c@ =~= seq!['.', '.']);
        assert(c@ != seq!['.']);
        let n = parts.len();
        if n > 1 && is_normal_exec(&parts[n - 1]) && !is_root_exec(&parts[n - 1]) {
            parts.pop();
            assert(views(parts@) =~= before.drop_last());
        }
    } else {
        assert(c@ != seq!['.']) by {
            if c@ == seq!['.'] {
                assert(c@[0] == '.');
            }
        };
        assert(c@ != seq!['.', '.']) by {
            if c@ == seq!['.', '.'] {
                assert(c@[0] == '.' && c@[1] == '.');
            }
        };
        let ghost cv = c@;
        parts.push(c);
        assert(views(parts@) =~= before.push(cv));
    }
}

fn render_exec(parts: &Vec<Vec<char>>) -> (r: Vec<char>)
    ensures
        r@ == render_parts(views(parts@)),
{
    if parts.len() == 0 {
        return Vec::new();
    }
    let mut out = copy_chars(&parts[0]);
    let mut i: usize = 1;
    proof {
        assert(views(parts@).take(1) =~= seq![parts@[0]@]);
    }
    while i < parts.len()
        invariant
            1 <= i <= parts.len(),
            out@ == render_parts(views(parts@).take(i as int)),
        decreases parts.len() - i,
    {
        let ghost t = views(parts@).take(i as int + 1);
        proof {
            assert(t.drop_last() =~= views(parts@).take(i as int));
            assert(t.last() == parts@[i as int]@);
            assert(t[t.len() - 2] == parts@[i - 1]@);
        }
        if !is_root_exec(&parts[i]) && !is_root_exec(&parts[i - 1]) {
            out.push('\\');
        }
        push_all(&mut out, &parts[i]);
        i += 1;
    }
    assert(views(parts@).take(parts.len() as int) =~= views(parts@));
    out
}

/// `rel` pushed onto the verbatim path `base`.
fn verbatim_push_exec(base: &Vec<char>, rel: &Vec<char>) -> (r: Vec<char>)
    requires
        is_verbatim(base@),
    ensures
        r@ == verbatim_push(base@, rel@),
{
    let (pl, _) = prefix_of(base);
    proof {
        lemma_prefix_len_bounds(base@);
    }
    let mut pre: Vec<char> = Vec::new();
    let mut k: usize = 0;
    while k < pl
        invariant
            pl <= base.len(),
            k <= pl,
            pre@ == base@.take(k as int),
        decreases pl - k,
    {
        pre.push(base[k]);
        assert(base@.take(k as int + 1) == base@.take(k as int).push(base@[k as int]));
        k += 1;
    }
    let ghost body = base@.skip(pl as int);
    let mut parts: Vec<Vec<char>> = Vec::new();
    parts.push(pre);
    if pl < base.len() && base[pl] == '\\' {
        let root: Vec<char> = vec!['\\'];
        assert(root@ =~= root_part());
        parts.push(root);
    }
    let ghost head = views(parts@);
    proof {
        if body.len() > 0 && body[0] == '\\' {
            assert(head =~= seq![base@.take(pl as int), root_part()]);
        } else {
            assert(head =~= seq![base@.take(pl as int)]);
        }
    }
    let segs = nonempty_segments_exec(base, pl, true);
    let mut j: usize = 0;
    while j < segs.len()
        invariant
            j <= segs.len(),
            parts.len() >= 1,
            views(parts@) == head + views(segs@).take(j as int),
        decreases segs.len() - j,
    {
        let ghost before = views(parts@);
        parts.push(copy_chars(&segs[j]));
        assert(views(parts@) =~= before.push(segs@[j as int]@));
        assert(views(segs@).take(j as int + 1) =~= views(segs@).take(j as int).push(
            segs@[j as int]@,
        ));
        j += 1;
    }
    let ghost bp = verbatim_parts(base@);
    assert(views(segs@).take(segs.len() as int) =~= views(segs@));
    assert(views(parts@) == bp);
    let ghost rhead = if rel@.len() > 0 && is_sep(rel@[0]) {
        seq![root_part()]
    } else {
        Seq::<Seq<char>>::empty()
    };
    if rel.len() > 0 && is_sep_exec(rel[0]) {
        let root: Vec<char> = vec!['\\'];
        assert(root@ =~= root_part());
        apply_part_exec(&mut parts, root);
        proof {
            assert(rhead.drop_last() =~= Seq::<Seq<char>>::empty());
            assert(apply_parts(bp, rhead) == apply_part(apply_parts(bp, rhead.drop_last()), rhead.last()));
        }
    }
    assert(views(parts@) == apply_parts(bp, rhead));
    let rsegs = nonempty_segments_exec(rel, 0, false);
    assert(rel@.skip(0) =~= rel@);
    let mut j: usize = 0;
    while j < rsegs.len()
        invariant
            j <= rsegs.len(),
            parts.len() >= 1,
            views(parts@) == apply_parts(bp, rhead + views(rsegs@).take(j as int)),
        decreases rsegs.len() - j,
    {
        let ghost cs = rhead + views(rsegs@).take(j as int + 1);
        proof {
            assert(cs.drop_last() =~= rhead + views(rsegs@).take(j as int));
            assert(cs.last() == rsegs@[j as int]@);
        }
        apply_part_exec(&mut parts, copy_chars(&rsegs[j]));
        j += 1;
    }
    assert(views(rsegs@).take(rsegs.len() as int) =~= views(rsegs@));
    assert(rhead + views(rsegs@) == relative_parts(rel@));
    render_exec(&parts)
}

fn join_chars(base: &Vec<char>, rel: &Vec<char>) -> (r: Vec<char>)
    ensures
        r@ == join_spec(base@, rel@),
{
    let (rel_prefix, _) = prefix_of(rel);
    if rel_prefix > 0 {
        return rel.clone();
    }
    let (_, base_verbatim) = prefix_of(base);
    if base_verbatim && rel.len() > 0 {
        return verbatim_push_exec(base, rel);
    }
    let mut r: Vec<char> = Vec::new();
    if rel.len() > 0 && is_sep_exec(rel[0]) {
        let (base_prefix, _) = prefix_of(base);
        proof {
            lemma_prefix_len_bounds(base@);
        }
        let mut k: usize = 0;
        while k < base_prefix
            invariant
                base_prefix == prefix_len(base@),
                base_prefix <= base.len(),
                k <= base_prefix,
                r@ == base@.take(k as int),
            decreases base_prefix - k,
        {
            r.push(base[k]);
            assert(base@.take(k as int + 1) == base@.take(k as int).push(base@[k as int]));
            k += 1;
        }
        push_all(&mut r, rel);
        return r;
    }
    push_all(&mut r, base);
    if !(base.len() == 0 || is_sep_exec(base[base.len() - 1]) || (has_drive_exec(base)
        && base.len() == 2)) {
        r.push('\\');
    }
    push_all(&mut r, rel);
    r
}

/// `Path::new(base).join(rel)` as Windows reads it.
pub fn join_path(base: &str, rel: &str) -> (r: String)
    ensures
        r@ == join_spec(base@, rel@),
{
    let b = chars_of(base);
    let l = chars_of(rel);
    let j = join_chars(&b, &l);
    string_of(j.as_slice())
}

/// Each `/` in a server-side relative path turned into `\`.
pub open spec fn backslashed(s: Seq<char>) -> Seq<char> {
    s.map_values(|c: char| if c == '/' { '\\' } else { c })
}

pub fn backslash_path(s: &str) -> (r: String)
    ensures
        r@ == backslashed(s@),
{
    let v = chars_of(s);
    let mut r: Vec<char> = Vec::new();
    let mut i: usize = 0;
    while i < v.len()
        invariant
            i <= v.len(),
            r@ == backslashed(v@.take(i as int)),
        decreases v.len() - i,
    {
        r.push(if v[i] == '/' { '\\' } else { v[i] });
        assert(v@.take(i as int + 1) == v@.take(i as int).push(v@[i as int]));
        i += 1;
    }
    assert(v@.take(v.len() as int) == v@);
    string_of(r.as_slice())
}

/// `root.join(rel.replace('/', "\\"))`: where a server-side relative path
/// (a payload or an executable hint) lands under a local folder.
pub fn join_server_path(root: &str, rel: &str) -> (r: String)
    ensures
        r@ == join_spec(root@, backslashed(rel@)),
{
    let b = backslash_path(rel);
    join_path(root, b.as_str())
}

// ---- joining archive entries safely ----

/// The segments of a path, split at every separator (`\\`, and `/` outside
/// verbatim paths), empty ones included.
pub open spec fn segments(s: Seq<char>, verbatim: bool) -> Seq<Seq<char>>
    decreases s.len(),
{
    if s.len() == 0 {
        seq![Seq::<char>::empty()]
    } else {
        let prev = segments(s.drop_last(), verbatim);
        if is_sep_in(s.last(), verbatim) {
            prev.push(Seq::<char>::empty())
        } else {
            prev.update(prev.len() - 1, prev.last().push(s.last()))
        }
    }
}

pub proof fn lemma_segments_nonempty(s: Seq<char>, verbatim: bool)
    ensures
        segments(s, verbatim).len() >= 1,
    decreases s.len(),
{
    if s.len() > 0 {
        lemma_segments_nonempty(s.drop_last(), verbatim);
    }
}

/// A named component: neither empty nor `.` nor `..`.
pub open spec fn is_normal(seg: Seq<char>) -> bool {
    seg.len() > 0 && seg != seq!['.'] && seg != seq!['.', '.']
}

/// The named components of a path: what follows its prefix (of any kind),
/// split at its separators, without empty, `.` and `..` segments.
pub open spec fn normal_components(rel: Seq<char>) -> Seq<Seq<char>> {
    segments(rel.skip(prefix_len(rel)), is_verbatim(rel)).filter(|seg: Seq<char>| is_normal(seg))
}

/// A character Windows forbids in a file name becomes `_`.
pub open spec fn legal_char(c: char) -> char {
    if c == ':' || c == '*' || c == '?' || c == '"' || c == '<' || c == '>' || c == '|' || (c
        as u32) < 0x20 {
        '_'
    } else {
        c
    }
}

/// Trailing spaces and dots removed.
pub open spec fn trim_end_dots(s: Seq<char>) -> Seq<char>
    decreases s.len(),
{
    if s.len() > 0 && (s.last() == ' ' || s.last() == '.') {
        trim_end_dots(s.drop_last())
    } else {
        s
    }
}

/// A name made legal for Windows: forbidden characters replaced, trailing
/// spaces and dots trimmed, and `_` where nothing is left.
pub open spec fn clean_name(seg: Seq<char>) -> Seq<char> {
    let t = trim_end_dots(seg.map_values(|c: char| legal_char(c)));
    if t.len() == 0 {
        seq!['_']
    } else {
        t
    }
}

/// `base` with each name pushed in turn, as `PathBuf::push` pushes it (onto
/// a verbatim path, component by component).
pub open spec fn push_all_names(base: Seq<char>, names: Seq<Seq<char>>) -> Seq<char>
    decreases names.len(),
{
    if names.len() == 0 {
        base
    } else {
        join_spec(push_all_names(base, names.drop_last()), names.last())
    }
}

/// The cleaned form of every named component of `rel`, in order.
pub open spec fn cleaned_names(rel: Seq<char>) -> Seq<Seq<char>> {
    normal_components(rel).map_values(|seg: Seq<char>| clean_name(seg))
}

/// What `safe_join` yields: `dest` with the cleaned form of every named
/// component of `rel` pushed in order.
pub open spec fn safe_join_spec(dest: Seq<char>, rel: Seq<char>) -> Seq<char> {
    push_all_names(dest, cleaned_names(rel))
}

fn legal_char_exec(c: char) -> (r: char)
    ensures
        r == legal_char(c),
{
    if c == ':' || c == '*' || c == '?' || c == '"' || c == '<' || c == '>' || c == '|' || (c
        as u32) < 0x20 {
        '_'
    } else {
        c
    }
}

fn clean_name_exec(seg: &Vec<char>) -> (r: Vec<char>)
    ensures
        r@ == clean_name(seg@),
{
    let mut m: Vec<char> = Vec::new();
    let mut i: usize = 0;
    while i < seg.len()
        invariant
            i <= seg.len(),
            m@ == seg@.take(i as int).map_values(|c: char| legal_char(c)),
        decreases seg.len() - i,
    {
        m.push(legal_char_exec(seg[i]));
        assert(seg@.take(i as int + 1) == seg@.take(i as int).push(seg@[i as int]));
        assert(m@ =~= seg@.take(i as int + 1).map_values(|c: char| legal_char(c)));
        i += 1;
    }
    assert(seg@.take(seg.len() as int) == seg@);
    let ghost mapped = m@;
    while m.len() > 0 && (m[m.len() - 1] == ' ' || m[m.len() - 1] == '.')
        invariant
            trim_end_dots(m@) == trim_end_dots(mapped),
        decreases m.len(),
    {
        m.pop();
    }
    if m.len() == 0 {
        m.push('_');
    }
    m
}

fn is_normal_exec(seg: &Vec<char>) -> (b: bool)
    ensures
        b == is_normal(seg@),
{
    if seg.len() == 0 {
        return false;
    }
    if seg.len() == 1 && seg[0] == '.' {
        assert(seg@ =~= seq!['.']);
        return false;
    }
    if seg.len() == 2 && seg[0] == '.' && seg[1] == '.' {
        assert(seg@ =~= seq!['.', '.']);
        return false;
    }
    assert(seg@ != seq!['.']) by {
        if seg@ == seq!['.'] {
            assert(seg@[0] == '.');
        }
    };
    assert(seg@ != seq!['.', '.']) by {
        if seg@ == seq!['.', '.'] {
            assert(seg@[0] == '.' && seg@[1] == '.');
        }
    };
    true
}

/// One more segment: pushed (cleaned) when it is a named component.
proof fn lemma_push_names_step(d: Seq<char>, segs: Seq<Seq<char>>, seg: Seq<char>)
    ensures
        push_all_names(
            d,
            segs.push(seg).filter(|s: Seq<char>| is_normal(s)).map_values(
                |s: Seq<char>| clean_name(s),
            ),
        ) == if is_normal(seg) {
            join_spec(
                push_all_names(
                    d,
                    segs.filter(|s: Seq<char>| is_normal(s)).map_values(
                        |s: Seq<char>| clean_name(s),
                    ),
                ),
                clean_name(seg),
            )
        } else {
            push_all_names(
                d,
                segs.filter(|s: Seq<char>| is_normal(s)).map_values(|s: Seq<char>| clean_name(s)),
            )
        },
{
    let normal = |s: Seq<char>| is_normal(s);
    let clean = |s: Seq<char>| clean_name(s);
    segs.lemma_filter_push(seg, normal);
    let f = segs.filter(normal);
    if is_normal(seg) {
        let m = f.push(seg).map_values(clean);
        assert(m =~= f.map_values(clean).push(clean_name(seg)));
        assert(m.drop_last() =~= f.map_values(clean));
    }
}

/// Joins an archive entry's relative path under `dest`, keeping only its
/// named components (a prefix of any kind, the root, `.` and `..` are
/// dropped) and making each name legal on Windows (`Game: Deluxe` becomes
/// `Game_ Deluxe`); each cleaned name is pushed as `PathBuf::push` does.
pub fn safe_join(dest: &str, rel: &str) -> (r: String)
    ensures
        r@ == safe_join_spec(dest@, rel@),
{
    let d = chars_of(dest);
    let rv = chars_of(rel);
    let (start, verbatim) = prefix_of(&rv);
    proof {
        lemma_prefix_len_bounds(rv@);
    }
    let ghost body = rv@.skip(start as int);
    let mut out: Vec<char> = Vec::new();
    push_all(&mut out, &d);
    assert(out@ =~= d@);
    let mut cur: Vec<char> = Vec::new();
    let mut i: usize = start;
    proof {
        assert(body.take(0) =~= Seq::<char>::empty());
        assert(segments(body.take(0), verbatim).drop_last() =~= Seq::<Seq<char>>::empty());
        assert(Seq::<Seq<char>>::empty().filter(|s: Seq<char>| is_normal(s)) =~= Seq::<
            Seq<char>,
        >::empty()) by {
            reveal(Seq::filter);
        };
        assert(Seq::<Seq<char>>::empty().filter(|s: Seq<char>| is_normal(s)).map_values(
            |s: Seq<char>| clean_name(s),
        ) =~= Seq::<Seq<char>>::empty());
    }
    while i < rv.len()
        invariant
            start <= i <= rv.len(),
            body == rv@.skip(start as int),
            start == prefix_len(rv@),
            verbatim == is_verbatim(rv@),
            segments(body.take(i - start), verbatim).len() >= 1,
            cur@ == segments(body.take(i - start), verbatim).last(),
            out@ == push_all_names(
                d@,
                segments(body.take(i - start), verbatim).drop_last().filter(|s: Seq<char>| is_normal(s)).map_values(
                    |s: Seq<char>| clean_name(s),
                ),
            ),
        decreases rv.len() - i,
    {
        let c = rv[i];
        let ghost before = body.take(i - start);
        let ghost after = body.take(i - start + 1);
        let ghost segs_before = segments(before, verbatim);
        proof {
            assert(after.drop_last() =~= before);
            assert(after.last() == c);
            lemma_segments_nonempty(before, verbatim);
        }
        if is_sep_in_exec(c, verbatim) {
            proof {
                assert(segments(after, verbatim) == segs_before.push(Seq::<char>::empty()));
                assert(segments(after, verbatim).drop_last() =~= segs_before);
                assert(segs_before =~= segs_before.drop_last().push(segs_before.last()));
                lemma_push_names_step(d@, segs_before.drop_last(), segs_before.last());
            }
            if is_normal_exec(&cur) {
                let cleaned = clean_name_exec(&cur);
                out = join_chars(&out, &cleaned);
            }
            cur = Vec::new();
            assert(segments(after, verbatim).last() =~= Seq::<char>::empty());
        } else {
            cur.push(c);
            proof {
                assert(segments(after, verbatim).drop_last() =~= segs_before.drop_last());
            }
        }
        i += 1;
    }
    let ghost segs = segments(body, verbatim);
    proof {
        assert(body.take(rv.len() - start) =~= body);
        assert(segs =~= segs.drop_last().push(segs.last()));
        lemma_push_names_step(d@, segs.drop_last(), segs.last());
        if start == 0 {
            assert(body =~= rv@);
        }
        assert(normal_components(rel@) == segs.filter(|s: Seq<char>| is_normal(s)));
    }
    if is_normal_exec(&cur) {
        let cleaned = clean_name_exec(&cur);
        out = join_chars(&out, &cleaned);
    }
    string_of(out.as_slice())
}

} // verus!

verus! {

proof fn lemma_trim_end_dots(s: Seq<char>)
    ensures
        trim_end_dots(s).len() <= s.len(),
        trim_end_dots(s) == s.take(trim_end_dots(s).len() as int),
        trim_end_dots(s).len() > 0 ==> trim_end_dots(s).last() != ' ' && trim_end_dots(s).last()
            != '.',
    decreases s.len(),
{
    if s.len() > 0 && (s.last() == ' ' || s.last() == '.') {
        lemma_trim_end_dots(s.drop_last());
        let t = trim_end_dots(s.drop_last());
        assert(s.take(t.len() as int) =~= s.drop_last().take(t.len() as int));
    } else {
        assert(s.take(s.len() as int) =~= s);
    }
}

/// Every name a cleaned component yields is legal on Windows: not empty,
/// free of `: * ? " < > |` and control characters, not ending in a space or
/// a dot (so never `.` or `..`).
pub proof fn law_clean_name_is_legal(seg: Seq<char>)
    ensures
        clean_name(seg).len() > 0,
        forall|i: int|
            0 <= i < clean_name(seg).len() ==> {
                let c = #[trigger] clean_name(seg)[i];
                c != ':' && c != '*' && c != '?' && c != '"' && c != '<' && c != '>' && c != '|'
                    && (c as u32) >= 0x20
            },
        clean_name(seg).last() != ' ' && clean_name(seg).last() != '.',
{
    let m = seg.map_values(|c: char| legal_char(c));
    lemma_trim_end_dots(m);
    let t = trim_end_dots(m);
    if t.len() > 0 {
        assert forall|i: int| 0 <= i < t.len() implies {
            let c = #[trigger] t[i];
            c != ':' && c != '*' && c != '?' && c != '"' && c != '<' && c != '>' && c != '|' && (c
                as u32) >= 0x20
        } by {
            assert(t[i] == m[i]);
            assert(m[i] == legal_char(seg[i]));
        }
    }
}

} // verus!

verus! {

/// A segment that counts as a component for `Path::file_name`: not empty,
/// and not `.` outside verbatim paths (std drops those; in a verbatim path a
/// `.` is a component of its own).
pub open spec fn is_component(seg: Seq<char>, verbatim: bool) -> bool {
    seg.len() > 0 && (verbatim || seg != seq!['.'])
}

/// `Path::new(p).file_name()` on Windows: the last component after the
/// path's prefix, unless it is `.` or `..` (or there is none).
pub open spec fn file_name_of(p: Seq<char>) -> Option<Seq<char>> {
    let verbatim = is_verbatim(p);
    let body = p.skip(prefix_len(p));
    let comps = segments(body, verbatim).filter(|s: Seq<char>| is_component(s, verbatim));
    if comps.len() == 0 || comps.last() == seq!['.'] || comps.last() == seq!['.', '.'] {
        None
    } else {
        Some(comps.last())
    }
}

fn is_component_exec(seg: &Vec<char>, verbatim: bool) -> (b: bool)
    ensures
        b == is_component(seg@, verbatim),
{
    if seg.len() == 0 {
        return false;
    }
    if verbatim {
        return true;
    }
    if seg.len() == 1 && seg[0] == '.' {
        assert(seg@ =~= seq!['.']);
        return false;
    }
    assert(seg@ != seq!['.']) by {
        if seg@ == seq!['.'] {
            assert(seg@[0] == '.');
        }
    };
    true
}

/// `Path::new(p).file_name()` as Windows reads the path.
pub fn file_name(p: &str) -> (r: Option<String>)
    ensures
        opt_view(r) == file_name_of(p@),
{
    let rv = chars_of(p);
    let (start, verbatim) = prefix_of(&rv);
    proof {
        lemma_prefix_len_bounds(rv@);
    }
    let ghost body = rv@.skip(start as int);
    let mut last: Option<Vec<char>> = None;
    let mut cur: Vec<char> = Vec::new();
    let mut i: usize = start;
    proof {
        assert(body.take(0) =~= Seq::<char>::empty());
        assert(segments(body.take(0), verbatim).drop_last() =~= Seq::<Seq<char>>::empty());
        reveal(Seq::filter);
    }
    while i < rv.len()
        invariant
            start <= i <= rv.len(),
            body == rv@.skip(start as int),
            start == prefix_len(rv@),
            verbatim == is_verbatim(rv@),
            segments(body.take(i - start), verbatim).len() >= 1,
            cur@ == segments(body.take(i - start), verbatim).last(),
            ({
                let f = segments(body.take(i - start), verbatim).drop_last().filter(
                    |s: Seq<char>| is_component(s, verbatim),
                );
                match last {
                    None => f.len() == 0,
                    Some(l) => f.len() > 0 && l@ == f.last(),
                }
            }),
        decreases rv.len() - i,
    {
        let c = rv[i];
        let ghost before = body.take(i - start);
        let ghost after = body.take(i - start + 1);
        let ghost segs_before = segments(before, verbatim);
        proof {
            assert(after.drop_last() =~= before);
            assert(after.last() == c);
            lemma_segments_nonempty(before, verbatim);
        }
        if is_sep_in_exec(c, verbatim) {
            proof {
                assert(segments(after, verbatim) == segs_before.push(Seq::<char>::empty()));
                assert(segments(after, verbatim).drop_last() =~= segs_before);
                assert(segs_before =~= segs_before.drop_last().push(segs_before.last()));
                segs_before.drop_last().lemma_filter_push(
                    segs_before.last(),
                    |s: Seq<char>| is_component(s, verbatim),
                );
            }
            if is_component_exec(&cur, verbatim) {
                last = Some(cur);
            }
            cur = Vec::new();
            assert(segments(after, verbatim).last() =~= Seq::<char>::empty());
        } else {
            cur.push(c);
            proof {
                assert(segments(after, verbatim).drop_last() =~= segs_before.drop_last());
            }
        }
        i += 1;
    }
    let ghost segs = segments(body, verbatim);
    proof {
        assert(body.take(rv.len() - start) =~= body);
        lemma_segments_nonempty(body, verbatim);
        assert(segs =~= segs.drop_last().push(segs.last()));
        segs.drop_last().lemma_filter_push(segs.last(), |s: Seq<char>| is_component(s, verbatim));
        if start == 0 {
            assert(body =~= rv@);
        }
    }
    if is_component_exec(&cur, verbatim) {
        last = Some(cur);
    }
    match last {
        Some(l) => {
            if l.len() == 2 && l[0] == '.' && l[1] == '.' {
                assert(l@ =~= seq!['.', '.']);
                None
            } else if l.len() == 1 && l[0] == '.' {
                assert(l@ =~= seq!['.']);
                None
            } else {
                assert(l@ != seq!['.', '.']) by {
                    if l@ == seq!['.', '.'] {
                        assert(l@[0] == '.' && l@[1] == '.');
                    }
                };
                assert(l@ != seq!['.']) by {
                    if l@ == seq!['.'] {
                        assert(l@[0] == '.');
                    }
                };
                Some(string_of(l.as_slice()))
            }
        },
        None => None,
    }
}

} // verus!

verus! {

/// A relative path (no prefix, not starting at the root) joined under a
/// folder that is not a verbatim path stays inside it: the result starts
/// with the folder and ends with the relative path. So the staged crack
/// (`_Ludex-Crack`) and a server-named payload land inside the game's own
/// folder.
pub proof fn law_relative_join_stays_under(base: Seq<char>, rel: Seq<char>)
    requires
        !is_verbatim(base),
        prefix_len(rel) == 0,
        rel.len() == 0 || !is_sep(rel[0]),
    ensures
        base.len() <= join_spec(base, rel).len(),
        join_spec(base, rel).take(base.len() as int) == base,
        join_spec(base, rel).skip(join_spec(base, rel).len() - rel.len()) == rel,
{
    let j = join_spec(base, rel);
    assert(j.take(base.len() as int) =~= base);
    assert(j.skip(j.len() - rel.len()) =~= rel);
}

} // verus!

verus! {

// ---- joining cleaned names again ----

/// Names joined with `\`.
pub open spec fn join_names(names: Seq<Seq<char>>) -> Seq<char>
    decreases names.len(),
{
    if names.len() == 0 {
        Seq::<char>::empty()
    } else if names.len() == 1 {
        names[0]
    } else {
        join_names(names.drop_last()) + seq!['\\'] + names.last()
    }
}

/// No separator among the characters of `n`.
pub open spec fn has_no_sep(n: Seq<char>) -> bool {
    forall|i: int| 0 <= i < n.len() ==> !is_sep(#[trigger] n[i])
}

/// A name that cleaning leaves as it is and that holds no separator.
pub open spec fn is_plain_name(n: Seq<char>) -> bool {
    clean_name(n) == n && has_no_sep(n)
}

/// Cleaning a cleaned name changes nothing.
pub proof fn law_clean_name_idempotent(seg: Seq<char>)
    ensures
        clean_name(clean_name(seg)) == clean_name(seg),
{
    let c = clean_name(seg);
    law_clean_name_is_legal(seg);
    let m = c.map_values(|ch: char| legal_char(ch));
    assert(m =~= c) by {
        assert forall|i: int| 0 <= i < c.len() implies m[i] == c[i] by {
            let ch = c[i];
            assert(ch != ':' && ch != '*' && ch != '?' && ch != '"' && ch != '<' && ch != '>'
                && ch != '|' && (ch as u32) >= 0x20);
        }
    }
    assert(trim_end_dots(m) == m);
}

proof fn lemma_clean_name_keeps_no_sep(n: Seq<char>)
    requires
        forall|i: int| 0 <= i < n.len() ==> !is_sep(#[trigger] n[i]),
    ensures
        forall|i: int| 0 <= i < clean_name(n).len() ==> !is_sep(#[trigger] clean_name(n)[i]),
{
    let m = n.map_values(|c: char| legal_char(c));
    lemma_trim_end_dots(m);
    let t = trim_end_dots(m);
    assert forall|i: int| 0 <= i < clean_name(n).len() implies !is_sep(
        #[trigger] clean_name(n)[i],
    ) by {
        if t.len() > 0 {
            assert(t[i] == m[i]);
            assert(m[i] == legal_char(n[i]));
        }
    }
}

proof fn lemma_plain_name_is_normal(n: Seq<char>)
    requires
        is_plain_name(n),
    ensures
        is_normal(n),
        n.len() > 0,
        forall|i: int| 0 <= i < n.len() ==> #[trigger] n[i] != ':' && n[i] != '?',
{
    law_clean_name_is_legal(n);
    if n == seq!['.'] || n == seq!['.', '.'] {
        assert(n.last() == '.');
    }
    assert forall|i: int| 0 <= i < n.len() implies #[trigger] n[i] != ':' && n[i] != '?' by {
        assert(clean_name(n)[i] == n[i]);
    }
}

proof fn lemma_join_names_chars(names: Seq<Seq<char>>)
    requires
        forall|k: int| 0 <= k < names.len() ==> is_plain_name(#[trigger] names[k]),
    ensures
        names.len() > 0 ==> join_names(names).len() > 0 && !is_sep(join_names(names)[0])
            && !is_sep(join_names(names).last()),
        forall|i: int|
            0 <= i < join_names(names).len() ==> #[trigger] join_names(names)[i] != ':'
                && join_names(names)[i] != '?',
    decreases names.len(),
{
    if names.len() == 1 {
        lemma_plain_name_is_normal(names[0]);
    } else if names.len() > 1 {
        let init = names.drop_last();
        assert forall|k: int| 0 <= k < init.len() implies is_plain_name(#[trigger] init[k]) by {
            assert(init[k] == names[k]);
        }
        lemma_join_names_chars(init);
        let n = names.last();
        assert(is_plain_name(names[names.len() - 1]));
        lemma_plain_name_is_normal(n);
        let j = join_names(init);
        let all = join_names(names);
        assert(all == j + seq!['\\'] + n);
        assert forall|i: int| 0 <= i < all.len() implies #[trigger] all[i] != ':' && all[i] != '?' by {
            if i < j.len() {
                assert(all[i] == j[i]);
            } else if i == j.len() {
                assert(all[i] == '\\');
            } else {
                assert(all[i] == n[i - j.len() - 1]);
            }
        }
        assert(all[0] == j[0]);
        assert(all.last() == n.last());
        assert(n[n.len() - 1] == n.last());
    }
}

/// Characters with no separator among them extend the last segment.
proof fn lemma_segments_plain_append(s: Seq<char>, t: Seq<char>, verbatim: bool)
    requires
        forall|i: int| 0 <= i < t.len() ==> !is_sep_in(#[trigger] t[i], verbatim),
    ensures
        segments(s + t, verbatim) == segments(s, verbatim).update(
            segments(s, verbatim).len() - 1,
            segments(s, verbatim).last() + t,
        ),
    decreases t.len(),
{
    lemma_segments_nonempty(s, verbatim);
    let segs = segments(s, verbatim);
    if t.len() == 0 {
        assert(s + t =~= s);
        assert(segs.last() + t =~= segs.last());
        assert(segs.update(segs.len() - 1, segs.last() + t) =~= segs);
    } else {
        let t0 = t.drop_last();
        assert forall|i: int| 0 <= i < t0.len() implies !is_sep_in(#[trigger] t0[i], verbatim) by {
            assert(t0[i] == t[i]);
        }
        lemma_segments_plain_append(s, t0, verbatim);
        let u = s + t;
        assert(u.drop_last() =~= s + t0);
        assert(u.last() == t[t.len() - 1]);
        let prev = segments(s + t0, verbatim);
        assert(prev.last() == segs.last() + t0);
        assert((segs.last() + t0).push(t.last()) =~= segs.last() + t);
        assert(segments(u, verbatim) =~= segs.update(segs.len() - 1, segs.last() + t));
    }
}

proof fn lemma_segments_join_names(names: Seq<Seq<char>>)
    requires
        names.len() >= 1,
        forall|k: int| 0 <= k < names.len() ==> is_plain_name(#[trigger] names[k]),
    ensures
        segments(join_names(names), false) == names,
    decreases names.len(),
{
    let n = names.last();
    assert(is_plain_name(names[names.len() - 1]));
    assert forall|i: int| 0 <= i < n.len() implies !is_sep_in(#[trigger] n[i], false) by {
        assert(!is_sep(n[i]));
    }
    if names.len() == 1 {
        let e = Seq::<char>::empty();
        lemma_segments_plain_append(e, n, false);
        assert(e + n =~= n);
        assert(segments(e, false) =~= seq![e]);
        assert(e + n =~= n);
        assert(seq![e].update(0, e + n) =~= names);
    } else {
        let init = names.drop_last();
        assert forall|k: int| 0 <= k < init.len() implies is_plain_name(#[trigger] init[k]) by {
            assert(init[k] == names[k]);
        }
        lemma_segments_join_names(init);
        let j = join_names(init);
        let js = j.push('\\');
        assert(js.drop_last() =~= j);
        assert(segments(js, false) == segments(j, false).push(Seq::<char>::empty()));
        lemma_segments_plain_append(js, n, false);
        assert(join_names(names) =~= js + n);
        assert(Seq::<char>::empty() + n =~= n);
        assert(init.push(Seq::<char>::empty()).update(init.len() as int, Seq::<char>::empty() + n)
            =~= names);
    }
}

proof fn lemma_filter_keeps_all(s: Seq<Seq<char>>)
    requires
        forall|k: int| 0 <= k < s.len() ==> is_normal(#[trigger] s[k]),
    ensures
        s.filter(|x: Seq<char>| is_normal(x)) == s,
    decreases s.len(),
{
    reveal(Seq::filter);
    if s.len() > 0 {
        let init = s.drop_last();
        assert forall|k: int| 0 <= k < init.len() implies is_normal(#[trigger] init[k]) by {
            assert(init[k] == s[k]);
        }
        lemma_filter_keeps_all(init);
        init.lemma_filter_push(s.last(), |x: Seq<char>| is_normal(x));
        assert(s =~= init.push(s.last()));
        assert(is_normal(s[s.len() - 1]));
    }
}

/// Plain names joined with `\` and joined safely under any `dest` land
/// where pushing them one by one does: no name is dropped, split or changed.
pub proof fn law_plain_names_rejoin(dest: Seq<char>, names: Seq<Seq<char>>)
    requires
        forall|k: int| 0 <= k < names.len() ==> is_plain_name(#[trigger] names[k]),
    ensures
        safe_join_spec(dest, join_names(names)) == push_all_names(dest, names),
{
    let j = join_names(names);
    lemma_join_names_chars(names);
    if names.len() > 0 {
        lemma_plain_no_prefix(j);
    } else {
        assert(prefix_len(j) == 0 && !is_verbatim(j));
    }
    assert(j.skip(0) =~= j);
    let clean = |s: Seq<char>| clean_name(s);
    if names.len() == 0 {
        assert(segments(j, false) =~= seq![Seq::<char>::empty()]);
        let e = Seq::<Seq<char>>::empty();
        e.lemma_filter_push(Seq::<char>::empty(), |x: Seq<char>| is_normal(x));
        assert(seq![Seq::<char>::empty()] =~= e.push(Seq::<char>::empty()));
        assert(e.filter(|x: Seq<char>| is_normal(x)) =~= e) by {
            reveal(Seq::filter);
        }
        assert(normal_components(j).map_values(clean) =~= names);
    } else {
        lemma_segments_join_names(names);
        assert forall|k: int| 0 <= k < names.len() implies is_normal(#[trigger] names[k]) by {
            lemma_plain_name_is_normal(names[k]);
        }
        lemma_filter_keeps_all(names);
        assert(normal_components(j) == names);
        assert(names.map_values(clean) =~= names);
    }
}

/// A verbatim path is one that starts with `\\?\`.
proof fn lemma_verbatim_chars(p: Seq<char>)
    ensures
        is_verbatim(p) <==> (p.len() >= 4 && p[0] == '\\' && p[1] == '\\' && p[2] == '?' && p[3]
            == '\\'),
{
    if is_verbatim(p) {
        assert(norm_sep(p[0int + 0]) == seq!['\\', '\\'][0]);
        assert(norm_sep(p[0int + 1]) == seq!['\\', '\\'][1]);
        assert(norm_sep(p[2int + 0]) == seq!['?', '\\'][0]);
        assert(norm_sep(p[2int + 1]) == seq!['?', '\\'][1]);
    }
    if p.len() >= 4 && p[0] == '\\' && p[1] == '\\' && p[2] == '?' && p[3] == '\\' {
        assert(marker(p, 0, seq!['\\', '\\']));
        assert(marker(p, 2, seq!['?', '\\']));
    }
}

/// A path that starts with no separator and holds no `:` has no prefix.
proof fn lemma_plain_no_prefix(p: Seq<char>)
    requires
        p.len() > 0,
        !is_sep(p[0]),
        forall|i: int| 0 <= i < p.len() ==> #[trigger] p[i] != ':',
    ensures
        prefix_len(p) == 0,
        !is_verbatim(p),
{
    lemma_verbatim_chars(p);
    if p.len() >= 2 {
        assert(!marker(p, 0, seq!['\\', '\\'])) by {
            if marker(p, 0, seq!['\\', '\\']) {
                assert(norm_sep(p[0int + 0]) == seq!['\\', '\\'][0]);
            }
        }
        assert(p[1] != ':');
    }
}

/// Appending text free of `?` to a path that is neither verbatim nor `\\?`
/// does not make it verbatim.
proof fn lemma_no_verbatim_after_push(dest: Seq<char>, j: Seq<char>)
    requires
        !is_verbatim(dest),
        dest != seq!['\\', '\\', '?'],
        j.len() > 0,
        forall|i: int| 0 <= i < j.len() ==> #[trigger] j[i] != '?',
    ensures
        !is_verbatim(push_rel(dest, j)),
{
    let x = push_rel(dest, j);
    lemma_verbatim_chars(dest);
    lemma_verbatim_chars(x);
    if is_verbatim(x) {
        if dest.len() == 0 || is_sep(dest.last()) || (has_drive(dest) && dest.len() == 2) {
            assert(x == dest + j);
            if dest.len() <= 2 {
                assert(x[2] == j[2 - dest.len()]);
            } else {
                assert(x[0] == dest[0] && x[1] == dest[1] && x[2] == dest[2]);
                if dest.len() == 3 {
                    assert(dest.last() == dest[2]);
                } else {
                    assert(x[3] == dest[3]);
                }
            }
        } else {
            assert(x == dest + seq!['\\'] + j);
            if dest.len() <= 1 {
                if dest.len() == 1 {
                    assert(x[2] == j[0]);
                } else {
                    assert(x[2] == j[1]);
                }
            } else if dest.len() == 2 {
                assert(x[2] == '\\');
            } else if dest.len() == 3 {
                assert(x[0] == dest[0] && x[1] == dest[1] && x[2] == dest[2]);
                assert(dest =~= seq!['\\', '\\', '?']);
            } else {
                assert(x[0] == dest[0] && x[1] == dest[1] && x[2] == dest[2] && x[3] == dest[3]);
            }
        }
    }
}

/// The cleaned named components of a path whose components hold no
/// separator are plain names.
proof fn lemma_cleaned_components_plain(rel: Seq<char>)
    requires
        forall|k: int|
            0 <= k < normal_components(rel).len() ==> has_no_sep(
                #[trigger] normal_components(rel)[k],
            ),
    ensures
        forall|k: int|
            0 <= k < normal_components(rel).len() ==> is_plain_name(
                #[trigger] cleaned_names(rel)[k],
            ),
{
    let comps = normal_components(rel);
    let names = comps.map_values(|seg: Seq<char>| clean_name(seg));
    assert forall|k: int| 0 <= k < comps.len() implies is_plain_name(#[trigger] names[k]) by {
        let c = comps[k];
        assert(names[k] == clean_name(c));
        law_clean_name_idempotent(c);
        assert(has_no_sep(comps[k]));
        lemma_clean_name_keeps_no_sep(c);
    }
}

proof fn lemma_push_rel_join(dest: Seq<char>, j: Seq<char>, n: Seq<char>)
    requires
        j.len() > 0,
        !is_sep(j.last()),
        forall|i: int| 0 <= i < j.len() ==> #[trigger] j[i] != ':',
    ensures
        push_rel(push_rel(dest, j), n) == push_rel(dest, j + seq!['\\'] + n),
{
    let x = push_rel(dest, j);
    assert(x.last() == j.last()) by {
        assert(x[x.len() - 1] == j[j.len() - 1]);
    }
    assert(!(has_drive(x) && x.len() == 2)) by {
        if has_drive(x) && x.len() == 2 {
            if dest.len() == 0 || is_sep(dest.last()) || (has_drive(dest) && dest.len() == 2) {
                assert(x == dest + j);
                if dest.len() == 0 {
                    assert(x[1] == j[1]);
                } else {
                    assert(x[1] == j[0]);
                }
            }
        }
    }
    if dest.len() == 0 || is_sep(dest.last()) || (has_drive(dest) && dest.len() == 2) {
        assert(push_rel(x, n) =~= dest + (j + seq!['\\'] + n));
    } else {
        assert(push_rel(x, n) =~= dest + seq!['\\'] + (j + seq!['\\'] + n));
    }
}

proof fn lemma_push_all_plain_names(dest: Seq<char>, names: Seq<Seq<char>>)
    requires
        names.len() > 0,
        !is_verbatim(dest),
        dest != seq!['\\', '\\', '?'],
        forall|k: int| 0 <= k < names.len() ==> is_plain_name(#[trigger] names[k]),
    ensures
        push_all_names(dest, names) == push_rel(dest, join_names(names)),
    decreases names.len(),
{
    let n = names.last();
    assert(is_plain_name(names[names.len() - 1]));
    lemma_plain_name_is_normal(n);
    assert(!is_sep(n[0]));
    lemma_plain_no_prefix(n);
    if names.len() == 1 {
        assert(names.drop_last() =~= Seq::<Seq<char>>::empty());
        assert(push_all_names(dest, names.drop_last()) == dest);
        assert(push_all_names(dest, names) == join_spec(dest, names[0]));
    } else {
        let init = names.drop_last();
        assert forall|k: int| 0 <= k < init.len() implies is_plain_name(#[trigger] init[k]) by {
            assert(init[k] == names[k]);
        }
        lemma_push_all_plain_names(dest, init);
        lemma_join_names_chars(init);
        lemma_no_verbatim_after_push(dest, join_names(init));
        lemma_push_rel_join(dest, join_names(init), n);
    }
}

/// Re-joining a safely joined path: joining the cleaned names (`\` between
/// them, one segment per named component of `rel`) safely under any `dest`
/// gives the same path as `rel` gave, and that path is what an ordinary join
/// of `dest` with the joined names gives. Under a `dest` that is not a
/// verbatim path (nor `\\?`), it is `dest` with the joined names appended,
/// so stripping `dest` off leaves them; under a verbatim `dest`, it is the
/// prefix and components of `dest` followed by the names. All where no named
/// component holds a `/` that a verbatim `rel` kept.
pub proof fn law_safe_join_rejoins(dest: Seq<char>, rel: Seq<char>)
    requires
        forall|k: int|
            0 <= k < normal_components(rel).len() ==> has_no_sep(
                #[trigger] normal_components(rel)[k],
            ),
    ensures
        ({
            let names = cleaned_names(rel);
            &&& names.len() > 0 ==> segments(join_names(names), false) == names
            &&& safe_join_spec(dest, join_names(names)) == safe_join_spec(dest, rel)
            &&& names.len() == 0 ==> safe_join_spec(dest, rel) == dest
            &&& names.len() > 0 ==> safe_join_spec(dest, rel) == join_spec(dest, join_names(names))
            &&& names.len() > 0 && !is_verbatim(dest) && dest != seq!['\\', '\\', '?']
                ==> safe_join_spec(dest, rel) == push_rel(dest, join_names(names))
            &&& names.len() > 0 && is_verbatim(dest) ==> safe_join_spec(dest, rel) == chained(
                dest.take(prefix_len(dest)),
                nonempty_segments(dest.skip(prefix_len(dest)), true) + names,
            )
        }),
{
    let names = cleaned_names(rel);
    lemma_cleaned_components_plain(rel);
    law_plain_names_rejoin(dest, names);
    if names.len() > 0 {
        lemma_segments_join_names(names);
        law_plain_names_join(dest, names);
        if !is_verbatim(dest) && dest != seq!['\\', '\\', '?'] {
            lemma_push_all_plain_names(dest, names);
        }
        if is_verbatim(dest) {
            lemma_push_plain_onto_verbatim(dest, names);
        }
    }
}

/// Extraction stays inside an install folder that is not a verbatim path
/// (nor `\\?`): whatever prefix, root, `.` or `..` an archive entry's path
/// holds, the joined path starts with `dest`, where no named component holds
/// a `/` that a verbatim `rel` kept.
pub proof fn law_safe_join_stays_under(dest: Seq<char>, rel: Seq<char>)
    requires
        !is_verbatim(dest),
        dest != seq!['\\', '\\', '?'],
        forall|k: int|
            0 <= k < normal_components(rel).len() ==> has_no_sep(
                #[trigger] normal_components(rel)[k],
            ),
    ensures
        dest.len() <= safe_join_spec(dest, rel).len(),
        safe_join_spec(dest, rel).take(dest.len() as int) == dest,
{
    let names = cleaned_names(rel);
    law_safe_join_rejoins(dest, rel);
    let r = safe_join_spec(dest, rel);
    if names.len() > 0 {
        assert(r.take(dest.len() as int) =~= dest);
    }
}

} // verus!

verus! {

// ---- pushing plain names onto a verbatim path ----

/// `pre` followed by each item, with a `\` before each.
pub open spec fn chained(pre: Seq<char>, xs: Seq<Seq<char>>) -> Seq<char>
    decreases xs.len(),
{
    if xs.len() == 0 {
        pre
    } else {
        chained(pre, xs.drop_last()) + seq!['\\'] + xs.last()
    }
}

/// A component text of a verbatim path: not empty, without `\`.
pub open spec fn is_item(x: Seq<char>) -> bool {
    x.len() > 0 && forall|i: int| 0 <= i < x.len() ==> x[i] != '\\'
}

pub open spec fn all_items(xs: Seq<Seq<char>>) -> bool {
    forall|k: int| 0 <= k < xs.len() ==> is_item(#[trigger] xs[k])
}

proof fn lemma_chained_split(pre: Seq<char>, xs: Seq<Seq<char>>, m: int)
    requires
        0 <= m <= xs.len(),
    ensures
        chained(pre, xs) == chained(pre, xs.take(m)) + chained(Seq::<char>::empty(), xs.skip(m)),
    decreases xs.len(),
{
    let e = Seq::<char>::empty();
    if m == xs.len() {
        assert(xs.take(m) =~= xs);
        assert(xs.skip(m) =~= Seq::<Seq<char>>::empty());
        assert(chained(pre, xs) + e =~= chained(pre, xs));
    } else {
        let init = xs.drop_last();
        lemma_chained_split(pre, init, m);
        assert(init.take(m) =~= xs.take(m));
        let rest = xs.skip(m);
        assert(rest.drop_last() =~= init.skip(m));
        assert(rest.last() == xs.last());
        assert(chained(pre, xs) =~= chained(pre, xs.take(m)) + chained(e, rest));
    }
}

/// Where each item starts and ends in the text, and that `\` stands only
/// before an item.
proof fn lemma_chained_boundary(pre: Seq<char>, xs: Seq<Seq<char>>, m: int)
    requires
        all_items(xs),
        0 <= m < xs.len(),
    ensures
        ({
            let r = chained(pre, xs);
            let b = chained(pre, xs.take(m)).len() as int;
            let b1 = chained(pre, xs.take(m + 1)).len() as int;
            &&& b1 == b + 1 + xs[m].len()
            &&& b1 <= r.len()
            &&& r.take(b) == chained(pre, xs.take(m))
            &&& r[b] == '\\'
            &&& (b1 == r.len() <==> m + 1 == xs.len())
            &&& (b1 < r.len() ==> r[b1] == '\\')
            &&& first_sep(r, true, b + 1) == b1
        }),
{
    let e = Seq::<char>::empty();
    let r = chained(pre, xs);
    let a = chained(pre, xs.take(m));
    let a1 = chained(pre, xs.take(m + 1));
    assert(xs.take(m + 1).drop_last() =~= xs.take(m));
    assert(xs.take(m + 1).last() == xs[m]);
    assert(a1 == a + seq!['\\'] + xs[m]);
    lemma_chained_split(pre, xs, m + 1);
    let t = chained(e, xs.skip(m + 1));
    assert(r == a1 + t);
    let b = a.len() as int;
    let b1 = a1.len() as int;
    assert(r.take(b) =~= a);
    assert(r[b] == '\\');
    if m + 1 < xs.len() {
        lemma_chained_split(e, xs.skip(m + 1), 1);
        let ys = xs.skip(m + 1);
        assert(ys.take(1).drop_last() =~= Seq::<Seq<char>>::empty());
        assert(chained(e, ys.take(1).drop_last()) == e);
        assert(ys.take(1).last() == ys[0]);
        assert(chained(e, ys.take(1)) == e + seq!['\\'] + ys[0]);
        assert(t[0] == '\\');
        assert(r[b1] == t[0]);
    } else {
        assert(xs.skip(m + 1) =~= Seq::<Seq<char>>::empty());
    }
    assert(is_item(xs[m]));
    assert forall|k: int| b + 1 <= k < b1 implies !is_sep_in(r[k], true) by {
        assert(r[k] == xs[m][k - b - 1]);
    }
    lemma_first_sep_is(r, true, b + 1, b1);
}

proof fn lemma_first_sep_is(p: Seq<char>, verbatim: bool, i: int, j: int)
    requires
        0 <= i <= j <= p.len(),
        forall|k: int| i <= k < j ==> !is_sep_in(#[trigger] p[k], verbatim),
        j == p.len() || is_sep_in(p[j], verbatim),
    ensures
        first_sep(p, verbatim, i) == j,
    decreases j - i,
{
    if i < j {
        lemma_first_sep_is(p, verbatim, i + 1, j);
    }
}

/// Two paths that agree on their first `n` characters find the same
/// separator before `n`.
proof fn lemma_first_sep_agree(p: Seq<char>, r: Seq<char>, verbatim: bool, i: int, n: int)
    requires
        0 <= i <= n,
        n <= p.len(),
        n <= r.len(),
        forall|k: int| 0 <= k < n ==> #[trigger] p[k] == r[k],
    ensures
        first_sep(p, verbatim, i) < n ==> first_sep(r, verbatim, i) == first_sep(p, verbatim, i),
        first_sep(p, verbatim, i) >= n ==> forall|k: int|
            i <= k < n ==> !is_sep_in(#[trigger] r[k], verbatim),
        first_sep(p, verbatim, i) >= n && n < r.len() && is_sep_in(r[n], verbatim)
            ==> first_sep(r, verbatim, i) == n,
{
    lemma_first_sep(p, verbatim, i);
    let f = first_sep(p, verbatim, i);
    if f < n {
        assert forall|k: int| i <= k < f implies !is_sep_in(#[trigger] r[k], verbatim) by {
            assert(p[k] == r[k]);
        }
        assert(r[f] == p[f]);
        lemma_first_sep_is(r, verbatim, i, f);
    } else {
        assert forall|k: int| i <= k < n implies !is_sep_in(#[trigger] r[k], verbatim) by {
            assert(p[k] == r[k]);
        }
        if n < r.len() && is_sep_in(r[n], verbatim) {
            lemma_first_sep_is(r, verbatim, i, n);
        }
    }
}

/// The components of a path written out from a prefix, an optional root
/// and items: the prefix, then each item after a `\`.
proof fn lemma_render_chained(pre: Seq<char>, h: Seq<Seq<char>>, xs: Seq<Seq<char>>)
    requires
        pre != root_part(),
        h == Seq::<Seq<char>>::empty() || h == seq![root_part()],
        xs.len() >= 1,
        all_items(xs),
    ensures
        render_parts(seq![pre] + h + xs) == chained(pre, xs),
    decreases xs.len(),
{
    let parts = seq![pre] + h + xs;
    let x = xs.last();
    assert(is_item(xs[xs.len() - 1]));
    assert(x != root_part()) by {
        if x == root_part() {
            assert(x[0] == '\\');
        }
    }
    assert(parts.drop_last() =~= seq![pre] + h + xs.drop_last());
    assert(parts.last() == x);
    if xs.len() == 1 {
        assert(xs.drop_last() =~= Seq::<Seq<char>>::empty());
        assert(render_parts(seq![pre]) == pre);
        assert(chained(pre, xs.drop_last()) == pre);
        if h.len() == 0 {
            assert(seq![pre] + h + xs.drop_last() =~= seq![pre]);
            assert(parts[parts.len() - 2] == pre);
        } else {
            let two = seq![pre] + h + xs.drop_last();
            assert(two =~= seq![pre, root_part()]);
            assert(two.drop_last() =~= seq![pre]);
            assert(render_parts(two.drop_last()) == pre);
            assert(render_parts(two) == pre + root_part());
            assert(parts[parts.len() - 2] == root_part());
        }
        assert(chained(pre, xs) == pre + seq!['\\'] + x);
    } else {
        let init = xs.drop_last();
        assert forall|k: int| 0 <= k < init.len() implies is_item(#[trigger] init[k]) by {
            assert(init[k] == xs[k]);
        }
        lemma_render_chained(pre, h, init);
        let y = xs[xs.len() - 2];
        assert(is_item(y));
        assert(parts[parts.len() - 2] == y);
        assert(y != root_part()) by {
            if y == root_part() {
                assert(y[0] == '\\');
            }
        }
    }
}

/// The segments of items each written after a `\` are the items.
proof fn lemma_segments_chained(xs: Seq<Seq<char>>)
    requires
        all_items(xs),
    ensures
        nonempty_segments(chained(Seq::<char>::empty(), xs), true) == xs,
    decreases xs.len(),
{
    let e = Seq::<char>::empty();
    let nonempty = |seg: Seq<char>| seg.len() > 0;
    if xs.len() == 0 {
        assert(segments(e, true) =~= seq![e]);
        Seq::<Seq<char>>::empty().lemma_filter_push(e, nonempty);
        assert(seq![e] =~= Seq::<Seq<char>>::empty().push(e));
        assert(Seq::<Seq<char>>::empty().filter(nonempty) =~= Seq::<Seq<char>>::empty()) by {
            reveal(Seq::filter);
        }
    } else {
        let init = xs.drop_last();
        assert forall|k: int| 0 <= k < init.len() implies is_item(#[trigger] init[k]) by {
            assert(init[k] == xs[k]);
        }
        lemma_segments_chained(init);
        let a = chained(e, init);
        let x = xs.last();
        assert(is_item(xs[xs.len() - 1]));
        let asep = a.push('\\');
        assert(asep.drop_last() =~= a);
        assert(segments(asep, true) == segments(a, true).push(e));
        assert forall|i: int| 0 <= i < x.len() implies !is_sep_in(#[trigger] x[i], true) by {}
        lemma_segments_plain_append(asep, x, true);
        assert(chained(e, xs) =~= asep + x);
        let sa = segments(a, true);
        assert(sa.push(e).update(sa.len() as int, e + x) =~= sa.push(x));
        sa.lemma_filter_push(x, nonempty);
        assert(init.push(x) =~= xs);
    }
}

/// No `\` among the characters of `x`.
pub open spec fn no_backslash(x: Seq<char>) -> bool {
    forall|i: int| 0 <= i < x.len() ==> x[i] != '\\'
}

proof fn lemma_verbatim_segments_no_backslash(s: Seq<char>)
    ensures
        forall|k: int| 0 <= k < segments(s, true).len() ==> no_backslash(#[trigger] segments(s, true)[k]),
    decreases s.len(),
{
    if s.len() > 0 {
        lemma_verbatim_segments_no_backslash(s.drop_last());
        lemma_segments_nonempty(s.drop_last(), true);
        let prev = segments(s.drop_last(), true);
        let segs = segments(s, true);
        if !is_sep_in(s.last(), true) {
            assert forall|k: int| 0 <= k < segs.len() implies no_backslash(#[trigger] segs[k]) by {
                if k == prev.len() - 1 {
                    assert(no_backslash(prev[k]));
                    assert(segs[k] == prev.last().push(s.last()));
                } else {
                    assert(segs[k] == prev[k]);
                }
            }
        } else {
            assert forall|k: int| 0 <= k < segs.len() implies no_backslash(#[trigger] segs[k]) by {
                if k < prev.len() {
                    assert(segs[k] == prev[k]);
                }
            }
        }
    }
}

proof fn lemma_filter_items(s: Seq<Seq<char>>)
    requires
        forall|k: int| 0 <= k < s.len() ==> no_backslash(#[trigger] s[k]),
    ensures
        all_items(s.filter(|seg: Seq<char>| seg.len() > 0)),
    decreases s.len(),
{
    let nonempty = |seg: Seq<char>| seg.len() > 0;
    if s.len() == 0 {
        assert(s.filter(nonempty) =~= s) by {
            reveal(Seq::filter);
        }
    } else {
        let init = s.drop_last();
        assert forall|k: int| 0 <= k < init.len() implies no_backslash(#[trigger] init[k]) by {
            assert(init[k] == s[k]);
        }
        lemma_filter_items(init);
        init.lemma_filter_push(s.last(), nonempty);
        assert(s =~= init.push(s.last()));
        assert(no_backslash(s[s.len() - 1]));
    }
}

/// The components after the prefix of a verbatim path are items.
proof fn lemma_verbatim_body_items(d: Seq<char>)
    ensures
        all_items(nonempty_segments(d.skip(prefix_len(d)), true)),
{
    lemma_verbatim_segments_no_backslash(d.skip(prefix_len(d)));
    lemma_filter_items(segments(d.skip(prefix_len(d)), true));
}

/// Where the prefix ends once items are written after a verbatim path's
/// prefix: after the prefix itself or after one or two of the items (a
/// `\\?\UNC\server` prefix takes the first item as its share).
proof fn lemma_verbatim_prefix_end(d: Seq<char>, xs: Seq<Seq<char>>) -> (m: int)
    requires
        is_verbatim(d),
        xs.len() >= 1,
        all_items(xs),
    ensures
        0 <= m <= xs.len(),
        prefix_len(chained(d.take(prefix_len(d)), xs)) == chained(
            d.take(prefix_len(d)),
            xs.take(m),
        ).len(),
        is_verbatim(chained(d.take(prefix_len(d)), xs)),
{
    let pl = prefix_len(d);
    lemma_prefix_len_bounds(d);
    let pre = d.take(pl);
    let r = chained(pre, xs);
    lemma_chained_boundary(pre, xs, 0);
    assert(xs.take(0) =~= Seq::<Seq<char>>::empty());
    assert(chained(pre, xs.take(0)) == pre);
    let b1 = chained(pre, xs.take(1)).len() as int;
    assert(is_item(xs[0]));
    assert(r.take(pl) == pre);
    assert forall|k: int| 0 <= k < pl implies #[trigger] d[k] == r[k] by {
        assert(r.take(pl)[k] == r[k]);
    }
    assert(r[pl] == '\\');
    lemma_verbatim_chars(d);
    lemma_verbatim_chars(r);
    assert(is_verbatim(r));
    let unc = seq!['U', 'N', 'C', '\\'];
    if marker(d, 4, unc) {
        lemma_first_sep(d, true, 8);
        let sv = first_sep(d, true, 8);
        assert(marker(r, 4, unc)) by {
            assert forall|k: int| 0 <= k < unc.len() implies norm_sep(r[4 + k]) == unc[k] by {
                assert(r[4 + k] == d[4 + k]);
            }
        }
        if sv < d.len() && first_sep(d, true, sv + 1) > sv + 1 {
            lemma_first_sep(d, true, sv + 1);
            lemma_first_sep_agree(d, r, true, 8, pl);
            lemma_first_sep_agree(d, r, true, sv + 1, pl);
            assert(prefix_len(r) == pl);
            0
        } else {
            lemma_first_sep_agree(d, r, true, 8, pl);
            assert(first_sep(r, true, 8) == pl);
            assert(prefix_len(r) == b1);
            1
        }
    } else if verbatim_disk(d) {
        assert(pl == 6);
        assert(verbatim_disk(r));
        assert(!marker(r, 4, unc)) by {
            if marker(r, 4, unc) {
                assert(norm_sep(r[4int + 1]) == unc[1]);
            }
        }
        0
    } else {
        lemma_first_sep(d, true, 4);
        lemma_first_sep_agree(d, r, true, 4, pl);
        assert(first_sep(r, true, 4) == pl);
        if marker(r, 4, unc) {
            assert(norm_sep(r[4int + 0]) == unc[0]);
            assert(norm_sep(r[4int + 1]) == unc[1]);
            assert(norm_sep(r[4int + 2]) == unc[2]);
            assert(norm_sep(r[4int + 3]) == unc[3]);
            assert(pl >= 7);
            if pl >= 8 {
                assert(marker(d, 4, unc)) by {
                    assert forall|k: int| 0 <= k < unc.len() implies norm_sep(d[4 + k]) == unc[k] by {
                        assert(r[4 + k] == d[4 + k]);
                    }
                }
            }
            assert(pl == 7);
            assert(first_sep(r, true, 8) == b1);
            if xs.len() == 1 {
                assert(prefix_len(r) == b1);
                1
            } else {
                lemma_chained_boundary(pre, xs, 1);
                assert(prefix_len(r) == chained(pre, xs.take(2)).len());
                2
            }
        } else if verbatim_disk(r) {
            assert(pl >= 6);
            if pl == 6 {
                assert(verbatim_disk(d));
            } else {
                assert(d[6] == r[6]);
                assert(verbatim_disk(d));
            }
            0
        } else {
            assert(prefix_len(r) == pl);
            0
        }
    }
}

/// The component list of items written after a prefix that ends after the
/// first `m` of them.
proof fn lemma_verbatim_parts_chained(pre: Seq<char>, xs: Seq<Seq<char>>, m: int)
    requires
        all_items(xs),
        xs.len() >= 1,
        0 <= m <= xs.len(),
        prefix_len(chained(pre, xs)) == chained(pre, xs.take(m)).len(),
    ensures
        verbatim_parts(chained(pre, xs)) == seq![chained(pre, xs.take(m))] + (if m < xs.len() {
            seq![root_part()]
        } else {
            Seq::<Seq<char>>::empty()
        }) + xs.skip(m),
{
    let e = Seq::<char>::empty();
    let r = chained(pre, xs);
    let a = chained(pre, xs.take(m));
    let rest = xs.skip(m);
    lemma_chained_split(pre, xs, m);
    let t = chained(e, rest);
    assert(r.take(a.len() as int) =~= a);
    assert(r.skip(a.len() as int) =~= t);
    assert forall|k: int| 0 <= k < rest.len() implies is_item(#[trigger] rest[k]) by {
        assert(rest[k] == xs[k + m]);
    }
    lemma_segments_chained(rest);
    if m < xs.len() {
        lemma_chained_boundary(pre, xs, m);
        assert(t[0] == r[a.len() as int]);
        assert(seq![a, root_part()] + rest =~= seq![a] + seq![root_part()] + rest);
    } else {
        assert(rest =~= Seq::<Seq<char>>::empty());
        assert(t == e);
        assert(seq![a] + rest =~= seq![a] + Seq::<Seq<char>>::empty() + rest);
    }
}

/// Plain names applied to a component list are appended to it.
proof fn lemma_apply_plain_names(ps: Seq<Seq<char>>, names: Seq<Seq<char>>)
    requires
        forall|k: int| 0 <= k < names.len() ==> is_plain_name(#[trigger] names[k]),
    ensures
        apply_parts(ps, names) == ps + names,
    decreases names.len(),
{
    if names.len() == 0 {
        assert(ps + names =~= ps);
    } else {
        let init = names.drop_last();
        assert forall|k: int| 0 <= k < init.len() implies is_plain_name(#[trigger] init[k]) by {
            assert(init[k] == names[k]);
        }
        lemma_apply_plain_names(ps, init);
        let n = names.last();
        assert(is_plain_name(names[names.len() - 1]));
        lemma_plain_name_is_normal(n);
        assert(n != root_part()) by {
            if n == root_part() {
                assert(!is_sep(n[0]));
            }
        }
        assert((ps + init).push(n) =~= ps + names);
    }
}

/// A plain name's own components: itself.
proof fn lemma_relative_parts_plain(n: Seq<char>)
    requires
        is_plain_name(n),
    ensures
        relative_parts(n) == seq![n],
        prefix_len(n) == 0,
        is_item(n),
{
    lemma_plain_name_is_normal(n);
    lemma_plain_no_prefix(n);
    lemma_segments_join_names(seq![n]);
    assert(seq![n].drop_last() =~= Seq::<Seq<char>>::empty());
    assert(join_names(seq![n]) == n);
    let e = Seq::<Seq<char>>::empty();
    e.lemma_filter_push(n, |seg: Seq<char>| seg.len() > 0);
    assert(e.filter(|seg: Seq<char>| seg.len() > 0) =~= e) by {
        reveal(Seq::filter);
    }
    assert(seq![n] =~= e.push(n));
    assert(Seq::<Seq<char>>::empty() + seq![n] =~= seq![n]);
    assert(is_item(n)) by {
        assert forall|i: int| 0 <= i < n.len() implies n[i] != '\\' by {
            assert(!is_sep(n[i]));
        }
    }
}

/// Plain names pushed one by one onto a verbatim path: its prefix, then its
/// components and the names, each after a `\`.
proof fn lemma_push_plain_onto_verbatim(d: Seq<char>, names: Seq<Seq<char>>)
    requires
        is_verbatim(d),
        names.len() >= 1,
        forall|k: int| 0 <= k < names.len() ==> is_plain_name(#[trigger] names[k]),
    ensures
        push_all_names(d, names) == chained(
            d.take(prefix_len(d)),
            nonempty_segments(d.skip(prefix_len(d)), true) + names,
        ),
    decreases names.len(),
{
    let pl = prefix_len(d);
    lemma_prefix_len_bounds(d);
    let pre = d.take(pl);
    let segs = nonempty_segments(d.skip(pl), true);
    lemma_verbatim_body_items(d);
    let n = names.last();
    assert(is_plain_name(names[names.len() - 1]));
    lemma_relative_parts_plain(n);
    assert(pre != root_part()) by {
        assert(pre.len() >= 4);
    }
    let init = names.drop_last();
    assert forall|k: int| 0 <= k < init.len() implies is_plain_name(#[trigger] init[k]) by {
        assert(init[k] == names[k]);
    }
    assert(segs + names =~= (segs + init).push(n));
    let xs1 = (segs + init).push(n);
    assert forall|k: int| 0 <= k < xs1.len() implies is_item(#[trigger] xs1[k]) by {
        if k < segs.len() {
            assert(xs1[k] == segs[k]);
        } else if k < segs.len() + init.len() {
            assert(xs1[k] == init[k - segs.len()]);
            lemma_relative_parts_plain(init[k - segs.len()]);
        }
    }
    if names.len() == 1 {
        assert(init =~= Seq::<Seq<char>>::empty());
        assert(push_all_names(d, init) == d);
        assert(push_all_names(d, names) == join_spec(d, n));
        lemma_apply_plain_names(verbatim_parts(d), seq![n]);
        let body = d.skip(pl);
        let h = if body.len() > 0 && body[0] == '\\' {
            seq![root_part()]
        } else {
            Seq::<Seq<char>>::empty()
        };
        assert(verbatim_parts(d) + seq![n] =~= seq![pre] + h + segs.push(n));
        assert(segs + init =~= segs);
        lemma_render_chained(pre, h, segs.push(n));
    } else {
        lemma_push_plain_onto_verbatim(d, init);
        let xs = segs + init;
        assert(xs.len() >= 1);
        assert forall|k: int| 0 <= k < xs.len() implies is_item(#[trigger] xs[k]) by {
            assert(xs[k] == xs1[k]);
        }
        let x = chained(pre, xs);
        assert(push_all_names(d, init) == x);
        let m = lemma_verbatim_prefix_end(d, xs);
        lemma_prefix_len_bounds(x);
        lemma_verbatim_parts_chained(pre, xs, m);
        let a = chained(pre, xs.take(m));
        let h = if m < xs.len() {
            seq![root_part()]
        } else {
            Seq::<Seq<char>>::empty()
        };
        let rest = xs.skip(m);
        assert(push_all_names(d, names) == join_spec(x, n));
        assert(join_spec(x, n) == verbatim_push(x, n));
        lemma_apply_plain_names(verbatim_parts(x), seq![n]);
        assert(verbatim_parts(x) + seq![n] =~= seq![a] + h + rest.push(n));
        assert forall|k: int| 0 <= k < rest.push(n).len() implies is_item(#[trigger] rest.push(n)[k]) by {
            if k < rest.len() {
                assert(rest.push(n)[k] == xs[k + m]);
            }
        }
        assert(a != root_part()) by {
            assert(a.len() >= 4);
        }
        lemma_render_chained(a, h, rest.push(n));
        assert(rest.push(n).drop_last() =~= rest);
        lemma_chained_split(a, rest, 0);
        assert(rest.take(0) =~= Seq::<Seq<char>>::empty());
        assert(rest.skip(0) =~= rest);
        lemma_chained_split(pre, xs, m);
        assert(chained(a, rest) == x);
        assert(xs1.drop_last() =~= xs);
    }
}

proof fn lemma_filter_nonempty_keeps_all(s: Seq<Seq<char>>)
    requires
        forall|k: int| 0 <= k < s.len() ==> (#[trigger] s[k]).len() > 0,
    ensures
        s.filter(|seg: Seq<char>| seg.len() > 0) == s,
    decreases s.len(),
{
    reveal(Seq::filter);
    if s.len() > 0 {
        let init = s.drop_last();
        assert forall|k: int| 0 <= k < init.len() implies (#[trigger] init[k]).len() > 0 by {
            assert(init[k] == s[k]);
        }
        lemma_filter_nonempty_keeps_all(init);
        init.lemma_filter_push(s.last(), |seg: Seq<char>| seg.len() > 0);
        assert(s =~= init.push(s.last()));
        assert(s[s.len() - 1].len() > 0);
    }
}

/// Names joined with `\`: the first, then each other after a `\`.
proof fn lemma_join_names_chained(names: Seq<Seq<char>>)
    requires
        names.len() >= 1,
    ensures
        join_names(names) == chained(names[0], names.skip(1)),
    decreases names.len(),
{
    if names.len() == 1 {
        assert(names.skip(1) =~= Seq::<Seq<char>>::empty());
    } else {
        let init = names.drop_last();
        lemma_join_names_chained(init);
        assert(names.skip(1).drop_last() =~= init.skip(1));
        assert(names.skip(1).last() == names.last());
        assert(init[0] == names[0]);
    }
}

/// Pushing names in turn: the first, then the rest onto the result.
proof fn lemma_push_all_names_first(base: Seq<char>, names: Seq<Seq<char>>)
    requires
        names.len() >= 1,
    ensures
        push_all_names(base, names) == push_all_names(join_spec(base, names[0]), names.skip(1)),
    decreases names.len(),
{
    if names.len() == 1 {
        assert(names.skip(1) =~= Seq::<Seq<char>>::empty());
        assert(names.drop_last() =~= Seq::<Seq<char>>::empty());
        assert(push_all_names(base, names.drop_last()) == base);
    } else {
        let init = names.drop_last();
        lemma_push_all_names_first(base, init);
        assert(names.skip(1).drop_last() =~= init.skip(1));
        assert(names.skip(1).last() == names.last());
        assert(init[0] == names[0]);
    }
}

/// Plain names pushed one by one land where an ordinary join of the names
/// joined with `\` puts them, under any folder.
pub proof fn law_plain_names_join(dest: Seq<char>, names: Seq<Seq<char>>)
    requires
        names.len() >= 1,
        forall|k: int| 0 <= k < names.len() ==> is_plain_name(#[trigger] names[k]),
    ensures
        safe_join_spec(dest, join_names(names)) == join_spec(dest, join_names(names)),
{
    law_plain_names_rejoin(dest, names);
    if is_verbatim(dest) {
        lemma_plain_names_join_verbatim(dest, names);
    } else if dest == seq!['\\', '\\', '?'] {
        lemma_plain_names_join_bare_verbatim_marker(dest, names);
    } else {
        lemma_push_all_plain_names(dest, names);
        lemma_join_names_chars(names);
        lemma_plain_no_prefix(join_names(names));
    }
}

proof fn lemma_plain_names_join_verbatim(dest: Seq<char>, names: Seq<Seq<char>>)
    requires
        is_verbatim(dest),
        names.len() >= 1,
        forall|k: int| 0 <= k < names.len() ==> is_plain_name(#[trigger] names[k]),
    ensures
        push_all_names(dest, names) == join_spec(dest, join_names(names)),
{
    lemma_push_plain_onto_verbatim(dest, names);
    lemma_verbatim_join_plain(dest, names);
}

/// An ordinary join of plain names onto a verbatim path: its prefix, then
/// its components and the names, each after a `\`.
proof fn lemma_verbatim_join_plain(dest: Seq<char>, names: Seq<Seq<char>>)
    requires
        is_verbatim(dest),
        names.len() >= 1,
        forall|k: int| 0 <= k < names.len() ==> is_plain_name(#[trigger] names[k]),
    ensures
        join_spec(dest, join_names(names)) == chained(
            dest.take(prefix_len(dest)),
            nonempty_segments(dest.skip(prefix_len(dest)), true) + names,
        ),
{
    let j = join_names(names);
    lemma_join_names_chars(names);
    lemma_plain_no_prefix(j);
    assert(join_spec(dest, j) == verbatim_push(dest, j));
    lemma_segments_join_names(names);
    lemma_filter_nonempty_keeps_all(names);
    assert(relative_parts(j) =~= names);
    lemma_apply_plain_names(verbatim_parts(dest), names);
    lemma_render_verbatim_with_names(dest, names);
}

proof fn lemma_render_verbatim_with_names(dest: Seq<char>, names: Seq<Seq<char>>)
    requires
        is_verbatim(dest),
        names.len() >= 1,
        forall|k: int| 0 <= k < names.len() ==> is_plain_name(#[trigger] names[k]),
    ensures
        render_parts(verbatim_parts(dest) + names) == chained(
            dest.take(prefix_len(dest)),
            nonempty_segments(dest.skip(prefix_len(dest)), true) + names,
        ),
{
    assert forall|k: int| 0 <= k < names.len() implies is_item(#[trigger] names[k]) by {
        lemma_relative_parts_plain(names[k]);
    }
    let pl = prefix_len(dest);
    lemma_prefix_len_bounds(dest);
    let pre = dest.take(pl);
    let segs = nonempty_segments(dest.skip(pl), true);
    lemma_verbatim_body_items(dest);
    let body = dest.skip(pl);
    let h = if body.len() > 0 && body[0] == '\\' {
        seq![root_part()]
    } else {
        Seq::<Seq<char>>::empty()
    };
    assert(verbatim_parts(dest) + names =~= seq![pre] + h + (segs + names));
    assert forall|k: int| 0 <= k < (segs + names).len() implies is_item(
        #[trigger] (segs + names)[k],
    ) by {
        if k >= segs.len() {
            assert((segs + names)[k] == names[k - segs.len()]);
        } else {
            assert((segs + names)[k] == segs[k]);
        }
    }
    assert(pre != root_part()) by {
        assert(pre.len() >= 4);
    }
    lemma_render_chained(pre, h, segs + names);
}

/// Onto `\\?` the first name makes a verbatim path whose prefix is all of
/// it; the others are pushed onto that.
proof fn lemma_plain_names_join_bare_verbatim_marker(dest: Seq<char>, names: Seq<Seq<char>>)
    requires
        dest == seq!['\\', '\\', '?'],
        names.len() >= 1,
        forall|k: int| 0 <= k < names.len() ==> is_plain_name(#[trigger] names[k]),
    ensures
        push_all_names(dest, names) == join_spec(dest, join_names(names)),
{
    let j = join_names(names);
    lemma_join_names_chars(names);
    lemma_plain_no_prefix(j);
    lemma_verbatim_chars(dest);
    let n = names[0];
    lemma_relative_parts_plain(n);
    lemma_plain_name_is_normal(n);
    let x = push_rel(dest, n);
    assert(x == dest + seq!['\\'] + n);
    assert(join_spec(dest, n) == x);
    lemma_push_all_names_first(dest, names);
    let rest = names.skip(1);
    lemma_join_names_chained(names);
    lemma_chained_split(n, rest, 0);
    assert(rest.take(0) =~= Seq::<Seq<char>>::empty());
    assert(rest.skip(0) =~= rest);
    let e = Seq::<char>::empty();
    assert(j == n + chained(e, rest));
    assert(join_spec(dest, j) == dest + seq!['\\'] + j);
    lemma_verbatim_chars(x);
    assert(is_verbatim(x));
    lemma_first_sep_is(x, true, 4, x.len() as int);
    let unc = seq!['U', 'N', 'C', '\\'];
    assert(!marker(x, 4, unc)) by {
        if marker(x, 4, unc) {
            assert(norm_sep(x[4int + 3]) == unc[3]);
            assert(x[7] == n[3]);
        }
    }
    assert(!verbatim_disk(x)) by {
        if verbatim_disk(x) {
            assert(x[5] == n[1]);
        }
    }
    assert(prefix_len(x) == x.len());
    assert(x.take(x.len() as int) =~= x);
    assert(x.skip(x.len() as int) =~= e);
    lemma_segments_chained(Seq::<Seq<char>>::empty());
    assert(nonempty_segments(e, true) =~= Seq::<Seq<char>>::empty());
    if rest.len() == 0 {
        assert(chained(e, rest) == e);
        assert(push_all_names(x, rest) == x);
    } else {
        assert forall|k: int| 0 <= k < rest.len() implies is_plain_name(#[trigger] rest[k]) by {
            assert(rest[k] == names[k + 1]);
        }
        lemma_push_plain_onto_verbatim(x, rest);
        assert(Seq::<Seq<char>>::empty() + rest =~= rest);
        lemma_chained_split(x, rest, 0);
    }
}

} // verus!
