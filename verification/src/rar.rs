//! Split-RAR sets in a release tree: which volume to hand to the extractor,
//! and which files belong to the same set.

use vstd::prelude::*;
use crate::names::{dot_part, dot_rar, r_volume_at, part_volume_at, rar_base, rar_base_of};
use crate::text::{
    all_digits, chars_of, ends_with, ends_with_exec, is_digit, lemma_lower_add, lemma_rfind, lemma_rfind_is, lower, lower_chars,
    lowercase_of, occurs_at, opt_view, rfind, rfind_exec, str_eq, to_lowercase,
};

verus! {

/// A file found in a release tree: the folder it sits in and its name.
pub struct FileEntry {
    pub dir: String,
    pub name: String,
}

// ---- parsing the volume number ----

pub open spec fn digits_value(s: Seq<char>) -> nat
    decreases s.len(),
{
    if s.len() == 0 {
        0
    } else {
        digits_value(s.drop_last()) * 10 + ((s.last() as u32) - ('0' as u32)) as nat
    }
}

/// `s.parse::<u32>()`: an optional `+`, then one or more decimal digits
/// whose value fits in 32 bits.
pub open spec fn parse_u32(s: Seq<char>) -> Option<u32> {
    let digits = if s.len() > 0 && s[0] == '+' {
        s.skip(1)
    } else {
        s
    };
    if digits.len() > 0 && all_digits(digits) && digits_value(digits) <= u32::MAX {
        Some(digits_value(digits) as u32)
    } else {
        None
    }
}

fn parse_u32_exec(v: &Vec<char>, from: usize, to: usize) -> (r: Option<u32>)
    requires
        from <= to <= v.len(),
    ensures
        r == parse_u32(v@.subrange(from as int, to as int)),
{
    let ghost s = v@.subrange(from as int, to as int);
    let mut i = from;
    if from < to && v[from] == '+' {
        i = from + 1;
    }
    let ghost digits = v@.subrange(i as int, to as int);
    assert(digits =~= (if s.len() > 0 && s[0] == '+' {
        s.skip(1)
    } else {
        s
    }));
    if i == to {
        return None;
    }
    let start = i;
    let mut value: u64 = 0;
    while i < to
        invariant
            from <= start <= i <= to <= v.len(),
            digits == v@.subrange(start as int, to as int),
            s == v@.subrange(from as int, to as int),
            digits == (if s.len() > 0 && s[0] == '+' {
                s.skip(1)
            } else {
                s
            }),
            digits.len() > 0,
            all_digits(v@.subrange(start as int, i as int)),
            value == digits_value(v@.subrange(start as int, i as int)),
            value <= u32::MAX,
        decreases to - i,
    {
        let c = v[i];
        if !('0' <= c && c <= '9') {
            assert(digits[i - start] == v@[i as int]);
            assert(!is_digit(digits[i - start]));
            return None;
        }
        let d: u64 = (c as u32 - '0' as u32) as u64;
        let ghost prev = v@.subrange(start as int, i as int);
        let ghost next = v@.subrange(start as int, i + 1);
        assert(next.drop_last() =~= prev);
        assert(next.last() == c);
        let nv: u64 = value * 10 + d;
        assert(digits_value(next) == nv);
        if nv > 4294967295 {
            // every further digit only grows the value
            proof {
                lemma_digits_value_grows(digits, (i - start + 1) as int);
                assert(digits.take((i - start + 1) as int) =~= next);
            }
            return None;
        }
        value = nv;
        i += 1;
        assert(all_digits(v@.subrange(start as int, i as int))) by {
            assert forall|k: int| 0 <= k < next.len() implies is_digit(#[trigger] next[k]) by {
                if k < prev.len() {
                    assert(next[k] == prev[k]);
                }
            }
        };
    }
    assert(v@.subrange(start as int, to as int) =~= digits);
    Some(value as u32)
}

proof fn lemma_digits_value_grows(s: Seq<char>, k: int)
    requires
        0 <= k <= s.len(),
    ensures
        all_digits(s) ==> digits_value(s.take(k)) <= digits_value(s),
    decreases s.len() - k,
{
    if k < s.len() && all_digits(s) {
        lemma_digits_value_grows(s, k + 1);
        assert(s.take(k + 1).drop_last() =~= s.take(k));
        assert(is_digit(s.take(k + 1).last()));
    } else if k == s.len() {
        assert(s.take(k) =~= s);
    }
}

} // verus!

verus! {

// ---- which volume comes first ----

/// How early a volume sorts in its set: `(0, NN)` for `.partNN.rar` (the
/// number read after the last `.part`, 0 where it does not parse), `(0, 0)`
/// for a plain `.rar`, `(1, 0)` for an old-style `.rNN`.
pub open spec fn volume_rank(name: Seq<char>) -> (nat, nat) {
    let low = lower(name);
    match rfind(low, dot_part()) {
        Some(pos) => (
            0,
            match parse_u32(low.subrange(pos + 5, low.len() - 4)) {
                Some(n) => n as nat,
                None => 0,
            },
        ),
        None => if ends_with(low, dot_rar()) {
            (0, 0)
        } else {
            (1, 0)
        },
    }
}

pub open spec fn rank_lt(a: (nat, nat), b: (nat, nat)) -> bool {
    a.0 < b.0 || (a.0 == b.0 && a.1 < b.1)
}

/// In a volume name, the last `.part` ends at least four characters before
/// the end of the name.
proof fn lemma_member_part_bounds(name: Seq<char>, pos: int)
    requires
        rar_base_of(name) is Some,
        rfind(lower(name), dot_part()) == Some(pos),
    ensures
        pos + 9 <= name.len(),
{
    let low = lower(name);
    let n = low.len() as int;
    lemma_rfind(low, dot_part());
    assert(low.subrange(pos, pos + 5) == dot_part());
    assert(low[pos] == '.') by { assert(low.subrange(pos, pos + 5)[0] == low[pos]); };
    assert(low[pos + 1] == 'p') by { assert(low.subrange(pos, pos + 5)[1] == low[pos + 1]); };
    assert(low[pos + 2] == 'a') by { assert(low.subrange(pos, pos + 5)[2] == low[pos + 2]); };
    assert(low[pos + 3] == 'r') by { assert(low.subrange(pos, pos + 5)[3] == low[pos + 3]); };
    assert(low[pos + 4] == 't') by { assert(low.subrange(pos, pos + 5)[4] == low[pos + 4]); };
    if part_volume_at(low) is Some {
        let tail = low.skip(pos);
        assert(ends_with(tail, dot_rar()));
        assert(tail[tail.len() - 4] == '.') by {
            assert(tail.skip(tail.len() - 4)[0] == tail[tail.len() - 4]);
        };
        assert(tail[tail.len() - 4] == low[n - 4]);
    } else if ends_with(low, dot_rar()) {
        assert(low[n - 4] == '.') by { assert(low.skip(n - 4)[0] == low[n - 4]); };
        assert(low[n - 3] == 'r') by { assert(low.skip(n - 4)[1] == low[n - 3]); };
    } else {
        let dot = r_volume_at(low)->0;
        lemma_rfind(low, seq!['.']);
        assert(occurs_at(low, seq!['.'], dot));
        assert(low[dot] == '.') by { assert(low.subrange(dot, dot + 1)[0] == low[dot]); };
        let ext = low.skip(dot + 1);
        assert(ext[0] == low[dot + 1]);
        if pos > dot {
            assert(low.subrange(pos, pos + 1) =~= seq!['.']);
            assert(occurs_at(low, seq!['.'], pos));
        }
    }
}

fn volume_rank_exec(name: &str) -> (r: (u8, u32))
    requires
        rar_base_of(name@) is Some,
    ensures
        (r.0 as nat, r.1 as nat) == volume_rank(name@),
{
    let v = chars_of(name);
    let low = lower_chars(&v);
    let part: Vec<char> = vec!['.', 'p', 'a', 'r', 't'];
    let rar: Vec<char> = vec!['.', 'r', 'a', 'r'];
    assert(part@ == dot_part());
    assert(rar@ == dot_rar());
    match rfind_exec(&low, &part) {
        Some(pos) => {
            proof {
                assert(low@ == lower(name@));
                assert(rfind(lower(name@), dot_part()) == Some(pos as int));
                lemma_member_part_bounds(name@, pos as int);
                assert(low@.len() == name@.len());
            }
            assert(pos + 9 <= low.len());
            let n = match parse_u32_exec(&low, pos + 5, low.len() - 4) {
                Some(k) => k,
                None => 0,
            };
            (0, n)
        },
        None => if ends_with_exec(&low, &rar) {
            (0, 0)
        } else {
            (1, 0)
        },
    }
}

// ---- grouping volumes into sets ----

pub open spec fn is_volume(e: FileEntry) -> bool {
    rar_base_of(e.name@) is Some
}

/// The key a volume is grouped by: its folder and its stem, both lower-cased,
/// joined by `|`.
pub open spec fn set_key(e: FileEntry) -> Seq<char> {
    lowercase_of(e.dir@) + seq!['|'] + lowercase_of(rar_base_of(e.name@)->0)
}

pub open spec fn same_set(es: Seq<FileEntry>, i: int, j: int) -> bool {
    is_volume(es[i]) && is_volume(es[j]) && set_key(es[i]) == set_key(es[j])
}

/// How many of the first `k` entries are in the same set as entry `i`.
pub open spec fn count_in_set(es: Seq<FileEntry>, i: int, k: int) -> nat
    decreases k,
{
    if k <= 0 {
        0
    } else {
        count_in_set(es, i, k - 1) + if same_set(es, i, k - 1) {
            1nat
        } else {
            0nat
        }
    }
}

pub open spec fn set_size(es: Seq<FileEntry>, i: int) -> nat {
    count_in_set(es, i, es.len() as int)
}

/// The first volume of the largest split-RAR set among `entries` (the files
/// of a release tree, in the order the walk met them), or `None` where no set
/// has two volumes or more: a lone `.rar` is no split set. The first volume
/// is the earliest-sorting one by `volume_rank`, the earliest met among
/// equals. Of several sets of the same largest size, the one met first is
/// taken.
pub fn find_rar_first_volume(entries: &Vec<FileEntry>) -> (r: Option<usize>)
    ensures
        match r {
            None => forall|i: int|
                0 <= i < entries@.len() && is_volume(entries@[i]) ==> set_size(entries@, i) < 2,
            Some(f) => {
                &&& f < entries@.len()
                &&& is_volume(entries@[f as int])
                &&& set_size(entries@, f as int) >= 2
                &&& forall|i: int|
                    0 <= i < entries@.len() && is_volume(entries@[i]) ==> set_size(entries@, i)
                        <= set_size(entries@, f as int)
                &&& forall|i: int|
                    0 <= i < entries@.len() && is_volume(entries@[i]) && set_size(entries@, i)
                        == set_size(entries@, f as int) ==> exists|j: int|
                        0 <= j <= i && same_set(entries@, f as int, j)
                &&& forall|j: int|
                    0 <= j < entries@.len() && same_set(entries@, f as int, j) ==> !rank_lt(
                        volume_rank(entries@[j].name@),
                        volume_rank(entries@[f as int].name@),
                    )
                &&& forall|j: int|
                    0 <= j < f && same_set(entries@, f as int, j) ==> rank_lt(
                        volume_rank(entries@[f as int].name@),
                        volume_rank(entries@[j].name@),
                    )
            },
        },
{
    let ghost es = entries@;
    let n = entries.len();
    // the grouping key of each volume
    let mut keys: Vec<Option<String>> = Vec::new();
    let mut i: usize = 0;
    while i < n
        invariant
            n == entries.len(),
            es == entries@,
            i <= n,
            keys@.len() == i,
            forall|k: int|
                0 <= k < i ==> match #[trigger] keys@[k] {
                    Some(key) => is_volume(es[k]) && key@ == set_key(es[k]),
                    None => !is_volume(es[k]),
                },
        decreases n - i,
    {
        let e = &entries[i];
        match rar_base(e.name.as_str()) {
            Some(base) => {
                let mut key = to_lowercase(e.dir.as_str());
                key.append("|");
                let lb = to_lowercase(base.as_str());
                key.append(lb.as_str());
                proof {
                    reveal_strlit("|");
                }
                keys.push(Some(key));
            },
            None => {
                keys.push(None);
            },
        }
        i += 1;
    }
    // the size of each volume's set
    let mut sizes: Vec<usize> = Vec::new();
    let mut i: usize = 0;
    while i < n
        invariant
            n == entries.len(),
            es == entries@,
            keys@.len() == n,
            forall|k: int|
                0 <= k < n ==> match #[trigger] keys@[k] {
                    Some(key) => is_volume(es[k]) && key@ == set_key(es[k]),
                    None => !is_volume(es[k]),
                },
            i <= n,
            sizes@.len() == i,
            forall|k: int| 0 <= k < i ==> #[trigger] sizes@[k] == set_size(es, k),
        decreases n - i,
    {
        let mut count: usize = 0;
        let mut j: usize = 0;
        while j < n
            invariant
                n == entries.len(),
                es == entries@,
                keys@.len() == n,
                forall|k: int|
                    0 <= k < n ==> match #[trigger] keys@[k] {
                        Some(key) => is_volume(es[k]) && key@ == set_key(es[k]),
                        None => !is_volume(es[k]),
                    },
                i < n,
                j <= n,
                count == count_in_set(es, i as int, j as int),
                count <= j,
            decreases n - j,
        {
            let same = match (&keys[i], &keys[j]) {
                (Some(a), Some(b)) => str_eq(a.as_str(), b.as_str()),
                _ => false,
            };
            assert(same == same_set(es, i as int, j as int));
            if same {
                count += 1;
            }
            j += 1;
        }
        sizes.push(count);
        i += 1;
    }
    // a volume of a largest set
    let mut best: Option<usize> = None;
    let mut i: usize = 0;
    while i < n
        invariant
            n == entries.len(),
            es == entries@,
            keys@.len() == n,
            forall|k: int|
                0 <= k < n ==> match #[trigger] keys@[k] {
                    Some(key) => is_volume(es[k]) && key@ == set_key(es[k]),
                    None => !is_volume(es[k]),
                },
            sizes@.len() == n,
            forall|k: int| 0 <= k < n ==> #[trigger] sizes@[k] == set_size(es, k),
            i <= n,
            match best {
                None => forall|k: int| 0 <= k < i ==> !is_volume(#[trigger] es[k]),
                Some(b) => b < i && is_volume(es[b as int]) && (forall|k: int|
                    0 <= k < i && is_volume(#[trigger] es[k]) ==> set_size(es, k) <= set_size(
                        es,
                        b as int,
                    )) && (forall|k: int|
                    0 <= k < b && is_volume(#[trigger] es[k]) ==> set_size(es, k) < set_size(
                        es,
                        b as int,
                    )),
            },
        decreases n - i,
    {
        if keys[i].is_some() {
            match best {
                None => {
                    best = Some(i);
                },
                Some(b) => {
                    if sizes[i] > sizes[b] {
                        best = Some(i);
                    }
                },
            }
        }
        i += 1;
    }
    let b = match best {
        None => {
            return None;
        },
        Some(b) => b,
    };
    if sizes[b] < 2 {
        return None;
    }
    // the earliest-sorting volume of that set
    let mut first: Option<(usize, (u8, u32))> = None;
    let mut j: usize = 0;
    while j < n
        invariant
            n == entries.len(),
            es == entries@,
            keys@.len() == n,
            forall|k: int|
                0 <= k < n ==> match #[trigger] keys@[k] {
                    Some(key) => is_volume(es[k]) && key@ == set_key(es[k]),
                    None => !is_volume(es[k]),
                },
            b < n,
            is_volume(es[b as int]),
            j <= n,
            match first {
                None => forall|k: int| 0 <= k < j ==> !same_set(es, b as int, k),
                Some((f, rank)) => {
                    &&& f < j
                    &&& same_set(es, b as int, f as int)
                    &&& (rank.0 as nat, rank.1 as nat) == volume_rank(es[f as int].name@)
                    &&& forall|k: int|
                        0 <= k < j && same_set(es, b as int, k) ==> !rank_lt(
                            volume_rank(es[k].name@),
                            volume_rank(es[f as int].name@),
                        )
                    &&& forall|k: int|
                        0 <= k < f && same_set(es, b as int, k) ==> rank_lt(
                            volume_rank(es[f as int].name@),
                            volume_rank(es[k].name@),
                        )
                },
            },
        decreases n - j,
    {
        let same = match (&keys[b], &keys[j]) {
            (Some(x), Some(y)) => str_eq(x.as_str(), y.as_str()),
            _ => false,
        };
        assert(same == same_set(es, b as int, j as int));
        if same {
            let rk = volume_rank_exec(entries[j].name.as_str());
            match first {
                None => {
                    first = Some((j, rk));
                },
                Some((_, fr)) => {
                    if rk.0 < fr.0 || (rk.0 == fr.0 && rk.1 < fr.1) {
                        first = Some((j, rk));
                    }
                },
            }
        }
        j += 1;
    }
    proof {
        assert(same_set(es, b as int, b as int));
    }
    let f = match first {
        Some((f, _)) => f,
        None => {
            return None;
        },
    };
    proof {
        lemma_same_set_size(es, b as int, f as int, n as int);
        assert forall|k: int| 0 <= k < n implies same_set(es, f as int, k) == same_set(
            es,
            b as int,
            k,
        ) by {}
        assert forall|i: int|
            0 <= i < n && is_volume(es[i]) && set_size(es, i) == set_size(es, f as int) implies exists|j: int|
            0 <= j <= i && same_set(es, f as int, j) by {
            assert(same_set(es, f as int, b as int));
        }
    }
    Some(f)
}

/// Members of one set count the same members.
proof fn lemma_same_set_size(es: Seq<FileEntry>, a: int, b: int, k: int)
    requires
        same_set(es, a, b),
    ensures
        count_in_set(es, a, k) == count_in_set(es, b, k),
    decreases k,
{
    if k > 0 {
        lemma_same_set_size(es, a, b, k - 1);
    }
}

} // verus!

verus! {

/// `name` belongs to the split-RAR set whose first volume is `first`: both
/// are volumes and their stems agree, ignoring case.
pub open spec fn in_set_of(first: Seq<char>, name: Seq<char>) -> bool {
    rar_base_of(first) is Some && rar_base_of(name) is Some && lowercase_of(rar_base_of(name)->0)
        == lowercase_of(rar_base_of(first)->0)
}

/// Whether the file `name` (beside `first`) is one of the volumes to delete
/// with the set that starts at `first`.
pub fn in_rar_set(first: &str, name: &str) -> (b: bool)
    ensures
        b == in_set_of(first@, name@),
{
    let fb = match rar_base(first) {
        Some(b) => b,
        None => {
            return false;
        },
    };
    match rar_base(name) {
        Some(nb) => {
            let x = to_lowercase(nb.as_str());
            let y = to_lowercase(fb.as_str());
            str_eq(x.as_str(), y.as_str())
        },
        None => false,
    }
}

} // verus!

verus! {

/// Only split-RAR volumes belong to a set: a file in the set of `first` is a
/// volume, and `first` is one too; the set is found by stem, so every
/// volume with the same stem as `first` belongs to it, `first` included.
pub proof fn law_rar_set_holds_only_volumes(first: Seq<char>, name: Seq<char>)
    ensures
        in_set_of(first, name) ==> rar_base_of(name) is Some && rar_base_of(first) is Some,
        (rar_base_of(first) is Some && rar_base_of(name) == rar_base_of(first)) ==> in_set_of(
            first,
            name,
        ),
        rar_base_of(first) is Some ==> in_set_of(first, first),
{
}

} // verus!

verus! {

/// How the volumes of a set rank (for a stem `foo` with no `.part` in it):
/// `foo.rar` ranks first, before every `foo.rNN` continuation volume, and
/// `foo.partNN.rar` ranks by its number `NN` among the new-style volumes.
pub proof fn law_volume_ranks(foo: Seq<char>, d: Seq<char>)
    requires
        forall|k: int| !occurs_at(lower(foo), dot_part(), k),
        all_digits(d),
        d.len() >= 2,
    ensures
        volume_rank(foo + dot_rar()) == (0nat, 0nat),
        volume_rank(foo + seq!['.', 'r'] + d) == (1nat, 0nat),
        volume_rank(foo + dot_part() + d + dot_rar()) == (0nat, match parse_u32(d) {
            Some(n) => n as nat,
            None => 0nat,
        }),
        rank_lt(volume_rank(foo + dot_rar()), volume_rank(foo + seq!['.', 'r'] + d)),
{
    let lf = lower(foo);
    let n = foo.len() as int;
    assert(lower(d) =~= d);
    assert(lower(dot_rar()) =~= dot_rar());
    assert(lower(dot_part()) =~= dot_part());
    assert(lower(seq!['.', 'r']) =~= seq!['.', 'r']);
    // foo.rar
    let a = foo + dot_rar();
    lemma_lower_add(foo, dot_rar());
    let la = lower(a);
    assert(la =~= lf + dot_rar());
    assert forall|k: int| !occurs_at(la, dot_part(), k) by {
        if occurs_at(la, dot_part(), k) {
            if k + 5 <= n {
                assert(la.subrange(k, k + 5) =~= lf.subrange(k, k + 5));
                assert(!occurs_at(lf, dot_part(), k));
            } else {
                assert(la.subrange(k, k + 5)[4] == la[k + 4]);
                assert(la[k + 4] == dot_rar()[k + 4 - n]);
            }
        }
    }
    lemma_rfind(la, dot_part());
    assert(la.skip(la.len() - 4) =~= dot_rar());
    // foo.rNN
    let b = foo + seq!['.', 'r'] + d;
    lemma_lower_add(foo + seq!['.', 'r'], d);
    lemma_lower_add(foo, seq!['.', 'r']);
    let lb = lower(b);
    assert(lb =~= lf + seq!['.', 'r'] + d);
    assert forall|k: int| !occurs_at(lb, dot_part(), k) by {
        if occurs_at(lb, dot_part(), k) {
            if k + 5 <= n {
                assert(lb.subrange(k, k + 5) =~= lf.subrange(k, k + 5));
                assert(!occurs_at(lf, dot_part(), k));
            } else {
                assert(lb.subrange(k, k + 5)[4] == lb[k + 4]);
                if k + 4 >= n + 2 {
                    assert(lb[k + 4] == d[k + 4 - n - 2]);
                } else {
                    assert(lb[k + 4] == seq!['.', 'r'][k + 4 - n]);
                }
            }
        }
    }
    lemma_rfind(lb, dot_part());
    assert(!ends_with(lb, dot_rar())) by {
        if ends_with(lb, dot_rar()) {
            assert(lb.skip(lb.len() - 4)[3] == lb[lb.len() - 1]);
            assert(lb[lb.len() - 1] == d[d.len() - 1]);
        }
    }
    // foo.partNN.rar
    let c = foo + dot_part() + d + dot_rar();
    lemma_lower_add(foo + dot_part() + d, dot_rar());
    lemma_lower_add(foo + dot_part(), d);
    lemma_lower_add(foo, dot_part());
    let lc = lower(c);
    assert(lc =~= lf + dot_part() + d + dot_rar());
    assert(occurs_at(lc, dot_part(), n)) by {
        assert(lc.subrange(n, n + 5) =~= dot_part());
    }
    assert forall|k: int| n < k implies !occurs_at(lc, dot_part(), k) by {
        if occurs_at(lc, dot_part(), k) {
            assert(lc.subrange(k, k + 5)[4] == lc[k + 4]);
            if k + 4 < n + 5 + d.len() {
                assert(lc[k + 4] == d[k + 4 - n - 5]);
            } else {
                assert(lc[k + 4] == dot_rar()[k + 4 - n - 5 - d.len()]);
            }
        }
    }
    lemma_rfind_is(lc, dot_part(), n);
    assert(lc.subrange(n + 5, lc.len() - 4) =~= d);
}

} // verus!
