//! What a file name says about its role in a release: split-RAR volumes,
//! disc images, installers, main executables and crack folders.

use vstd::prelude::*;
use crate::text::{
    all_digits, all_digits_exec, ascii_lower, chars_of, contains_seq, ends_with, ends_with_exec,
    eq_ignore_ascii_case, lemma_lower_add, lemma_rfind, lemma_rfind_is, lower, lower_chars,
    lowercase_of, occurs_at, opt_view, rfind, rfind_exec, slice_chars, str_contains, str_eq,
    string_of, to_lowercase,
};

verus! {

pub open spec fn dot_part() -> Seq<char> {
    seq!['.', 'p', 'a', 'r', 't']
}

pub open spec fn dot_rar() -> Seq<char> {
    seq!['.', 'r', 'a', 'r']
}

/// `foo.partNN.rar`: the position of the last `.part`, when only digits
/// stand between it and a final `.rar` (checked case-insensitively).
pub open spec fn part_volume_at(low: Seq<char>) -> Option<int> {
    match rfind(low, dot_part()) {
        Some(pos) => {
            let tail = low.skip(pos);
            if ends_with(tail, dot_rar()) && all_digits(tail.subrange(5, tail.len() - 4)) {
                Some(pos)
            } else {
                None
            }
        },
        None => None,
    }
}

/// `foo.rNN` / `foo.rNNN`: the position of the last dot, when the extension
/// is `r` followed by at least two digits.
pub open spec fn r_volume_at(low: Seq<char>) -> Option<int> {
    match rfind(low, seq!['.']) {
        Some(dot) => {
            let ext = low.skip(dot + 1);
            if ext.len() >= 3 && ext[0] == 'r' && all_digits(ext.skip(1)) {
                Some(dot)
            } else {
                None
            }
        },
        None => None,
    }
}

/// The shared stem of a split-RAR volume: `foo.rar`, `foo.r07` and
/// `foo.part03.rar` all have the stem `foo`; any other name has none.
pub open spec fn rar_base_of(name: Seq<char>) -> Option<Seq<char>> {
    let low = lower(name);
    match part_volume_at(low) {
        Some(pos) => Some(name.take(pos)),
        None => if ends_with(low, dot_rar()) {
            Some(name.take(name.len() - 4))
        } else {
            match r_volume_at(low) {
                Some(dot) => Some(name.take(dot)),
                None => None,
            }
        },
    }
}

/// The shared stem of a split-RAR volume name, or `None` for any other name.
pub fn rar_base(name: &str) -> (r: Option<String>)
    ensures
        opt_view(r) == rar_base_of(name@),
{
    let v = chars_of(name);
    let low = lower_chars(&v);
    let n = low.len();
    let part: Vec<char> = vec!['.', 'p', 'a', 'r', 't'];
    let rar: Vec<char> = vec!['.', 'r', 'a', 'r'];
    let dot: Vec<char> = vec!['.'];
    assert(low@.len() == v@.len());
    assert(part@ == dot_part());
    assert(rar@ == dot_rar());
    assert(dot@ == seq!['.']);
    let ends_rar = ends_with_exec(&low, &rar);
    match rfind_exec(&low, &part) {
        Some(pos) => {
            proof {
                lemma_rfind(low@, dot_part());
                assert(low@.subrange(pos as int, pos + 5) == dot_part());
            }
            let ghost tail = low@.skip(pos as int);
            assert(ends_rar && n - pos >= 4 ==> ends_with(tail, dot_rar())) by {
                if ends_rar && n - pos >= 4 {
                    assert(tail.skip(tail.len() - 4) =~= low@.skip(n - 4));
                }
            };
            assert(ends_with(tail, dot_rar()) ==> ends_rar) by {
                if ends_with(tail, dot_rar()) {
                    assert(tail.skip(tail.len() - 4) =~= low@.skip(n - 4));
                }
            };
            if ends_rar && n - pos >= 4 {
                assert(n - pos >= 9) by {
                    assert(low@[n - 4] == '.');
                    assert(low@.subrange(pos as int, pos + 5)[1] == 'p');
                    assert(low@.subrange(pos as int, pos + 5)[2] == 'a');
                    assert(low@.subrange(pos as int, pos + 5)[3] == 'r');
                    assert(low@.subrange(pos as int, pos + 5)[4] == 't');
                    assert(low@.skip(n - 4)[0] == '.');
                };
                assert(tail.subrange(5, tail.len() - 4) =~= low@.subrange(pos + 5, n - 4));
                if all_digits_exec(&low, pos + 5, n - 4) {
                    let b = slice_chars(&v, 0, pos);
                    assert(b@ =~= v@.take(pos as int));
                    return Some(string_of(b.as_slice()));
                }
            }
        },
        None => {},
    }
    assert(part_volume_at(low@) is None);
    if ends_rar {
        let b = slice_chars(&v, 0, n - 4);
        assert(b@ =~= v@.take(n - 4));
        return Some(string_of(b.as_slice()));
    }
    match rfind_exec(&low, &dot) {
        Some(d) => {
            proof {
                lemma_rfind(low@, seq!['.']);
                assert(dot@ == seq!['.']);
                assert(d + 1 <= n);
            }
            let ghost ext = low@.skip(d + 1);
            if n - (d + 1) >= 3 && low[d + 1] == 'r' {
                assert(ext.skip(1) =~= low@.subrange(d + 2, n as int));
                if all_digits_exec(&low, d + 2, n) {
                    let b = slice_chars(&v, 0, d);
                    assert(b@ =~= v@.take(d as int));
                    return Some(string_of(b.as_slice()));
                }
            }
            None
        },
        None => None,
    }
}

} // verus!

verus! {

/// The last `.part` in `low` is followed by digits only.
pub open spec fn ends_in_part_number(low: Seq<char>) -> bool {
    match rfind(low, dot_part()) {
        Some(p) => all_digits(low.skip(p + 5)),
        None => false,
    }
}

proof fn lemma_lower_digits(d: Seq<char>)
    requires
        all_digits(d),
    ensures
        lower(d) == d,
{
    assert(lower(d) =~= d);
}

/// A stem is a proper prefix of the name it came from.
pub proof fn law_rar_base_is_prefix(name: Seq<char>)
    ensures
        rar_base_of(name) matches Some(b) ==> b.len() < name.len() && name.take(b.len() as int) == b,
{
    let low = lower(name);
    lemma_rfind(low, dot_part());
    lemma_rfind(low, seq!['.']);
}

/// Old-style continuation volumes: `foo.rNN` (two or more digits) has the
/// stem `foo`, whatever `foo` is.
pub proof fn law_r_volume_base(foo: Seq<char>, digits: Seq<char>)
    requires
        all_digits(digits),
        digits.len() >= 2,
    ensures
        rar_base_of(foo + seq!['.', 'r'] + digits) == Some(foo),
{
    let name = foo + seq!['.', 'r'] + digits;
    let n = name.len() as int;
    let lf = foo.len() as int;
    lemma_lower_add(foo, seq!['.', 'r']);
    lemma_lower_add(foo + seq!['.', 'r'], digits);
    lemma_lower_digits(digits);
    assert(lower(seq!['.', 'r']) =~= seq!['.', 'r']);
    let low = lower(name);
    assert(low == lower(foo) + seq!['.', 'r'] + digits);
    assert(low[n - 1] == digits[digits.len() - 1]);
    assert(!ends_with(low, dot_rar())) by {
        if ends_with(low, dot_rar()) {
            assert(low.skip(n - 4)[3] == low[n - 1]);
        }
    };
    lemma_rfind(low, dot_part());
    if let Some(pos) = rfind(low, dot_part()) {
        let tail = low.skip(pos);
        if ends_with(tail, dot_rar()) {
            assert(tail.skip(tail.len() - 4)[3] == low[n - 1]);
        }
    }
    assert(part_volume_at(low) is None);
    assert(occurs_at(low, seq!['.'], lf)) by {
        assert(low.subrange(lf, lf + 1) =~= seq!['.']);
    };
    assert forall|k: int| lf < k implies !occurs_at(low, seq!['.'], k) by {
        if occurs_at(low, seq!['.'], k) {
            assert(low.subrange(k, k + 1)[0] == low[k]);
            if k == lf + 1 {
                assert(low[k] == 'r');
            } else {
                assert(low[k] == digits[k - lf - 2]);
            }
        }
    };
    lemma_rfind_is(low, seq!['.'], lf);
    let ext = low.skip(lf + 1);
    assert(ext.skip(1) =~= digits);
    assert(name.take(lf) =~= foo);
}

/// New-style volumes: `foo.partNN.rar` has the stem `foo`, whatever `foo` is.
#[verifier::spinoff_prover]
#[verifier::rlimit(40)]
pub proof fn law_part_volume_base(foo: Seq<char>, digits: Seq<char>)
    requires
        all_digits(digits),
    ensures
        rar_base_of(foo + dot_part() + digits + dot_rar()) == Some(foo),
{
    let name = foo + dot_part() + digits + dot_rar();
    let n = name.len() as int;
    let lf = foo.len() as int;
    let ld = digits.len() as int;
    lemma_lower_add(foo, dot_part());
    lemma_lower_add(foo + dot_part(), digits);
    lemma_lower_add(foo + dot_part() + digits, dot_rar());
    lemma_lower_digits(digits);
    assert(lower(dot_part()) =~= dot_part());
    assert(lower(dot_rar()) =~= dot_rar());
    let low = lower(name);
    assert(low == lower(foo) + dot_part() + digits + dot_rar());
    assert(occurs_at(low, dot_part(), lf)) by {
        assert(low.subrange(lf, lf + 5) =~= dot_part());
    };
    assert forall|k: int| lf < k implies !occurs_at(low, dot_part(), k) by {
        if occurs_at(low, dot_part(), k) {
            assert(low.subrange(k, k + 5)[0] == low[k]);
            assert(low.subrange(k, k + 5)[1] == low[k + 1]);
            if k < lf + 5 {
                assert(low[k] == dot_part()[k - lf]);
            } else if k < lf + 5 + ld {
                assert(low[k] == digits[k - lf - 5]);
            } else {
                assert(low[k] == dot_rar()[k - lf - 5 - ld]);
                assert(low[k + 1] == dot_rar()[k + 1 - lf - 5 - ld]);
            }
        }
    };
    lemma_rfind_is(low, dot_part(), lf);
    let tail = low.skip(lf);
    assert(tail =~= dot_part() + digits + dot_rar());
    assert(tail.skip(tail.len() - 4) =~= dot_rar());
    assert(tail.subrange(5, tail.len() - 4) =~= digits);
    assert(name.take(lf) =~= foo);
}

/// First volumes: `foo.rar` has the stem `foo`, unless `foo` itself ends in
/// `.part` and digits (then the name reads as a `.partNN.rar` volume).
pub proof fn law_rar_volume_base(foo: Seq<char>)
    requires
        !ends_in_part_number(lower(foo)),
    ensures
        rar_base_of(foo + dot_rar()) == Some(foo),
{
    let name = foo + dot_rar();
    let n = name.len() as int;
    let lf = foo.len() as int;
    let lfoo = lower(foo);
    lemma_lower_add(foo, dot_rar());
    assert(lower(dot_rar()) =~= dot_rar());
    let low = lower(name);
    assert(low == lfoo + dot_rar());
    assert(ends_with(low, dot_rar())) by {
        assert(low.skip(n - 4) =~= dot_rar());
    };
    lemma_rfind(low, dot_part());
    lemma_rfind(lfoo, dot_part());
    assert forall|k: int| #![trigger occurs_at(low, dot_part(), k)]
        occurs_at(low, dot_part(), k) <==> occurs_at(lfoo, dot_part(), k) by {
        if occurs_at(low, dot_part(), k) {
            assert(low.subrange(k, k + 5)[0] == low[k]);
            assert(low.subrange(k, k + 5)[1] == low[k + 1]);
            if k + 5 > lf {
                if k >= lf {
                    assert(low[k] == dot_rar()[k - lf]);
                    assert(low[k + 1] == dot_rar()[k + 1 - lf]);
                } else {
                    assert(low.subrange(k, k + 5)[lf - k] == low[lf]);
                    assert(low[lf] == '.');
                }
            } else {
                assert(lfoo.subrange(k, k + 5) =~= low.subrange(k, k + 5));
            }
        }
        if occurs_at(lfoo, dot_part(), k) {
            assert(lfoo.subrange(k, k + 5) =~= low.subrange(k, k + 5));
        }
    };
    match rfind(low, dot_part()) {
        Some(pos) => {
            assert forall|k: int| pos < k implies !occurs_at(lfoo, dot_part(), k) by {
                assert(occurs_at(low, dot_part(), k) == occurs_at(lfoo, dot_part(), k));
            };
            assert(occurs_at(low, dot_part(), pos) == occurs_at(lfoo, dot_part(), pos));
            lemma_rfind_is(lfoo, dot_part(), pos);
            let tail = low.skip(pos);
            assert(tail.subrange(5, tail.len() - 4) =~= lfoo.skip(pos + 5));
        },
        None => {},
    }
    assert(part_volume_at(low) is None);
    assert(name.take(n - 4) =~= foo);
}

} // verus!

verus! {

// ---- stem and extension, as `Path::file_stem` / `Path::extension` split a file name ----

/// The extension of a file name: what follows its last dot, unless that dot
/// is the first character (`.hidden`) or the name is `..`.
pub open spec fn extension_of(name: Seq<char>) -> Option<Seq<char>> {
    if name == seq!['.', '.'] {
        None
    } else {
        match rfind(name, seq!['.']) {
            Some(d) => if d > 0 {
                Some(name.skip(d + 1))
            } else {
                None
            },
            None => None,
        }
    }
}

/// The stem of a file name: the name without its extension and last dot.
pub open spec fn stem_of(name: Seq<char>) -> Seq<char> {
    if name == seq!['.', '.'] {
        name
    } else {
        match rfind(name, seq!['.']) {
            Some(d) => if d > 0 {
                name.take(d)
            } else {
                name
            },
            None => name,
        }
    }
}

fn last_dot(v: &Vec<char>) -> (r: Option<usize>)
    ensures
        v@ != seq!['.', '.'] ==> match r {
            Some(d) => extension_of(v@) == Some(v@.skip(d + 1)) && stem_of(v@) == v@.take(
                d as int,
            ) && d < v@.len(),
            None => extension_of(v@) is None && stem_of(v@) == v@,
        },
        v@ == seq!['.', '.'] ==> r is None,
        match r {
            Some(d) => d < v@.len(),
            None => true,
        },
{
    if v.len() == 2 && v[0] == '.' && v[1] == '.' {
        assert(v@ =~= seq!['.', '.']);
        return None;
    }
    let dot: Vec<char> = vec!['.'];
    assert(dot@ == seq!['.']);
    let r = rfind_exec(v, &dot);
    proof {
        lemma_rfind(v@, seq!['.']);
    }
    match r {
        Some(d) => if d > 0 {
            Some(d)
        } else {
            None
        },
        None => None,
    }
}

/// `Path::new(name).extension()` for a file name.
pub fn extension(name: &str) -> (r: Option<String>)
    ensures
        opt_view(r) == extension_of(name@),
{
    let v = chars_of(name);
    match last_dot(&v) {
        Some(d) => {
            assert(d < v.len());
            let e = slice_chars(&v, d + 1, v.len());
            assert(e@ =~= v@.skip(d + 1));
            Some(string_of(e.as_slice()))
        },
        None => None,
    }
}

/// `Path::new(name).file_stem()` for a file name.
pub fn file_stem(name: &str) -> (r: String)
    ensures
        r@ == stem_of(name@),
{
    let v = chars_of(name);
    match last_dot(&v) {
        Some(d) => {
            let e = slice_chars(&v, 0, d);
            assert(e@ =~= v@.take(d as int));
            string_of(e.as_slice())
        },
        None => string_of(v.as_slice()),
    }
}

/// The extension lower-cased, or empty where there is none.
pub open spec fn lower_ext(name: Seq<char>) -> Seq<char> {
    match extension_of(name) {
        Some(e) => lowercase_of(e),
        None => Seq::empty(),
    }
}

pub fn lower_extension(name: &str) -> (r: String)
    ensures
        r@ == lower_ext(name@),
{
    match extension(name) {
        Some(e) => to_lowercase(e.as_str()),
        None => String::new(),
    }
}

// ---- roles of files ----

/// The disc-image extensions that can be mounted and run.
pub open spec fn is_iso_ext(low: Seq<char>) -> bool {
    low == "iso"@ || low == "mds"@ || low == "mdf"@ || low == "nrg"@
}

pub fn is_iso_ext_exec(low: &str) -> (b: bool)
    ensures
        b == is_iso_ext(low@),
{
    str_eq(low, "iso") || str_eq(low, "mds") || str_eq(low, "mdf") || str_eq(low, "nrg")
}

/// A disc image: its extension, lower-cased, is one of the image kinds.
pub open spec fn is_disc_image(name: Seq<char>) -> bool {
    extension_of(name) is Some && is_iso_ext(lower_ext(name))
}

pub fn is_disc_image_name(name: &str) -> (b: bool)
    ensures
        b == is_disc_image(name@),
{
    match extension(name) {
        Some(_) => {
            let l = lower_extension(name);
            is_iso_ext_exec(l.as_str())
        },
        None => false,
    }
}

/// An installer in a release tree: an `.exe` or `.msi` whose stem,
/// lower-cased, mentions `setup` or `install` or is `autorun`.
pub open spec fn is_installer(name: Seq<char>) -> bool {
    let ext = lower_ext(name);
    let stem = lowercase_of(stem_of(name));
    (ext == "exe"@ || ext == "msi"@) && (contains_seq(stem, "setup"@) || contains_seq(
        stem,
        "install"@,
    ) || stem == "autorun"@)
}

pub fn is_installer_name(name: &str) -> (b: bool)
    ensures
        b == is_installer(name@),
{
    let ext = lower_extension(name);
    if !(str_eq(ext.as_str(), "exe") || str_eq(ext.as_str(), "msi")) {
        return false;
    }
    let stem = to_lowercase(file_stem(name).as_str());
    str_contains(stem.as_str(), "setup") || str_contains(stem.as_str(), "install") || str_eq(
        stem.as_str(),
        "autorun",
    )
}

/// An extension equal to `exe` ignoring ASCII case.
pub open spec fn has_exe_ext(name: Seq<char>) -> bool {
    match extension_of(name) {
        Some(e) => ascii_lower(e) == ascii_lower("exe"@),
        None => false,
    }
}

pub fn has_exe_extension(name: &str) -> (b: bool)
    ensures
        b == has_exe_ext(name@),
{
    match extension(name) {
        Some(e) => eq_ignore_ascii_case(e.as_str(), "exe"),
        None => false,
    }
}

/// A setup program at the root of a mounted disc: an `.exe` whose name,
/// lower-cased, mentions `setup`, `install` or `autorun`.
pub open spec fn is_disc_setup(name: Seq<char>) -> bool {
    let low = lowercase_of(name);
    has_exe_ext(name) && (contains_seq(low, "setup"@) || contains_seq(low, "install"@)
        || contains_seq(low, "autorun"@))
}

pub fn is_disc_setup_name(name: &str) -> (b: bool)
    ensures
        b == is_disc_setup(name@),
{
    if !has_exe_extension(name) {
        return false;
    }
    let low = to_lowercase(name);
    str_contains(low.as_str(), "setup") || str_contains(low.as_str(), "install") || str_contains(
        low.as_str(),
        "autorun",
    )
}

/// The words that mark an `.exe` as a helper rather than the game.
pub open spec fn junk_words() -> Seq<Seq<char>> {
    seq![
        "unins"@,
        "setup"@,
        "install"@,
        "redist"@,
        "vcredist"@,
        "vc_redist"@,
        "dxsetup"@,
        "dxwebsetup"@,
        "dotnet"@,
        "oalinst"@,
        "crashhandler"@,
        "unitycrashhandler"@,
        "crashreport"@,
        "crashpad"@,
        "touchup"@,
        "cleanup"@,
        "activate"@,
        "register"@,
    ]
}

fn junk_word_list() -> (v: Vec<&'static str>)
    ensures
        v@.len() == junk_words().len(),
        forall|i: int| 0 <= i < v@.len() ==> v@[i]@ == junk_words()[i],
{
    let v: Vec<&'static str> = vec![
        "unins",
        "setup",
        "install",
        "redist",
        "vcredist",
        "vc_redist",
        "dxsetup",
        "dxwebsetup",
        "dotnet",
        "oalinst",
        "crashhandler",
        "unitycrashhandler",
        "crashreport",
        "crashpad",
        "touchup",
        "cleanup",
        "activate",
        "register",
    ];
    v
}

/// A helper executable: its name, lower-cased, contains one of the junk words.
pub open spec fn is_junk_exe(name: Seq<char>) -> bool {
    exists|i: int| 0 <= i < junk_words().len() && contains_seq(lowercase_of(name), #[trigger] junk_words()[i])
}

pub fn is_junk_exe_name(name: &str) -> (b: bool)
    ensures
        b == is_junk_exe(name@),
{
    let low = to_lowercase(name);
    let words = junk_word_list();
    let mut i: usize = 0;
    while i < words.len()
        invariant
            low@ == lowercase_of(name@),
            words@.len() == junk_words().len(),
            forall|k: int| 0 <= k < words@.len() ==> words@[k]@ == junk_words()[k],
            i <= words.len(),
            forall|k: int| 0 <= k < i ==> !contains_seq(low@, #[trigger] junk_words()[k]),
        decreases words.len() - i,
    {
        if str_contains(low.as_str(), words[i]) {
            return true;
        }
        i += 1;
    }
    false
}

/// A launchable game executable: an `.exe` that is not a helper.
pub open spec fn is_game_exe(name: Seq<char>) -> bool {
    has_exe_ext(name) && !is_junk_exe(name)
}

/// The folder names under which scene discs keep their crack.
pub open spec fn crack_dir_names() -> Seq<Seq<char>> {
    seq![
        "crack"@,
        "crackfix"@,
        "cracked"@,
        "fix"@,
        "reloaded"@,
        "skidrow"@,
        "codex"@,
        "plaza"@,
        "prophet"@,
        "hoodlum"@,
        "razor1911"@,
        "rld"@,
        "razordox"@,
        "tenoke"@,
    ]
}

/// A crack folder: its name, lower-cased, is one of the crack folder names.
pub open spec fn is_crack_dir(name: Seq<char>) -> bool {
    crack_dir_names().contains(lowercase_of(name))
}

pub fn is_crack_dir_name(name: &str) -> (b: bool)
    ensures
        b == is_crack_dir(name@),
{
    let low = to_lowercase(name);
    let names: Vec<&'static str> = vec![
        "crack",
        "crackfix",
        "cracked",
        "fix",
        "reloaded",
        "skidrow",
        "codex",
        "plaza",
        "prophet",
        "hoodlum",
        "razor1911",
        "rld",
        "razordox",
        "tenoke",
    ];
    let mut i: usize = 0;
    while i < names.len()
        invariant
            low@ == lowercase_of(name@),
            names@.len() == crack_dir_names().len(),
            forall|k: int| 0 <= k < names@.len() ==> names@[k]@ == crack_dir_names()[k],
            i <= names.len(),
            forall|k: int| 0 <= k < i ==> low@ != #[trigger] crack_dir_names()[k],
        decreases names.len() - i,
    {
        if str_eq(low.as_str(), names[i]) {
            assert(crack_dir_names()[i as int] == low@);
            return true;
        }
        i += 1;
    }
    false
}

/// Where a release's staged crack is copied inside its install folder.
pub open spec fn crack_stage_dir() -> Seq<char> {
    "_Ludex-Crack"@
}

/// A walk of a release tree goes into a folder when it is not yet at the
/// depth limit and the folder is not the staged-crack folder.
pub open spec fn descends_into(depth: nat, max_depth: nat, name: Seq<char>) -> bool {
    depth < max_depth && name != crack_stage_dir()
}

pub fn descend_into(depth: usize, max_depth: usize, name: &str) -> (b: bool)
    ensures
        b == descends_into(depth as nat, max_depth as nat, name@),
{
    depth < max_depth && !str_eq(name, "_Ludex-Crack")
}

} // verus!

verus! {

/// Helper executables are exactly those whose lower-cased name mentions one
/// of the helper words (uninstallers, setups, redistributables, crash
/// reporters and the like).
pub proof fn law_junk_words(name: Seq<char>)
    ensures
        ({
            let low = lowercase_of(name);
            is_junk_exe(name) <==> (contains_seq(low, "unins"@) || contains_seq(low, "setup"@)
                || contains_seq(low, "install"@) || contains_seq(low, "redist"@) || contains_seq(
                low,
                "vcredist"@,
            ) || contains_seq(low, "vc_redist"@) || contains_seq(low, "dxsetup"@) || contains_seq(
                low,
                "dxwebsetup"@,
            ) || contains_seq(low, "dotnet"@) || contains_seq(low, "oalinst"@) || contains_seq(
                low,
                "crashhandler"@,
            ) || contains_seq(low, "unitycrashhandler"@) || contains_seq(low, "crashreport"@)
                || contains_seq(low, "crashpad"@) || contains_seq(low, "touchup"@) || contains_seq(
                low,
                "cleanup"@,
            ) || contains_seq(low, "activate"@) || contains_seq(low, "register"@))
        }),
{
    let w = junk_words();
    assert(w[0] == "unins"@ && w[1] == "setup"@ && w[2] == "install"@ && w[3] == "redist"@ && w[4]
        == "vcredist"@ && w[5] == "vc_redist"@ && w[6] == "dxsetup"@ && w[7] == "dxwebsetup"@
        && w[8] == "dotnet"@ && w[9] == "oalinst"@ && w[10] == "crashhandler"@ && w[11]
        == "unitycrashhandler"@ && w[12] == "crashreport"@ && w[13] == "crashpad"@ && w[14]
        == "touchup"@ && w[15] == "cleanup"@ && w[16] == "activate"@ && w[17] == "register"@);
    assert(w.len() == 18);
    let low = lowercase_of(name);
    if is_junk_exe(name) {
        let i = choose|i: int| 0 <= i < w.len() && contains_seq(low, #[trigger] w[i]);
        assert(0 <= i < 18);
    }
}

/// An installer in a release tree is an `.exe` or `.msi` (extension
/// compared lower-cased) whose lower-cased stem mentions `setup` or
/// `install` anywhere, or is `autorun`; nothing else is.
pub proof fn law_installer_names(name: Seq<char>)
    ensures
        ({
            let ext = lower_ext(name);
            let stem = lowercase_of(stem_of(name));
            is_installer(name) <==> ((ext == "exe"@ || ext == "msi"@) && (contains_seq(
                stem,
                "setup"@,
            ) || contains_seq(stem, "install"@) || stem == "autorun"@))
        }),
{
}

/// A disc's setup program is an `.exe` (any case) whose lower-cased name
/// mentions `setup`, `install` or `autorun` anywhere; nothing else is.
pub proof fn law_disc_setup_names(name: Seq<char>)
    ensures
        ({
            let low = lowercase_of(name);
            is_disc_setup(name) <==> ((extension_of(name) matches Some(e) && ascii_lower(e)
                == "exe"@) && (contains_seq(low, "setup"@) || contains_seq(low, "install"@)
                || contains_seq(low, "autorun"@)))
        }),
{
    reveal_strlit("exe");
    assert(ascii_lower("exe"@) =~= "exe"@);
}

/// The disc images that can be mounted are the files with extension `iso`,
/// `mds`, `mdf` or `nrg`, compared lower-cased.
pub proof fn law_disc_image_extensions(name: Seq<char>)
    ensures
        ({
            let ext = lower_ext(name);
            is_disc_image(name) <==> (extension_of(name) is Some && (ext == "iso"@ || ext
                == "mds"@ || ext == "mdf"@ || ext == "nrg"@))
        }),
{
}

/// The crack folders of scene discs are exactly those whose lower-cased name
/// is one of the scene folder names.
pub proof fn law_crack_dir_names(name: Seq<char>)
    ensures
        ({
            let low = lowercase_of(name);
            is_crack_dir(name) <==> (low == "crack"@ || low == "crackfix"@ || low == "cracked"@
                || low == "fix"@ || low == "reloaded"@ || low == "skidrow"@ || low == "codex"@ || low
                == "plaza"@ || low == "prophet"@ || low == "hoodlum"@ || low == "razor1911"@ || low
                == "rld"@ || low == "razordox"@ || low == "tenoke"@)
        }),
{
    let c = crack_dir_names();
    assert(c[0] == "crack"@ && c[1] == "crackfix"@ && c[2] == "cracked"@ && c[3] == "fix"@ && c[4]
        == "reloaded"@ && c[5] == "skidrow"@ && c[6] == "codex"@ && c[7] == "plaza"@ && c[8]
        == "prophet"@ && c[9] == "hoodlum"@ && c[10] == "razor1911"@ && c[11] == "rld"@ && c[12]
        == "razordox"@ && c[13] == "tenoke"@);
    assert(c.len() == 14);
    let low = lowercase_of(name);
    if is_crack_dir(name) {
        let i = choose|i: int| 0 <= i < c.len() && c[i] == low;
        assert(0 <= i < 14);
    }
}

/// A walk never goes into the staged crack folder `_Ludex-Crack`, nor past
/// its depth limit.
pub proof fn law_walk_skips_staged_crack(depth: nat, max_depth: nat, name: Seq<char>)
    ensures
        descends_into(depth, max_depth, name) <==> (depth < max_depth && name != "_Ludex-Crack"@),
{
}

} // verus!

verus! {

/// What follows a volume's stem, lower-cased: `.rar`, `.partNN.rar` (digits
/// only between), or `.r` and at least two digits.
pub open spec fn is_volume_suffix(s: Seq<char>) -> bool {
    ||| s == dot_rar()
    ||| (s.len() >= 9 && s.take(5) == dot_part() && s.skip(s.len() - 4) == dot_rar() && all_digits(
        s.subrange(5, s.len() - 4),
    ))
    ||| (s.len() >= 4 && s.take(2) == seq!['.', 'r'] && all_digits(s.skip(2)))
}

/// Only split-RAR volumes have a stem: what follows the stem is a volume
/// suffix, so a disc image, an `.nfo` or any other file beside the volumes
/// has none.
pub proof fn law_only_volumes_have_a_stem(name: Seq<char>)
    ensures
        rar_base_of(name) matches Some(b) ==> is_volume_suffix(lower(name.skip(b.len() as int))),
{
    let low = lower(name);
    lemma_rfind(low, dot_part());
    lemma_rfind(low, seq!['.']);
    match part_volume_at(low) {
        Some(pos) => {
            let tail = low.skip(pos);
            assert(lower(name.skip(pos)) =~= tail);
            assert(occurs_at(low, dot_part(), pos));
            assert(tail.take(5) =~= dot_part()) by {
                assert(low.subrange(pos, pos + 5) =~= tail.take(5));
            }
            assert(tail.skip(tail.len() - 4) == dot_rar());
            assert(tail.len() >= 9) by {
                if tail.len() < 9 {
                    let k = tail.len() - 4;
                    assert(tail.skip(k)[0] == '.');
                    assert(tail[k] == '.');
                    assert(tail.take(5)[k] == tail[k]);
                }
            }
            assert(name.take(pos).len() == pos);
        },
        None => {
            if ends_with(low, dot_rar()) {
                let k = name.len() - 4;
                assert(lower(name.skip(k)) =~= low.skip(k));
                assert(name.take(k).len() == k);
            } else {
                match r_volume_at(low) {
                    Some(dot) => {
                        let s = low.skip(dot);
                        let ext = low.skip(dot + 1);
                        assert(lower(name.skip(dot)) =~= s);
                        assert(occurs_at(low, seq!['.'], dot));
                        assert(low.subrange(dot, dot + 1)[0] == low[dot]);
                        assert(s.take(2) =~= seq!['.', 'r']) by {
                            assert(s[0] == low[dot]);
                            assert(s[1] == ext[0]);
                        }
                        assert(s.skip(2) =~= ext.skip(1));
                        assert(name.take(dot).len() == dot);
                    },
                    None => {},
                }
            }
        },
    }
}

} // verus!

verus! {

/// `foo.ext` (with `foo` not empty, no dot in `ext`, and not `..`) has the
/// stem `foo` and the extension `ext`; a name without any dot has no extension and is
/// its own stem, as is a name whose only dot comes first (`.hidden`).
pub proof fn law_stem_and_extension(foo: Seq<char>, ext: Seq<char>, plain: Seq<char>)
    requires
        foo.len() > 0,
        forall|i: int| 0 <= i < ext.len() ==> ext[i] != '.',
        foo + seq!['.'] + ext != seq!['.', '.'],
    ensures
        stem_of(foo + seq!['.'] + ext) == foo,
        extension_of(foo + seq!['.'] + ext) == Some(ext),
        (forall|i: int| 0 <= i < plain.len() ==> plain[i] != '.') ==> extension_of(plain) is None
            && stem_of(plain) == plain,
        (forall|i: int| 0 <= i < ext.len() ==> ext[i] != '.') ==> extension_of(seq!['.'] + ext)
            is None && stem_of(seq!['.'] + ext) == seq!['.'] + ext,
{
    let dot = seq!['.'];
    let name = foo + dot + ext;
    assert(occurs_at(name, dot, foo.len() as int)) by {
        assert(name.subrange(foo.len() as int, foo.len() as int + 1) =~= dot);
    }
    assert forall|k: int| foo.len() < k implies !occurs_at(name, dot, k) by {
        if occurs_at(name, dot, k) {
            assert(name.subrange(k, k + 1)[0] == '.');
            assert(name[k] == ext[k - foo.len() - 1]);
        }
    }
    lemma_rfind_is(name, dot, foo.len() as int);
    assert(name.take(foo.len() as int) =~= foo);
    assert(name.skip(foo.len() as int + 1) =~= ext);
    lemma_rfind(plain, dot);
    if forall|i: int| 0 <= i < plain.len() ==> plain[i] != '.' {
        assert forall|k: int| !occurs_at(plain, dot, k) by {
            if occurs_at(plain, dot, k) {
                assert(plain.subrange(k, k + 1)[0] == plain[k]);
            }
        }
        if plain == seq!['.', '.'] {
            assert(plain[0] == '.');
        }
    }
    let hidden = dot + ext;
    lemma_rfind(hidden, dot);
    assert(occurs_at(hidden, dot, 0)) by {
        assert(hidden.subrange(0, 1) =~= dot);
    }
    assert forall|k: int| 0 < k implies !occurs_at(hidden, dot, k) by {
        if occurs_at(hidden, dot, k) {
            assert(hidden.subrange(k, k + 1)[0] == hidden[k]);
            assert(hidden[k] == ext[k - 1]);
        }
    }
    lemma_rfind_is(hidden, dot, 0);
}

} // verus!
