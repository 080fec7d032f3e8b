//! Picking files out of a walked release tree or a mounted disc: the disc
//! image to mount, the installer to run and the main executable to launch.

use vstd::prelude::*;
use crate::names::{
    has_exe_extension, is_disc_image, is_disc_image_name, is_disc_setup, is_disc_setup_name,
    is_game_exe, is_installer, is_installer_name, is_junk_exe_name,
};

verus! {

/// A file met in a walk, with its size in bytes (0 where it could not be read).
pub struct SizedFile {
    pub name: String,
    pub size: u64,
}

/// The largest disc image among `files` (the release payload). Of images of
/// equal size the last met is taken, as `Iterator::max_by_key` does.
pub fn pick_largest_iso(files: &Vec<SizedFile>) -> (r: Option<usize>)
    ensures
        match r {
            None => forall|j: int| 0 <= j < files@.len() ==> !is_disc_image(#[trigger] files@[j].name@),
            Some(i) => {
                &&& i < files@.len()
                &&& is_disc_image(files@[i as int].name@)
                &&& forall|j: int|
                    0 <= j < files@.len() && is_disc_image(#[trigger] files@[j].name@) ==> files@[j].size
                        <= files@[i as int].size
                &&& forall|j: int|
                    i < j < files@.len() && is_disc_image(#[trigger] files@[j].name@) ==> files@[j].size
                        < files@[i as int].size
            },
        },
{
    let mut best: Option<usize> = None;
    let mut k: usize = 0;
    while k < files.len()
        invariant
            k <= files.len(),
            match best {
                None => forall|j: int| 0 <= j < k ==> !is_disc_image(#[trigger] files@[j].name@),
                Some(i) => {
                    &&& i < k
                    &&& is_disc_image(files@[i as int].name@)
                    &&& forall|j: int|
                        0 <= j < k && is_disc_image(#[trigger] files@[j].name@) ==> files@[j].size
                            <= files@[i as int].size
                    &&& forall|j: int|
                        i < j < k && is_disc_image(#[trigger] files@[j].name@) ==> files@[j].size
                            < files@[i as int].size
                },
            },
        decreases files.len() - k,
    {
        if is_disc_image_name(files[k].name.as_str()) {
            match best {
                None => {
                    best = Some(k);
                },
                Some(i) => {
                    if files[k].size >= files[i].size {
                        best = Some(k);
                    }
                },
            }
        }
        k += 1;
    }
    best
}

/// The first installer (`setup`/`install`/`autorun` `.exe` or `.msi`) among
/// the names of a walked release tree.
pub fn pick_installer(names: &Vec<String>) -> (r: Option<usize>)
    ensures
        match r {
            None => forall|j: int| 0 <= j < names@.len() ==> !is_installer(#[trigger] names@[j]@),
            Some(i) => i < names@.len() && is_installer(names@[i as int]@) && forall|j: int|
                0 <= j < i ==> !is_installer(#[trigger] names@[j]@),
        },
{
    let mut k: usize = 0;
    while k < names.len()
        invariant
            k <= names.len(),
            forall|j: int| 0 <= j < k ==> !is_installer(#[trigger] names@[j]@),
        decreases names.len() - k,
    {
        if is_installer_name(names[k].as_str()) {
            return Some(k);
        }
        k += 1;
    }
    None
}

/// The first setup program among the entries at the root of a mounted disc.
pub fn pick_disc_setup(names: &Vec<String>) -> (r: Option<usize>)
    ensures
        match r {
            None => forall|j: int| 0 <= j < names@.len() ==> !is_disc_setup(#[trigger] names@[j]@),
            Some(i) => i < names@.len() && is_disc_setup(names@[i as int]@) && forall|j: int|
                0 <= j < i ==> !is_disc_setup(#[trigger] names@[j]@),
        },
{
    let mut k: usize = 0;
    while k < names.len()
        invariant
            k <= names.len(),
            forall|j: int| 0 <= j < k ==> !is_disc_setup(#[trigger] names@[j]@),
        decreases names.len() - k,
    {
        if is_disc_setup_name(names[k].as_str()) {
            return Some(k);
        }
        k += 1;
    }
    None
}

/// `files[i]` is the main executable: a game `.exe`, none larger, and none
/// as large before it.
pub open spec fn is_main_exe_at(files: Seq<SizedFile>, i: int) -> bool {
    &&& 0 <= i < files.len()
    &&& is_game_exe(files[i].name@)
    &&& forall|j: int|
        0 <= j < files.len() && is_game_exe(#[trigger] files[j].name@) ==> files[j].size
            <= files[i].size
    &&& forall|j: int|
        0 <= j < i && is_game_exe(#[trigger] files[j].name@) ==> files[j].size < files[i].size
}

/// The main executable among the files of an install folder: the largest
/// `.exe` that is not a helper (uninstaller, redistributable, crash
/// reporter...). Of equal sizes the first met is kept.
pub fn pick_main_exe(files: &Vec<SizedFile>) -> (r: Option<usize>)
    ensures
        match r {
            None => forall|j: int| 0 <= j < files@.len() ==> !is_game_exe(#[trigger] files@[j].name@),
            Some(i) => is_main_exe_at(files@, i as int),
        },
{
    let mut best: Option<usize> = None;
    let mut k: usize = 0;
    while k < files.len()
        invariant
            k <= files.len(),
            match best {
                None => forall|j: int| 0 <= j < k ==> !is_game_exe(#[trigger] files@[j].name@),
                Some(i) => {
                    &&& i < k
                    &&& is_game_exe(files@[i as int].name@)
                    &&& forall|j: int|
                        0 <= j < k && is_game_exe(#[trigger] files@[j].name@) ==> files@[j].size
                            <= files@[i as int].size
                    &&& forall|j: int|
                        0 <= j < i && is_game_exe(#[trigger] files@[j].name@) ==> files@[j].size
                            < files@[i as int].size
                },
            },
        decreases files.len() - k,
    {
        let name = files[k].name.as_str();
        if has_exe_extension(name) && !is_junk_exe_name(name) {
            match best {
                None => {
                    best = Some(k);
                },
                Some(i) => {
                    if files[k].size > files[i].size {
                        best = Some(k);
                    }
                },
            }
        }
        k += 1;
    }
    best
}

/// The executable to launch: the hinted one where it exists (the caller
/// hands it over only then) wins; else the main executable among `files`,
/// whose paths stand in `paths` in the same order.
pub fn choose_exe(hinted: Option<String>, files: &Vec<SizedFile>, paths: &Vec<String>) -> (r:
    Option<String>)
    requires
        files.len() == paths.len(),
    ensures
        hinted is Some ==> r == hinted,
        hinted is None ==> match r {
            None => forall|j: int| 0 <= j < files@.len() ==> !is_game_exe(#[trigger] files@[j].name@),
            Some(p) => exists|i: int| is_main_exe_at(files@, i) && p@ == paths@[i]@,
        },
{
    if hinted.is_some() {
        return hinted;
    }
    match pick_main_exe(files) {
        Some(i) => {
            let p = paths[i].clone();
            assert(is_main_exe_at(files@, i as int));
            Some(p)
        },
        None => None,
    }
}

} // verus!
