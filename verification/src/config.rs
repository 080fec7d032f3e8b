//! The persisted settings and the record of installed games.

use vstd::prelude::*;
use crate::slug_map::SlugMap;

verus! {

/// The desktop client's settings.
#[derive(Debug)]
pub struct AppConfig {
    pub server: String,
    pub username: String,
    pub install_dir: String,
    pub device: String,
    pub is_admin: bool,
}

/// What is known of one installed game.
#[derive(Debug)]
pub struct InstallEntry {
    pub title: String,
    pub version: Option<String>,
    pub path: String,
    pub exe: Option<String>,
    pub setup_type: String,
    pub hypervisor: bool,
    pub note: Option<String>,
}

/// The installed games, by slug.
pub type InstallState = SlugMap<InstallEntry>;

impl AppConfig {
    /// The settings of a fresh client: every field empty, not an admin.
    pub fn empty() -> (c: AppConfig)
        ensures
            c.server@ == Seq::<char>::empty(),
            c.username@ == Seq::<char>::empty(),
            c.install_dir@ == Seq::<char>::empty(),
            c.device@ == Seq::<char>::empty(),
            !c.is_admin,
    {
        AppConfig {
            server: String::new(),
            username: String::new(),
            install_dir: String::new(),
            device: String::new(),
            is_admin: false,
        }
    }
}

impl Default for AppConfig {
    fn default() -> (c: AppConfig)
        ensures
            c.server@ == Seq::<char>::empty(),
            c.username@ == Seq::<char>::empty(),
            c.install_dir@ == Seq::<char>::empty(),
            c.device@ == Seq::<char>::empty(),
            !c.is_admin,
    {
        AppConfig::empty()
    }
}

impl Default for InstallEntry {
    fn default() -> (e: InstallEntry)
        ensures
            e.title@ == Seq::<char>::empty(),
            e.version is None,
            e.path@ == Seq::<char>::empty(),
            e.exe is None,
            e.setup_type@ == Seq::<char>::empty(),
            !e.hypervisor,
            e.note is None,
    {
        InstallEntry {
            title: String::new(),
            version: None,
            path: String::new(),
            exe: None,
            setup_type: String::new(),
            hypervisor: false,
            note: None,
        }
    }
}

/// One game as reported to the server: its slug, version and install folder.
pub struct InstalledGame {
    pub slug: String,
    pub version: Option<String>,
    pub install_path: String,
}

fn copy_opt(o: &Option<String>) -> (r: Option<String>)
    ensures
        r == *o,
{
    match o {
        Some(s) => Some(s.clone()),
        None => None,
    }
}

/// The list of installed games that is reported to the server, one element
/// per installed slug, in the state's own order.
pub fn installed_report(state: &InstallState) -> (r: Vec<InstalledGame>)
    ensures
        r@.len() == state.key_order().len(),
        r@.map_values(|g: InstalledGame| g.slug@).no_duplicates(),
        r@.map_values(|g: InstalledGame| g.slug@).to_set() == state.view().dom(),
        forall|i: int|
            0 <= i < r@.len() ==> {
                let k = state.key_order()[i];
                &&& #[trigger] r@[i].slug@ == k
                &&& r@[i].version == state.view()[k].version
                &&& r@[i].install_path == state.view()[k].path
            },
{
    let n = state.len();
    let mut r: Vec<InstalledGame> = Vec::new();
    let mut i: usize = 0;
    while i < n
        invariant
            n == state.key_order().len(),
            i <= n,
            r@.len() == i,
            forall|j: int|
                0 <= j < i ==> {
                    let k = state.key_order()[j];
                    &&& #[trigger] r@[j].slug@ == k
                    &&& r@[j].version == state.view()[k].version
                    &&& r@[j].install_path == state.view()[k].path
                },
        decreases n - i,
    {
        let (slug, entry) = state.entry_at(i);
        r.push(
            InstalledGame {
                slug: slug.clone(),
                version: copy_opt(&entry.version),
                install_path: entry.path.clone(),
            },
        );
        i += 1;
    }
    assert(r@.map_values(|g: InstalledGame| g.slug@) =~= state.key_order());
    r
}

} // verus!

verus! {

/// Recording an install makes the game installed with exactly that entry,
/// and leaves every other game as it was.
pub proof fn law_installed_after_record(
    state: Map<Seq<char>, InstallEntry>,
    slug: Seq<char>,
    entry: InstallEntry,
    other: Seq<char>,
)
    ensures
        state.insert(slug, entry).dom().contains(slug),
        state.insert(slug, entry)[slug] == entry,
        other != slug ==> (state.insert(slug, entry).dom().contains(other) == state.dom().contains(
            other,
        ) && (state.dom().contains(other) ==> state.insert(slug, entry)[other] == state[other])),
{
}

/// Uninstalling a game leaves it uninstalled and every other game as it was.
pub proof fn law_not_installed_after_remove(
    state: Map<Seq<char>, InstallEntry>,
    slug: Seq<char>,
    other: Seq<char>,
)
    ensures
        !state.remove(slug).dom().contains(slug),
        other != slug ==> (state.remove(slug).dom().contains(other) == state.dom().contains(other)
            && (state.dom().contains(other) ==> state.remove(slug)[other] == state[other])),
{
}

} // verus!
