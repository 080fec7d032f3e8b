//! The client's session rules: the login it keeps, whether it is connected,
//! what a game's install state shows, and what playing a game launches.

use vstd::prelude::*;
use crate::config::{AppConfig, InstallEntry, InstallState};
use crate::http::{trim_slashes, trim_trailing_slashes};
use crate::paths::{join_path, join_spec};
use crate::text::str_eq;

verus! {

/// The credential-store account of a login: `user@server`.
pub fn account(user: &str, server: &str) -> (a: String)
    ensures
        a@ == user@ + "@"@ + server@,
{
    let mut a = String::from_str(user);
    a.append("@");
    a.append(server);
    a
}

/// The default install folder: `Games\Ludex` under the user's profile
/// folder, or under `C:\` where the profile is unknown.
pub fn default_install_dir(profile: Option<String>) -> (d: String)
    ensures
        d@ == match profile {
            Some(p) => p@,
            None => "C:\\"@,
        } + "\\Games\\Ludex"@,
{
    let mut d = match profile {
        Some(p) => p,
        None => String::from_str("C:\\"),
    };
    d.append("\\Games\\Ludex");
    d
}

/// The server address as it is stored: without trailing slashes.
pub fn normalize_server(server: &str) -> (s: String)
    ensures
        s@ == trim_slashes(server@),
{
    trim_trailing_slashes(server)
}

/// The settings after a successful login: the server and user are those
/// given, the admin flag is what the server said; an install folder and a
/// device name are filled in only where none was set (the device name falls
/// back to `windows-pc`).
pub fn apply_login(
    cfg: AppConfig,
    server: String,
    username: String,
    is_admin: bool,
    default_dir: String,
    computer_name: Option<String>,
) -> (c: AppConfig)
    ensures
        c.server == server,
        c.username == username,
        c.is_admin == is_admin,
        c.install_dir@ == if cfg.install_dir@.len() == 0 {
            default_dir@
        } else {
            cfg.install_dir@
        },
        c.device@ == if cfg.device@.len() == 0 {
            match computer_name {
                Some(n) => n@,
                None => "windows-pc"@,
            }
        } else {
            cfg.device@
        },
{
    let install_dir = if cfg.install_dir.as_str().unicode_len() == 0 {
        default_dir
    } else {
        cfg.install_dir
    };
    let device = if cfg.device.as_str().unicode_len() == 0 {
        match computer_name {
            Some(n) => n,
            None => String::from_str("windows-pc"),
        }
    } else {
        cfg.device
    };
    AppConfig { server, username, install_dir, device, is_admin }
}

/// A client is connected to a server only with both a server and a user.
pub open spec fn has_login(cfg: AppConfig) -> bool {
    cfg.server@.len() > 0 && cfg.username@.len() > 0
}

pub fn require_login(cfg: &AppConfig) -> (r: Result<(), String>)
    ensures
        r is Ok <==> has_login(*cfg),
        r matches Err(e) ==> e@ == "Not connected"@,
{
    if cfg.server.as_str().unicode_len() == 0 || cfg.username.as_str().unicode_len() == 0 {
        Err(String::from_str("Not connected"))
    } else {
        Ok(())
    }
}

/// The error where the saved password is gone.
pub fn missing_login() -> (e: String)
    ensures
        e@ == "Saved login not found \u{2014} please reconnect"@,
{
    String::from_str("Saved login not found \u{2014} please reconnect")
}

/// What the interface is told of the session.
pub struct Session {
    pub server: String,
    pub username: String,
    pub install_dir: String,
    pub connected: bool,
    pub is_admin: bool,
}

pub fn session_of(cfg: AppConfig, connected: bool) -> (s: Session)
    ensures
        s.server == cfg.server,
        s.username == cfg.username,
        s.install_dir == cfg.install_dir,
        s.connected == connected,
        s.is_admin == cfg.is_admin,
{
    Session {
        server: cfg.server,
        username: cfg.username,
        install_dir: cfg.install_dir,
        connected,
        is_admin: cfg.is_admin,
    }
}

/// The admin flag after asking the server again: what it answers, or what
/// was last seen where it could not be asked; `true` in the second place
/// when the stored settings must be saved anew.
pub fn refresh_admin(stored: bool, answered: Option<bool>) -> (r: (bool, bool))
    ensures
        r.0 == match answered {
            Some(a) => a,
            None => stored,
        },
        r.1 == (r.0 != stored),
{
    match answered {
        Some(a) => (a, a != stored),
        None => (stored, false),
    }
}

/// The `installed` flag of each game of a listing (by its slug, where it
/// has one): whether the slug is in the install state.
pub fn installed_flags(state: &InstallState, slugs: &Vec<Option<String>>) -> (r: Vec<Option<bool>>)
    ensures
        r@.len() == slugs@.len(),
        forall|i: int|
            0 <= i < slugs@.len() ==> #[trigger] r@[i] == match slugs@[i] {
                Some(s) => Some(state.view().dom().contains(s@)),
                None => None,
            },
{
    let mut r: Vec<Option<bool>> = Vec::new();
    let mut i: usize = 0;
    while i < slugs.len()
        invariant
            i <= slugs@.len(),
            r@.len() == i,
            forall|j: int|
                0 <= j < i ==> #[trigger] r@[j] == match slugs@[j] {
                    Some(s) => Some(state.view().dom().contains(s@)),
                    None => None,
                },
        decreases slugs.len() - i,
    {
        let f = match &slugs[i] {
            Some(s) => Some(state.contains_key(s.as_str())),
            None => None,
        };
        r.push(f);
        i += 1;
    }
    r
}

/// What a game's detail page shows of its local install: whether it is
/// installed and the post-install note kept for it.
pub fn install_detail(state: &InstallState, slug: &str) -> (r: (bool, Option<String>))
    ensures
        r.0 == state.view().dom().contains(slug@),
        r.1 == if state.view().dom().contains(slug@) {
            state.view()[slug@].note
        } else {
            None
        },
{
    match state.get(slug) {
        Some(e) => (
            true,
            match &e.note {
                Some(n) => Some(n.clone()),
                None => None,
            },
        ),
        None => (false, None),
    }
}

/// The install entry of a game, or the error that it is not installed.
pub fn installed_entry<'a>(state: &'a InstallState, slug: &str) -> (r: Result<&'a InstallEntry, String>)
    ensures
        match r {
            Ok(e) => state.view().dom().contains(slug@) && *e == state.view()[slug@],
            Err(m) => !state.view().dom().contains(slug@) && m@ == "This game isn't installed"@,
        },
{
    match state.get(slug) {
        Some(e) => Ok(e),
        None => Err(String::from_str("This game isn't installed")),
    }
}

/// What to launch for an installed game: the recorded executable where it
/// still exists, else the one found in the install folder; where there is
/// none, a game set up by its own installer is to be started from the Start
/// Menu, and any other has no executable.
pub open spec fn play_target_of(
    entry: InstallEntry,
    recorded_exists: bool,
    found: Option<Seq<char>>,
) -> Result<Seq<char>, Seq<char>> {
    match entry.exe {
        Some(e) if recorded_exists => Ok(e@),
        _ => match found {
            Some(f) => Ok(f),
            None => if entry.setup_type@ == "iso"@ || entry.setup_type@ == "installer"@ {
                Err(
                    "This game was installed by its own setup \u{2014} launch it from the Start Menu."@,
                )
            } else {
                Err("Couldn't find an executable to launch."@)
            },
        },
    }
}

pub fn play_target(entry: &InstallEntry, recorded_exists: bool, found: Option<String>) -> (r: Result<
    String,
    String,
>)
    ensures
        match r {
            Ok(s) => play_target_of(*entry, recorded_exists, crate::text::opt_view(found)) == Ok::<
                Seq<char>,
                Seq<char>,
            >(s@),
            Err(m) => play_target_of(*entry, recorded_exists, crate::text::opt_view(found)) == Err::<
                Seq<char>,
                Seq<char>,
            >(m@),
        },
{
    if recorded_exists {
        if let Some(e) = &entry.exe {
            return Ok(e.clone());
        }
    }
    match found {
        Some(f) => Ok(f),
        None => {
            if str_eq(entry.setup_type.as_str(), "iso") || str_eq(entry.setup_type.as_str(), "installer") {
                Err(String::from_str(
                    "This game was installed by its own setup \u{2014} launch it from the Start Menu.",
                ))
            } else {
                Err(String::from_str("Couldn't find an executable to launch."))
            }
        },
    }
}

/// A play session is reported to the server only when it lasted over 5 s.
pub fn should_report_session(seconds: u64) -> (b: bool)
    ensures
        b == (seconds > 5),
{
    seconds > 5
}

/// Where a game's staged crack sits: `_Ludex-Crack` in its install folder.
pub fn crack_dir_of(entry: &InstallEntry) -> (p: String)
    ensures
        p@ == join_spec(entry.path@, "_Ludex-Crack"@),
{
    join_path(entry.path.as_str(), "_Ludex-Crack")
}

/// The error where no crack folder was staged.
pub fn no_crack_dir() -> (e: String)
    ensures
        e@ == "No crack folder was staged for this game."@,
{
    String::from_str("No crack folder was staged for this game.")
}

} // verus!
