//! The text of the PowerShell commands that mount and dismount a disc image,
//! and what their output means.

use vstd::prelude::*;
use crate::text::{chars_of, is_blank, blank, push_all, string_of, trim, trim_spec};

verus! {

/// A path quoted for a single-quoted PowerShell string: each `'` doubled.
pub open spec fn ps_quoted(s: Seq<char>) -> Seq<char>
    decreases s.len(),
{
    if s.len() == 0 {
        s
    } else if s.last() == '\'' {
        ps_quoted(s.drop_last()) + seq!['\'', '\'']
    } else {
        ps_quoted(s.drop_last()).push(s.last())
    }
}

pub fn ps_quote(s: &str) -> (r: String)
    ensures
        r@ == ps_quoted(s@),
{
    let v = chars_of(s);
    let mut r: Vec<char> = Vec::new();
    let mut i: usize = 0;
    while i < v.len()
        invariant
            i <= v.len(),
            r@ == ps_quoted(v@.take(i as int)),
        decreases v.len() - i,
    {
        assert(v@.take(i as int + 1).drop_last() =~= v@.take(i as int));
        if v[i] == '\'' {
            r.push('\'');
            r.push('\'');
            assert(r@ =~= ps_quoted(v@.take(i as int)) + seq!['\'', '\'']);
        } else {
            r.push(v[i]);
        }
        i += 1;
    }
    assert(v@.take(v.len() as int) =~= v@);
    string_of(r.as_slice())
}

/// The command that mounts `iso` and prints its drive letter (waiting a
/// little longer once if Windows has not assigned one yet).
pub open spec fn mount_script_of(iso: Seq<char>) -> Seq<char> {
    let q = ps_quoted(iso);
    "$null = Mount-DiskImage -ImagePath '"@ + q
        + "'; Start-Sleep -Milliseconds 700; $l = (Get-DiskImage -ImagePath '"@ + q
        + "' | Get-Volume).DriveLetter; if (-not $l) { Start-Sleep -Seconds 1; $l = (Get-DiskImage -ImagePath '"@
        + q + "' | Get-Volume).DriveLetter }; Write-Output $l"@
}

pub fn mount_script(iso: &str) -> (s: String)
    ensures
        s@ == mount_script_of(iso@),
{
    let q = ps_quote(iso);
    let mut s = String::from_str("$null = Mount-DiskImage -ImagePath '");
    s.append(q.as_str());
    s.append("'; Start-Sleep -Milliseconds 700; $l = (Get-DiskImage -ImagePath '");
    s.append(q.as_str());
    s.append(
        "' | Get-Volume).DriveLetter; if (-not $l) { Start-Sleep -Seconds 1; $l = (Get-DiskImage -ImagePath '",
    );
    s.append(q.as_str());
    s.append("' | Get-Volume).DriveLetter }; Write-Output $l");
    s
}

/// The command that dismounts `iso`.
pub open spec fn dismount_script_of(iso: Seq<char>) -> Seq<char> {
    "Dismount-DiskImage -ImagePath '"@ + ps_quoted(iso) + "' | Out-Null"@
}

pub fn dismount_script(iso: &str) -> (s: String)
    ensures
        s@ == dismount_script_of(iso@),
{
    let q = ps_quote(iso);
    let mut s = String::from_str("Dismount-DiskImage -ImagePath '");
    s.append(q.as_str());
    s.append("' | Out-Null");
    s
}

/// The drive root a mount yields, from what the mount command answered: its
/// error (a default message where PowerShell said nothing), an error where it
/// printed no letter, else the letter as `E:\`.
pub open spec fn mounted_drive_of(output: Result<Seq<char>, Seq<char>>) -> Result<
    Seq<char>,
    Seq<char>,
> {
    match output {
        Err(e) => if e.len() == 0 {
            Err("Could not mount the disc image"@)
        } else {
            Err(e)
        },
        Ok(out) => if is_blank(out) {
            Err("Mounted the disc but couldn't find its drive letter"@)
        } else {
            Ok(trim_spec(out) + ":\\"@)
        },
    }
}

pub open spec fn result_view(r: Result<String, String>) -> Result<Seq<char>, Seq<char>> {
    match r {
        Ok(s) => Ok(s@),
        Err(e) => Err(e@),
    }
}

pub fn mounted_drive(output: Result<String, String>) -> (r: Result<String, String>)
    ensures
        result_view(r) == mounted_drive_of(result_view(output)),
{
    match output {
        Err(e) => {
            if e.as_str().unicode_len() == 0 {
                Err(String::from_str("Could not mount the disc image"))
            } else {
                Err(e)
            }
        },
        Ok(out) => {
            if blank(out.as_str()) {
                Err(String::from_str("Mounted the disc but couldn't find its drive letter"))
            } else {
                let mut s = trim(out.as_str());
                s.append(":\\");
                Ok(s)
            }
        },
    }
}

/// Why an elevated launch failed: a cancelled UAC prompt (Windows error 1223)
/// is said plainly; any other error is quoted.
pub open spec fn elevation_error_of(code: Option<i32>, shown: Seq<char>) -> Seq<char> {
    if code == Some(1223i32) {
        "The elevation (UAC) prompt was cancelled."@
    } else {
        "Windows wouldn't launch the installer elevated: "@ + shown
    }
}

pub fn elevation_error(code: Option<i32>, shown: &str) -> (s: String)
    ensures
        s@ == elevation_error_of(code, shown@),
{
    match code {
        Some(c) => if c == 1223 {
            return String::from_str("The elevation (UAC) prompt was cancelled.");
        },
        None => {},
    }
    let mut s = String::from_str("Windows wouldn't launch the installer elevated: ");
    s.append(shown);
    s
}

/// Why a game could not be started.
pub fn launch_error(shown: &str) -> (s: String)
    ensures
        s@ == "Could not launch the game: "@ + shown@,
{
    let mut s = String::from_str("Could not launch the game: ");
    s.append(shown);
    s
}

} // verus!
