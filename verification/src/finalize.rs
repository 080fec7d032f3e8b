//! Driving a downloaded payload to a runnable state: which step comes next,
//! where a server-named payload sits, and what the user is told when a disc
//! setup needs finishing by hand.

use vstd::prelude::*;
use crate::download::DownloadRecord;
use crate::names::{is_iso_ext, is_iso_ext_exec, lower_ext, lower_extension};
use crate::paths::{backslashed, file_name, file_name_of, join_server_path, join_spec};
use crate::text::{opt_view, str_eq};

verus! {

/// What to do with a finished download.
pub enum FinalizeStep {
    /// Unpack the tar stream into the game folder, then handle its payload.
    ExtractTar,
    /// Unpack the zip into the game folder, then handle its payload.
    ExtractZip,
    /// Handle the payload already in the game folder (a RAR set, a disc
    /// image or an installer).
    Payload,
    /// Mount the downloaded disc image and run its setup.
    RunDiscImage,
    /// Run the downloaded installer.
    RunInstaller,
    /// Nothing to run: a portable game.
    Nothing,
}

/// The lower-cased extension of the file a path names, or empty.
pub open spec fn path_ext(p: Seq<char>) -> Seq<char> {
    match file_name_of(p) {
        Some(n) => lower_ext(n),
        None => Seq::empty(),
    }
}

pub open spec fn finalize_step_of(is_tar: bool, download_path: Seq<char>) -> FinalizeStep {
    let ext = path_ext(download_path);
    if is_tar {
        FinalizeStep::ExtractTar
    } else if ext == "zip"@ {
        FinalizeStep::ExtractZip
    } else if ext == "rar"@ {
        FinalizeStep::Payload
    } else if is_iso_ext(ext) {
        FinalizeStep::RunDiscImage
    } else if ext == "exe"@ || ext == "msi"@ {
        FinalizeStep::RunInstaller
    } else {
        FinalizeStep::Nothing
    }
}

/// The step after a download: a folder tar is unpacked; a loose file is
/// handled by its extension (`.zip` unpacked, `.rar` left for the payload
/// step, a disc image mounted, an `.exe`/`.msi` run).
pub fn finalize_step(is_tar: bool, download_path: &str) -> (s: FinalizeStep)
    ensures
        s == finalize_step_of(is_tar, download_path@),
{
    if is_tar {
        return FinalizeStep::ExtractTar;
    }
    let ext = match file_name(download_path) {
        Some(n) => lower_extension(n.as_str()),
        None => String::new(),
    };
    let e = ext.as_str();
    if str_eq(e, "zip") {
        FinalizeStep::ExtractZip
    } else if str_eq(e, "rar") {
        FinalizeStep::Payload
    } else if is_iso_ext_exec(e) {
        FinalizeStep::RunDiscImage
    } else if str_eq(e, "exe") || str_eq(e, "msi") {
        FinalizeStep::RunInstaller
    } else {
        FinalizeStep::Nothing
    }
}

/// Where the server says the payload of the given setup type sits: the
/// record's payload path under `dest`, when the record's setup type is
/// `kind`.
pub open spec fn payload_candidate_of(
    record: DownloadRecord,
    kind: Seq<char>,
    dest: Seq<char>,
) -> Option<Seq<char>> {
    match record.payload_path {
        Some(p) => if record.setup_type@ == kind {
            Some(join_spec(dest, backslashed(p@)))
        } else {
            None
        },
        None => None,
    }
}

pub fn payload_candidate(record: &DownloadRecord, kind: &str, dest: &str) -> (r: Option<String>)
    ensures
        opt_view(r) == payload_candidate_of(*record, kind@, dest@),
{
    match &record.payload_path {
        Some(p) => if str_eq(record.setup_type.as_str(), kind) {
            Some(join_server_path(dest, p.as_str()))
        } else {
            None
        },
        None => None,
    }
}

/// What became of a disc's setup.
pub enum SetupOutcome {
    /// A setup ran.
    Ran,
    /// No setup was found on the disc.
    NotFound,
    /// A setup could not be run; the reason.
    Failed(String),
}

pub open spec fn no_setup_note(iso: Seq<char>) -> Seq<char> {
    "No installer was found on the disc image, so nothing was run. The disc image is kept at:\n"@
        + iso + "\nMount it and run its setup yourself if needed."@
}

pub open spec fn failed_setup_note(reason: Seq<char>, iso: Seq<char>) -> Seq<char> {
    "Ludex couldn't run the disc's setup automatically ("@ + reason + "). To finish: open\n"@ + iso
        + "\n(double-click to mount it), run its setup, and install the game."@
}

/// The instruction for a crack staged at `staging`.
pub open spec fn crack_note_of(staging: Seq<char>) -> Seq<char> {
    "This release needs a crack applied after the installer finishes. Ludex copied it to:\n"@
        + staging
        + "\n\nWhen setup is done, copy everything from that folder into the folder where you installed the game, replacing files when asked. (Ludex won't overwrite game files for you.)"@
}

pub fn crack_note(staging: &str) -> (s: String)
    ensures
        s@ == crack_note_of(staging@),
{
    let mut s = String::from_str(
        "This release needs a crack applied after the installer finishes. Ludex copied it to:\n",
    );
    s.append(staging);
    s.append(
        "\n\nWhen setup is done, copy everything from that folder into the folder where you installed the game, replacing files when asked. (Ludex won't overwrite game files for you.)",
    );
    s
}

pub open spec fn setup_part(outcome: SetupOutcome, iso: Seq<char>) -> Option<Seq<char>> {
    match outcome {
        SetupOutcome::Ran => None,
        SetupOutcome::NotFound => Some(no_setup_note(iso)),
        SetupOutcome::Failed(reason) => Some(failed_setup_note(reason@, iso)),
    }
}

/// The note left after a disc install: what to finish by hand about the
/// setup, then the crack instruction, separated by a blank line; `None`
/// where there is nothing to say.
pub open spec fn disc_note_of(
    outcome: SetupOutcome,
    iso: Seq<char>,
    crack: Option<Seq<char>>,
) -> Option<Seq<char>> {
    match (setup_part(outcome, iso), crack) {
        (None, None) => None,
        (Some(a), None) => Some(a),
        (None, Some(c)) => Some(c),
        (Some(a), Some(c)) => Some(a + "\n\n"@ + c),
    }
}

/// A disc setup is never fatal: its failure becomes part of the note.
pub fn disc_note(outcome: SetupOutcome, iso: &str, crack: Option<String>) -> (r: Option<String>)
    ensures
        opt_view(r) == disc_note_of(outcome, iso@, opt_view(crack)),
{
    let setup: Option<String> = match outcome {
        SetupOutcome::Ran => None,
        SetupOutcome::NotFound => {
            let mut s = String::from_str(
                "No installer was found on the disc image, so nothing was run. The disc image is kept at:\n",
            );
            s.append(iso);
            s.append("\nMount it and run its setup yourself if needed.");
            Some(s)
        },
        SetupOutcome::Failed(reason) => {
            let mut s = String::from_str("Ludex couldn't run the disc's setup automatically (");
            s.append(reason.as_str());
            s.append("). To finish: open\n");
            s.append(iso);
            s.append("\n(double-click to mount it), run its setup, and install the game.");
            Some(s)
        },
    };
    match (setup, crack) {
        (None, None) => None,
        (Some(a), None) => Some(a),
        (None, Some(c)) => Some(c),
        (Some(a), Some(c)) => {
            let mut s = a;
            s.append("\n\n");
            s.append(c.as_str());
            Some(s)
        },
    }
}

} // verus!

verus! {

/// Where the work on a payload on disk stands: a split-RAR set is looked
/// for first, then a disc image (often what the RAR held), then an
/// installer.
pub enum PayloadStage {
    LookForRarSet,
    LookForDiscImage,
    LookForInstaller,
    Done,
}

/// What to do with what was looked for.
pub enum PayloadAction {
    /// Extract the set in place, then drop its volumes.
    ExtractRarSet,
    /// Mount the disc image and run its setup.
    RunDiscImage,
    RunInstaller,
    Nothing,
}

pub open spec fn payload_step_of(stage: PayloadStage, found: bool) -> (
    PayloadAction,
    PayloadStage,
) {
    match stage {
        PayloadStage::LookForRarSet => (
            if found {
                PayloadAction::ExtractRarSet
            } else {
                PayloadAction::Nothing
            },
            PayloadStage::LookForDiscImage,
        ),
        PayloadStage::LookForDiscImage => if found {
            (PayloadAction::RunDiscImage, PayloadStage::Done)
        } else {
            (PayloadAction::Nothing, PayloadStage::LookForInstaller)
        },
        PayloadStage::LookForInstaller => if found {
            (PayloadAction::RunInstaller, PayloadStage::Done)
        } else {
            (PayloadAction::Nothing, PayloadStage::Done)
        },
        PayloadStage::Done => (PayloadAction::Nothing, PayloadStage::Done),
    }
}

/// One step of the payload work: given whether what `stage` looks for was
/// found, what to do and where to go on. A RAR set found is extracted and
/// the work goes on; a disc image or an installer found is run and ends it;
/// with nothing found the game is taken as portable.
pub fn payload_step(stage: PayloadStage, found: bool) -> (r: (PayloadAction, PayloadStage))
    ensures
        r == payload_step_of(stage, found),
{
    match stage {
        PayloadStage::LookForRarSet => (
            if found {
                PayloadAction::ExtractRarSet
            } else {
                PayloadAction::Nothing
            },
            PayloadStage::LookForDiscImage,
        ),
        PayloadStage::LookForDiscImage => if found {
            (PayloadAction::RunDiscImage, PayloadStage::Done)
        } else {
            (PayloadAction::Nothing, PayloadStage::LookForInstaller)
        },
        PayloadStage::LookForInstaller => if found {
            (PayloadAction::RunInstaller, PayloadStage::Done)
        } else {
            (PayloadAction::Nothing, PayloadStage::Done)
        },
        PayloadStage::Done => (PayloadAction::Nothing, PayloadStage::Done),
    }
}

/// The payload work ends within three steps whatever is found, and runs at
/// most one thing: a disc image that is found is run and no installer is
/// looked for after it.
pub proof fn law_payload_work_ends(rar: bool, disc: bool, installer: bool)
    ensures
        ({
            let (a1, s1) = payload_step_of(PayloadStage::LookForRarSet, rar);
            let (a2, s2) = payload_step_of(s1, disc);
            let (a3, s3) = payload_step_of(s2, installer);
            &&& s3 is Done
            &&& (rar <==> a1 is ExtractRarSet)
            &&& !(a1 is RunDiscImage || a1 is RunInstaller)
            &&& s1 is LookForDiscImage
            &&& (disc <==> a2 is RunDiscImage)
            &&& (a3 is RunInstaller <==> (!disc && installer))
            &&& !(a2 is ExtractRarSet || a2 is RunInstaller || a3 is ExtractRarSet || a3 is RunDiscImage)
        }),
{
}

} // verus!

verus! {

/// The step after a download is fixed by the extension of the downloaded
/// file, lower-cased: a tar stream is unpacked whatever its name; otherwise
/// `zip` is unpacked, `rar` is handled as a payload, `iso`/`mds`/`mdf`/`nrg`
/// is mounted and run, `exe`/`msi` is run as the installer, and anything
/// else is taken as a portable game.
pub proof fn law_finalize_step_by_extension(is_tar: bool, p: Seq<char>)
    ensures
        ({
            let ext = path_ext(p);
            let s = finalize_step_of(is_tar, p);
            &&& is_tar ==> s is ExtractTar
            &&& !is_tar && ext == "zip"@ ==> s is ExtractZip
            &&& !is_tar && ext == "rar"@ ==> s is Payload
            &&& !is_tar && (ext == "iso"@ || ext == "mds"@ || ext == "mdf"@ || ext == "nrg"@)
                ==> s is RunDiscImage
            &&& !is_tar && (ext == "exe"@ || ext == "msi"@) ==> s is RunInstaller
            &&& !is_tar && !(ext == "zip"@ || ext == "rar"@ || ext == "iso"@ || ext == "mds"@ || ext
                == "mdf"@ || ext == "nrg"@ || ext == "exe"@ || ext == "msi"@) ==> s is Nothing
        }),
{
    reveal_strlit("zip");
    reveal_strlit("rar");
    reveal_strlit("iso");
    reveal_strlit("mds");
    reveal_strlit("mdf");
    reveal_strlit("nrg");
    reveal_strlit("exe");
    reveal_strlit("msi");
    assert("zip"@[0] == 'z' && "rar"@[0] == 'r' && "iso"@[0] == 'i' && "nrg"@[0] == 'n'
        && "exe"@[0] == 'e');
    assert("mds"@[1] == 'd' && "mds"@[2] == 's' && "mdf"@[1] == 'd' && "mdf"@[2] == 'f'
        && "msi"@[1] == 's');
}

} // verus!
