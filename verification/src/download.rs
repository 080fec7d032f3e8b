//! The decisions of a pausable, resumable download: what record a fresh
//! download starts from, how far it has come, what a control signal asks
//! for, when progress is shown or saved, and what is recorded at the end.

use vstd::prelude::*;
use crate::config::{InstallEntry, InstallState};
use crate::paths::{join_path, join_spec};
use crate::registry::{CANCEL, PAUSE};
use crate::text::str_eq;

verus! {

/// What the server says of a game, as far as a download needs it (each field
/// as read from the server's answer, `None` where it is missing or of
/// another type).
pub struct GameInfo {
    pub title: Option<String>,
    pub download_kind: Option<String>,
    pub download_name: Option<String>,
    pub setup_type: Option<String>,
    pub exe_hint: Option<String>,
    pub payload_path: Option<String>,
    pub requires_hypervisor: Option<bool>,
    pub version: Option<String>,
    pub size_bytes: Option<u64>,
}

/// A download in progress (or paused), as persisted so it can be resumed.
pub struct DownloadRecord {
    pub slug: String,
    pub title: String,
    pub download_kind: String,
    pub download_name: String,
    pub setup_type: String,
    pub exe_hint: Option<String>,
    pub payload_path: Option<String>,
    pub hypervisor: bool,
    pub version: Option<String>,
    pub size_hint: u64,
    pub dest: String,
    pub temp_path: String,
    pub bytes: u64,
    pub paused: bool,
}

/// A game whose download is a folder packed as a tar stream.
pub open spec fn is_tar_download(g: GameInfo) -> bool {
    g.download_kind matches Some(k) && k@ == "tar"@
}

pub open spec fn or_default(o: Option<String>, d: Seq<char>) -> Seq<char> {
    match o {
        Some(s) => s@,
        None => d,
    }
}

/// The name of the temporary tar file of `slug`.
pub open spec fn tar_file_name(slug: Seq<char>) -> Seq<char> {
    "ludex-"@ + slug + ".tar"@
}

fn text_or(o: Option<String>, d: &str) -> (r: String)
    ensures
        r@ == or_default(o, d@),
{
    match o {
        Some(s) => s,
        None => String::from_str(d),
    }
}

/// The record a fresh download of `slug` starts from: the game's folder is
/// `install_dir\slug`; a folder game streams into `temp_dir\ludex-slug.tar`,
/// a loose file straight into the game's folder under its own name.
pub fn build_record(game: GameInfo, install_dir: &str, temp_dir: &str, slug: &str) -> (r:
    DownloadRecord)
    ensures
        r.slug@ == slug@,
        r.title@ == or_default(game.title, slug@),
        r.download_kind@ == or_default(game.download_kind, "file"@),
        r.download_name@ == or_default(game.download_name, "download.bin"@),
        r.setup_type@ == or_default(game.setup_type, "portable"@),
        r.exe_hint == game.exe_hint,
        r.payload_path == game.payload_path,
        r.hypervisor == (game.requires_hypervisor == Some(true)),
        r.version == game.version,
        r.size_hint == match game.size_bytes {
            Some(n) => n,
            None => 0,
        },
        r.dest@ == join_spec(install_dir@, slug@),
        r.temp_path@ == if is_tar_download(game) {
            join_spec(temp_dir@, tar_file_name(slug@))
        } else {
            join_spec(join_spec(install_dir@, slug@), or_default(game.download_name, "download.bin"@))
        },
        r.bytes == 0,
        !r.paused,
{
    let is_tar = match &game.download_kind {
        Some(k) => str_eq(k.as_str(), "tar"),
        None => false,
    };
    let dest = join_path(install_dir, slug);
    let download_name = text_or(game.download_name, "download.bin");
    let temp_path = if is_tar {
        let mut name = String::from_str("ludex-");
        name.append(slug);
        name.append(".tar");
        join_path(temp_dir, name.as_str())
    } else {
        join_path(dest.as_str(), download_name.as_str())
    };
    DownloadRecord {
        slug: String::from_str(slug),
        title: text_or(game.title, slug),
        download_kind: text_or(game.download_kind, "file"),
        download_name,
        setup_type: text_or(game.setup_type, "portable"),
        exe_hint: game.exe_hint,
        payload_path: game.payload_path,
        hypervisor: match game.requires_hypervisor {
            Some(b) => b,
            None => false,
        },
        version: game.version,
        size_hint: match game.size_bytes {
            Some(n) => n,
            None => 0,
        },
        dest,
        temp_path,
        bytes: 0,
        paused: false,
    }
}

/// The record's download is a folder tar stream.
pub fn record_is_tar(record: &DownloadRecord) -> (b: bool)
    ensures
        b == (record.download_kind@ == "tar"@),
{
    str_eq(record.download_kind.as_str(), "tar")
}

// ---- control signals ----

/// What the download loop does on reading its control.
pub enum ControlAction {
    Proceed,
    Pause,
    Cancel,
}

pub open spec fn control_action_of(state: u8) -> ControlAction {
    if state == PAUSE {
        ControlAction::Pause
    } else if state == CANCEL {
        ControlAction::Cancel
    } else {
        ControlAction::Proceed
    }
}

/// `PAUSE` pauses, `CANCEL` cancels, anything else lets the download go on.
pub fn control_action(state: u8) -> (a: ControlAction)
    ensures
        a == control_action_of(state),
{
    if state == PAUSE {
        ControlAction::Pause
    } else if state == CANCEL {
        ControlAction::Cancel
    } else {
        ControlAction::Proceed
    }
}

// ---- how a run starts and ends ----

/// How an install run begins.
pub enum RunStart {
    /// Go on with the saved record of a paused download.
    Resume(DownloadRecord),
    /// Build a fresh record and wipe the install folder first, so stale
    /// files cannot confuse the disc and archive detection later.
    Fresh,
}

/// A resumed run needs the record saved for `slug`; a fresh run starts from
/// nothing, whatever is saved.
pub fn run_start(resume: bool, saved: Option<DownloadRecord>) -> (r: Result<RunStart, String>)
    ensures
        resume && saved is Some ==> r == Ok::<RunStart, String>(RunStart::Resume(saved->0)),
        resume && saved is None ==> r is Err && r->Err_0@ == "No paused download to resume"@,
        !resume ==> r == Ok::<RunStart, String>(RunStart::Fresh),
{
    if !resume {
        return Ok(RunStart::Fresh);
    }
    match saved {
        Some(record) => Ok(RunStart::Resume(record)),
        None => Err(String::from_str("No paused download to resume")),
    }
}

/// How an install run ended.
pub enum RunEnd {
    Installed,
    Paused,
    Cancelled,
    /// The download finished but extracting or installing it failed.
    FinalizeFailed,
}

/// What is removed when a run ends.
pub struct Cleanup {
    /// The downloaded (or partial) file.
    pub download_file: bool,
    /// The saved download record.
    pub saved_record: bool,
}

pub open spec fn cleanup_of(end: RunEnd) -> Cleanup {
    match end {
        RunEnd::Installed => Cleanup { download_file: false, saved_record: true },
        RunEnd::Paused => Cleanup { download_file: false, saved_record: false },
        RunEnd::Cancelled => Cleanup { download_file: true, saved_record: true },
        RunEnd::FinalizeFailed => Cleanup { download_file: true, saved_record: true },
    }
}

/// A pause keeps the partial file and the record (it is saved anew); a
/// cancel removes both; a failed install removes both too, so it never
/// lingers as a bogus resumable download and a retry starts clean; an
/// install drops the record.
pub fn cleanup_for(end: RunEnd) -> (c: Cleanup)
    ensures
        c == cleanup_of(end),
{
    match end {
        RunEnd::Installed => Cleanup { download_file: false, saved_record: true },
        RunEnd::Paused => Cleanup { download_file: false, saved_record: false },
        RunEnd::Cancelled => Cleanup { download_file: true, saved_record: true },
        RunEnd::FinalizeFailed => Cleanup { download_file: true, saved_record: true },
    }
}

// ---- sizes and progress ----

/// Where a download starts: at the partial file's length when resuming (0
/// where the partial file is gone), at 0 for a fresh download.
pub open spec fn resume_offset_of(resume: bool, partial_len: Option<u64>) -> u64 {
    if resume {
        match partial_len {
            Some(n) => n,
            None => 0,
        }
    } else {
        0
    }
}

pub fn resume_offset(resume: bool, partial_len: Option<u64>) -> (r: u64)
    ensures
        r == resume_offset_of(resume, partial_len),
{
    if resume {
        match partial_len {
            Some(n) => n,
            None => 0,
        }
    } else {
        0
    }
}

pub open spec fn max_u64(a: u64, b: u64) -> u64 {
    if a >= b {
        a
    } else {
        b
    }
}

/// The total shown before the server answers: the size hint, but always more
/// than what is already on disk.
pub fn estimated_total(size_hint: u64, resume_from: u64) -> (t: u64)
    requires
        resume_from < u64::MAX,
    ensures
        t == max_u64(size_hint, (resume_from + 1) as u64),
{
    let floor = resume_from + 1;
    if size_hint >= floor {
        size_hint
    } else {
        floor
    }
}

/// The total of a download: a tar stream has no length of its own, so the
/// estimate stands; a loose file is what is on disk plus the length the
/// server announces, or the estimate where it announces none.
pub fn download_total(is_tar: bool, size_hint: u64, resume_from: u64, content_length: Option<u64>) -> (t:
    u64)
    requires
        resume_from < u64::MAX,
        content_length matches Some(c) ==> resume_from + c <= u64::MAX,
    ensures
        t == if !is_tar && content_length is Some {
            (resume_from + content_length->0) as u64
        } else {
            max_u64(size_hint, (resume_from + 1) as u64)
        },
{
    if !is_tar {
        if let Some(c) = content_length {
            return resume_from + c;
        }
    }
    estimated_total(size_hint, resume_from)
}

/// Download and zip extraction progress is shown at most every 150 ms.
pub const EMIT_INTERVAL_NS: u64 = 150_000_000;

/// RAR extraction progress is shown at most every 200 ms.
pub const RAR_EMIT_INTERVAL_NS: u64 = 200_000_000;

/// The record is saved at most every 3 s, so a crash stays resumable.
pub const SAVE_INTERVAL_NS: u64 = 3_000_000_000;

pub open spec fn min_u64(a: u64, b: u64) -> u64 {
    if a <= b {
        a
    } else {
        b
    }
}

pub open spec fn elapsed(now: u64, since: u64) -> u64 {
    if now >= since {
        (now - since) as u64
    } else {
        0
    }
}

/// How far a download has come, and when progress was last shown and the
/// record last saved (in nanoseconds of a monotonic clock).
pub struct DownloadProgress {
    pub received: u64,
    pub total: u64,
    pub last_emit: u64,
    pub last_save: u64,
}

/// What to do after a chunk has been written.
pub struct ChunkReport {
    /// Show progress now.
    pub emit: bool,
    /// The total to show with it: never below what was received.
    pub shown_total: u64,
    /// Save the record now.
    pub save: bool,
}

impl DownloadProgress {
    pub fn start(resume_from: u64, total: u64, now: u64) -> (p: DownloadProgress)
        ensures
            p.received == resume_from,
            p.total == total,
            p.last_emit == now,
            p.last_save == now,
    {
        DownloadProgress { received: resume_from, total, last_emit: now, last_save: now }
    }

    /// `n` more bytes were written at time `now`.
    pub fn on_chunk(&mut self, n: u64, now: u64) -> (r: ChunkReport)
        requires
            old(self).received + n <= u64::MAX,
        ensures
            final(self).received == old(self).received + n,
            final(self).total == old(self).total,
            r.emit == (elapsed(now, old(self).last_emit) > EMIT_INTERVAL_NS),
            final(self).last_emit == if r.emit {
                now
            } else {
                old(self).last_emit
            },
            r.save == (elapsed(now, old(self).last_save) > SAVE_INTERVAL_NS),
            final(self).last_save == if r.save {
                now
            } else {
                old(self).last_save
            },
            r.shown_total == max_u64(final(self).total, final(self).received),
    {
        self.received = self.received + n;
        let since_emit = if now >= self.last_emit {
            now - self.last_emit
        } else {
            0
        };
        let emit = since_emit > EMIT_INTERVAL_NS;
        if emit {
            self.last_emit = now;
        }
        let since_save = if now >= self.last_save {
            now - self.last_save
        } else {
            0
        };
        let save = since_save > SAVE_INTERVAL_NS;
        if save {
            self.last_save = now;
        }
        let shown_total = if self.total >= self.received {
            self.total
        } else {
            self.received
        };
        ChunkReport { emit, shown_total, save }
    }

    /// The total to show with the progress: never below what was received.
    pub fn shown_total(&self) -> (t: u64)
        ensures
            t == max_u64(self.total, self.received),
    {
        if self.total >= self.received {
            self.total
        } else {
            self.received
        }
    }
}

/// Progress of an extraction that counts bytes of entries against a total.
pub struct ExtractProgress {
    pub done: u64,
    pub total: u64,
    pub last_emit: u64,
    /// The least time between two reports, in nanoseconds.
    pub interval: u64,
}

/// What to show after an entry: how far, out of how much, and whether now.
pub struct ExtractReport {
    pub emit: bool,
    pub shown: u64,
    pub total: u64,
}

impl ExtractProgress {
    /// A total of at least 1, so a percentage can always be shown; reports
    /// at most every `interval` nanoseconds (`RAR_EMIT_INTERVAL_NS` for a
    /// RAR set, `EMIT_INTERVAL_NS` for a zip).
    pub fn start(total: u64, now: u64, interval: u64) -> (p: ExtractProgress)
        ensures
            p.done == 0,
            p.total == max_u64(total, 1),
            p.last_emit == now,
            p.interval == interval,
    {
        ExtractProgress {
            done: 0,
            total: if total >= 1 { total } else { 1 },
            last_emit: now,
            interval,
        }
    }

    /// An entry of `size` bytes was handled at time `now`.
    pub fn on_entry(&mut self, size: u64, now: u64) -> (r: ExtractReport)
        requires
            old(self).done + size <= u64::MAX,
        ensures
            final(self).done == old(self).done + size,
            final(self).total == old(self).total,
            final(self).interval == old(self).interval,
            r.emit == (elapsed(now, old(self).last_emit) > old(self).interval),
            final(self).last_emit == if r.emit {
                now
            } else {
                old(self).last_emit
            },
            r.shown == min_u64(final(self).done, final(self).total),
            r.total == final(self).total,
    {
        self.done = self.done + size;
        let since = if now >= self.last_emit {
            now - self.last_emit
        } else {
            0
        };
        let emit = since > self.interval;
        if emit {
            self.last_emit = now;
        }
        let shown = if self.done <= self.total {
            self.done
        } else {
            self.total
        };
        ExtractReport { emit, shown, total: self.total }
    }
}

// ---- outcomes ----

/// What an install run reports back.
pub struct InstallStatus {
    pub slug: String,
    /// `installed`, `paused` or `cancelled`.
    pub status: String,
    pub install_path: Option<String>,
    pub exe: Option<String>,
    pub note: Option<String>,
}

pub fn paused_status(slug: &str) -> (s: InstallStatus)
    ensures
        s.slug@ == slug@,
        s.status@ == "paused"@,
        s.install_path is None && s.exe is None && s.note is None,
{
    InstallStatus {
        slug: String::from_str(slug),
        status: String::from_str("paused"),
        install_path: None,
        exe: None,
        note: None,
    }
}

pub fn cancelled_status(slug: &str) -> (s: InstallStatus)
    ensures
        s.slug@ == slug@,
        s.status@ == "cancelled"@,
        s.install_path is None && s.exe is None && s.note is None,
{
    InstallStatus {
        slug: String::from_str(slug),
        status: String::from_str("cancelled"),
        install_path: None,
        exe: None,
        note: None,
    }
}

pub fn installed_status(slug: &str, dest: String, exe: Option<String>, note: Option<String>) -> (s:
    InstallStatus)
    ensures
        s.slug@ == slug@,
        s.status@ == "installed"@,
        s.install_path == Some(dest),
        s.exe == exe,
        s.note == note,
{
    InstallStatus {
        slug: String::from_str(slug),
        status: String::from_str("installed"),
        install_path: Some(dest),
        exe,
        note,
    }
}

/// The record of a paused download: what was received, marked paused.
pub fn pause_record(record: &mut DownloadRecord, received: u64)
    ensures
        *final(record) == (DownloadRecord { bytes: received, paused: true, ..*old(record) }),
{
    record.bytes = received;
    record.paused = true;
}

/// Whether to look for an executable after the install: not where a setup
/// program ran, since the game then lives wherever the setup put it.
pub fn should_find_exe(ran_setup: bool) -> (b: bool)
    ensures
        b == !ran_setup,
{
    !ran_setup
}

/// Records a finished install under its slug.
pub fn record_install(
    state: &mut InstallState,
    record: &DownloadRecord,
    exe: Option<String>,
    note: Option<String>,
)
    ensures
        final(state).view() == old(state).view().insert(
            record.slug@,
            InstallEntry {
                title: record.title,
                version: record.version,
                path: record.dest,
                exe,
                setup_type: record.setup_type,
                hypervisor: record.hypervisor,
                note,
            },
        ),
{
    let entry = InstallEntry {
        title: record.title.clone(),
        version: match &record.version {
            Some(v) => Some(v.clone()),
            None => None,
        },
        path: record.dest.clone(),
        exe,
        setup_type: record.setup_type.clone(),
        hypervisor: record.hypervisor,
        note,
    };
    state.insert(record.slug.clone(), entry);
}

/// A paused or interrupted download as listed to the user.
pub struct DownloadRecordView {
    pub slug: String,
    pub title: String,
    pub bytes: u64,
    pub total: u64,
}

/// The listing of a leftover download: its total is the size hint, or what
/// is already on disk where that is more.
pub fn record_view(record: &DownloadRecord) -> (v: DownloadRecordView)
    ensures
        v.slug == record.slug,
        v.title == record.title,
        v.bytes == record.bytes,
        v.total == max_u64(record.size_hint, record.bytes),
{
    DownloadRecordView {
        slug: record.slug.clone(),
        title: record.title.clone(),
        bytes: record.bytes,
        total: if record.size_hint >= record.bytes {
            record.size_hint
        } else {
            record.bytes
        },
    }
}

} // verus!

verus! {

/// The download's progress bar never passes 100%: the total shown with a
/// chunk is never below what was received.
pub proof fn law_download_progress_within_total(total: u64, received: u64)
    ensures
        received <= max_u64(total, received),
        total <= max_u64(total, received),
{
}

/// An extraction's progress never passes 100% either: what is shown is at
/// most the total, and the total is at least 1 so a share can be taken.
pub proof fn law_extract_progress_within_total(done: u64, total: u64)
    ensures
        min_u64(done, max_u64(total, 1)) <= max_u64(total, 1),
        max_u64(total, 1) >= 1,
{
}

/// A paused download resumes where its partial file ends (from the start
/// where the file is gone), and a fresh one from the start.
pub proof fn law_resume_from_partial_file(len: u64, partial: Option<u64>)
    ensures
        resume_offset_of(true, Some(len)) == len,
        resume_offset_of(true, None) == 0,
        resume_offset_of(false, partial) == 0,
{
}

/// Only the two stop signals stop a download; `RUN` and any other value let
/// it go on.
pub proof fn law_only_stop_signals_stop(state: u8)
    ensures
        (control_action_of(state) is Pause) <==> state == PAUSE,
        (control_action_of(state) is Cancel) <==> state == CANCEL,
        (control_action_of(state) is Proceed) <==> (state != PAUSE && state != CANCEL),
{
}

/// Only a pause leaves a download to resume: every other end of a run
/// removes the saved record, and the file goes with it unless the game got
/// installed.
pub proof fn law_only_pause_stays_resumable(end: RunEnd)
    ensures
        !cleanup_of(end).saved_record <==> end is Paused,
        cleanup_of(end).download_file <==> (end is Cancelled || end is FinalizeFailed),
{
}

} // verus!
