use ludex_desktop::config::{installed_report, AppConfig, InstallEntry, InstallState};
use ludex_desktop::download::{
    build_record, cancelled_status, control_action, download_total, estimated_total,
    installed_status, pause_record, paused_status, record_install, record_is_tar, record_view,
    resume_offset, should_find_exe, ControlAction, DownloadProgress, ExtractProgress, GameInfo,
    EMIT_INTERVAL_NS, RAR_EMIT_INTERVAL_NS, RunEnd, RunStart, cleanup_for, run_start,
};
use ludex_desktop::finalize::{
    crack_note, disc_note, finalize_step, payload_candidate, payload_step, FinalizeStep,
    PayloadAction, PayloadStage, SetupOutcome,
};
use ludex_desktop::registry::{InstallManager, CANCEL, PAUSE, RUN};
use ludex_desktop::slug_map::SlugMap;

fn entry(title: &str, path: &str) -> InstallEntry {
    InstallEntry {
        title: title.to_string(),
        version: Some("1.0".to_string()),
        path: path.to_string(),
        exe: None,
        setup_type: "portable".to_string(),
        hypervisor: false,
        note: None,
    }
}

#[test]
fn install_state_insert_get_remove() {
    let mut state: InstallState = SlugMap::new();
    assert!(!state.contains_key("hades"));
    state.insert("hades".to_string(), entry("Hades", "D:\\g\\hades"));
    state.insert("celeste".to_string(), entry("Celeste", "D:\\g\\celeste"));
    state.insert("hades".to_string(), entry("Hades II", "D:\\g\\hades"));
    assert_eq!(state.len(), 2);
    assert_eq!(state.get("hades").unwrap().title, "Hades II");
    let removed = state.remove("hades").unwrap();
    assert_eq!(removed.title, "Hades II");
    assert!(state.get("hades").is_none());
    assert!(state.remove("hades").is_none());
    assert!(state.contains_key("celeste"));
}

#[test]
fn report_lists_each_installed_game() {
    let mut state: InstallState = SlugMap::new();
    state.insert("a".to_string(), entry("A", "D:\\a"));
    state.insert("b".to_string(), entry("B", "D:\\b"));
    let report = installed_report(&state);
    let mut slugs: Vec<&str> = report.iter().map(|g| g.slug.as_str()).collect();
    slugs.sort();
    assert_eq!(slugs, vec!["a", "b"]);
    assert_eq!(report[0].install_path, "D:\\a");
    assert_eq!(report[0].version.as_deref(), Some("1.0"));
}

#[test]
fn signals_reach_only_registered_downloads() {
    let mut m = InstallManager::new();
    let id = m.register("hades");
    assert_eq!(m.control(id), RUN);
    assert!(m.signal("hades", PAUSE));
    assert_eq!(m.control(id), PAUSE);
    assert!(!m.signal("celeste", CANCEL));
    m.unregister("hades");
    assert!(!m.signal("hades", CANCEL));
    assert_eq!(m.control(id), PAUSE);
}

#[test]
fn registering_again_detaches_the_old_control() {
    let mut m = InstallManager::new();
    let first = m.register("hades");
    let second = m.register("hades");
    assert!(m.signal("hades", CANCEL));
    assert_eq!(m.control(first), RUN);
    assert_eq!(m.control(second), CANCEL);
}

#[test]
fn control_values_map_to_actions() {
    assert!(matches!(control_action(RUN), ControlAction::Proceed));
    assert!(matches!(control_action(PAUSE), ControlAction::Pause));
    assert!(matches!(control_action(CANCEL), ControlAction::Cancel));
    assert!(matches!(control_action(7), ControlAction::Proceed));
}

fn game(kind: Option<&str>) -> GameInfo {
    GameInfo {
        title: Some("Hades".to_string()),
        download_kind: kind.map(|k| k.to_string()),
        download_name: Some("hades.zip".to_string()),
        setup_type: None,
        exe_hint: Some("bin/Hades.exe".to_string()),
        payload_path: None,
        requires_hypervisor: None,
        version: None,
        size_bytes: Some(1000),
    }
}

#[test]
fn records_of_tar_and_loose_downloads() {
    let r = build_record(game(Some("tar")), "D:\\Games", "C:\\Temp", "hades");
    assert!(record_is_tar(&r));
    assert_eq!(r.dest, "D:\\Games\\hades");
    assert_eq!(r.temp_path, "C:\\Temp\\ludex-hades.tar");
    assert_eq!(r.setup_type, "portable");
    assert_eq!(r.size_hint, 1000);
    assert!(!r.hypervisor);
    let r = build_record(game(None), "D:\\Games", "C:\\Temp", "hades");
    assert!(!record_is_tar(&r));
    assert_eq!(r.download_kind, "file");
    assert_eq!(r.temp_path, "D:\\Games\\hades\\hades.zip");
    let mut bare = game(None);
    bare.title = None;
    bare.download_name = None;
    let r = build_record(bare, "D:\\Games", "C:\\Temp", "celeste");
    assert_eq!(r.title, "celeste");
    assert_eq!(r.download_name, "download.bin");
}

#[test]
fn totals_and_resume_offsets() {
    assert_eq!(resume_offset(true, Some(42)), 42);
    assert_eq!(resume_offset(true, None), 0);
    assert_eq!(resume_offset(false, Some(42)), 0);
    assert_eq!(estimated_total(0, 10), 11);
    assert_eq!(estimated_total(500, 10), 500);
    assert_eq!(download_total(false, 500, 100, Some(50)), 150);
    assert_eq!(download_total(true, 500, 100, Some(50)), 500);
    assert_eq!(download_total(false, 0, 100, None), 101);
}

#[test]
fn progress_is_throttled_and_never_past_the_total() {
    let mut p = DownloadProgress::start(0, 100, 0);
    let r = p.on_chunk(60, 100_000_000);
    assert!(!r.emit);
    assert_eq!(r.shown_total, 100);
    let r = p.on_chunk(60, 200_000_000);
    assert!(r.emit);
    assert!(!r.save);
    assert_eq!(p.received, 120);
    assert_eq!(r.shown_total, 120);
    let r = p.on_chunk(1, 3_500_000_000);
    assert!(r.save);
    let mut e = ExtractProgress::start(0, 0, EMIT_INTERVAL_NS);
    assert_eq!(e.total, 1);
    let r = e.on_entry(10, 1_000_000_000);
    assert!(r.emit);
    assert_eq!(r.shown, 1);
    let mut rar = ExtractProgress::start(100, 0, RAR_EMIT_INTERVAL_NS);
    assert!(!rar.on_entry(10, 180_000_000).emit);
    assert!(rar.on_entry(10, 210_000_000).emit);
    let mut zip = ExtractProgress::start(100, 0, EMIT_INTERVAL_NS);
    assert!(zip.on_entry(10, 180_000_000).emit);
}

#[test]
fn statuses_and_pauses() {
    let s = paused_status("hades");
    assert_eq!(s.status, "paused");
    assert!(s.install_path.is_none());
    assert_eq!(cancelled_status("hades").status, "cancelled");
    let s = installed_status("hades", "D:\\g".to_string(), Some("x.exe".to_string()), None);
    assert_eq!(s.status, "installed");
    assert_eq!(s.install_path.as_deref(), Some("D:\\g"));
    let mut r = build_record(game(None), "D:\\Games", "C:\\Temp", "hades");
    pause_record(&mut r, 77);
    assert!(r.paused);
    assert_eq!(r.bytes, 77);
    let v = record_view(&r);
    assert_eq!(v.total, 1000);
    r.bytes = 5000;
    assert_eq!(record_view(&r).total, 5000);
    assert!(should_find_exe(false));
    assert!(!should_find_exe(true));
}

#[test]
fn recording_an_install_makes_it_installed() {
    let mut state: InstallState = SlugMap::new();
    let r = build_record(game(None), "D:\\Games", "C:\\Temp", "hades");
    record_install(&mut state, &r, Some("D:\\Games\\hades\\Hades.exe".to_string()), None);
    let e = state.get("hades").unwrap();
    assert_eq!(e.title, "Hades");
    assert_eq!(e.path, "D:\\Games\\hades");
    assert_eq!(e.exe.as_deref(), Some("D:\\Games\\hades\\Hades.exe"));
}

#[test]
fn finalize_steps_by_extension() {
    assert!(matches!(finalize_step(true, "C:\\t\\x.tar"), FinalizeStep::ExtractTar));
    assert!(matches!(finalize_step(false, "D:\\g\\x.ZIP"), FinalizeStep::ExtractZip));
    assert!(matches!(finalize_step(false, "D:\\g\\x.rar"), FinalizeStep::Payload));
    assert!(matches!(finalize_step(false, "D:\\g\\x.iso"), FinalizeStep::RunDiscImage));
    assert!(matches!(finalize_step(false, "D:\\g\\setup.msi"), FinalizeStep::RunInstaller));
    assert!(matches!(finalize_step(false, "D:\\g\\x.7z"), FinalizeStep::Nothing));
    assert!(matches!(finalize_step(false, "D:\\g\\noext"), FinalizeStep::Nothing));
}

#[test]
fn payload_candidates_follow_the_setup_type() {
    let mut r = build_record(game(None), "D:\\Games", "C:\\Temp", "hades");
    r.payload_path = Some("disc/game.part1.rar".to_string());
    r.setup_type = "rar".to_string();
    assert_eq!(
        payload_candidate(&r, "rar", "D:\\Games\\hades").as_deref(),
        Some("D:\\Games\\hades\\disc\\game.part1.rar")
    );
    assert_eq!(payload_candidate(&r, "installer", "D:\\Games\\hades"), None);
}

#[test]
fn disc_notes() {
    assert_eq!(disc_note(SetupOutcome::Ran, "D:\\x.iso", None), None);
    let n = disc_note(SetupOutcome::NotFound, "D:\\x.iso", None).unwrap();
    assert!(n.starts_with("No installer was found on the disc image"));
    assert!(n.contains("kept at:\nD:\\x.iso\nMount it"));
    let n = disc_note(SetupOutcome::Failed("boom".to_string()), "D:\\x.iso", Some("C".to_string()))
        .unwrap();
    assert!(n.starts_with("Ludex couldn't run the disc's setup automatically (boom). To finish: open\nD:\\x.iso\n"));
    assert!(n.ends_with("install the game.\n\nC"));
    assert_eq!(disc_note(SetupOutcome::Ran, "D:\\x.iso", Some("C".to_string())).as_deref(), Some("C"));
    let c = crack_note("D:\\g\\_Ludex-Crack");
    assert!(c.contains("Ludex copied it to:\nD:\\g\\_Ludex-Crack\n\nWhen setup is done"));
    assert!(c.ends_with("(Ludex won't overwrite game files for you.)"));
}

#[test]
fn empty_config() {
    let c = AppConfig::empty();
    assert!(c.server.is_empty() && !c.is_admin);
}

#[test]
fn defaults_are_empty() {
    let c = AppConfig::default();
    assert!(c.username.is_empty() && c.install_dir.is_empty() && c.device.is_empty());
    let e = InstallEntry::default();
    assert!(e.title.is_empty() && e.exe.is_none() && !e.hypervisor);
    let mut m = InstallManager::default();
    assert_eq!(m.control_count(), 0);
    assert!(!m.signal("x", PAUSE));
}

#[test]
fn resuming_needs_a_saved_record() {
    match run_start(true, None) {
        Err(e) => assert_eq!(e, "No paused download to resume"),
        Ok(_) => panic!("resumed without a record"),
    }
    let saved = build_record(game(None), "D:\\Games", "C:\\Temp", "hades");
    match run_start(true, Some(saved)) {
        Ok(RunStart::Resume(r)) => assert_eq!(r.slug, "hades"),
        _ => panic!("the saved record was not resumed"),
    }
    let saved = build_record(game(None), "D:\\Games", "C:\\Temp", "hades");
    assert!(matches!(run_start(false, Some(saved)), Ok(RunStart::Fresh)));
    assert!(matches!(run_start(false, None), Ok(RunStart::Fresh)));
}

#[test]
fn only_a_pause_keeps_the_download() {
    let c = cleanup_for(RunEnd::Paused);
    assert!(!c.download_file && !c.saved_record);
    let c = cleanup_for(RunEnd::Cancelled);
    assert!(c.download_file && c.saved_record);
    let c = cleanup_for(RunEnd::FinalizeFailed);
    assert!(c.download_file && c.saved_record);
    let c = cleanup_for(RunEnd::Installed);
    assert!(!c.download_file && c.saved_record);
}

#[test]
fn payload_work_runs_in_order() {
    let (a, s) = payload_step(PayloadStage::LookForRarSet, true);
    assert!(matches!(a, PayloadAction::ExtractRarSet));
    assert!(matches!(s, PayloadStage::LookForDiscImage));
    let (a, s) = payload_step(PayloadStage::LookForDiscImage, true);
    assert!(matches!(a, PayloadAction::RunDiscImage));
    assert!(matches!(s, PayloadStage::Done));
    let (a, s) = payload_step(PayloadStage::LookForDiscImage, false);
    assert!(matches!(a, PayloadAction::Nothing));
    assert!(matches!(s, PayloadStage::LookForInstaller));
    let (a, s) = payload_step(PayloadStage::LookForInstaller, true);
    assert!(matches!(a, PayloadAction::RunInstaller));
    assert!(matches!(s, PayloadStage::Done));
    let (a, s) = payload_step(PayloadStage::LookForInstaller, false);
    assert!(matches!(a, PayloadAction::Nothing));
    assert!(matches!(s, PayloadStage::Done));
    let (a, s) = payload_step(PayloadStage::Done, true);
    assert!(matches!(a, PayloadAction::Nothing));
    assert!(matches!(s, PayloadStage::Done));
}

#[test]
fn every_registered_control_exists() {
    let mut m = InstallManager::new();
    let a = m.register("a");
    let b = m.register("b");
    assert!(a < m.control_count() && b < m.control_count());
    m.unregister("a");
    assert_eq!(m.control_count(), 2);
}
