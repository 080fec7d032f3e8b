use ludex_desktop::config::{AppConfig, InstallEntry, InstallState};
use ludex_desktop::http::{
    api_err, body_kind, cover_content_type, cover_path, cover_status, download_path, game_path,
    is_success, library_path, net_err, range_request, status_msg, Body, CoverStatus, RangeRequest,
    ServerEndpoint,
};
use ludex_desktop::launch::{
    dismount_script, elevation_error, launch_error, mount_script, mounted_drive,
};
use ludex_desktop::media::{
    cover_file_name, data_url, data_url_from, ext_from_mime, is_cover_of, mime_from_ext,
};
use ludex_desktop::session::{
    account, apply_login, crack_dir_of, default_install_dir, install_detail, installed_entry,
    installed_flags, normalize_server, play_target, refresh_admin, require_login, session_of,
    should_report_session,
};
use ludex_desktop::slug_map::SlugMap;
use ludex_desktop::text::{i64_to_decimal, trim, u64_to_decimal};

fn cfg(server: &str, user: &str) -> AppConfig {
    AppConfig {
        server: server.to_string(),
        username: user.to_string(),
        install_dir: String::new(),
        device: String::new(),
        is_admin: false,
    }
}

#[test]
fn accounts_and_defaults() {
    assert_eq!(account("ann", "http://nas:8000"), "ann@http://nas:8000");
    assert_eq!(default_install_dir(None), "C:\\\\Games\\Ludex");
    assert_eq!(default_install_dir(Some("C:\\Users\\ann".to_string())), "C:\\Users\\ann\\Games\\Ludex");
    assert_eq!(normalize_server("http://nas:8000///"), "http://nas:8000");
}

#[test]
fn login_fills_only_missing_settings() {
    let c = apply_login(cfg("", ""), "s".into(), "u".into(), true, "D:\\G".into(), None);
    assert_eq!(c.install_dir, "D:\\G");
    assert_eq!(c.device, "windows-pc");
    assert!(c.is_admin);
    let mut old = cfg("x", "y");
    old.install_dir = "E:\\Mine".into();
    old.device = "rig".into();
    let c = apply_login(old, "s".into(), "u".into(), false, "D:\\G".into(), Some("PC".into()));
    assert_eq!(c.install_dir, "E:\\Mine");
    assert_eq!(c.device, "rig");
    let c = apply_login(cfg("", ""), "s".into(), "u".into(), false, "D:\\G".into(), Some("PC".into()));
    assert_eq!(c.device, "PC");
}

#[test]
fn connection_needs_server_and_user() {
    assert_eq!(require_login(&cfg("", "u")).unwrap_err(), "Not connected");
    assert!(require_login(&cfg("s", "")).is_err());
    assert!(require_login(&cfg("s", "u")).is_ok());
    let s = session_of(cfg("s", "u"), true);
    assert!(s.connected);
    assert_eq!(s.server, "s");
    assert_eq!(refresh_admin(false, Some(true)), (true, true));
    assert_eq!(refresh_admin(true, None), (true, false));
    assert_eq!(refresh_admin(true, Some(true)), (true, false));
}

fn entry(exe: Option<&str>, setup: &str) -> InstallEntry {
    InstallEntry {
        title: "Hades".into(),
        version: None,
        path: "D:\\g\\hades".into(),
        exe: exe.map(|e| e.to_string()),
        setup_type: setup.into(),
        hypervisor: false,
        note: Some("copy the crack".into()),
    }
}

#[test]
fn install_flags_and_details() {
    let mut state: InstallState = SlugMap::new();
    state.insert("hades".into(), entry(None, "portable"));
    let flags = installed_flags(&state, &vec![Some("hades".into()), Some("celeste".into()), None]);
    assert_eq!(flags, vec![Some(true), Some(false), None]);
    assert_eq!(install_detail(&state, "hades"), (true, Some("copy the crack".to_string())));
    assert_eq!(install_detail(&state, "celeste"), (false, None));
    assert!(installed_entry(&state, "hades").is_ok());
    assert_eq!(installed_entry(&state, "celeste").unwrap_err(), "This game isn't installed");
}

#[test]
fn play_targets() {
    let e = entry(Some("D:\\g\\hades\\Hades.exe"), "portable");
    assert_eq!(play_target(&e, true, None).unwrap(), "D:\\g\\hades\\Hades.exe");
    assert_eq!(play_target(&e, false, Some("D:\\other.exe".into())).unwrap(), "D:\\other.exe");
    assert_eq!(play_target(&e, false, None).unwrap_err(), "Couldn't find an executable to launch.");
    let e = entry(None, "iso");
    assert_eq!(
        play_target(&e, false, None).unwrap_err(),
        "This game was installed by its own setup \u{2014} launch it from the Start Menu."
    );
    assert!(should_report_session(6));
    assert!(!should_report_session(5));
    assert_eq!(crack_dir_of(&e), "D:\\g\\hades\\_Ludex-Crack");
}

#[test]
fn server_addresses() {
    let s = ServerEndpoint::new("http://nas:8000//", "u", "p");
    assert_eq!(s.url("/games"), "http://nas:8000/api/games");
    assert_eq!(game_path("hades"), "/games/hades");
    assert_eq!(cover_path("hades"), "/games/hades/cover");
    assert_eq!(download_path("hades"), "/download/hades");
    assert_eq!(library_path(12), "/libraries/12");
    assert_eq!(library_path(-3), "/libraries/-3");
}

#[test]
fn resumed_downloads_ask_for_the_rest() {
    assert!(matches!(range_request(0, true), RangeRequest::Whole));
    match range_request(1234, true) {
        RangeRequest::Skip(n) => assert_eq!(n, "1234"),
        _ => panic!("expected a skip"),
    }
    match range_request(1234, false) {
        RangeRequest::Range(h) => assert_eq!(h, "bytes=1234-"),
        _ => panic!("expected a range"),
    }
}

#[test]
fn error_messages() {
    assert_eq!(status_msg(401), "Invalid username or password");
    assert_eq!(status_msg(403), "Access denied \u{2014} this needs an admin account");
    assert_eq!(status_msg(404), "Not found on server");
    assert_eq!(status_msg(409), "Already exists");
    assert_eq!(status_msg(500), "Server error (500)");
    assert_eq!(api_err(500, Some("Not a directory".into())), "Not a directory");
    assert_eq!(api_err(404, None), "Not found on server");
    assert_eq!(net_err("timed out"), "Network error: timed out");
    assert!(is_success(204));
    assert!(!is_success(302));
}

#[test]
fn bodies_and_covers() {
    assert!(matches!(body_kind("  \n\t"), Body::Null));
    assert!(matches!(body_kind(""), Body::Null));
    assert!(matches!(body_kind("{}"), Body::Json));
    assert!(matches!(cover_status(404), CoverStatus::Missing));
    assert!(matches!(cover_status(200), CoverStatus::Found));
    match cover_status(403) {
        CoverStatus::Failed(m) => assert_eq!(m, "Access denied \u{2014} this needs an admin account"),
        _ => panic!("expected a failure"),
    }
    assert_eq!(cover_content_type(None), "image/jpeg");
    assert_eq!(cover_content_type(Some("image/png".into())), "image/png");
}

#[test]
fn cover_media() {
    assert_eq!(data_url("image/png", b"hi"), "data:image/png;base64,aGk=");
    assert_eq!(data_url("image/jpeg", b""), "data:image/jpeg;base64,");
    assert_eq!(data_url_from("image/webp", "QQ=="), "data:image/webp;base64,QQ==");
    assert_eq!(ext_from_mime("image/png"), "png");
    assert_eq!(ext_from_mime("image/webp"), "webp");
    assert_eq!(ext_from_mime("image/gif"), "jpg");
    assert_eq!(mime_from_ext("png"), "image/png");
    assert_eq!(mime_from_ext("jpg"), "image/jpeg");
    assert_eq!(cover_file_name("hades", "image/webp"), "hades.webp");
    assert!(is_cover_of("hades.jpg", "hades"));
    assert!(!is_cover_of("hades2.jpg", "hades"));
}

#[test]
fn mount_commands_and_answers() {
    assert_eq!(
        mount_script("D:\\it's.iso"),
        "$null = Mount-DiskImage -ImagePath 'D:\\it''s.iso'; Start-Sleep -Milliseconds 700; \
         $l = (Get-DiskImage -ImagePath 'D:\\it''s.iso' | Get-Volume).DriveLetter; \
         if (-not $l) { Start-Sleep -Seconds 1; \
         $l = (Get-DiskImage -ImagePath 'D:\\it''s.iso' | Get-Volume).DriveLetter }; \
         Write-Output $l"
    );
    assert_eq!(dismount_script("D:\\x.iso"), "Dismount-DiskImage -ImagePath 'D:\\x.iso' | Out-Null");
    assert_eq!(mounted_drive(Ok(" E \n".into())).unwrap(), "E:\\");
    assert_eq!(
        mounted_drive(Ok("  ".into())).unwrap_err(),
        "Mounted the disc but couldn't find its drive letter"
    );
    assert_eq!(mounted_drive(Err(String::new())).unwrap_err(), "Could not mount the disc image");
    assert_eq!(mounted_drive(Err("denied".into())).unwrap_err(), "denied");
    assert_eq!(elevation_error(Some(1223), "x"), "The elevation (UAC) prompt was cancelled.");
    assert_eq!(elevation_error(Some(5), "denied"), "Windows wouldn't launch the installer elevated: denied");
    assert_eq!(launch_error("nope"), "Could not launch the game: nope");
}

#[test]
fn text_helpers() {
    assert_eq!(trim("\u{3000} a b \n"), "a b");
    assert_eq!(u64_to_decimal(0), "0");
    assert_eq!(u64_to_decimal(u64::MAX), "18446744073709551615");
    assert_eq!(i64_to_decimal(i64::MIN), "-9223372036854775808");
}

#[test]
fn a_cached_cover_reads_back_as_fetched() {
    for ct in ["image/png", "image/webp", "image/jpeg"] {
        let name = cover_file_name("hades.v2", ct);
        assert!(is_cover_of(&name, "hades.v2"));
        let ext = ludex_desktop::names::extension(&name).unwrap();
        let mime = mime_from_ext(&ext);
        assert_eq!(mime, ct);
        assert_eq!(data_url(&mime, b"cover"), data_url(ct, b"cover"));
    }
}
