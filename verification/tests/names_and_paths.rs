use ludex_desktop::names::{
    descend_into, extension, file_stem, has_exe_extension, is_crack_dir_name, is_disc_image_name,
    is_disc_setup_name, is_installer_name, is_junk_exe_name, rar_base,
};
use ludex_desktop::paths::{
    backslash_path, file_name, join_path, join_server_path, path_prefix_len, safe_join,
};
use ludex_desktop::rar::{find_rar_first_volume, in_rar_set, FileEntry};
use ludex_desktop::scan::{
    choose_exe, pick_disc_setup, pick_installer, pick_largest_iso, pick_main_exe, SizedFile,
};

#[test]
fn extension_and_stem_split_at_the_last_dot() {
    assert_eq!(extension("game.tar.gz").as_deref(), Some("gz"));
    assert_eq!(file_stem("game.tar.gz"), "game.tar");
    assert_eq!(extension(".hidden"), None);
    assert_eq!(file_stem(".hidden"), ".hidden");
    assert_eq!(extension("noext"), None);
    assert_eq!(extension("trailing.").as_deref(), Some(""));
    assert_eq!(extension(".."), None);
}

#[test]
fn disc_images_are_recognised_by_extension() {
    assert!(is_disc_image_name("Game.ISO"));
    assert!(is_disc_image_name("disc.mdf"));
    assert!(is_disc_image_name("disc.nrg"));
    assert!(!is_disc_image_name("notes.iso.txt"));
    assert!(!is_disc_image_name("iso"));
}

#[test]
fn installers_need_an_installer_extension_and_name() {
    assert!(is_installer_name("Setup.exe"));
    assert!(is_installer_name("Install_Game.MSI"));
    assert!(is_installer_name("autorun.exe"));
    assert!(!is_installer_name("autorun2.exe"));
    assert!(!is_installer_name("game.exe"));
    assert!(!is_installer_name("setup.txt"));
}

#[test]
fn disc_setup_and_exe_checks() {
    assert!(is_disc_setup_name("AUTORUN.EXE"));
    assert!(is_disc_setup_name("MySetup.exe"));
    assert!(!is_disc_setup_name("setup.msi"));
    assert!(has_exe_extension("Game.EXE"));
    assert!(!has_exe_extension("Game.exe.bak"));
    assert!(is_junk_exe_name("unins000.exe"));
    assert!(is_junk_exe_name("UnityCrashHandler64.exe"));
    assert!(!is_junk_exe_name("Hades.exe"));
}

#[test]
fn crack_folders_match_case_insensitively() {
    assert!(is_crack_dir_name("SKIDROW"));
    assert!(is_crack_dir_name("Crack"));
    assert!(is_crack_dir_name("razor1911"));
    assert!(!is_crack_dir_name("cracks"));
}

#[test]
fn walks_stay_out_of_the_staged_crack() {
    assert!(descend_into(0, 2, "Data"));
    assert!(!descend_into(0, 2, "_Ludex-Crack"));
    assert!(!descend_into(2, 2, "Data"));
}

#[test]
fn every_volume_shape_shares_the_stem() {
    // foo.rar / foo.r07 / foo.part03.rar all share the stem foo
    assert_eq!(rar_base("Foo.RAR").as_deref(), Some("Foo"));
    assert_eq!(rar_base("Foo.r07").as_deref(), Some("Foo"));
    assert_eq!(rar_base("Foo.r123").as_deref(), Some("Foo"));
    assert_eq!(rar_base("Foo.Part03.rar").as_deref(), Some("Foo"));
    assert_eq!(rar_base("Foo.part.rar").as_deref(), Some("Foo"));
    // a stem that itself ends in .partNN reads as a part volume
    assert_eq!(rar_base("x.part1.rar").as_deref(), Some("x"));
    assert_eq!(rar_base("x.partly.rar").as_deref(), Some("x.partly"));
    assert_eq!(rar_base("x.r1"), None);
    assert_eq!(rar_base("x.rab"), None);
}

fn entry(dir: &str, name: &str) -> FileEntry {
    FileEntry { dir: dir.to_string(), name: name.to_string() }
}

#[test]
fn lowest_part_number_is_the_first_volume() {
    let entries = vec![
        entry("D:\\g", "game.part2.rar"),
        entry("D:\\g", "game.part10.rar"),
        entry("D:\\g", "game.part1.rar"),
        entry("D:\\g", "readme.txt"),
    ];
    assert_eq!(find_rar_first_volume(&entries), Some(2));
}

#[test]
fn sets_group_by_folder_and_stem_ignoring_case() {
    let entries = vec![entry("D:\\g", "Game.r00"), entry("D:\\G", "game.RAR")];
    assert_eq!(find_rar_first_volume(&entries), Some(1));
    let apart = vec![entry("D:\\a", "game.r00"), entry("D:\\b", "game.rar")];
    assert_eq!(find_rar_first_volume(&apart), None);
}

#[test]
fn the_largest_set_wins() {
    let entries = vec![
        entry("D:\\g", "small.rar"),
        entry("D:\\g", "small.r00"),
        entry("D:\\g", "big.r00"),
        entry("D:\\g", "big.r01"),
        entry("D:\\g", "big.rar"),
    ];
    assert_eq!(find_rar_first_volume(&entries), Some(4));
}

#[test]
fn rar_set_membership() {
    assert!(in_rar_set("Game.rar", "game.r05"));
    assert!(!in_rar_set("Game.rar", "other.r05"));
    assert!(!in_rar_set("notes.txt", "notes.txt"));
}

#[test]
fn joins_like_windows_paths() {
    assert_eq!(join_path("C:\\Games", "x"), "C:\\Games\\x");
    assert_eq!(join_path("C:\\Games\\", "x"), "C:\\Games\\x");
    assert_eq!(join_path("C:", "x"), "C:x");
    assert_eq!(join_path("", "x"), "x");
    assert_eq!(join_path("C:\\a", "D:\\b"), "D:\\b");
    assert_eq!(join_path("C:\\a", "\\b"), "C:\\b");
    assert_eq!(backslash_path("bin/x/game.exe"), "bin\\x\\game.exe");
    assert_eq!(join_server_path("D:\\g", "bin/game.exe"), "D:\\g\\bin\\game.exe");
}

#[test]
fn safe_join_drops_traversal_and_prefixes() {
    assert_eq!(safe_join("D:\\g", "../../evil.exe"), "D:\\g\\evil.exe");
    assert_eq!(safe_join("D:\\g", "C:/Windows/x.dll"), "D:\\g\\Windows\\x.dll");
    assert_eq!(safe_join("D:\\g", "/abs//./dir/"), "D:\\g\\abs\\dir");
    assert_eq!(safe_join("D:\\g", "a<b>|c\u{1}/..."), "D:\\g\\a_b__c_\\_");
}

#[test]
fn file_names_of_windows_paths() {
    assert_eq!(file_name("C:\\a\\b.zip").as_deref(), Some("b.zip"));
    assert_eq!(file_name("a/b/").as_deref(), Some("b"));
    assert_eq!(file_name("a/.").as_deref(), Some("a"));
    assert_eq!(file_name("a\\.."), None);
    assert_eq!(file_name("C:"), None);
}

fn sized(name: &str, size: u64) -> SizedFile {
    SizedFile { name: name.to_string(), size }
}

#[test]
fn largest_image_takes_the_last_of_equals() {
    let files = vec![sized("a.iso", 5), sized("b.ISO", 9), sized("big.bin", 99), sized("c.iso", 9)];
    assert_eq!(pick_largest_iso(&files), Some(3));
    assert_eq!(pick_largest_iso(&vec![sized("x.bin", 1)]), None);
}

#[test]
fn main_exe_is_the_largest_non_helper_first_of_equals() {
    let files = vec![
        sized("unins000.exe", 500),
        sized("Game.exe", 100),
        sized("Launcher.exe", 100),
        sized("data.pak", 900),
    ];
    assert_eq!(pick_main_exe(&files), Some(1));
    assert_eq!(pick_main_exe(&vec![sized("vcredist_x64.exe", 3)]), None);
}

#[test]
fn first_installer_and_disc_setup() {
    let names = vec!["game.exe".to_string(), "setup.exe".to_string(), "install.msi".to_string()];
    assert_eq!(pick_installer(&names), Some(1));
    assert_eq!(pick_disc_setup(&names), Some(1));
    let none = vec!["readme.txt".to_string()];
    assert_eq!(pick_installer(&none), None);
    assert_eq!(pick_disc_setup(&none), None);
}

use ludex_desktop::walk::{DirItem, DirWalk, WalkRule};

fn item(path: &str, name: &str, is_dir: bool) -> DirItem {
    DirItem { path: path.to_string(), name: name.to_string(), is_dir }
}

#[test]
fn walks_go_depth_first_within_their_limits() {
    let mut w = DirWalk::new("R".to_string(), WalkRule::Release(1));
    let (d, depth) = w.next().unwrap();
    assert_eq!((d.as_str(), depth), ("R", 0));
    let files = w.visit(
        0,
        vec![
            item("R\\a", "a", true),
            item("R\\x.exe", "x.exe", false),
            item("R\\_Ludex-Crack", "_Ludex-Crack", true),
            item("R\\b", "b", true),
            item("R\\y.iso", "y.iso", false),
        ],
    );
    assert_eq!(files, vec![1, 4]);
    let (d, depth) = w.next().unwrap();
    assert_eq!((d.as_str(), depth), ("R\\b", 1));
    // at the depth limit, folders are not entered
    assert_eq!(w.visit(1, vec![item("R\\b\\c", "c", true)]), Vec::<usize>::new());
    assert_eq!(w.next().unwrap().0, "R\\a");
    assert!(w.next().is_none());

    let mut all = DirWalk::new("R".to_string(), WalkRule::Everywhere);
    all.next();
    all.visit(7, vec![item("R\\_Ludex-Crack", "_Ludex-Crack", true)]);
    assert_eq!(all.next().unwrap(), ("R\\_Ludex-Crack".to_string(), 8));
}

#[test]
fn every_windows_prefix_is_found() {
    assert_eq!(path_prefix_len("C:\\x"), 2);
    assert_eq!(path_prefix_len("\\\\server\\share\\x"), 14);
    assert_eq!(path_prefix_len("//server/share/x"), 14);
    assert_eq!(path_prefix_len("\\\\server"), 0);
    assert_eq!(path_prefix_len("\\\\?\\C:\\x"), 6);
    assert_eq!(path_prefix_len("\\\\?\\UNC\\srv\\sh\\x"), 14);
    assert_eq!(path_prefix_len("\\\\?\\pictures\\x"), 12);
    assert_eq!(path_prefix_len("\\\\.\\COM1"), 8);
    assert_eq!(path_prefix_len("x\\y"), 0);
}

#[test]
fn safe_join_drops_every_prefix() {
    assert_eq!(safe_join("D:\\g", "\\\\server\\share\\x"), "D:\\g\\x");
    assert_eq!(safe_join("D:\\g", "//server/share/x"), "D:\\g\\x");
    assert_eq!(safe_join("D:\\g", "\\\\?\\C:\\x"), "D:\\g\\x");
    assert_eq!(safe_join("D:\\g", "\\\\.\\COM1\\x"), "D:\\g\\x");
    assert_eq!(safe_join("D:\\g", "\\\\?\\C:\\a\\.\\b"), "D:\\g\\a\\b");
    // in a verbatim path `/` is no separator
    assert_eq!(safe_join("D:\\g", "\\\\?\\C:\\a/b"), "D:\\g\\a/b");
}

#[test]
fn file_names_after_any_prefix() {
    assert_eq!(file_name("\\\\server\\share"), None);
    assert_eq!(file_name("\\\\server\\share\\f.txt").as_deref(), Some("f.txt"));
    assert_eq!(file_name("\\\\?\\C:\\a\\."), None);
    assert_eq!(file_name("\\\\?\\C:\\a/b").as_deref(), Some("a/b"));
}

#[test]
fn joins_onto_shares_and_verbatim_paths() {
    assert_eq!(join_path("C:\\a", "\\\\srv\\sh\\x"), "\\\\srv\\sh\\x");
    assert_eq!(join_path("\\\\srv\\sh\\a", "\\b"), "\\\\srv\\sh\\b");
    assert_eq!(join_path("\\\\srv\\sh", "x"), "\\\\srv\\sh\\x");
    assert_eq!(join_path("\\\\?\\C:\\a", "b/../c"), "\\\\?\\C:\\a\\c");
    assert_eq!(join_path("\\\\?\\C:\\a", "\\b"), "\\\\?\\C:\\b");
    assert_eq!(join_path("\\\\?\\C:", "x"), "\\\\?\\C:\\x");
    assert_eq!(join_path("\\\\?\\C:\\a\\", ""), "\\\\?\\C:\\a\\");
}

#[test]
fn safe_joins_rejoin_to_the_same_path() {
    let first = safe_join("D:\\g", "../a:b/c./\\\\?\\x");
    assert_eq!(first, "D:\\g\\a_b\\c\\_\\x");
    let below = &first["D:\\g\\".len()..];
    assert_eq!(safe_join("D:\\g", below), first);
    // clean names join as an ordinary join would
    assert_eq!(safe_join("D:\\g", "Data\\Maps"), join_path("D:\\g", "Data\\Maps"));
}

#[test]
fn an_existing_hint_wins_over_the_scan() {
    let files = vec![sized("unins000.exe", 900), sized("Game.exe", 500), sized("Big.exe", 700)];
    let paths = vec![
        "D:\\g\\unins000.exe".to_string(),
        "D:\\g\\Game.exe".to_string(),
        "D:\\g\\bin\\Big.exe".to_string(),
    ];
    assert_eq!(
        choose_exe(Some("D:\\g\\Game.exe".to_string()), &files, &paths).as_deref(),
        Some("D:\\g\\Game.exe")
    );
    assert_eq!(choose_exe(None, &files, &paths).as_deref(), Some("D:\\g\\bin\\Big.exe"));
    let helpers = vec![sized("unins000.exe", 900)];
    assert_eq!(choose_exe(None, &helpers, &vec!["D:\\g\\unins000.exe".to_string()]), None);
}

#[test]
fn safe_join_under_a_verbatim_folder_pushes_by_component() {
    assert_eq!(safe_join("\\\\?\\C:\\\\", "x"), "\\\\?\\C:\\x");
    assert_eq!(safe_join("\\\\?\\C:\\g", "a/b"), "\\\\?\\C:\\g\\a\\b");
    assert_eq!(safe_join("\\\\?\\C:\\g\\\\", "a\\b"), join_path("\\\\?\\C:\\g\\\\", "a\\b"));
    // the name `/x` that a verbatim entry keeps starts at the root when pushed
    assert_eq!(safe_join("D:\\g", "\\\\?\\C:\\/x"), "D:/x");
}

#[test]
fn plain_names_join_as_an_ordinary_join_under_any_folder() {
    for dest in ["D:\\g", "\\\\?", "\\\\?\\UNC\\srv", "\\\\?\\C:\\g\\\\", "\\\\srv\\sh", ""] {
        assert_eq!(safe_join(dest, "a\\b"), join_path(dest, "a\\b"));
    }
    assert_eq!(safe_join("\\\\?", "a\\b"), "\\\\?\\a\\b");
    assert_eq!(safe_join("\\\\?\\UNC\\srv", "a\\b"), "\\\\?\\UNC\\srv\\a\\b");
}
