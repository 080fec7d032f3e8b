use ludex_desktop::names::rar_base;
use ludex_desktop::paths::safe_join;
use ludex_desktop::rar::{find_rar_first_volume, in_rar_set, FileEntry};

#[test]
fn sanitizes_windows_illegal_chars() {
    let out = safe_join("D:\\Games\\slug", "Assassin's Creed: Black Flag/bin/what?.exe");
    let tail = out.replace("D:\\Games\\slug\\", "");
    assert_eq!(tail, "Assassin's Creed_ Black Flag\\bin\\what_.exe");
    // no illegal char survived in the joined-under-dest portion
    assert!(!tail.contains(':'));
    assert!(!tail.contains('?'));
}

#[test]
fn trims_trailing_dots_and_spaces() {
    let out = safe_join("D:\\d", "name. /ok");
    assert_eq!(out.replace("D:\\d\\", ""), "name\\ok");
}

#[test]
fn rar_base_recognises_volume_shapes() {
    assert_eq!(rar_base("rld-smsd.rar").as_deref(), Some("rld-smsd"));
    assert_eq!(rar_base("rld-smsd.r00").as_deref(), Some("rld-smsd"));
    assert_eq!(rar_base("rld-smsd.r77").as_deref(), Some("rld-smsd"));
    assert_eq!(rar_base("game.part03.rar").as_deref(), Some("game"));
    // not split-RAR volumes
    assert_eq!(rar_base("setup.exe"), None);
    assert_eq!(rar_base("readme.txt"), None);
    assert_eq!(rar_base("cover.r"), None); // too short to be .rNN
}

fn entry(dir: &str, name: &str) -> FileEntry {
    FileEntry { dir: dir.to_string(), name: name.to_string() }
}

#[test]
fn picks_first_volume_and_deletes_the_whole_set() {
    let dir = "C:\\scratch\\rar";
    let mut entries = Vec::new();
    for i in 0..5 {
        entries.push(entry(dir, &format!("rld-smsd.r{i:02}")));
    }
    entries.push(entry(dir, "rld-smsd.rar"));
    entries.push(entry(dir, "Leeme.txt")); // must be left alone

    let first = find_rar_first_volume(&entries).expect("should find the set");
    assert_eq!(entries[first].name, "rld-smsd.rar");

    let doomed: Vec<&str> = entries
        .iter()
        .filter(|e| in_rar_set(&entries[first].name, &e.name))
        .map(|e| e.name.as_str())
        .collect();
    assert!(doomed.contains(&"rld-smsd.rar"));
    assert!(doomed.contains(&"rld-smsd.r03"));
    assert!(!doomed.contains(&"Leeme.txt")); // untouched
}

#[test]
fn lone_rar_is_not_treated_as_a_split_set() {
    let entries = vec![entry("C:\\scratch\\lone", "extras.rar")];
    assert!(find_rar_first_volume(&entries).is_none());
}
