use dbi_backend::control::{check_can_start, check_can_stop, stop_summary};
use dbi_backend::files::{add_file_to_map, is_installable, is_valid_file, FileList};
use dbi_backend::listing::{sort_by_keys, sort_by_name, FileInfo};
use dbi_backend::paths::{extension_of, file_name_range, PathStyle};
use dbi_backend::session::StopReason;

fn name_in(p: &str, style: PathStyle) -> Option<String> {
    file_name_range(p, style).map(|(a, b)| p.chars().skip(a).take(b - a).collect())
}

fn ext_in(p: &str, style: PathStyle) -> Option<String> {
    extension_of(p, style).map(|(a, b)| p.chars().skip(a).take(b - a).collect())
}

fn name_of(p: &str) -> Option<String> {
    name_in(p, PathStyle::Unix)
}

fn ext_of(p: &str) -> Option<String> {
    ext_in(p, PathStyle::Unix)
}

fn win_name(p: &str) -> Option<String> {
    name_in(p, PathStyle::Windows)
}

#[test]
fn file_names_follow_path_components() {
    assert_eq!(name_of("/games/zelda.nsp").as_deref(), Some("zelda.nsp"));
    assert_eq!(name_of("zelda.nsp").as_deref(), Some("zelda.nsp"));
    assert_eq!(name_of("a/b/").as_deref(), Some("b"));
    assert_eq!(name_of("a//b").as_deref(), Some("b"));
    assert_eq!(name_of("a/b/.").as_deref(), Some("b"));
    assert_eq!(name_of("a/b/..").as_deref(), None);
    assert_eq!(name_of("/").as_deref(), None);
    assert_eq!(name_of("").as_deref(), None);
    assert_eq!(name_of(".").as_deref(), None);
    assert_eq!(name_of("./.").as_deref(), None);
}

#[test]
fn extensions_follow_the_last_dot() {
    assert_eq!(ext_of("/x/game.tar.nsp").as_deref(), Some("nsp"));
    assert_eq!(ext_of("/x/.nsp").as_deref(), None);
    assert_eq!(ext_of("/x/game").as_deref(), None);
    assert_eq!(ext_of("/x/game.").as_deref(), Some(""));
    assert_eq!(ext_of("/x/..nsp").as_deref(), Some("nsp"));
}

#[test]
fn paths_agree_with_std_path() {
    let samples = [
        "/games/zelda.nsp", "a/b/", "a/b/.", "a/b/..", "/", "", ".", "./.", "./x.xci",
        "x/.hidden", "x/..nsz", "game.", "dir.nsp/", "a/./b.NSZ", "//a//b.xcz//",
    ];
    for p in samples {
        let path = std::path::Path::new(p);
        let name = path.file_name().map(|n| n.to_str().unwrap().to_string());
        let ext = path.extension().map(|n| n.to_str().unwrap().to_string());
        assert_eq!(name_of(p), name, "file name of {p:?}");
        assert_eq!(ext_of(p), ext, "extension of {p:?}");
    }
}

fn is_valid_file_unix(p: &str) -> bool {
    is_valid_file(p, PathStyle::Unix)
}

#[test]
fn windows_file_names() {
    assert_eq!(win_name(r"C:\g\a.nsp").as_deref(), Some("a.nsp"));
    assert_eq!(win_name(r"C:\g/b.xci").as_deref(), Some("b.xci"));
    assert_eq!(win_name(r"C:a.nsp").as_deref(), Some("a.nsp"));
    assert_eq!(win_name(r"C:").as_deref(), None);
    assert_eq!(win_name(r"C:\").as_deref(), None);
    assert_eq!(win_name(r"C:.\x.nsp").as_deref(), Some("x.nsp"));
    assert_eq!(win_name(r"\\server\share\x.xci").as_deref(), Some("x.xci"));
    assert_eq!(win_name(r"\\server\share").as_deref(), None);
    assert_eq!(win_name(r"\\server\share\").as_deref(), None);
    assert_eq!(win_name(r"//server/share/x.nsp").as_deref(), Some("x.nsp"));
    assert_eq!(win_name(r"\\?\C:\g\a.nsp").as_deref(), Some("a.nsp"));
    assert_eq!(win_name(r"\\?\C:\g/a.nsp").as_deref(), Some("g/a.nsp"));
    assert_eq!(win_name(r"\\?\C:\a\.").as_deref(), None);
    assert_eq!(win_name(r"\\?\UNC\srv\shr\a.nsz").as_deref(), Some("a.nsz"));
    assert_eq!(win_name(r"\\?\UNC\srv\shr").as_deref(), None);
    assert_eq!(win_name(r"\\.\COM1").as_deref(), None);
    assert_eq!(win_name(r"\\.\PIPE\x.nsp").as_deref(), Some("x.nsp"));
    assert_eq!(win_name(r"a\b\.").as_deref(), Some("b"));
    assert_eq!(win_name(r"a\b\..").as_deref(), None);
    assert_eq!(win_name(r"game.nsp").as_deref(), Some("game.nsp"));
    assert_eq!(ext_in(r"C:\g\.nsp", PathStyle::Windows).as_deref(), None);
    assert_eq!(ext_in(r"C:\g\a.b.NSZ", PathStyle::Windows).as_deref(), Some("NSZ"));
    assert_eq!(name_of(r"C:\g\a.nsp").as_deref(), Some(r"C:\g\a.nsp"));
}

#[test]
fn windows_files_are_added_under_their_names() {
    let mut files = FileList::new();
    add_file_to_map(&mut files, r"C:\Games\Zelda.NSP".to_string(), true, PathStyle::Windows);
    assert!(is_valid_file(r"D:\x\y.xcz", PathStyle::Windows));
    assert!(!is_valid_file(r"D:\x.nsp\..", PathStyle::Windows));
    assert_eq!(files.len(), 1);
    assert_eq!(files.entry(0).name, "Zelda.NSP");
    assert_eq!(files.entry(0).path, r"C:\Games\Zelda.NSP");
}

#[test]
fn installable_extensions() {
    assert!(is_installable("nsp"));
    assert!(is_installable("xcz"));
    assert!(!is_installable("NSP"));
    assert!(!is_installable("zip"));
}

#[test]
fn valid_files_by_extension_in_any_case() {
    assert!(is_valid_file_unix("/g/a.nsp"));
    assert!(is_valid_file_unix("/g/a.NSZ"));
    assert!(is_valid_file_unix("/g/a.Xci"));
    assert!(is_valid_file_unix("b.xcz"));
    assert!(!is_valid_file_unix("/g/a.zip"));
    assert!(!is_valid_file_unix("/g/.nsp"));
    assert!(!is_valid_file_unix("/g/nsp"));
    assert!(!is_valid_file_unix("/g/a.nsp/.."));
}

#[test]
fn list_insert_replace_remove_clear() {
    let mut files = FileList::new();
    assert!(files.is_empty());
    files.insert("a.nsp".to_string(), "/1/a.nsp".to_string());
    files.insert("b.nsp".to_string(), "/1/b.nsp".to_string());
    files.insert("a.nsp".to_string(), "/2/a.nsp".to_string());
    assert_eq!(files.len(), 2);
    assert_eq!(files.get(&"a.nsp".to_string()).map(|s| s.as_str()), Some("/2/a.nsp"));
    assert_eq!(files.entry(0).name, "a.nsp");
    assert_eq!(files.entry(1).name, "b.nsp");
    files.remove(&"a.nsp".to_string());
    assert_eq!(files.len(), 1);
    assert_eq!(files.get(&"a.nsp".to_string()), None);
    files.remove(&"zzz".to_string());
    assert_eq!(files.len(), 1);
    files.clear();
    assert!(files.is_empty());
}

#[test]
fn adding_files_keeps_installable_existing_ones() {
    let mut files = FileList::new();
    add_file_to_map(&mut files, "/g/one.nsp".to_string(), true, PathStyle::Unix);
    add_file_to_map(&mut files, "/g/two.txt".to_string(), true, PathStyle::Unix);
    add_file_to_map(&mut files, "/g/three.xci".to_string(), false, PathStyle::Unix);
    add_file_to_map(&mut files, "/h/one.nsp".to_string(), true, PathStyle::Unix);
    assert_eq!(files.len(), 1);
    assert_eq!(files.get(&"one.nsp".to_string()).map(|s| s.as_str()), Some("/h/one.nsp"));
}

fn info(name: &str, size: u64) -> FileInfo {
    FileInfo { name: name.to_string(), path: format!("/g/{name}"), size }
}

#[test]
fn listing_sorts_by_name_ignoring_case() {
    let list = vec![info("b.nsp", 1), info("C.xci", 2), info("a.nsz", 3), info("B.NSP", 4)];
    let sorted = sort_by_name(list);
    let names: Vec<&str> = sorted.iter().map(|f| f.name.as_str()).collect();
    assert_eq!(names, vec!["a.nsz", "b.nsp", "B.NSP", "C.xci"]);
    assert_eq!(sorted[0].size, 3);
}

#[test]
fn listing_agrees_with_std_sort() {
    let list = vec![
        info("Zelda.nsp", 1), info("mario.xci", 2), info("Äpfel.nsz", 3), info("zelda.NSP", 4),
        info("Mario Kart.nsp", 5), info("", 6),
    ];
    let mut expected = list.clone();
    expected.sort_by(|a, b| a.name.to_lowercase().cmp(&b.name.to_lowercase()));
    assert_eq!(sort_by_name(list), expected);
}

#[test]
fn start_and_stop_rules() {
    assert_eq!(check_can_start(true, 3), Err("Server is already running".to_string()));
    assert_eq!(check_can_start(false, 0), Err("No files to serve".to_string()));
    assert_eq!(check_can_start(false, 1), Ok(()));
    assert_eq!(check_can_stop(false), Err("Server is not running".to_string()));
    assert_eq!(check_can_stop(true), Ok(()));
}

#[test]
fn stop_summaries() {
    assert_eq!(stop_summary(&StopReason::Completed("Transferred 1 file (3 B)".to_string())), "Transferred 1 file (3 B)");
    assert_eq!(stop_summary(&StopReason::UserStopped), "Server stopped by user");
    assert_eq!(stop_summary(&StopReason::Error("boom".to_string())), "Server error: boom");
}

#[test]
fn keyed_sort_is_stable() {
    let list = vec![info("x", 1), info("y", 2), info("z", 3), info("w", 4)];
    let keys = vec![b"b".to_vec(), b"a".to_vec(), b"b".to_vec(), b"".to_vec()];
    let sorted = sort_by_keys(list, keys);
    let sizes: Vec<u64> = sorted.iter().map(|f| f.size).collect();
    assert_eq!(sizes, vec![4, 2, 1, 3]);
}
