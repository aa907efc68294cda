use dropwin::drop_registry::DropRegistry;
use dropwin::file::{metadata_for_path, paths_refer_to_same_file, FileMetadata, PathCase, PathInfo, PathProbe};
use dropwin::file_ops::{
    add_files, clear_files, get_files, merge_dropped_files, note_dropped_paths, pasted_file_name,
    remove_files, rename_file, retain_present_files,
};

fn new_registry() -> DropRegistry<(f64, f64)> {
    let mut registry = DropRegistry::new((0.0, 0.0), (156.0, 156.0), PathCase::Sensitive);
    registry.create("d".into(), (0.0, 0.0)).unwrap();
    registry
}

fn file_info(name: &str, ext: Option<&str>, len: u64) -> PathInfo {
    PathInfo {
        is_directory: false,
        len,
        file_name: Some(name.into()),
        extension: ext.map(|e| e.to_string()),
    }
}

fn present(path: &str) -> PathProbe {
    PathProbe::Present(metadata_for_path(path.into(), 0, file_info(path, Some("txt"), 3)))
}

#[test]
fn folder_metadata_has_no_size_and_folder_type() {
    let meta = metadata_for_path(
        "/tmp/folder".into(),
        0,
        PathInfo { is_directory: true, len: 4096, file_name: Some("folder".into()), extension: None },
    );
    assert_eq!(meta.file_type, "folder");
    assert_eq!(meta.size, 0);
    assert_eq!(meta.name, "folder");
}

#[test]
fn file_metadata_keeps_id_name_path_and_extension() {
    let meta = metadata_for_path("/tmp/a.txt".into(), 7, file_info("a.txt", Some("txt"), 0));
    assert_eq!(meta.id, 7);
    assert_eq!(meta.name, "a.txt");
    assert_eq!(meta.path, "/tmp/a.txt");
    assert_eq!(meta.file_type, "txt");
    assert_eq!(meta.size, 0);
    let odd = metadata_for_path(
        "/".into(),
        1,
        PathInfo { is_directory: false, len: 9, file_name: None, extension: None },
    );
    assert_eq!(odd.name, "Unknown");
    assert_eq!(odd.file_type, "unknown");
    assert_eq!(odd.size, 9);
}

#[test]
fn path_comparison_follows_the_file_system() {
    assert!(paths_refer_to_same_file("C:\\A.txt", "c:\\a.TXT", PathCase::AsciiInsensitive));
    assert!(!paths_refer_to_same_file("C:\\A.txt", "c:\\a.TXT", PathCase::Sensitive));
    assert!(paths_refer_to_same_file("/a", "/a", PathCase::Sensitive));
    assert!(!paths_refer_to_same_file("/É", "/é", PathCase::AsciiInsensitive));
}

#[test]
fn adding_skips_missing_and_duplicate_paths() {
    let mut registry = new_registry();
    let probes = vec![present("/a.txt"), PathProbe::Missing, present("/b.txt"), present("/a.txt")];
    add_files(&mut registry, "d", &probes).unwrap();
    let files = get_files(&registry, "d").unwrap();
    assert_eq!(files.iter().map(|f| (f.id, f.path.as_str())).collect::<Vec<_>>(), vec![(0, "/a.txt"), (1, "/b.txt")]);
    assert!(registry.with_drop("d", |s| Ok(s.received_content)).unwrap());
}

#[test]
fn adding_only_missing_paths_receives_nothing() {
    let mut registry = new_registry();
    add_files(&mut registry, "d", &vec![PathProbe::Missing]).unwrap();
    assert!(!registry.with_drop("d", |s| Ok(s.received_content)).unwrap());
    assert!(get_files(&registry, "d").unwrap().is_empty());
}

#[test]
fn an_unreadable_path_stops_adding_but_keeps_earlier_files() {
    let mut registry = new_registry();
    let probes = vec![
        present("/a.txt"),
        PathProbe::Unreadable { path: "/a.txt".into(), error: "dup".into() },
        PathProbe::Unreadable { path: "/c.txt".into(), error: "denied".into() },
        present("/d.txt"),
    ];
    assert_eq!(add_files(&mut registry, "d", &probes), Err("denied".to_string()));
    let files = get_files(&registry, "d").unwrap();
    assert_eq!(files.len(), 1);
    assert_eq!(files[0].path, "/a.txt");
}

#[test]
fn adding_to_a_closed_drop_fails() {
    let mut registry = new_registry();
    assert_eq!(
        add_files(&mut registry, "gone", &vec![present("/a.txt")]),
        Err("Drop gone is no longer open".to_string())
    );
}

#[test]
fn dropped_paths_mark_the_drop_and_merge_readable_files() {
    let mut registry = new_registry();
    let probes = vec![
        PathProbe::Unreadable { path: "/x".into(), error: "e".into() },
        present("/a.txt"),
        PathProbe::Missing,
    ];
    note_dropped_paths(&mut registry, "d", &vec![false, true, false]).unwrap();
    assert!(registry.with_drop("d", |s| Ok(s.received_content)).unwrap());
    merge_dropped_files(&mut registry, "d", &probes).unwrap();
    merge_dropped_files(&mut registry, "d", &probes).unwrap();
    let files = get_files(&registry, "d").unwrap();
    assert_eq!(files.len(), 1);
    assert_eq!(files[0].id, 0);
    let mut other = new_registry();
    note_dropped_paths(&mut other, "d", &vec![false]).unwrap();
    assert!(!other.with_drop("d", |s| Ok(s.received_content)).unwrap());
}

fn fill(registry: &mut DropRegistry<(f64, f64)>, paths: &[&str]) {
    let probes: Vec<PathProbe> = paths.iter().map(|p| present(p)).collect();
    add_files(registry, "d", &probes).unwrap();
}

#[test]
fn removing_files_by_id_reports_an_empty_drop() {
    let mut registry = new_registry();
    fill(&mut registry, &["/a", "/b", "/c"]);
    assert_eq!(remove_files(&mut registry, "d", &vec![1, 42]), Ok(false));
    let names: Vec<String> = get_files(&registry, "d").unwrap().into_iter().map(|f| f.path).collect();
    assert_eq!(names, vec!["/a".to_string(), "/c".to_string()]);
    assert_eq!(remove_files(&mut registry, "d", &vec![0, 2]), Ok(true));
}

#[test]
fn renaming_a_missing_file_names_its_id() {
    let mut registry = new_registry();
    fill(&mut registry, &["/a"]);
    assert_eq!(
        rename_file(&mut registry, "d", 12, "x".into()),
        Err("File with ID 12 not found".to_string())
    );
    rename_file(&mut registry, "d", 0, "renamed".into()).unwrap();
    assert_eq!(get_files(&registry, "d").unwrap()[0].name, "renamed");
    assert_eq!(get_files(&registry, "d").unwrap()[0].path, "/a");
}

#[test]
fn clearing_and_refreshing_forget_files() {
    let mut registry = new_registry();
    fill(&mut registry, &["/a", "/b", "/c"]);
    assert_eq!(retain_present_files(&mut registry, "d", &vec![true, true, true]), Ok((false, false)));
    assert_eq!(retain_present_files(&mut registry, "d", &vec![true, false]), Ok((true, false)));
    let paths: Vec<String> = get_files(&registry, "d").unwrap().into_iter().map(|f| f.path).collect();
    assert_eq!(paths, vec!["/a".to_string(), "/c".to_string()]);
    clear_files(&mut registry, "d").unwrap();
    assert!(get_files(&registry, "d").unwrap().is_empty());
    assert_eq!(retain_present_files(&mut registry, "d", &vec![]), Ok((false, true)));
    assert_eq!(clear_files(&mut registry, "x"), Err("Drop x is no longer open".to_string()));
}

#[test]
fn pasted_file_names_drop_leading_dots_of_the_extension() {
    assert_eq!(pasted_file_name("pasted", "101112000", "abc", "..txt"), "pasted_101112000_abc.txt");
    assert_eq!(pasted_file_name("downloaded", "1", "u", "png"), "downloaded_1_u.png");
    assert_eq!(pasted_file_name("p", "t", "u", "..."), "p_t_u.");
}

#[test]
fn file_metadata_clones_field_by_field() {
    let meta = FileMetadata { id: 3, name: "n".into(), path: "/p".into(), size: 5, file_type: "t".into() };
    let copy = meta.clone();
    assert_eq!((copy.id, copy.name, copy.path, copy.size, copy.file_type), (3, "n".to_string(), "/p".to_string(), 5, "t".to_string()));
}

#[test]
fn case_sensitive_paths_compare_by_components() {
    assert!(paths_refer_to_same_file("a/./b", "a/b", PathCase::Sensitive));
    assert!(paths_refer_to_same_file("/a//b/", "/a/b", PathCase::Sensitive));
    assert!(paths_refer_to_same_file("./a/", "./a", PathCase::Sensitive));
    assert!(!paths_refer_to_same_file("./a", "a", PathCase::Sensitive));
    assert!(!paths_refer_to_same_file("/a", "a", PathCase::Sensitive));
    assert!(!paths_refer_to_same_file("a/../b", "b", PathCase::Sensitive));
    assert!(!paths_refer_to_same_file(".", "", PathCase::Sensitive));
    assert!(!paths_refer_to_same_file("/a/B", "/a/b", PathCase::Sensitive));
    assert!(!paths_refer_to_same_file("a/./b", "a/b", PathCase::AsciiInsensitive));
}

#[test]
fn a_path_with_the_same_components_is_not_added_twice() {
    let mut registry = new_registry();
    merge_dropped_files(&mut registry, "d", &vec![present("/x/y")]).unwrap();
    merge_dropped_files(&mut registry, "d", &vec![present("/x//./y/"), present("/x/z")]).unwrap();
    let paths: Vec<String> = get_files(&registry, "d").unwrap().into_iter().map(|f| f.path).collect();
    assert_eq!(paths, vec!["/x/y".to_string(), "/x/z".to_string()]);
}
