use fs_index::{is_ignored, make_item, FSItem, IndexBuilder, Settings, WalkEntry};

fn strings(v: &[&str]) -> Vec<String> {
    v.iter().map(|s| s.to_string()).collect()
}

fn settings(ignore: &[&str], projects: &[&str], key_words: &[&str]) -> Settings {
    Settings::new(
        false,
        strings(ignore),
        strings(projects),
        strings(key_words),
        String::from("fs_index.json"),
    )
}

fn dir(path: &str, name: &str) -> WalkEntry {
    WalkEntry { path: path.to_string(), file_name: name.to_string(), is_file: false, size: None }
}

fn file(path: &str, name: &str, size: u64) -> WalkEntry {
    WalkEntry { path: path.to_string(), file_name: name.to_string(), is_file: true, size: Some(size) }
}

fn build(entries: &[WalkEntry], s: Settings) -> Vec<FSItem> {
    let mut b = IndexBuilder::new(s);
    for e in entries {
        b.visit(e);
    }
    b.finish()
}

fn plain_item(path: &str, name: &str) -> FSItem {
    FSItem {
        file_extension: String::from("txt"),
        file_name: name.to_string(),
        file_path: path.to_string(),
        file_size: 0,
        key_words: strings(&["", name]),
        project: String::from(""),
    }
}

#[test]
fn test_index_directory() {
    let entries = [
        dir("./test-data/path/", "path"),
        file("./test-data/path/ignore.txt", "ignore.txt", 0),
        file("./test-data/path/test1.txt", "test1.txt", 0),
        file("./test-data/path/test2.txt", "test2.txt", 0),
    ];
    let fs_items = build(&entries, settings(&["ignore.txt"], &[], &[]));
    assert_eq!(fs_items.len(), 2);
    assert_eq!(fs_items[0].file_path, "./test-data/path/test1.txt");
    assert_eq!(fs_items[1].file_path, "./test-data/path/test2.txt");
}

#[test]
fn two_empty_files_build_two_plain_entries() {
    let entries = [dir("root", "root"), file("root/test1.txt", "test1.txt", 0), file("root/test2.txt", "test2.txt", 0)];
    let items = build(&entries, settings(&[], &[], &[]));
    assert_eq!(items, vec![plain_item("root/test1.txt", "test1.txt"), plain_item("root/test2.txt", "test2.txt")]);
}

#[test]
fn ignore_pattern_leaves_one_entry() {
    let entries = [dir("root", "root"), file("root/keep.txt", "keep.txt", 3), file("root/ignore.txt", "ignore.txt", 4)];
    let items = build(&entries, settings(&["ignore.txt"], &[], &[]));
    assert_eq!(items.len(), 1);
    assert_eq!(items[0].file_name, "keep.txt");
    assert_eq!(items[0].file_size, 3);
}

#[test]
fn ignored_directory_is_not_descended_and_yields_nothing() {
    let mut b = IndexBuilder::new(settings(&["target"], &[], &[]));
    assert!(b.visit(&dir("root", "root")));
    assert!(!b.visit(&dir("root/target", "target")));
    assert!(!b.visit(&file("root/target/out.bin", "out.bin", 9)));
    assert!(b.visit(&file("root/src.rs", "src.rs", 1)));
    assert_eq!(b.len(), 1);
    let items = b.finish();
    assert_eq!(items[0].file_path, "root/src.rs");
    assert_eq!(items[0].file_extension, "rs");
}

#[test]
fn unreadable_and_non_file_entries_are_skipped() {
    let entries = [
        dir("root", "root"),
        WalkEntry { path: "root/broken".to_string(), file_name: "broken".to_string(), is_file: true, size: None },
        file("root/ok.md", "ok.md", 12),
    ];
    let items = build(&entries, settings(&[], &[], &[]));
    assert_eq!(items.len(), 1);
    assert_eq!(items[0].file_name, "ok.md");
}

#[test]
fn build_twice_in_another_order_gives_same_entries() {
    let a = file("r/a.txt", "a.txt", 1);
    let b = file("r/b.txt", "b.txt", 2);
    let s = || settings(&[], &["r"], &[]);
    let first = build(&[a.clone(), b.clone()], s());
    let second = build(&[b, a], s());
    assert_eq!(first.len(), second.len());
    for item in &first {
        assert!(second.contains(item));
    }
}

#[test]
fn is_ignored_is_case_sensitive_substring() {
    let pats = strings(&["node_modules", ".git"]);
    assert!(is_ignored("/w/node_modules/x.js", &pats));
    assert!(is_ignored("/w/.gitignore", &pats));
    assert!(!is_ignored("/w/Node_Modules/x.js", &pats));
    assert!(!is_ignored("/w/x.js", &Vec::new()));
}

#[test]
fn make_item_tags_from_the_path() {
    let s = settings(&[], &["myproject"], &["backend", "docker"]);
    let path = String::from("/path/to/myproject/backend/Dockerfile");
    let item = make_item(&path, &String::from("Dockerfile"), 42, &s);
    assert_eq!(
        item,
        FSItem {
            file_extension: String::from(""),
            file_name: String::from("Dockerfile"),
            file_path: path.clone(),
            file_size: 42,
            key_words: strings(&["backend", "docker", "myproject", "Dockerfile"]),
            project: String::from("myproject"),
        }
    );
}

#[test]
fn extension_is_last_one_of_last_segment() {
    let s = settings(&[], &[], &[]);
    let item = make_item(&String::from("/a.b/archive.tar.gz"), &String::from("archive.tar.gz"), 0, &s);
    assert_eq!(item.file_extension, "gz");
    let item = make_item(&String::from("/a.b/Makefile"), &String::from("Makefile"), 0, &s);
    assert_eq!(item.file_extension, "");
}

#[test]
fn settings_new_keeps_values() {
    let s = settings(&["x"], &["p"], &["k"]);
    assert!(!s.debug);
    assert_eq!(s.ignore_patterns, strings(&["x"]));
    assert_eq!(s.projects, strings(&["p"]));
    assert_eq!(s.key_words, strings(&["k"]));
    assert_eq!(s.output_filename, "fs_index.json");
}
