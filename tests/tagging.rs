use fs_index::{set_key_words, set_project, FSItem};

fn strings(v: &[&str]) -> Vec<String> {
    v.iter().map(|s| s.to_string()).collect()
}

#[test]
fn test_fs_item_struct() {
    let fs_item = FSItem {
        file_extension: String::from("txt"),
        file_name: String::from("test.txt"),
        file_path: String::from("./test-data/test.txt"),
        file_size: 0,
        key_words: vec![],
        project: String::from(""),
    };
    assert_eq!(fs_item.file_name, "test.txt");
}

#[test]
fn test_set_project() {
    let projects = strings(&["myproject"]);
    let path = String::from("/path/to/index/file.txt");
    let project = set_project(&path, &projects);
    assert_eq!(project, "");
    let path = String::from("/path/to/index/myproject/file.txt");
    let project = set_project(&path, &projects);
    assert_eq!(project, "myproject");
}

#[test]
fn test_set_key_words() {
    let configured = strings(&["backend", "docker"]);
    let path = String::from("/path/to/myproject/backend/Dockerfile");
    let project = String::from("myproject");
    let file_name = String::from("Dockerfile");
    let key_words = set_key_words(&path, &project, &file_name, &configured);
    assert!(key_words.contains(&String::from("backend")));
    assert!(key_words.contains(&String::from("docker")));
    assert!(key_words.contains(&String::from("myproject")));
    assert!(key_words.contains(&String::from("Dockerfile")));
}

#[test]
fn project_is_first_in_configured_order() {
    let projects = strings(&["alpha", "beta"]);
    assert_eq!(set_project("/work/beta/alpha/f.rs", &projects), "alpha");
    assert_eq!(set_project("/work/beta/f.rs", &projects), "beta");
    assert_eq!(set_project("/work/gamma/f.rs", &projects), "");
    assert_eq!(set_project("/work/gamma/f.rs", &Vec::new()), "");
}

#[test]
fn project_matches_case_aside_and_keeps_its_spelling() {
    let projects = strings(&["MyProject"]);
    assert_eq!(set_project("/SRC/MYPROJECT/main.rs", &projects), "MyProject");
    let lower = strings(&["myproject"]);
    assert_eq!(set_project("/SRC/MYPROJECT/main.rs", &lower), "myproject");
}

#[test]
fn key_words_exact_order_and_tail() {
    let configured = strings(&["docker", "missing", "Backend"]);
    let path = String::from("/p/BACKEND/Dockerfile");
    let r = set_key_words(&path, &String::from(""), &String::from("Dockerfile"), &configured);
    assert_eq!(r, strings(&["docker", "Backend", "", "Dockerfile"]));
}

#[test]
fn key_words_keep_project_and_name_even_when_repeated() {
    let configured = strings(&["proj"]);
    let path = String::from("/a/proj/proj");
    let r = set_key_words(&path, &String::from("proj"), &String::from("proj"), &configured);
    assert_eq!(r, strings(&["proj", "proj", "proj"]));
    let r = set_key_words(&path, &String::from("proj"), &String::from("proj"), &Vec::new());
    assert_eq!(r, strings(&["proj", "proj"]));
}
