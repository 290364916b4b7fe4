use aegis_backend::paths::{
    get_python_executable_path, path_basename, path_dirname, path_join, str_eq,
};

#[test]
fn python_interpreter_under_the_root() {
    assert_eq!(
        get_python_executable_path("/sim", false),
        "/sim/.venv/bin/python"
    );
    assert_eq!(
        get_python_executable_path("/sim", true),
        "/sim/.venv/Scripts/python"
    );
    assert_eq!(
        get_python_executable_path("C:/projects/aegis", true),
        "C:/projects/aegis/.venv/Scripts/python"
    );
}

#[test]
fn join_inserts_single_separators() {
    let parts = |v: &[&str]| v.iter().map(|s| s.to_string()).collect::<Vec<String>>();
    assert_eq!(path_join(&parts(&["a", "b", "c"])), "a/b/c");
    assert_eq!(path_join(&parts(&["/root", "x"])), "/root/x");
    assert_eq!(path_join(&parts(&["a/", "b"])), "a/b");
    assert_eq!(path_join(&parts(&[])), "");
    assert_eq!(path_join(&parts(&["solo"])), "solo");
}

#[test]
fn join_restarts_at_an_absolute_part() {
    let parts = |v: &[&str]| v.iter().map(|s| s.to_string()).collect::<Vec<String>>();
    assert_eq!(path_join(&parts(&["a", "/abs", "y"])), "/abs/y");
}

#[test]
fn dirname_cuts_at_the_last_separator() {
    assert_eq!(path_dirname("/a/b"), "/a");
    assert_eq!(path_dirname("/a"), "/");
    assert_eq!(path_dirname("a"), "");
    assert_eq!(path_dirname(""), "");
    assert_eq!(path_dirname("a/b/c"), "a/b");
}

#[test]
fn dirname_strips_trailing_separators_first() {
    assert_eq!(path_dirname("/"), "");
    assert_eq!(path_dirname("///"), "");
    assert_eq!(path_dirname("a/b/"), "a");
    assert_eq!(path_dirname("/a/"), "/");
    assert_eq!(path_dirname("a//b"), "a");
}

#[test]
fn basename_is_the_final_component() {
    assert_eq!(path_basename("/a/b.txt"), "b.txt");
    assert_eq!(path_basename("file"), "file");
    assert_eq!(path_basename("/a/"), "a");
    assert_eq!(path_basename("a//b"), "b");
    assert_eq!(path_basename("/"), "");
    assert_eq!(path_basename(""), "");
    assert_eq!(path_basename("worlds/demo.world"), "demo.world");
}

#[test]
fn text_equality_compares_characters() {
    assert!(str_eq("", ""));
    assert!(str_eq("abc", "abc"));
    assert!(!str_eq("abc", "abd"));
    assert!(!str_eq("abc", "abcd"));
}
