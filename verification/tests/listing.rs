use aegis_backend::listing::{sort_strings, str_le};

fn strings(v: &[&str]) -> Vec<String> {
    v.iter().map(|s| s.to_string()).collect()
}

#[test]
fn comparison_is_lexicographic() {
    assert!(str_le("", ""));
    assert!(str_le("", "a"));
    assert!(!str_le("a", ""));
    assert!(str_le("abc", "abd"));
    assert!(!str_le("abd", "abc"));
    assert!(str_le("ab", "abc"));
    assert!(!str_le("abc", "ab"));
    assert!(str_le("same", "same"));
    assert!(str_le("Zoo", "apple"));
}

#[test]
fn sort_orders_directory_names() {
    let mut names = strings(&["worlds", "README.md", "src", "config.json"]);
    sort_strings(&mut names);
    assert_eq!(names, strings(&["README.md", "config.json", "src", "worlds"]));
}

#[test]
fn sort_keeps_duplicates_and_edge_cases() {
    let mut names = strings(&["b", "a", "b", "", "a"]);
    sort_strings(&mut names);
    assert_eq!(names, strings(&["", "a", "a", "b", "b"]));

    let mut empty: Vec<String> = Vec::new();
    sort_strings(&mut empty);
    assert!(empty.is_empty());

    let mut single = strings(&["only"]);
    sort_strings(&mut single);
    assert_eq!(single, strings(&["only"]));
}

#[test]
fn sort_agrees_with_the_standard_order() {
    let mut ours = strings(&["delta", "alpha", "echo", "bravo", "charlie", "alpha"]);
    let mut std_sorted = ours.clone();
    sort_strings(&mut ours);
    std_sorted.sort();
    assert_eq!(ours, std_sorted);
}
