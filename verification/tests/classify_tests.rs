use kfm::classify::classify;
use kfm::is_dir;

fn strings(raw: &[&str]) -> Vec<String> {
    raw.iter().map(|s| s.to_string()).collect()
}

#[test]
fn classify_strips_hides_sorts_and_swaps() {
    let raw = strings(&["total 0", "a", "b/", ".hidden", "../", "./"]);
    let view = classify(&raw, true, true);
    assert_eq!(view, strings(&["../", "./", "b/", "a"]));
}

#[test]
fn classify_empty_input_gives_empty_view() {
    let raw: Vec<String> = Vec::new();
    assert_eq!(classify(&raw, true, false), Vec::<String>::new());
    assert_eq!(classify(&raw, true, true), Vec::<String>::new());
}

#[test]
fn classify_keeps_dot_files_when_not_hiding() {
    let raw = strings(&["a", ".h", "../", "./"]);
    let view = classify(&raw, false, false);
    assert_eq!(view, strings(&["../", "./", ".h", "a"]));
}

#[test]
fn classify_hides_dot_files() {
    let raw = strings(&[".hidden", "a", ".config/", "../", "./"]);
    let view = classify(&raw, true, false);
    assert_eq!(view, strings(&["../", "./", "a"]));
}

#[test]
fn classify_strip_drops_only_the_first_entry() {
    let raw = strings(&["total 12"]);
    assert_eq!(classify(&raw, true, true), Vec::<String>::new());
}

#[test]
fn classify_without_special_entries_does_not_swap() {
    let raw = strings(&["b/", "a"]);
    let view = classify(&raw, true, false);
    assert_eq!(view, strings(&["b/", "a"]));
}

#[test]
fn classify_puts_directories_before_files() {
    let raw = strings(&["z/", "a", "b/", "c"]);
    let view = classify(&raw, false, false);
    assert_eq!(view, strings(&["b/", "z/", "a", "c"]));
}

#[test]
fn classify_orders_directory_names_without_their_marker() {
    // comparing whole strings would put "a!/" before "a/", because '!'
    // comes before '/'; names are compared with the marker excluded
    let raw = strings(&["a!/", "a/"]);
    let view = classify(&raw, false, false);
    assert_eq!(view, strings(&["a/", "a!/"]));
}

#[test]
fn classify_passes_empty_names_through() {
    let raw = strings(&["", "a"]);
    let view = classify(&raw, true, false);
    assert_eq!(view, strings(&["", "a"]));
}

#[test]
fn classify_sorts_files_by_code_point() {
    let raw = strings(&["b", "B", "a"]);
    let view = classify(&raw, false, false);
    assert_eq!(view, strings(&["B", "a", "b"]));
}

#[test]
fn is_dir_goes_by_the_trailing_slash() {
    assert!(is_dir("x/"));
    assert!(is_dir("../"));
    assert!(!is_dir("x"));
    assert!(!is_dir(""));
    assert!(!is_dir("a/b"));
}

#[test]
fn join_path_inserts_a_separator() {
    assert_eq!(kfm::entry::join_path("/home/user", "a.txt"), "/home/user/a.txt");
    assert_eq!(kfm::entry::join_path("/", "b/"), "//b/");
}
