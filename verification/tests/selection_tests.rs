use kfm::state::{App, InputMode, StatefulList};

fn strings(raw: &[&str]) -> Vec<String> {
    raw.iter().map(|s| s.to_string()).collect()
}

#[test]
fn with_items_selects_the_first_slot() {
    let l = StatefulList::with_items(vec![10u32, 20, 30]);
    assert_eq!(l.selected, Some(0));
}

#[test]
fn with_items_on_empty_has_no_selection() {
    let l = StatefulList::with_items(Vec::<u32>::new());
    assert_eq!(l.selected, None);
    assert_eq!(l.get_selected(), None);
}

#[test]
fn next_full_cycle_returns_to_start() {
    let mut l = StatefulList::with_items(vec![1u32, 2, 3]);
    l.next();
    l.next();
    l.next();
    assert_eq!(l.selected, Some(0));
}

#[test]
fn next_full_cycle_from_middle_returns_to_middle() {
    let mut l = StatefulList::with_items(vec![1u32, 2, 3, 4]);
    l.next();
    assert_eq!(l.selected, Some(1));
    for _ in 0..4 {
        l.next();
    }
    assert_eq!(l.selected, Some(1));
}

#[test]
fn previous_undoes_next() {
    let mut l = StatefulList::with_items(vec![1u32, 2, 3]);
    l.next();
    l.previous();
    assert_eq!(l.selected, Some(0));
}

#[test]
fn previous_on_first_wraps_to_last() {
    let mut l = StatefulList::with_items(vec![1u32, 2, 3]);
    l.previous();
    assert_eq!(l.selected, Some(2));
}

#[test]
fn next_on_last_wraps_to_first() {
    let mut l = StatefulList::with_items(vec![1u32, 2, 3]);
    l.next();
    l.next();
    assert_eq!(l.selected, Some(2));
    l.next();
    assert_eq!(l.selected, Some(0));
}

#[test]
fn moves_on_empty_list_keep_no_selection() {
    let mut l = StatefulList::with_items(Vec::<u32>::new());
    l.next();
    assert_eq!(l.selected, None);
    l.previous();
    assert_eq!(l.selected, None);
}

#[test]
fn get_selected_returns_the_current_item() {
    let mut l = StatefulList::with_items(strings(&["a", "b"]));
    assert_eq!(l.get_selected(), Some(&"a".to_string()));
    l.next();
    assert_eq!(l.get_selected(), Some(&"b".to_string()));
}

#[test]
fn new_app_starts_normal_and_hiding() {
    let app = App::new();
    assert_eq!(app.input_mode, InputMode::Normal);
    assert!(app.hide_dot_files);
    assert!(!app.long_listing);
    assert!(!app.prev);
    assert_eq!(app.current_files(), Vec::<String>::new());
    assert_eq!(app.input, "");
    assert_eq!(app.file_cont, "");
}

#[test]
fn new_cwd_classifies_and_reselects() {
    let mut app = App::new();
    app.new_cwd(&strings(&["a", "b/", ".x", "../", "./"]), true, false);
    assert_eq!(app.current_files(), strings(&["../", "./", "b/", "a"]));
    assert_eq!(app.items.selected, Some(0));
    let mut moved = app;
    moved.items.next();
    moved.new_cwd(&strings(&["../", "./"]), true, false);
    assert_eq!(moved.items.selected, Some(0));
}

#[test]
fn new_cwd_with_long_listing_strips_the_summary_line() {
    let mut app = App::new();
    app.new_cwd(&strings(&["total 4", "a", "../", "./"]), true, true);
    assert_eq!(app.current_files(), strings(&["../", "./", "a"]));
}

#[test]
fn new_cwd_stores_the_flags() {
    let mut app = App::new();
    app.new_cwd(&strings(&["../", "./"]), false, true);
    assert!(!app.hide_dot_files);
    assert!(app.long_listing);
}

#[test]
fn show_preview_toggles_and_stores() {
    let mut app = App::new();
    app.show_preview("text".to_string());
    assert!(app.prev);
    assert_eq!(app.file_cont, "text");
    app.show_preview("other".to_string());
    assert!(!app.prev);
    assert_eq!(app.file_cont, "other");
}
