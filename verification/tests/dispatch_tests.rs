use kfm::dispatch::{dispatch, restore_input_field, Action, Key};
use kfm::settings::resolve_editor;
use kfm::state::{App, EditPurpose, InputMode};

fn strings(raw: &[&str]) -> Vec<String> {
    raw.iter().map(|s| s.to_string()).collect()
}

fn app_with(raw: &[&str]) -> App {
    let mut app = App::new();
    app.new_cwd(&strings(raw), true, false);
    app
}

fn type_text(app: &mut App, text: &str) {
    for c in text.chars() {
        assert_eq!(dispatch(app, Key::Char(c)), Action::Stay);
    }
}

#[test]
fn quit_key_ends_the_run() {
    let mut app = app_with(&["../", "./"]);
    assert_eq!(dispatch(&mut app, Key::Char('q')), Action::Quit);
}

#[test]
fn unknown_key_does_nothing() {
    let mut app = app_with(&["../", "./"]);
    assert_eq!(dispatch(&mut app, Key::Char('z')), Action::Stay);
    assert_eq!(dispatch(&mut app, Key::Other), Action::Stay);
    assert_eq!(app.input_mode, InputMode::Normal);
    assert_eq!(app.items.selected, Some(0));
}

#[test]
fn j_and_k_move_the_cursor() {
    let mut app = app_with(&["../", "./", "a"]);
    assert_eq!(dispatch(&mut app, Key::Char('j')), Action::Stay);
    assert_eq!(app.items.selected, Some(1));
    assert_eq!(dispatch(&mut app, Key::Char('k')), Action::Stay);
    assert_eq!(app.items.selected, Some(0));
    assert_eq!(dispatch(&mut app, Key::Char('k')), Action::Stay);
    assert_eq!(app.items.selected, Some(2));
}

#[test]
fn long_listing_key_toggles_and_refreshes() {
    let mut app = app_with(&["../", "./"]);
    assert_eq!(dispatch(&mut app, Key::Char('l')), Action::Refresh);
    assert!(app.long_listing);
    assert!(!app.hide_dot_files);
    assert_eq!(dispatch(&mut app, Key::Char('l')), Action::Refresh);
    assert!(!app.long_listing);
}

#[test]
fn hidden_files_toggle_twice_restores_flag_and_view() {
    let raw = strings(&["a", ".x", "b/", "../", "./"]);
    let mut app = App::new();
    app.new_cwd(&raw, true, false);
    let original_flag = app.hide_dot_files;
    let original_view = app.current_files();

    assert_eq!(dispatch(&mut app, Key::Char('o')), Action::Refresh);
    let hide = app.hide_dot_files;
    let long = app.long_listing;
    app.new_cwd(&raw, hide, long);
    assert!(!app.hide_dot_files);
    assert_eq!(app.current_files(), strings(&["../", "./", "b/", ".x", "a"]));

    assert_eq!(dispatch(&mut app, Key::Char('o')), Action::Refresh);
    let hide = app.hide_dot_files;
    let long = app.long_listing;
    app.new_cwd(&raw, hide, long);
    assert_eq!(app.hide_dot_files, original_flag);
    assert_eq!(app.current_files(), original_view);
}

#[test]
fn preview_on_file_round_trips_its_content() {
    let mut app = app_with(&["../", "./", "file.txt"]);
    assert_eq!(dispatch(&mut app, Key::Char('j')), Action::Stay);
    assert_eq!(dispatch(&mut app, Key::Char('j')), Action::Stay);
    let act = dispatch(&mut app, Key::Char('p'));
    assert_eq!(act, Action::Preview { entry: "file.txt".to_string() });
    app.show_preview("known content".to_string());
    assert!(app.prev);
    assert_eq!(app.file_cont, "known content");
}

#[test]
fn preview_with_nothing_selected_does_nothing() {
    let mut app = App::new();
    assert_eq!(dispatch(&mut app, Key::Char('p')), Action::Stay);
    assert!(!app.prev);
}

#[test]
fn enter_on_directory_asks_to_enter_it() {
    let mut app = app_with(&["../", "./", "b/", "a"]);
    assert_eq!(dispatch(&mut app, Key::Char('j')), Action::Stay);
    assert_eq!(dispatch(&mut app, Key::Char('j')), Action::Stay);
    let act = dispatch(&mut app, Key::Enter);
    assert_eq!(act, Action::EnterDirectory { entry: "b/".to_string() });
}

#[test]
fn enter_on_file_asks_to_open_it() {
    let mut app = app_with(&["../", "./", "a"]);
    assert_eq!(dispatch(&mut app, Key::Char('k')), Action::Stay);
    let act = dispatch(&mut app, Key::Enter);
    assert_eq!(act, Action::OpenEditor { entry: "a".to_string() });
}

#[test]
fn enter_with_nothing_selected_does_nothing() {
    let mut app = App::new();
    assert_eq!(dispatch(&mut app, Key::Enter), Action::Stay);
}

#[test]
fn percent_key_starts_file_creation() {
    let mut app = app_with(&["../", "./"]);
    assert_eq!(dispatch(&mut app, Key::Char('%')), Action::Stay);
    assert_eq!(app.input_mode, InputMode::Editing(EditPurpose::CreateFile));
    assert_eq!(app.input, "");
}

#[test]
fn d_key_starts_directory_creation() {
    let mut app = app_with(&["../", "./"]);
    assert_eq!(dispatch(&mut app, Key::Char('d')), Action::Stay);
    assert_eq!(app.input_mode, InputMode::Editing(EditPurpose::CreateDirectory));
    assert_eq!(app.input, "");
}

#[test]
fn editing_appends_and_backspace_removes() {
    let mut app = app_with(&["../", "./"]);
    dispatch(&mut app, Key::Char('%'));
    type_text(&mut app, "ab");
    assert_eq!(app.input, "ab");
    assert_eq!(dispatch(&mut app, Key::Backspace), Action::Stay);
    assert_eq!(app.input, "a");
    assert_eq!(dispatch(&mut app, Key::Backspace), Action::Stay);
    assert_eq!(dispatch(&mut app, Key::Backspace), Action::Stay);
    assert_eq!(app.input, "");
}

#[test]
fn escape_cancels_editing() {
    let mut app = app_with(&["../", "./"]);
    dispatch(&mut app, Key::Char('d'));
    type_text(&mut app, "dir");
    assert_eq!(dispatch(&mut app, Key::Esc), Action::Stay);
    assert_eq!(app.input_mode, InputMode::Normal);
    assert_eq!(app.input, "");
}

#[test]
fn enter_with_empty_buffer_submits_nothing() {
    let mut app = app_with(&["../", "./"]);
    dispatch(&mut app, Key::Char('%'));
    assert_eq!(dispatch(&mut app, Key::Enter), Action::Stay);
    assert_eq!(app.input_mode, InputMode::Editing(EditPurpose::CreateFile));
}

#[test]
fn submitting_a_filename_asks_to_create_the_file() {
    let mut app = app_with(&["../", "./"]);
    dispatch(&mut app, Key::Char('%'));
    type_text(&mut app, "f.txt");
    let act = dispatch(&mut app, Key::Enter);
    assert_eq!(act, Action::CreateFile { name: "f.txt".to_string() });
}

#[test]
fn creating_a_directory_refreshes_and_returns_to_normal() {
    let mut app = app_with(&["../", "./"]);
    dispatch(&mut app, Key::Char('d'));
    type_text(&mut app, "newdir");
    let act = dispatch(&mut app, Key::Enter);
    assert_eq!(act, Action::CreateDirectory { name: "newdir".to_string() });

    // what the caller performs on that action: create the directory, list
    // again, and leave editing mode
    let raw_after = strings(&["../", "./", "newdir/"]);
    let hide = app.hide_dot_files;
    app.new_cwd(&raw_after, hide, false);
    restore_input_field(&mut app);

    assert!(app.current_files().contains(&"newdir/".to_string()));
    assert_eq!(app.input_mode, InputMode::Normal);
    assert_eq!(app.input, "");
}

#[test]
fn moving_the_cursor_hides_the_preview() {
    let mut app = app_with(&["../", "./", "a"]);
    app.show_preview("text".to_string());
    assert!(app.prev);
    dispatch(&mut app, Key::Char('j'));
    assert!(!app.prev);
}

#[test]
fn resolve_editor_prefers_the_configured_one() {
    assert_eq!(resolve_editor(Some("nano".to_string())), "nano");
    assert_eq!(resolve_editor(None), "vim");
}
