//! The command dispatcher: one key press, one total transition.
//!
//! `dispatch` maps the current interaction mode and a key to a mutation of
//! the navigation state and an `Action` that names the one side effect the
//! caller must perform, if any. Every branch either stays in the current
//! mode or moves to exactly one explicit target mode; the whole transition
//! relation is written out in `dispatch_post`.

use vstd::prelude::*;
use crate::entry::{is_dir, is_dir_entry};
use crate::state::{cyclic_next, cyclic_previous, App, EditPurpose, InputMode, StatefulList};

verus! {

/// The model of one key press that the dispatcher distinguishes.
#[derive(Clone, Copy, PartialEq, Eq, Debug)]
pub enum Key {
    Char(char),
    Enter,
    Backspace,
    Esc,
    Other,
}

/// The side effect a transition asks its caller to perform.
///
/// The dispatcher itself never touches the filesystem: entering, opening,
/// creating and reading are carried out outside and fed back in as plain
/// values.
#[derive(Clone, PartialEq, Eq, Debug)]
pub enum Action {
    /// Nothing left to do.
    Stay,
    /// Leave the run loop.
    Quit,
    /// List the current directory again with the flags now held by the
    /// state, then hand the raw entries back through `App::new_cwd`.
    Refresh,
    /// Read the entry (a directory's listing, or a file's text) and hand
    /// the content back through `App::show_preview`.
    Preview { entry: String },
    /// Change the working directory to the entry, then refresh.
    EnterDirectory { entry: String },
    /// Open the entry in the configured editor; the run ends afterwards.
    OpenEditor { entry: String },
    /// Create the named file, then open it in the editor.
    CreateFile { name: String },
    /// Create the named directory, then refresh and leave editing mode.
    CreateDirectory { name: String },
}

/// The cursor list after one forward step.
pub open spec fn spec_next<T>(l: StatefulList<T>) -> StatefulList<T> {
    StatefulList { items: l.items, selected: cyclic_next(l.selected, l.items.len() as nat) }
}

/// The cursor list after one backward step.
pub open spec fn spec_previous<T>(l: StatefulList<T>) -> StatefulList<T> {
    StatefulList { items: l.items, selected: cyclic_previous(l.selected, l.items.len() as nat) }
}

/// Everything except the interaction mode and the input buffer is kept.
pub open spec fn keeps_all_but_mode_and_input(pre: App, post: App) -> bool {
    &&& post.items == pre.items
    &&& post.prev == pre.prev
    &&& post.file_cont == pre.file_cont
    &&& post.hide_dot_files == pre.hide_dot_files
    &&& post.long_listing == pre.long_listing
}

/// The transition relation of the dispatcher in normal mode.
pub open spec fn normal_post(pre: App, key: Key, post: App, act: Action) -> bool {
    match key {
        Key::Char(c) => if c == 'q' {
            post == pre && act == Action::Quit
        } else if c == 'j' {
            post == (App { prev: false, items: spec_next(pre.items), ..pre }) && act
                == Action::Stay
        } else if c == 'k' {
            post == (App { prev: false, items: spec_previous(pre.items), ..pre }) && act
                == Action::Stay
        } else if c == 'l' {
            post == (App { hide_dot_files: false, long_listing: !pre.long_listing, ..pre }) && act
                == Action::Refresh
        } else if c == 'o' {
            post == (App { hide_dot_files: !pre.hide_dot_files, long_listing: false, ..pre }) && act
                == Action::Refresh
        } else if c == 'p' {
            post == pre && act == (match pre.items.spec_selected() {
                Option::Some(e) => Action::Preview { entry: e },
                Option::None => Action::Stay,
            })
        } else if c == '%' {
            keeps_all_but_mode_and_input(pre, post) && post.input_mode == InputMode::Editing(
                EditPurpose::CreateFile,
            ) && post.input@ == Seq::<char>::empty() && act == Action::Stay
        } else if c == 'd' {
            keeps_all_but_mode_and_input(pre, post) && post.input_mode == InputMode::Editing(
                EditPurpose::CreateDirectory,
            ) && post.input@ == Seq::<char>::empty() && act == Action::Stay
        } else {
            post == pre && act == Action::Stay
        },
        Key::Enter => post == pre && act == (match pre.items.spec_selected() {
            Option::Some(e) => if is_dir_entry(e@) {
                Action::EnterDirectory { entry: e }
            } else {
                Action::OpenEditor { entry: e }
            },
            Option::None => Action::Stay,
        }),
        _ => post == pre && act == Action::Stay,
    }
}

/// The transition relation of the dispatcher in editing mode.
pub open spec fn editing_post(
    pre: App,
    purpose: EditPurpose,
    key: Key,
    post: App,
    act: Action,
) -> bool {
    match key {
        Key::Char(c) => keeps_all_but_mode_and_input(pre, post) && post.input_mode
            == pre.input_mode && post.input@ == pre.input@.push(c) && act == Action::Stay,
        Key::Backspace => keeps_all_but_mode_and_input(pre, post) && post.input_mode
            == pre.input_mode && post.input@ == (if pre.input@.len() == 0 {
            pre.input@
        } else {
            pre.input@.drop_last()
        }) && act == Action::Stay,
        Key::Esc => keeps_all_but_mode_and_input(pre, post) && post.input_mode
            == InputMode::Normal && post.input@ == Seq::<char>::empty() && act == Action::Stay,
        Key::Enter => post == pre && act == (if pre.input@.len() != 0 {
            match purpose {
                EditPurpose::CreateFile => Action::CreateFile { name: pre.input },
                EditPurpose::CreateDirectory => Action::CreateDirectory { name: pre.input },
            }
        } else {
            Action::Stay
        }),
        Key::Other => post == pre && act == Action::Stay,
    }
}

/// The full transition relation: what one key press does to the state and
/// which side effect it requests, in either mode.
pub open spec fn dispatch_post(pre: App, key: Key, post: App, act: Action) -> bool {
    match pre.input_mode {
        InputMode::Normal => normal_post(pre, key, post, act),
        InputMode::Editing(purpose) => editing_post(pre, purpose, key, post, act),
    }
}

/// Relies on String::push: appends exactly the given character.
#[verifier::external_body]
fn push_char(s: &mut String, c: char)
    ensures
        final(s)@ == old(s)@.push(c),
{
    s.push(c);
}

/// Relies on String::pop: removes and returns the last character, and
/// leaves an empty string empty.
#[verifier::external_body]
fn pop_char(s: &mut String) -> (r: Option<char>)
    ensures
        old(s)@.len() == 0 ==> final(s)@ == old(s)@ && r is None,
        old(s)@.len() > 0 ==> final(s)@ == old(s)@.drop_last() && r == Option::Some(
            old(s)@.last(),
        ),
{
    s.pop()
}

/// Empties the input buffer and returns to normal mode.
pub fn restore_input_field(app: &mut App)
    ensures
        final(app).input_mode == InputMode::Normal,
        final(app).input@ == Seq::<char>::empty(),
        keeps_all_but_mode_and_input(*old(app), *final(app)),
{
    app.clear_input();
    app.input_mode = InputMode::Normal;
    proof {
        assert(final(app).input@ =~= Seq::<char>::empty());
    }
}

/// Applies one key press to the navigation state and returns the side
/// effect the caller must perform.
pub fn dispatch(app: &mut App, key: Key) -> (act: Action)
    requires
        old(app).wf(),
    ensures
        final(app).wf(),
        dispatch_post(*old(app), key, *final(app), act),
{
    match app.input_mode {
        InputMode::Normal => match key {
            Key::Char(c) => {
                if c == 'q' {
                    Action::Quit
                } else if c == 'j' {
                    app.prev = false;
                    app.items.next();
                    Action::Stay
                } else if c == 'k' {
                    app.prev = false;
                    app.items.previous();
                    Action::Stay
                } else if c == 'l' {
                    app.hide_dot_files = false;
                    app.long_listing = !app.long_listing;
                    Action::Refresh
                } else if c == 'o' {
                    app.hide_dot_files = !app.hide_dot_files;
                    app.long_listing = false;
                    Action::Refresh
                } else if c == 'p' {
                    match app.items.get_selected() {
                        Some(e) => Action::Preview { entry: e.clone() },
                        None => Action::Stay,
                    }
                } else if c == '%' {
                    app.clear_input();
                    app.input_mode = InputMode::Editing(EditPurpose::CreateFile);
                    proof {
                        assert(app.input@ =~= Seq::<char>::empty());
                    }
                    Action::Stay
                } else if c == 'd' {
                    app.clear_input();
                    app.input_mode = InputMode::Editing(EditPurpose::CreateDirectory);
                    proof {
                        assert(app.input@ =~= Seq::<char>::empty());
                    }
                    Action::Stay
                } else {
                    Action::Stay
                }
            },
            Key::Enter => {
                match app.items.get_selected() {
                    Some(e) => {
                        let entry = e.clone();
                        if is_dir(entry.as_str()) {
                            Action::EnterDirectory { entry }
                        } else {
                            Action::OpenEditor { entry }
                        }
                    },
                    None => Action::Stay,
                }
            },
            _ => Action::Stay,
        },
        InputMode::Editing(purpose) => match key {
            Key::Char(c) => {
                push_char(&mut app.input, c);
                Action::Stay
            },
            Key::Backspace => {
                pop_char(&mut app.input);
                Action::Stay
            },
            Key::Esc => {
                restore_input_field(app);
                Action::Stay
            },
            Key::Enter => {
                if !app.input.as_str().is_empty() {
                    let name = app.input.clone();
                    match purpose {
                        EditPurpose::CreateFile => Action::CreateFile { name },
                        EditPurpose::CreateDirectory => Action::CreateDirectory { name },
                    }
                } else {
                    Action::Stay
                }
            },
            Key::Other => Action::Stay,
        },
    }
}

} // verus!
