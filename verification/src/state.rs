//! The selectable list and the navigation state.
//!
//! A `StatefulList` pairs an ordered sequence of items with a selection
//! cursor that moves circularly. An `App` owns the current ordered view of
//! directory entries, the interaction mode, the text input buffer, the
//! preview buffer and the listing flags; it is rebuilt wholesale on every
//! directory refresh and mutated only through the dispatcher and the
//! refresh path.

use vstd::prelude::*;
use crate::classify::{classify, classify_spec};

verus! {

/// What the text input is being captured for.
#[derive(Clone, Copy, PartialEq, Eq, Structural, Debug)]
pub enum EditPurpose {
    CreateFile,
    CreateDirectory,
}

/// The interaction mode: plain navigation, or text capture for a pending
/// create operation.
#[derive(Clone, Copy, PartialEq, Eq, Structural, Debug)]
pub enum InputMode {
    Normal,
    Editing(EditPurpose),
}

/// An ordered sequence of items with a circular selection cursor.
pub struct StatefulList<T> {
    pub items: Vec<T>,
    pub selected: Option<usize>,
}

/// The cursor after one step forward: the next index, wrapping from the
/// last slot to the first; a cursor without a selection lands on the
/// default slot.
pub open spec fn cyclic_next(sel: Option<usize>, len: nat) -> Option<usize> {
    if len == 0 {
        Option::<usize>::None
    } else {
        match sel {
            Option::Some(i) => if i + 1 < len {
                Option::Some((i + 1) as usize)
            } else {
                Option::Some(0usize)
            },
            Option::None => Option::Some(0usize),
        }
    }
}

/// The cursor after one step backward: the previous index, wrapping from
/// the first slot to the last; a cursor without a selection lands on the
/// default slot.
pub open spec fn cyclic_previous(sel: Option<usize>, len: nat) -> Option<usize> {
    if len == 0 {
        Option::<usize>::None
    } else {
        match sel {
            Option::Some(i) => if i == 0 {
                Option::Some((len - 1) as usize)
            } else {
                Option::Some((i - 1) as usize)
            },
            Option::None => Option::Some(0usize),
        }
    }
}

impl<T> StatefulList<T> {
    /// The cursor points inside the list, and is absent only on an empty
    /// list.
    pub open spec fn wf(&self) -> bool {
        match self.selected {
            Option::Some(i) => i < self.items.len(),
            Option::None => self.items.len() == 0,
        }
    }

    /// The item the cursor points at, if any.
    pub open spec fn spec_selected(&self) -> Option<T> {
        match self.selected {
            Option::Some(i) => Option::Some(self.items[i as int]),
            Option::None => Option::<T>::None,
        }
    }

    /// Wraps the items, with the first slot selected when there is one.
    pub fn with_items(items: Vec<T>) -> (l: StatefulList<T>)
        ensures
            l.items == items,
            l.selected == (if items.len() == 0 {
                Option::<usize>::None
            } else {
                Option::Some(0usize)
            }),
            l.wf(),
    {
        let selected: Option<usize> = if items.len() == 0 {
            None
        } else {
            Some(0)
        };
        StatefulList { items, selected }
    }

    /// Moves the cursor one slot down, circularly.
    pub fn next(&mut self)
        requires
            old(self).wf(),
        ensures
            final(self).wf(),
            final(self).items == old(self).items,
            final(self).selected == cyclic_next(old(self).selected, old(self).items.len() as nat),
    {
        let len = self.items.len();
        if len == 0 {
            return;
        }
        let i = match self.selected {
            Some(i) => {
                if i >= len - 1 {
                    0
                } else {
                    i + 1
                }
            },
            None => 0,
        };
        self.selected = Some(i);
    }

    /// Moves the cursor one slot up, circularly.
    pub fn previous(&mut self)
        requires
            old(self).wf(),
        ensures
            final(self).wf(),
            final(self).items == old(self).items,
            final(self).selected == cyclic_previous(
                old(self).selected,
                old(self).items.len() as nat,
            ),
    {
        let len = self.items.len();
        if len == 0 {
            return;
        }
        let i = match self.selected {
            Some(i) => {
                if i == 0 {
                    len - 1
                } else {
                    i - 1
                }
            },
            None => 0,
        };
        self.selected = Some(i);
    }

    /// The currently selected item, or nothing on an empty list.
    pub fn get_selected(&self) -> (r: Option<&T>)
        requires
            self.wf(),
        ensures
            match r {
                Option::Some(v) => self.spec_selected() == Option::Some(*v),
                Option::None => self.spec_selected() is None,
            },
    {
        match self.selected {
            Some(i) => Some(&self.items[i]),
            None => None,
        }
    }
}

/// One cursor after `n` forward steps.
pub open spec fn iterate_next(sel: Option<usize>, len: nat, n: nat) -> Option<usize>
    decreases n,
{
    if n == 0 {
        sel
    } else {
        cyclic_next(iterate_next(sel, len, (n - 1) as nat), len)
    }
}

/// The index reached from `i` after `k` forward steps on a list of length
/// `len`, for `k <= len`.
pub open spec fn wrap_index(i: int, k: int, len: int) -> int {
    if i + k < len {
        i + k
    } else {
        i + k - len
    }
}

proof fn lemma_iterate_wrap(i: usize, len: usize, k: nat)
    requires
        i < len,
        k <= len,
    ensures
        iterate_next(Option::Some(i), len as nat, k) == Option::Some(
            wrap_index(i as int, k as int, len as int) as usize,
        ),
    decreases k,
{
    if k > 0 {
        lemma_iterate_wrap(i, len, (k - 1) as nat);
    }
}

/// Full-cycle law: on a list of length `len`, taking `len` forward steps
/// returns the cursor to where it started.
pub proof fn lemma_next_full_cycle(i: usize, len: usize)
    requires
        i < len,
    ensures
        iterate_next(Option::Some(i), len as nat, len as nat) == Option::Some(i),
{
    lemma_iterate_wrap(i, len, len as nat);
}

/// One step back undoes one step forward, from any well-formed cursor.
pub proof fn lemma_previous_undoes_next(sel: Option<usize>, len: nat)
    requires
        len <= usize::MAX,
        match sel {
            Option::Some(i) => i < len,
            Option::None => len == 0,
        },
    ensures
        cyclic_previous(cyclic_next(sel, len), len) == sel,
{
}

/// Wraparound at the ends: stepping back from the first slot selects the
/// last, and stepping forward from the last selects the first.
pub proof fn lemma_wraparound(len: usize)
    requires
        len > 0,
    ensures
        cyclic_previous(Option::Some(0usize), len as nat) == Option::Some((len - 1) as usize),
        cyclic_next(Option::Some((len - 1) as usize), len as nat) == Option::Some(0usize),
{
}

/// The navigation state: the ordered view with its cursor, the interaction
/// mode, the transient buffers, and the listing flags.
pub struct App {
    pub items: StatefulList<String>,
    pub prev: bool,
    pub file_cont: String,
    pub input: String,
    pub input_mode: InputMode,
    pub hide_dot_files: bool,
    pub long_listing: bool,
}

impl App {
    /// The cursor of the view is always well formed.
    pub open spec fn wf(&self) -> bool {
        self.items.wf()
    }

    /// The empty starting state: no entries yet, normal mode, hidden files
    /// hidden, short listing, empty buffers. The first directory listing
    /// arrives through `new_cwd`.
    pub fn new() -> (app: App)
        ensures
            app.wf(),
            app.items.items@.len() == 0,
            app.prev == false,
            app.file_cont@.len() == 0,
            app.input@.len() == 0,
            app.input_mode == InputMode::Normal,
            app.hide_dot_files == true,
            app.long_listing == false,
    {
        App {
            items: StatefulList::with_items(Vec::new()),
            prev: false,
            file_cont: String::new(),
            input: String::new(),
            input_mode: InputMode::Normal,
            hide_dot_files: true,
            long_listing: false,
        }
    }

    /// Replaces the ordered view with the classified form of a fresh raw
    /// listing and re-initializes the cursor; stores the flags the listing
    /// was made with. The buffers and the mode are untouched.
    pub fn new_cwd(&mut self, raw_entries: &Vec<String>, hide_dot_files: bool, long_listing: bool)
        ensures
            final(self).wf(),
            final(self).items.items.deep_view() == classify_spec(
                raw_entries.deep_view(),
                hide_dot_files,
                long_listing,
            ),
            final(self).items.selected == (if final(self).items.items.len() == 0 {
                Option::<usize>::None
            } else {
                Option::Some(0usize)
            }),
            final(self).hide_dot_files == hide_dot_files,
            final(self).long_listing == long_listing,
            final(self).prev == old(self).prev,
            final(self).file_cont == old(self).file_cont,
            final(self).input == old(self).input,
            final(self).input_mode == old(self).input_mode,
    {
        let view = classify(raw_entries, hide_dot_files, long_listing);
        self.items = StatefulList::with_items(view);
        self.hide_dot_files = hide_dot_files;
        self.long_listing = long_listing;
    }

    /// A read-only snapshot of the current ordered view, for renderers.
    #[verifier::loop_isolation(false)]
    pub fn current_files(&self) -> (files: Vec<String>)
        ensures
            files.deep_view() == self.items.items.deep_view(),
    {
        let mut files: Vec<String> = Vec::new();
        let ghost dv = self.items.items.deep_view();
        let mut i: usize = 0;
        proof {
            assert(files.deep_view() =~= dv.take(0));
        }
        while i < self.items.items.len()
            invariant
                i <= self.items.items.len(),
                files.deep_view() == self.items.items.deep_view().take(i as int),
            decreases self.items.items.len() - i,
        {
            let ghost pre = files.deep_view();
            files.push(self.items.items[i].clone());
            proof {
                assert(files.deep_view() =~= pre.push(dv[i as int]));
                assert(dv.take(i + 1) =~= pre.push(dv[i as int]));
            }
            i = i + 1;
        }
        proof {
            assert(dv.take(i as int) =~= dv);
        }
        files
    }

    /// Empties the text input buffer; everything else is untouched.
    pub fn clear_input(&mut self)
        ensures
            final(self).input@.len() == 0,
            final(self).items == old(self).items,
            final(self).prev == old(self).prev,
            final(self).file_cont == old(self).file_cont,
            final(self).input_mode == old(self).input_mode,
            final(self).hide_dot_files == old(self).hide_dot_files,
            final(self).long_listing == old(self).long_listing,
    {
        self.input = String::new();
    }

    /// Stores freshly read preview content and toggles whether the preview
    /// is shown; everything else is untouched.
    pub fn show_preview(&mut self, content: String)
        ensures
            final(self).prev == !old(self).prev,
            final(self).file_cont == content,
            final(self).items == old(self).items,
            final(self).input == old(self).input,
            final(self).input_mode == old(self).input_mode,
            final(self).hide_dot_files == old(self).hide_dot_files,
            final(self).long_listing == old(self).long_listing,
    {
        self.prev = !self.prev;
        self.file_cont = content;
    }
}

} // verus!
