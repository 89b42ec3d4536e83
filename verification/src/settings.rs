//! Editor preference resolution.
//!
//! The configuration file is read outside and handed in as the value of
//! its `editor` key, if any; a missing file or key falls back to the
//! built-in default editor.

use vstd::prelude::*;

verus! {

/// Picks the configured editor, or the built-in default when none is
/// configured.
pub fn resolve_editor(configured: Option<String>) -> (editor: String)
    ensures
        match configured {
            Option::Some(e) => editor == e,
            Option::None => editor@ == "vim"@,
        },
{
    match configured {
        Some(e) => e,
        None => "vim".to_owned(),
    }
}

} // verus!
