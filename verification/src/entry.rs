//! Entries and the trailing-slash directory convention.
//!
//! An entry is one filesystem object name, relative to the current working
//! directory. A trailing `/` is the sole directory marker; there is no
//! separate metadata field anywhere in the crate.

use vstd::prelude::*;

verus! {

/// An entry names a directory iff its last character is `/`.
pub open spec fn is_dir_entry(e: Seq<char>) -> bool {
    e.len() > 0 && e.last() == '/'
}

/// The name of an entry, with the directory marker excluded.
pub open spec fn entry_name(e: Seq<char>) -> Seq<char> {
    if is_dir_entry(e) {
        e.drop_last()
    } else {
        e
    }
}

/// The entry `./`, the current directory.
pub open spec fn dot_slash() -> Seq<char> {
    seq!['.', '/']
}

/// The entry `../`, the parent directory.
pub open spec fn parent_slash() -> Seq<char> {
    seq!['.', '.', '/']
}

/// An entry is hidden when its name starts with `.`, except for the two
/// special entries `./` and `../`, which are always shown.
pub open spec fn is_hidden(e: Seq<char>) -> bool {
    e.len() > 0 && e[0] == '.' && e != dot_slash() && e != parent_slash()
}

/// Resolves an entry name against a directory: the directory, a `/`
/// separator, and the name.
pub fn join_path(dir: &str, name: &str) -> (path: String)
    ensures
        path@ == dir@ + "/"@ + name@,
{
    let base = dir.to_owned();
    let with_sep = base.concat("/");
    with_sep.concat(name)
}

/// Decides directory-ness of an entry by its last character.
pub fn is_dir(possible_dir: &str) -> (r: bool)
    ensures
        r == is_dir_entry(possible_dir@),
{
    let n = possible_dir.unicode_len();
    if n == 0 {
        false
    } else {
        possible_dir.get_char(n - 1) == '/'
    }
}

} // verus!
