//! The order in which classified entries are listed.
//!
//! Directories come before files; within each group, entries are compared
//! by name, code point by code point, with the trailing `/` marker excluded
//! from the comparison.

use vstd::prelude::*;
use vstd::relations::total_ordering;
use crate::entry::{entry_name, is_dir, is_dir_entry};

verus! {

/// Strict lexicographic order on character sequences, by code point.
pub open spec fn lex_lt(a: Seq<char>, b: Seq<char>) -> bool
    decreases a.len(),
{
    if b.len() == 0 {
        false
    } else if a.len() == 0 {
        true
    } else if a[0] != b[0] {
        (a[0] as u32) < (b[0] as u32)
    } else {
        lex_lt(a.drop_first(), b.drop_first())
    }
}

/// Lexicographic order, reflexive version.
pub open spec fn lex_le(a: Seq<char>, b: Seq<char>) -> bool {
    lex_lt(a, b) || a == b
}

/// The listing order: directories strictly before files, then by name.
pub open spec fn entry_le(a: Seq<char>, b: Seq<char>) -> bool {
    if is_dir_entry(a) != is_dir_entry(b) {
        is_dir_entry(a)
    } else {
        lex_le(entry_name(a), entry_name(b))
    }
}

/// The listing order as a relation value, for use with `sort_by`.
pub open spec fn entry_order() -> spec_fn(Seq<char>, Seq<char>) -> bool {
    |a: Seq<char>, b: Seq<char>| entry_le(a, b)
}

/// Distinct characters have distinct code points.
proof fn lemma_char_cast_distinct(c1: char, c2: char)
    requires
        c1 != c2,
    ensures
        (c1 as u32) != (c2 as u32),
{
}

pub proof fn lemma_lex_lt_asym(a: Seq<char>, b: Seq<char>)
    requires
        lex_lt(a, b),
    ensures
        !lex_lt(b, a),
    decreases a.len(),
{
    if a.len() > 0 && b.len() > 0 && a[0] == b[0] {
        lemma_lex_lt_asym(a.drop_first(), b.drop_first());
    }
}

pub proof fn lemma_lex_lt_connected(a: Seq<char>, b: Seq<char>)
    requires
        a != b,
    ensures
        lex_lt(a, b) || lex_lt(b, a),
    decreases a.len(),
{
    if a.len() == 0 && b.len() == 0 {
        assert(a =~= b);
    } else if a.len() > 0 && b.len() > 0 && a[0] == b[0] {
        if a.drop_first() == b.drop_first() {
            assert(a =~= b) by {
                assert(a.drop_first().len() == a.len() - 1);
                assert(b.drop_first().len() == b.len() - 1);
                assert(a.len() == b.len());
                assert forall|k: int| 0 <= k < a.len() implies a[k] == b[k] by {
                    if k > 0 {
                        assert(a[k] == a.drop_first()[k - 1]);
                        assert(b[k] == b.drop_first()[k - 1]);
                    }
                }
            }
        } else {
            lemma_lex_lt_connected(a.drop_first(), b.drop_first());
        }
    } else if a.len() > 0 && b.len() > 0 {
        lemma_char_cast_distinct(a[0], b[0]);
    }
}

pub proof fn lemma_lex_lt_trans(a: Seq<char>, b: Seq<char>, c: Seq<char>)
    requires
        lex_lt(a, b),
        lex_lt(b, c),
    ensures
        lex_lt(a, c),
    decreases a.len(),
{
    if a.len() > 0 && b.len() > 0 && c.len() > 0 && a[0] == b[0] && b[0] == c[0] {
        lemma_lex_lt_trans(a.drop_first(), b.drop_first(), c.drop_first());
    }
}

/// Equal directory-ness and equal name identify an entry.
pub proof fn lemma_entry_from_parts(a: Seq<char>, b: Seq<char>)
    requires
        is_dir_entry(a) == is_dir_entry(b),
        entry_name(a) == entry_name(b),
    ensures
        a == b,
{
    if is_dir_entry(a) {
        assert(a =~= entry_name(a).push('/'));
        assert(b =~= entry_name(b).push('/'));
    }
}

/// The listing order is a total ordering, as `sort_by` requires.
pub proof fn lemma_entry_order_total()
    ensures
        total_ordering(entry_order()),
{
    let leq = entry_order();
    assert forall|x: Seq<char>| #[trigger] leq(x, x) by {};
    assert forall|x: Seq<char>, y: Seq<char>| #[trigger] leq(x, y) && #[trigger] leq(y, x)
        implies x == y by {
        if is_dir_entry(x) == is_dir_entry(y) {
            if entry_name(x) != entry_name(y) {
                if lex_lt(entry_name(x), entry_name(y)) {
                    lemma_lex_lt_asym(entry_name(x), entry_name(y));
                } else {
                    lemma_lex_lt_asym(entry_name(y), entry_name(x));
                }
            }
            lemma_entry_from_parts(x, y);
        }
    };
    assert forall|x: Seq<char>, y: Seq<char>, z: Seq<char>|
        #[trigger] leq(x, y) && #[trigger] leq(y, z) implies leq(x, z) by {
        if is_dir_entry(x) == is_dir_entry(y) && is_dir_entry(y) == is_dir_entry(z) {
            if lex_lt(entry_name(x), entry_name(y)) && lex_lt(entry_name(y), entry_name(z)) {
                lemma_lex_lt_trans(entry_name(x), entry_name(y), entry_name(z));
            }
        }
    };
    assert forall|x: Seq<char>, y: Seq<char>| #[trigger] leq(x, y) || #[trigger] leq(y, x) by {
        if is_dir_entry(x) == is_dir_entry(y) && entry_name(x) != entry_name(y) {
            lemma_lex_lt_connected(entry_name(x), entry_name(y));
        }
    };
}

/// Compares the name prefixes `a@.take(a_end)` and `b@.take(b_end)` in
/// lexicographic order.
fn lex_le_prefix(a: &str, a_end: usize, b: &str, b_end: usize) -> (r: bool)
    requires
        a_end <= a@.len(),
        b_end <= b@.len(),
    ensures
        r == lex_le(a@.take(a_end as int), b@.take(b_end as int)),
{
    let ghost na = a@.take(a_end as int);
    let ghost nb = b@.take(b_end as int);
    proof {
        assert(na.skip(0) =~= na);
        assert(nb.skip(0) =~= nb);
    }
    let mut i: usize = 0;
    while i < a_end && i < b_end
        invariant
            i <= a_end <= a@.len(),
            i <= b_end <= b@.len(),
            na == a@.take(a_end as int),
            nb == b@.take(b_end as int),
            forall|k: int| 0 <= k < i ==> na[k] == nb[k],
            lex_lt(na, nb) == lex_lt(na.skip(i as int), nb.skip(i as int)),
        decreases a_end - i,
    {
        let ca = a.get_char(i);
        let cb = b.get_char(i);
        proof {
            assert(na.skip(i as int)[0] == na[i as int]);
            assert(nb.skip(i as int)[0] == nb[i as int]);
        }
        if ca != cb {
            proof {
                assert(na[i as int] != nb[i as int]);
                assert(na != nb);
            }
            return (ca as u32) < (cb as u32);
        }
        proof {
            assert(na.skip(i as int).drop_first() =~= na.skip(i + 1));
            assert(nb.skip(i as int).drop_first() =~= nb.skip(i + 1));
        }
        i = i + 1;
    }
    proof {
        if i == a_end && i == b_end {
            assert(na =~= nb);
        } else if i == a_end {
            assert(na.skip(i as int).len() == 0);
            assert(nb.skip(i as int).len() > 0);
        } else {
            assert(na.skip(i as int).len() > 0);
            assert(nb.skip(i as int).len() == 0);
            assert(na.len() != nb.len());
            assert(na != nb);
        }
    }
    i == a_end
}

/// Decides the listing order between two entries.
pub fn entry_le_exec(a: &str, b: &str) -> (r: bool)
    ensures
        r == entry_le(a@, b@),
{
    let a_dir = is_dir(a);
    let b_dir = is_dir(b);
    if a_dir != b_dir {
        a_dir
    } else {
        let a_len = a.unicode_len();
        let b_len = b.unicode_len();
        let a_end = if a_dir { a_len - 1 } else { a_len };
        let b_end = if b_dir { b_len - 1 } else { b_len };
        proof {
            assert(entry_name(a@) =~= a@.take(a_end as int));
            assert(entry_name(b@) =~= b@.take(b_end as int));
        }
        lex_le_prefix(a, a_end, b, b_end)
    }
}

} // verus!
