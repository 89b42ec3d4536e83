//! Turning a raw directory listing into the ordered view.
//!
//! `classify` optionally drops a leading summary line, optionally removes
//! hidden entries, sorts directories before files and each group by name,
//! and finally swaps `./` and `../` into the conventional parent-first
//! order when the sort has put them in the first two slots.

use vstd::prelude::*;
use vstd::relations::sorted_by;
use vstd::seq_lib::lemma_sorted_unique;
use vstd::pervasive::VecAdditionalExecFns;
use crate::entry::{dot_slash, entry_name, is_dir_entry, is_hidden, parent_slash};
use crate::order::{
    entry_le, entry_le_exec, entry_order, lemma_entry_order_total, lemma_lex_lt_trans, lex_lt,
};

verus! {

/// The predicate selecting the entries that a hidden-files filter keeps.
pub open spec fn keep_visible() -> spec_fn(Seq<char>) -> bool {
    |e: Seq<char>| !is_hidden(e)
}

/// The entries that remain after the summary line is dropped and hidden
/// entries are removed.
pub open spec fn visible_entries(
    entries: Seq<Seq<char>>,
    hide_dot_files: bool,
    strip_summary_line: bool,
) -> Seq<Seq<char>> {
    let stripped = if strip_summary_line && entries.len() > 0 {
        entries.drop_first()
    } else {
        entries
    };
    if hide_dot_files {
        stripped.filter(keep_visible())
    } else {
        stripped
    }
}

/// The visible entries in listing order: directories first, then by name.
pub open spec fn sorted_entries(entries: Seq<Seq<char>>) -> Seq<Seq<char>> {
    entries.sort_by(entry_order())
}

/// The general sort puts `./` before `../`; when those two fill the first
/// two slots they are swapped, so the parent directory is listed first.
pub open spec fn reorder_top(entries: Seq<Seq<char>>) -> Seq<Seq<char>> {
    if entries.len() >= 2 && entries[0] == dot_slash() && entries[1] == parent_slash() {
        entries.update(0, parent_slash()).update(1, dot_slash())
    } else {
        entries
    }
}

/// The ordered view that `classify` produces.
pub open spec fn classify_spec(
    entries: Seq<Seq<char>>,
    hide_dot_files: bool,
    strip_summary_line: bool,
) -> Seq<Seq<char>> {
    reorder_top(sorted_entries(visible_entries(entries, hide_dot_files, strip_summary_line)))
}

/// No entry of the listing starts with `.`, except `./` and `../`.
pub open spec fn no_hidden_entries(listing: Seq<Seq<char>>) -> bool {
    forall|i: int| 0 <= i < listing.len() ==> !is_hidden(#[trigger] listing[i])
}

/// Every directory entry of the listing stands before every file entry.
pub open spec fn dirs_before_files(listing: Seq<Seq<char>>) -> bool {
    forall|i: int, j: int|
        0 <= i < j < listing.len() && is_dir_entry(#[trigger] listing[j]) ==> is_dir_entry(
            #[trigger] listing[i],
        )
}

/// The shape of an ordinary listing, under which `../` and `./` claim the
/// first two slots: `./` occurs exactly once, `../` occurs, and every other
/// directory entry's name comes after `..` in code-point order.
pub open spec fn parent_and_dot_lead(kept: Seq<Seq<char>>) -> bool {
    &&& kept.to_multiset().count(dot_slash()) == 1
    &&& kept.to_multiset().count(parent_slash()) >= 1
    &&& forall|i: int|
        0 <= i < kept.len() && is_dir_entry(#[trigger] kept[i]) && kept[i] != dot_slash()
            && kept[i] != parent_slash() ==> lex_lt(
            entry_name(parent_slash()),
            entry_name(kept[i]),
        )
}

proof fn lemma_filter_push(s: Seq<Seq<char>>, x: Seq<char>, p: spec_fn(Seq<char>) -> bool)
    ensures
        s.push(x).filter(p) == (if p(x) {
            s.filter(p).push(x)
        } else {
            s.filter(p)
        }),
{
    reveal(Seq::filter);
    let t = s.push(x);
    assert(t.len() == s.len() + 1);
    assert(t.drop_last() =~= s);
    assert(t.last() == x);
}

/// Tests whether a string is exactly `./`.
fn is_dot_slash_exec(s: &str) -> (r: bool)
    ensures
        r == (s@ == dot_slash()),
{
    let n = s.unicode_len();
    if n == 2 {
        let r = s.get_char(0) == '.' && s.get_char(1) == '/';
        proof {
            assert(dot_slash()[0] == '.');
            assert(dot_slash()[1] == '/');
            if r {
                assert(s@ =~= dot_slash());
            }
        }
        r
    } else {
        proof {
            assert(dot_slash().len() == 2);
        }
        false
    }
}

/// Tests whether a string is exactly `../`.
fn is_parent_slash_exec(s: &str) -> (r: bool)
    ensures
        r == (s@ == parent_slash()),
{
    let n = s.unicode_len();
    if n == 3 {
        let r = s.get_char(0) == '.' && s.get_char(1) == '.' && s.get_char(2) == '/';
        proof {
            assert(parent_slash()[0] == '.');
            assert(parent_slash()[1] == '.');
            assert(parent_slash()[2] == '/');
            if r {
                assert(s@ =~= parent_slash());
            }
        }
        r
    } else {
        proof {
            assert(parent_slash().len() == 3);
        }
        false
    }
}

/// Tests whether an entry is hidden by the dot-file rule.
fn is_hidden_exec(s: &str) -> (r: bool)
    ensures
        r == is_hidden(s@),
{
    let n = s.unicode_len();
    if n == 0 {
        false
    } else if s.get_char(0) != '.' {
        false
    } else {
        !(is_dot_slash_exec(s) || is_parent_slash_exec(s))
    }
}

/// Drops the summary line if asked to, and the hidden entries if asked to.
#[verifier::loop_isolation(false)]
fn keep_entries(raw_entries: &Vec<String>, hide_dot_files: bool, strip_summary_line: bool) -> (kept:
    Vec<String>)
    ensures
        kept.deep_view() == visible_entries(
            raw_entries.deep_view(),
            hide_dot_files,
            strip_summary_line,
        ),
{
    let ghost raw = raw_entries.deep_view();
    let ghost stripped = if strip_summary_line && raw.len() > 0 {
        raw.drop_first()
    } else {
        raw
    };
    let start: usize = if strip_summary_line && raw_entries.len() > 0 {
        1
    } else {
        0
    };
    let mut kept: Vec<String> = Vec::new();
    let mut i: usize = start;
    while i < raw_entries.len()
        invariant
            start <= i,
            i <= raw_entries.len() || i == start,
            kept.deep_view() == (if hide_dot_files {
                stripped.take(i - start).filter(keep_visible())
            } else {
                stripped.take(i - start)
            }),
        decreases raw_entries.len() - i,
    {
        let e = &raw_entries[i];
        let hidden = is_hidden_exec(e.as_str());
        let ghost j: int = i - start;
        let ghost pre = stripped.take(j);
        proof {
            assert(stripped[j] == raw[i as int]);
            assert(stripped.take(j + 1) =~= pre.push(stripped[j]));
        }
        if !hide_dot_files || !hidden {
            let ghost pre_dv = kept.deep_view();
            kept.push(e.clone());
            proof {
                assert(kept.deep_view() =~= pre_dv.push(raw[i as int]));
            }
        }
        proof {
            if hide_dot_files {
                lemma_filter_push(pre, stripped[j], keep_visible());
            }
        }
        i = i + 1;
    }
    proof {
        assert(stripped.take(i - start) =~= stripped);
    }
    kept
}

/// Finds the slot at which a new entry keeps the listing order.
#[verifier::loop_isolation(false)]
fn insert_position(ordered: &Vec<String>, x: &String) -> (pos: usize)
    ensures
        pos <= ordered.len(),
        forall|k: int| 0 <= k < pos ==> entry_le(#[trigger] ordered.deep_view()[k], x@),
        pos < ordered.len() ==> !entry_le(ordered.deep_view()[pos as int], x@),
{
    let mut j: usize = 0;
    while j < ordered.len()
        invariant
            j <= ordered.len(),
            forall|k: int| 0 <= k < j ==> entry_le(#[trigger] ordered.deep_view()[k], x@),
        decreases ordered.len() - j,
    {
        if !entry_le_exec(ordered[j].as_str(), x.as_str()) {
            return j;
        }
        j = j + 1;
    }
    j
}

/// Sorts the entries into listing order by insertion.
#[verifier::loop_isolation(false)]
fn sort_entries_exec(entries: &Vec<String>) -> (ordered: Vec<String>)
    ensures
        ordered.deep_view() == sorted_entries(entries.deep_view()),
{
    let ghost input = entries.deep_view();
    let ghost leq = entry_order();
    proof {
        lemma_entry_order_total();
    }
    let mut ordered: Vec<String> = Vec::new();
    proof {
        assert(ordered.deep_view() =~= input.take(0));
    }
    let mut i: usize = 0;
    while i < entries.len()
        invariant
            i <= entries.len(),
            sorted_by(ordered.deep_view(), leq),
            ordered.deep_view().to_multiset() == input.take(i as int).to_multiset(),
        decreases entries.len() - i,
    {
        let x = entries[i].clone();
        let pos = insert_position(&ordered, &x);
        let ghost pre_dv = ordered.deep_view();
        ordered.insert(pos, x);
        proof {
            broadcast use vstd::seq_lib::to_multiset_insert;
            broadcast use vstd::seq_lib::to_multiset_build;

            lemma_entry_order_total();
            assert forall|a: Seq<char>, b: Seq<char>| #[trigger] leq(a, b) == entry_le(a, b) by {}
            assert(x@ == input[i as int]);
            let new_dv = pre_dv.insert(pos as int, input[i as int]);
            pre_dv.insert_ensures(pos as int, input[i as int]);
            assert(ordered.deep_view() =~= new_dv);
            assert(input.take(i + 1) =~= input.take(i as int).push(input[i as int]));
            assert forall|p1: int, p2: int| 0 <= p1 < p2 < new_dv.len() implies #[trigger] leq(
                new_dv[p1],
                new_dv[p2],
            ) by {
                if pos < pre_dv.len() {
                    assert(!leq(pre_dv[pos as int], input[i as int]));
                    assert(leq(input[i as int], pre_dv[pos as int]) || leq(
                        pre_dv[pos as int],
                        input[i as int],
                    ));
                }
                if p1 == pos && p2 > pos && p2 - 1 > pos {
                    assert(leq(pre_dv[pos as int], pre_dv[p2 - 1]));
                }
            }
        }
        i = i + 1;
    }
    proof {
        assert(input.take(i as int) =~= input);
        input.lemma_sort_by_ensures(leq);
        lemma_sorted_unique(ordered.deep_view(), input.sort_by(leq), leq);
    }
    ordered
}

/// Builds the ordered view from a raw listing.
///
/// The result is pinned exactly by `classify_spec`: summary line stripped
/// when asked, hidden entries removed when asked, directories before files,
/// names in code-point order, and `../` put before `./` when those two lead
/// the sorted view.
pub fn classify(raw_entries: &Vec<String>, hide_dot_files: bool, strip_summary_line: bool) -> (view:
    Vec<String>)
    ensures
        view.deep_view() == classify_spec(
            raw_entries.deep_view(),
            hide_dot_files,
            strip_summary_line,
        ),
{
    let kept = keep_entries(raw_entries, hide_dot_files, strip_summary_line);
    let mut ordered = sort_entries_exec(&kept);
    let ghost sorted_dv = ordered.deep_view();
    let needs_swap = if ordered.len() >= 2 {
        is_dot_slash_exec(ordered[0].as_str()) && is_parent_slash_exec(ordered[1].as_str())
    } else {
        false
    };
    if needs_swap {
        let first = ordered[0].clone();
        let second = ordered[1].clone();
        ordered.set(0, second);
        ordered.set(1, first);
        proof {
            assert(ordered.deep_view() =~= reorder_top(sorted_dv));
        }
    }
    ordered
}

/// What the sorting stage gives: listing order throughout, the same
/// entries, and no entry from outside the input.
proof fn lemma_sorted_stage(kept: Seq<Seq<char>>)
    ensures
        sorted_by(sorted_entries(kept), entry_order()),
        sorted_entries(kept).to_multiset() == kept.to_multiset(),
        sorted_entries(kept).len() == kept.len(),
        forall|i: int|
            0 <= i < sorted_entries(kept).len() ==> kept.contains(
                #[trigger] sorted_entries(kept)[i],
            ),
{
    broadcast use vstd::seq_lib::group_to_multiset_ensures;

    lemma_entry_order_total();
    kept.lemma_sort_by_ensures(entry_order());
    let s = sorted_entries(kept);
    assert(s.to_multiset().len() == s.len());
    assert(kept.to_multiset().len() == kept.len());
    assert forall|i: int| 0 <= i < s.len() implies kept.contains(#[trigger] s[i]) by {
        assert(s.contains(s[i]));
    }
}

/// With hidden files hidden, the classified view holds no entry that
/// starts with `.` other than `./` and `../`.
pub proof fn lemma_classify_hides_dot_entries(entries: Seq<Seq<char>>, strip_summary_line: bool)
    ensures
        no_hidden_entries(classify_spec(entries, true, strip_summary_line)),
{
    let kept = visible_entries(entries, true, strip_summary_line);
    let s = sorted_entries(kept);
    let v = classify_spec(entries, true, strip_summary_line);
    lemma_sorted_stage(kept);
    let stripped = if strip_summary_line && entries.len() > 0 {
        entries.drop_first()
    } else {
        entries
    };
    assert forall|k: int| 0 <= k < kept.len() implies !is_hidden(#[trigger] kept[k]) by {
        stripped.lemma_filter_pred(keep_visible(), k);
    }
    assert forall|i: int| 0 <= i < v.len() implies !is_hidden(#[trigger] v[i]) by {
        if s.len() >= 2 && s[0] == dot_slash() && s[1] == parent_slash() && i < 2 {
            assert(!is_hidden(dot_slash()));
            assert(!is_hidden(parent_slash()));
        } else {
            assert(v[i] == s[i]);
            let k = choose|k: int| 0 <= k < kept.len() && kept[k] == s[i];
            assert(!is_hidden(kept[k]));
        }
    }
}

/// In every classified view, every directory entry stands before every
/// file entry.
pub proof fn lemma_classify_dirs_before_files(
    entries: Seq<Seq<char>>,
    hide_dot_files: bool,
    strip_summary_line: bool,
)
    ensures
        dirs_before_files(classify_spec(entries, hide_dot_files, strip_summary_line)),
{
    let kept = visible_entries(entries, hide_dot_files, strip_summary_line);
    let s = sorted_entries(kept);
    let v = classify_spec(entries, hide_dot_files, strip_summary_line);
    let leq = entry_order();
    lemma_sorted_stage(kept);
    assert(is_dir_entry(dot_slash()));
    assert(is_dir_entry(parent_slash()));
    assert forall|a: Seq<char>, b: Seq<char>| #[trigger] leq(a, b) == entry_le(a, b) by {}
    assert forall|i: int, j: int|
        0 <= i < j < v.len() && is_dir_entry(#[trigger] v[j]) implies is_dir_entry(
        #[trigger] v[i],
    ) by {
        if s.len() >= 2 && s[0] == dot_slash() && s[1] == parent_slash() {
            if i >= 2 {
                assert(leq(s[i], s[j]));
            }
        } else {
            assert(leq(s[i], s[j]));
        }
    }
}

/// For an ordinary listing, the classified view starts with `../` and
/// then `./`, in that order.
pub proof fn lemma_classify_parent_then_dot(
    entries: Seq<Seq<char>>,
    hide_dot_files: bool,
    strip_summary_line: bool,
)
    requires
        parent_and_dot_lead(visible_entries(entries, hide_dot_files, strip_summary_line)),
    ensures
        classify_spec(entries, hide_dot_files, strip_summary_line).len() >= 2,
        classify_spec(entries, hide_dot_files, strip_summary_line)[0] == parent_slash(),
        classify_spec(entries, hide_dot_files, strip_summary_line)[1] == dot_slash(),
{
    broadcast use vstd::seq_lib::group_to_multiset_ensures;

    let kept = visible_entries(entries, hide_dot_files, strip_summary_line);
    let s = sorted_entries(kept);
    let v = classify_spec(entries, hide_dot_files, strip_summary_line);
    let leq = entry_order();
    lemma_sorted_stage(kept);
    lemma_entry_order_total();
    assert(dot_slash().len() == 2);
    assert(parent_slash().len() == 3);
    assert(s.to_multiset().count(dot_slash()) == 1);
    assert(s.to_multiset().count(parent_slash()) >= 1);
    assert(s.contains(dot_slash()));
    assert(s.contains(parent_slash()));
    let d = choose|d: int| 0 <= d < s.len() && s[d] == dot_slash();
    let q = choose|q: int| 0 <= q < s.len() && s[q] == parent_slash();
    assert(d != q);
    assert(s.len() >= 2);
    // every sorted entry is bounded below by `./`, and by `../` unless it
    // is `./` itself
    assert forall|a: Seq<char>, b: Seq<char>| #[trigger] leq(a, b) == entry_le(a, b) by {}
    assert forall|i: int| 0 <= i < s.len() implies entry_le(dot_slash(), #[trigger] s[i]) && (
    s[i] != dot_slash() ==> entry_le(parent_slash(), s[i])) by {
        let k = choose|k: int| 0 <= k < kept.len() && kept[k] == s[i];
        assert(kept[k] == s[i]);
        lemma_entry_bounded_below(s[i]);
    }
    // the least entry is `./`
    assert(s[0] == dot_slash()) by {
        if d != 0 {
            assert(leq(s[0], s[d]));
            assert(leq(dot_slash(), s[0]));
        }
    }
    // the next entry is `../`
    assert(s[1] != dot_slash()) by {
        if s[1] == dot_slash() {
            assert(s.remove(0).to_multiset() =~= s.to_multiset().remove(s[0]));
            assert(s.remove(0)[0] == s[1]);
            assert(s.remove(0).contains(dot_slash()));
            assert(s.remove(0).to_multiset().count(dot_slash()) > 0);
            assert(s.to_multiset().count(dot_slash()) >= 2);
        }
    }
    assert(s[1] == parent_slash()) by {
        assert(q != 0);
        if q != 1 {
            assert(leq(s[1], s[q]));
        }
        assert(leq(parent_slash(), s[1]));
        assert(leq(s[1], parent_slash()));
    }
    assert(v[0] == parent_slash());
    assert(v[1] == dot_slash());
}

/// `./` comes before every entry in listing order, and `../` before every
/// entry other than `./`, provided that entry's name follows `..` when it
/// is a directory other than the two special ones.
proof fn lemma_entry_bounded_below(x: Seq<char>)
    requires
        is_dir_entry(x) && x != dot_slash() && x != parent_slash() ==> lex_lt(
            entry_name(parent_slash()),
            entry_name(x),
        ),
    ensures
        entry_le(dot_slash(), x),
        x != dot_slash() ==> entry_le(parent_slash(), x),
{
    assert(is_dir_entry(dot_slash()));
    assert(is_dir_entry(parent_slash()));
    assert(entry_name(dot_slash()) =~= seq!['.']);
    assert(entry_name(parent_slash()) =~= seq!['.', '.']);
    assert(seq!['.'].drop_first() =~= Seq::<char>::empty());
    assert(seq!['.', '.'].drop_first() =~= seq!['.']);
    assert(lex_lt(Seq::<char>::empty(), seq!['.']));
    assert(lex_lt(seq!['.'], seq!['.', '.']));
    if is_dir_entry(x) {
        if x == parent_slash() {
        } else if x != dot_slash() {
            lemma_lex_lt_trans(seq!['.'], seq!['.', '.'], entry_name(x));
        }
    }
}

} // verus!
