//! Properties that hold across operations of the list view.
use vstd::prelude::*;
use crate::files::{
    File, SortBy, arranged, contains, distinct_values, lemma_arranged_bound,
    lemma_arranged_members, lemma_locate_unique, locate, opt_view, pick, shown, sort_key_count,
};
use crate::listview::{ListView, lookahead_offset, views};

verus! {

/// The window that `set_selection` picks, and with it every reordering, holds
/// the selection where it has at least three rows.
pub proof fn lemma_lookahead_holds(pos: nat, ysize: nat)
    requires
        ysize >= 3,
    ensures
        lookahead_offset(pos, ysize) <= pos < lookahead_offset(pos, ysize) + ysize,
{
}

/// Reversing the order twice brings back the order and the entries shown.
pub proof fn lemma_reverse_twice(v0: ListView, v1: ListView, v2: ListView)
    requires
        v0.wf(),
        v1.rearranged(
            v0,
            (
                v0.content.sort,
                !v0.content.reverse,
                v0.content.dirs_first,
                v0.content.show_hidden,
                opt_view(v0.content.filter),
            ),
        ),
        v2.rearranged(
            v1,
            (
                v1.content.sort,
                !v1.content.reverse,
                v1.content.dirs_first,
                v1.content.show_hidden,
                opt_view(v1.content.filter),
            ),
        ),
    ensures
        v2.content.criteria() == v0.content.criteria(),
        v2.content.order@ == v0.content.order@,
        v2.content.shown_files() == v0.content.shown_files(),
        views(v2.buffer@) == v0.rendered(),
{
}

/// Cycling the sort key once per key comes back to the first.
pub proof fn lemma_cycle_period(s: SortBy)
    ensures
        s.cycled(sort_key_count()) == s,
{
    reveal_with_fuel(SortBy::cycled, 4);
}

/// Cycling the sort key of a view once per key brings back its key and order.
pub proof fn lemma_cycle_sort_period(v0: ListView, v1: ListView, v2: ListView, v3: ListView)
    requires
        v0.wf(),
        v1.rearranged(
            v0,
            (
                v0.content.sort.spec_next(),
                v0.content.reverse,
                v0.content.dirs_first,
                v0.content.show_hidden,
                opt_view(v0.content.filter),
            ),
        ),
        v2.rearranged(
            v1,
            (
                v1.content.sort.spec_next(),
                v1.content.reverse,
                v1.content.dirs_first,
                v1.content.show_hidden,
                opt_view(v1.content.filter),
            ),
        ),
        v3.rearranged(
            v2,
            (
                v2.content.sort.spec_next(),
                v2.content.reverse,
                v2.content.dirs_first,
                v2.content.show_hidden,
                opt_view(v2.content.filter),
            ),
        ),
    ensures
        v3.content.sort == v0.content.sort.cycled(sort_key_count()),
        v3.content.sort == v0.content.sort,
        v3.content.order@ == v0.content.order@,
        v3.content.shown_files() == v0.content.shown_files(),
{
    lemma_cycle_period(v0.content.sort);
    reveal_with_fuel(SortBy::cycled, 4);
}

/// With a filter set and the lines rendered, the lines are those of exactly
/// the entries whose name holds the filter, hidden ones left out unless shown.
pub proof fn lemma_filter_shows_matches(v: ListView, f: Seq<char>)
    requires
        v.wf(),
        opt_view(v.content.filter) == Some(f),
        views(v.buffer@) == v.rendered(),
    ensures
        v.buffer@.len() == v.lines,
        forall|k: int|
            0 <= k < v.lines ==> contains(#[trigger] v.content.shown_files()[k].name@, f),
        forall|i: int|
            0 <= i < v.content.files@.len() && (v.content.show_hidden
                || !v.content.files@[i].hidden) && contains(v.content.files@[i].name@, f)
                ==> #[trigger] v.content.order@.contains(i as usize),
{
    assert(views(v.buffer@).len() == v.buffer@.len());
    assert(v.rendered().len() == v.content.shown_files().len());
    let c = v.content.criteria();
    let n = v.content.files@.len();
    lemma_arranged_members(v.content.keys(), c, n);
    lemma_arranged_bound(v.content.keys(), c, n);
    assert forall|k: int| 0 <= k < v.lines implies contains(
        #[trigger] v.content.shown_files()[k].name@,
        f,
    ) by {
        let x = v.content.order@[k];
        assert(v.content.order@.contains(x));
        assert(v.content.keys()[x as int] == v.content.files@[x as int].key());
    }
    assert forall|i: int|
        0 <= i < v.content.files@.len() && (v.content.show_hidden
            || !v.content.files@[i].hidden) && contains(
            v.content.files@[i].name@,
            f,
        ) implies #[trigger] v.content.order@.contains(i as usize) by {
        assert(v.content.keys()[i] == v.content.files@[i].key());
        assert(shown(v.content.keys()[(i as usize) as int], c));
    }
}

/// Clearing the filter brings back as many lines as there were before one was
/// set.
pub proof fn lemma_clear_filter_restores(v0: ListView, v2: ListView)
    requires
        v0.wf(),
        v0.content.filter is None,
        v2.wf(),
        v2.content.files == v0.content.files,
        v2.content.criteria() == v0.content.criteria(),
        views(v2.buffer@) == v2.rendered(),
    ensures
        v2.buffer@.len() == v0.lines,
{
    assert(views(v2.buffer@).len() == v2.buffer@.len());
    assert(v2.rendered().len() == v2.content.shown_files().len());
    assert(v2.content.order@ == v0.content.order@);
}

/// Flipping the mark or the tag of the selected entry changes its line alone
/// in the cache; every other line stays as it was.
pub proof fn lemma_patch_changes_one_line(v0: ListView, v1: ListView)
    requires
        v1.patched(v0),
        v0.lines > 0,
        v0.selection < v0.buffer@.len(),
    ensures
        v1.buffer@.len() == v0.buffer@.len(),
        forall|j: int| 0 <= j < v0.buffer@.len() && j != v0.selection ==> v1.buffer@[j] == v0.buffer@[j],
{
}

proof fn lemma_pick_distinct(fs: Seq<File>, o: Seq<usize>)
    requires
        distinct_values(fs),
        o.no_duplicates(),
        forall|i: int| 0 <= i < o.len() ==> o[i] < fs.len(),
    ensures
        distinct_values(pick(fs, o)),
{
    assert forall|a: int, b: int|
        0 <= a < pick(fs, o).len() && 0 <= b < pick(fs, o).len() && a != b implies pick(
        fs,
        o,
    )[a].value() != pick(fs, o)[b].value() by {
        assert(o[a] != o[b]);
    }
}

proof fn lemma_locate_distinct(fs: Seq<File>, k: int)
    requires
        distinct_values(fs),
        0 <= k < fs.len(),
    ensures
        locate(fs, fs[k].value()) == Some(k as nat),
{
    lemma_locate_unique(fs, fs[k].value(), k);
}

/// A step to the next entry by time and one back, while seeking and away
/// from the ends of the time order, selects again the entry that was selected,
/// where no two entries hold the same values.
pub proof fn lemma_seek_round_trip(v0: ListView, v1: ListView, v2: ListView)
    requires
        v0.wf(),
        v0.seeking,
        v0.lines > 0,
        distinct_values(v0.content.files@),
        v1.after_next_mtime(v0),
        v2.after_prev_mtime(v1),
        v0.time_position() + 1 < v0.time_files().len(),
    ensures
        v2.selection == v0.selection,
        v2.spec_selected().value() == v0.spec_selected().value(),
{
    let fs = v0.content.files@;
    let ks = v0.content.keys();
    let c = v0.content.criteria();
    let n = fs.len();
    let ct = (SortBy::MTime, c.1, false, c.3, c.4);
    let o = arranged(ks, c, n);
    let t_order = arranged(ks, ct, n);
    let t = pick(fs, t_order);
    let sh = pick(fs, o);
    lemma_arranged_members(ks, c, n);
    lemma_arranged_members(ks, ct, n);
    lemma_arranged_bound(ks, c, n);
    lemma_arranged_bound(ks, ct, n);
    lemma_pick_distinct(fs, o);
    lemma_pick_distinct(fs, t_order);
    assert(v0.time_files() == t);
    assert(v1.time_files() == t);
    assert(v0.content.shown_files() == sh);
    assert(v1.content.shown_files() == sh);
    assert(v2.content.shown_files() == sh);
    let s0 = v0.selection as int;
    let x0 = o[s0];
    assert(o.contains(x0));
    assert(t_order.contains(x0));
    let k = choose|k: int| 0 <= k < t_order.len() && t_order[k] == x0;
    lemma_locate_distinct(t, k);
    assert(v0.time_position() == k);
    let j = k + 1;
    let x1 = t_order[j];
    assert(t_order.contains(x1));
    assert(o.contains(x1));
    let m = choose|m: int| 0 <= m < o.len() && o[m] == x1;
    lemma_locate_distinct(sh, m);
    assert(v1.selection == m);
    lemma_locate_distinct(t, j);
    assert(v1.time_position() == j);
    lemma_locate_distinct(sh, s0);
}

} // verus!
