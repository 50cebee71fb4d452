//! Properties that hold across calls: what one call undoes of another, what the
//! operations keep, and what the status pipeline guarantees.

use vstd::prelude::*;
use crate::app::{
    hidden_by, lemma_visible_member, visible_paths, DisplayMode,
};
use crate::app::{
    after_search, collapse_toggled, display_mode_toggled, files_refreshed, first_match_from, help_toggled,
    next_display_mode, next_selected, previous_selected, App,
};
use crate::editor::{
    delete_step, backspace_step, focus_switched, insert_step, newline_step, pushed_undo, skip_chars, take_chars,
    undo_step,
};
use crate::git::{priority_of, DiffLineType, FileEntry, GitStatus};
use crate::diff::{diff_marks, hunk_marker, hunk_numbers};
use crate::view::{decimal, editor_row_spec, mode_label, stats_text_spec, Tone};
use crate::app::count_status;
use crate::text::has_prefix;
use crate::manager::{all_untracked, collapsed_step, expanded_step, GitStatusManager};
use crate::scroll::{scroll_down_result, scroll_up_result};
use crate::status::{
    apply_git_paths_spec, depth_bucket, max_depth, order_from_depth, parent_key, propagate_one,
    propagate_seq, propagate_spec, raise_along, raise_one, same_shape, strongest_below,
};
use crate::path::named_ancestors;
use crate::scan::{
    child_rel, git_dir_name, item_le, items_view, lemma_item_order, lemma_subs_height, scan_spec,
    tree_children, tree_height, walk_kids, walk_tree, DirTree,
};
use crate::text::{eq_char, replace_char, trim_start_char};
use crate::text::{
    contains_seq, find_char_from, join_lines, lemma_find_char_bounds, lines_spec, lowercase,
    strip_cr, string_views,
};

verus! {

/// The selected row lies inside the window of rows the tree shows, and inside
/// the listing.
pub open spec fn selection_in_view(a: App) -> bool {
    &&& a.scroll_offset <= a.selected
    &&& a.selected < a.scroll_offset + a.list_height
    &&& a.selected < a.filtered().len()
}

/// Showing the help twice leaves everything as it was.
pub proof fn law_help_toggle_twice(a: App)
    ensures
        help_toggled(help_toggled(a)) == a,
{
}

/// Switching the focus twice leaves everything as it was.
pub proof fn law_focus_switch_twice(a: App)
    ensures
        focus_switched(focus_switched(a)) == a,
{
}

/// Cycling the display mode three times comes back to the same mode and lists
/// what that mode shows of the same files, with the selection at the top: the
/// same listing as before whenever the listing was current.
pub proof fn law_display_mode_cycle(a: App, b: App, c: App, d: App)
    requires
        display_mode_toggled(a, b),
        display_mode_toggled(b, c),
        display_mode_toggled(c, d),
    ensures
        d.display_mode == a.display_mode,
        d.filtered() == a.visible(),
        a.listing_current() ==> d.filtered() == a.filtered(),
        d.listing_current(),
        d.files == a.files,
        d.selected == 0,
        d.scroll_offset == 0,
{
    assert(next_display_mode(next_display_mode(next_display_mode(a.display_mode))) == a.display_mode);
}

/// Typing a character and then deleting it with backspace gives back the same
/// lines and the same cursor.
pub proof fn law_insert_then_backspace(a: App, b: App, c: App, ch: char)
    requires
        a.editor_cursor.0 < a.lines_view().len(),
        a.editor_cursor.1 <= a.lines_view()[a.editor_cursor.0 as int].len(),
        a.editor_cursor.1 < usize::MAX,
        insert_step(a, b, ch),
        backspace_step(b, c),
    ensures
        c.lines_view() == a.lines_view(),
        c.editor_cursor == a.editor_cursor,
{
    let (row, col) = a.editor_cursor;
    let ls = a.lines_view();
    let line = ls[row as int];
    let mid = ls.update(row as int, line.insert(col as int, ch));
    assert(b.editor_cursor == (row, (col + 1) as usize));
    assert(b.lines_view() == mid);
    assert(mid[row as int] == line.insert(col as int, ch));
    assert(line.insert(col as int, ch).remove(col as int) =~= line);
    assert(mid.update(row as int, line) =~= ls);
}

/// Splitting a line with Enter and then joining it back with backspace gives
/// back the same lines, with the cursor where the split was made (the end of the
/// line when the cursor stood past it).
pub proof fn law_newline_then_backspace(a: App, b: App, c: App)
    requires
        a.editor_cursor.0 < a.lines_view().len(),
        newline_step(a, b),
        backspace_step(b, c),
    ensures
        c.lines_view() == a.lines_view(),
        c.editor_cursor == (a.editor_cursor.0, take_chars(
            a.lines_view()[a.editor_cursor.0 as int],
            a.editor_cursor.1 as int,
        ).len() as usize),
{
    let (row, col) = a.editor_cursor;
    let ls = a.lines_view();
    assert(a.editor_content.len() == a.editor_content@.len());
    let line = ls[row as int];
    let front = take_chars(line, col as int);
    let back = skip_chars(line, col as int);
    assert(front + back =~= line);
    let mid = ls.update(row as int, front).insert(row + 1, back);
    assert(mid[row as int] == front);
    assert(mid[row + 1] == back);
    assert(b.editor_cursor == ((row + 1) as usize, 0usize));
    assert(b.lines_view() == mid);
    assert(mid.update(row as int, front + back).remove(row + 1) =~= ls);
}

/// Undo right after an edit (which saves the lines first, as every edit of the
/// editor does) gives back the lines from before the edit, and the undo history
/// from before it (less its oldest entry when it was full).
pub proof fn law_edit_then_undo(a: App, b: App, c: App)
    requires
        b.undo_view() == pushed_undo(a.undo_view(), a.lines_view()),
        undo_step(b, c),
    ensures
        c.lines_view() == a.lines_view(),
        c.undo_view() == (if a.undo_view().len() >= 100 {
            a.undo_view().drop_first()
        } else {
            a.undo_view()
        }),
{
    let u = b.editor_undo_stack@;
    assert(b.undo_view().len() == u.len());
    assert(u.len() > 0);
    assert(b.undo_view()[u.len() - 1] == string_views(u.last()@));
    assert(c.undo_view() =~= b.undo_view().drop_last());
}

/// Moving the selection up or down keeps it in view when it was.
pub proof fn law_selection_moves_stay_in_view(a: App)
    requires
        a.list_height > 0,
        selection_in_view(a),
    ensures
        selection_in_view(next_selected(a)),
        selection_in_view(previous_selected(a)),
{
    assert(a.cached_filtered.len() == a.cached_filtered@.len());
}

/// Scrolling the tree by any number of rows keeps the selection in view when it
/// was (the selection is dragged along at the window's edge).
pub proof fn law_scroll_stays_in_view(a: App, lines: usize)
    requires
        a.list_height > 0,
        selection_in_view(a),
    ensures
        selection_in_view(scroll_up_result(a, lines)),
        selection_in_view(scroll_down_result(a, lines)),
{
}

proof fn lemma_first_match(paths: Seq<Seq<char>>, q: Seq<char>, i: int)
    requires
        0 <= i,
    ensures
        first_match_from(paths, q, i) matches Some(m) ==> {
            &&& i <= m < paths.len()
            &&& contains_seq(lowercase(paths[m]), q)
            &&& forall|j: int| i <= j < m ==> !contains_seq(lowercase(#[trigger] paths[j]), q)
        },
        first_match_from(paths, q, i) is None ==> forall|j: int|
            i <= j < paths.len() ==> !contains_seq(lowercase(#[trigger] paths[j]), q),
    decreases paths.len() - i,
{
    if i < paths.len() && !contains_seq(lowercase(paths[i]), q) {
        lemma_first_match(paths, q, i + 1);
        assert forall|j: int| i <= j < paths.len() && first_match_from(paths, q, i + 1) is None implies !contains_seq(
            lowercase(#[trigger] paths[j]),
            q,
        ) by {
            if j > i {
            }
        }
    }
}

/// A search with a non-empty query selects the first listed path that contains
/// it (ignoring case), and brings that row into view; when no path contains it,
/// nothing changes.
pub proof fn law_search_selects_first_match(a: App)
    requires
        a.search_query@.len() > 0,
        a.list_height > 0,
    ensures
        ({
            let q = lowercase(a.search_query@);
            let b = after_search(a);
            match first_match_from(a.filtered(), q, 0) {
                Some(m) => {
                    &&& b.selected == m
                    &&& contains_seq(lowercase(a.filtered()[m]), q)
                    &&& forall|j: int| 0 <= j < m ==> !contains_seq(lowercase(#[trigger] a.filtered()[j]), q)
                    &&& selection_in_view(b)
                },
                None => {
                    &&& b == a
                    &&& forall|j: int| 0 <= j < a.filtered().len() ==> !contains_seq(
                        lowercase(#[trigger] a.filtered()[j]),
                        q,
                    )
                },
            }
        }),
{
    assert(a.cached_filtered.len() == a.cached_filtered@.len());
    lemma_first_match(a.filtered(), lowercase(a.search_query@), 0);
}

/// The listing stays current across the operations: a successful refresh,
/// cycling the display mode and collapsing a directory rebuild it, and moving the
/// selection, toggling help or focus and every editor edit leave the files, the
/// mode and the collapse state alone. (Expanding a directory asks for a refresh,
/// which rebuilds the listing.)
pub proof fn law_listing_stays_current(a: App, b: App, r: Result<Vec<FileEntry>, String>, c: char)
    requires
        a.listing_current(),
        ({
            ||| files_refreshed(a, b, r)
            ||| display_mode_toggled(a, b)
            ||| collapse_toggled(a, b, false)
            ||| b == next_selected(a)
            ||| b == previous_selected(a)
            ||| b == help_toggled(a)
            ||| b == focus_switched(a)
            ||| insert_step(a, b, c)
            ||| backspace_step(a, b)
            ||| delete_step(a, b)
            ||| newline_step(a, b)
            ||| undo_step(a, b)
        }),
    ensures
        b.listing_current(),
{
}

/// The repository flag, the working directory and the prefix a manager was made
/// with never change: every manager in a run of expand and collapse calls
/// (`ms[k + 1]` made from `ms[k]` with the path `ps[k]`) keeps those of the first.
pub proof fn law_repo_flag_fixed(ms: Seq<GitStatusManager>, ps: Seq<Seq<char>>)
    requires
        ms.len() == ps.len() + 1,
        forall|k: int|
            0 <= k < ps.len() ==> expanded_step(ms[k], #[trigger] ms[k + 1], ps[k]) || collapsed_step(
                ms[k],
                ms[k + 1],
                ps[k],
            ),
    ensures
        forall|k: int|
            0 <= k < ms.len() ==> (#[trigger] ms[k]).is_repo() == ms[0].is_repo() && ms[k].working_dir_view()
                == ms[0].working_dir_view() && ms[k].prefix() == ms[0].prefix(),
    decreases ps.len(),
{
    if ps.len() > 0 {
        let ms2 = ms.drop_last();
        let ps2 = ps.drop_last();
        assert forall|k: int| 0 <= k < ps2.len() implies expanded_step(ms2[k], #[trigger] ms2[k + 1], ps2[k])
            || collapsed_step(ms2[k], ms2[k + 1], ps2[k]) by {
            assert(ms2[k] == ms[k] && ms2[k + 1] == ms[k + 1] && ps2[k] == ps[k]);
            assert(expanded_step(ms[k], ms[k + 1], ps[k]) || collapsed_step(ms[k], ms[k + 1], ps[k]));
        }
        law_repo_flag_fixed(ms2, ps2);
        assert forall|k: int| 0 <= k < ms.len() implies (#[trigger] ms[k]).is_repo() == ms[0].is_repo()
            && ms[k].working_dir_view() == ms[0].working_dir_view() && ms[k].prefix() == ms[0].prefix() by {
            if k < ms.len() - 1 {
                assert(ms2[k] == ms[k]);
                assert(ms2[0] == ms[0]);
            } else {
                let j = ps.len() - 1;
                assert(ms2[j] == ms[j]);
                assert(ms2[0] == ms[0]);
                assert(expanded_step(ms[j], ms[j + 1], ps[j]) || collapsed_step(ms[j], ms[j + 1], ps[j]));
            }
        }
    }
}

/// Every editor edit and undo keeps the undo history at 100 snapshots or fewer.
pub proof fn law_edits_keep_history_bounded(a: App, b: App, c: char)
    requires
        a.editor_undo_stack@.len() <= 100,
        ({
            ||| insert_step(a, b, c)
            ||| backspace_step(a, b)
            ||| delete_step(a, b)
            ||| newline_step(a, b)
            ||| undo_step(a, b)
        }),
    ensures
        b.editor_undo_stack@.len() <= 100,
{
    assert(a.undo_view().len() == a.editor_undo_stack@.len());
    assert(b.undo_view().len() == b.editor_undo_stack@.len());
}

/// A failed read of the tree only reports its message: the files, the
/// listing, the selection and the collapse state stay as they were.
pub proof fn law_failed_refresh_keeps_the_tree(a: App, b: App, e: String)
    requires
        files_refreshed(a, b, Err(e)),
    ensures
        b.error_message == Some(e),
        b.files == a.files,
        b.filtered() == a.filtered(),
        b.selected == a.selected,
        b.collapsed_set() == a.collapsed_set(),
{
}

/// Searching ignores case: two queries with the same lowercase form select the
/// same row and scroll the same way.
pub proof fn law_search_ignores_case(a: App, b: App)
    requires
        b == (App { search_query: b.search_query, ..a }),
        a.search_query@.len() > 0,
        b.search_query@.len() > 0,
        lowercase(a.search_query@) == lowercase(b.search_query@),
    ensures
        after_search(a).selected == after_search(b).selected,
        after_search(a).scroll_offset == after_search(b).scroll_offset,
{
}

/// The undo history never holds more than 100 snapshots.
pub proof fn law_undo_history_bounded(u: Seq<Seq<Seq<char>>>, lines: Seq<Seq<char>>)
    requires
        u.len() <= 100,
    ensures
        pushed_undo(u, lines).len() <= 100,
{
}

/// After a successful refresh with a non-empty listing, the selection is a row
/// of that listing.
pub proof fn law_refresh_keeps_selection(a: App, b: App, fs: Vec<FileEntry>)
    requires
        files_refreshed(a, b, Ok(fs)),
        b.filtered().len() > 0,
    ensures
        b.selected < b.filtered().len(),
{
}

// ---------------------------------------------------------------------------
// Status pipeline
// ---------------------------------------------------------------------------

/// Every index of `order` lies in `0..n`.
pub open spec fn indices_within(order: Seq<int>, n: int) -> bool {
    forall|k: int| 0 <= k < order.len() ==> 0 <= #[trigger] order[k] < n
}

/// Entry by entry, `b` has the path, kind and depth of `a` and a status at
/// least as strong.
pub open spec fn stronger_or_equal(a: Seq<FileEntry>, b: Seq<FileEntry>) -> bool {
    &&& same_shape(a, b)
    &&& forall|i: int| 0 <= i < a.len() ==> priority_of(#[trigger] b[i].status) >= priority_of(a[i].status)
}

proof fn lemma_bucket_within(es: Seq<FileEntry>, d: int, n: int)
    requires
        n <= es.len(),
    ensures
        indices_within(depth_bucket(es, d, n), n),
    decreases n,
{
    if n > 0 {
        lemma_bucket_within(es, d, n - 1);
        let prev = depth_bucket(es, d, n - 1);
        if es[n - 1].depth == d {
            assert forall|k: int| 0 <= k < prev.push(n - 1).len() implies 0 <= #[trigger] prev.push(n - 1)[k] < n by {
                if k < prev.len() {
                    assert(prev.push(n - 1)[k] == prev[k]);
                }
            }
        }
    }
}

proof fn lemma_order_within(es: Seq<FileEntry>, d: int)
    ensures
        indices_within(order_from_depth(es, d), es.len() as int),
    decreases d + 1,
{
    if d >= 0 {
        lemma_bucket_within(es, d, es.len() as int);
        lemma_order_within(es, d - 1);
        let a = depth_bucket(es, d, es.len() as int);
        let b = order_from_depth(es, d - 1);
        assert forall|k: int| 0 <= k < (a + b).len() implies 0 <= #[trigger] (a + b)[k] < es.len() by {
            if k < a.len() {
                assert((a + b)[k] == a[k]);
            } else {
                assert((a + b)[k] == b[k - a.len()]);
            }
        }
    }
}

proof fn lemma_strongest_at_least(es: Seq<FileEntry>, t: Seq<char>, acc: GitStatus, n: int)
    ensures
        priority_of(strongest_below(es, t, acc, n)) >= priority_of(acc),
    decreases n,
{
    if n > 0 {
        lemma_strongest_at_least(es, t, acc, n - 1);
    }
}

proof fn lemma_strongest_uniform(es: Seq<FileEntry>, t: Seq<char>, s: GitStatus, n: int)
    requires
        n <= es.len(),
        forall|i: int| 0 <= i < es.len() ==> (#[trigger] es[i]).status == s,
    ensures
        strongest_below(es, t, s, n) == s,
    decreases n,
{
    if n > 0 {
        lemma_strongest_uniform(es, t, s, n - 1);
    }
}

proof fn lemma_propagate_seq_stronger(es: Seq<FileEntry>, order: Seq<int>)
    requires
        indices_within(order, es.len() as int),
    ensures
        stronger_or_equal(es, propagate_seq(es, order)),
    decreases order.len(),
{
    if order.len() > 0 {
        let i = order[0];
        let next = propagate_one(es, i);
        lemma_strongest_at_least(es, es[i].path@, es[i].status, es.len() as int);
        assert(stronger_or_equal(es, next));
        assert(indices_within(order.drop_first(), next.len() as int)) by {
            assert forall|k: int| 0 <= k < order.drop_first().len() implies 0 <= #[trigger] order.drop_first()[k] < next.len() by {
                assert(order.drop_first()[k] == order[k + 1]);
            }
        }
        lemma_propagate_seq_stronger(next, order.drop_first());
    }
}

proof fn lemma_propagate_seq_files(es: Seq<FileEntry>, order: Seq<int>)
    requires
        indices_within(order, es.len() as int),
    ensures
        forall|i: int| 0 <= i < es.len() && !es[i].is_dir ==> (#[trigger] propagate_seq(es, order)[i]).status == es[i].status,
    decreases order.len(),
{
    if order.len() > 0 {
        let next = propagate_one(es, order[0]);
        assert(indices_within(order.drop_first(), next.len() as int)) by {
            assert forall|k: int| 0 <= k < order.drop_first().len() implies 0 <= #[trigger] order.drop_first()[k] < next.len() by {
                assert(order.drop_first()[k] == order[k + 1]);
            }
        }
        lemma_propagate_seq_files(next, order.drop_first());
    }
}

proof fn lemma_propagate_seq_uniform(es: Seq<FileEntry>, order: Seq<int>, s: GitStatus)
    requires
        indices_within(order, es.len() as int),
        forall|i: int| 0 <= i < es.len() ==> (#[trigger] es[i]).status == s,
    ensures
        propagate_seq(es, order) == es,
    decreases order.len(),
{
    if order.len() > 0 {
        let i = order[0];
        lemma_strongest_uniform(es, es[i].path@, s, es.len() as int);
        assert(propagate_one(es, i) =~= es);
        assert(indices_within(order.drop_first(), es.len() as int)) by {
            assert forall|k: int| 0 <= k < order.drop_first().len() implies 0 <= #[trigger] order.drop_first()[k] < es.len() by {
                assert(order.drop_first()[k] == order[k + 1]);
            }
        }
        lemma_propagate_seq_uniform(es, order.drop_first(), s);
    }
}

/// Folder status propagation keeps every entry's path, kind and depth, keeps the
/// status of every file, and never weakens the status of a directory.
pub proof fn law_propagation_only_strengthens(es: Seq<FileEntry>)
    ensures
        stronger_or_equal(es, propagate_spec(es)),
        forall|i: int| 0 <= i < es.len() && !es[i].is_dir ==> (#[trigger] propagate_spec(es)[i]).status == es[i].status,
{
    let order = order_from_depth(es, crate::status::max_depth(es));
    lemma_order_within(es, crate::status::max_depth(es));
    lemma_propagate_seq_stronger(es, order);
    lemma_propagate_seq_files(es, order);
}

/// Outside a git repository every entry, directories included, comes out
/// untracked: propagation has nothing to raise when all statuses agree.
pub proof fn law_untracked_outside_repo(es: Seq<FileEntry>)
    ensures
        propagate_spec(all_untracked(es)) == all_untracked(es),
        forall|i: int| 0 <= i < es.len() ==> (#[trigger] propagate_spec(all_untracked(es))[i]).status
            == GitStatus::Untracked,
{
    let u = all_untracked(es);
    lemma_order_within(u, crate::status::max_depth(u));
    lemma_propagate_seq_uniform(u, order_from_depth(u, crate::status::max_depth(u)), GitStatus::Untracked);
}

proof fn lemma_raise_one_stronger(es: Seq<FileEntry>, a: Seq<char>, s: GitStatus)
    ensures
        stronger_or_equal(es, raise_one(es, a, s)),
{
    crate::status::lemma_last_index_in_range(es, a);
}

proof fn lemma_raise_along_stronger(es: Seq<FileEntry>, ancs: Seq<Seq<char>>, s: GitStatus)
    ensures
        stronger_or_equal(es, raise_along(es, ancs, s)),
    decreases ancs.len(),
{
    if ancs.len() > 0 {
        let next = raise_one(es, ancs[0], s);
        lemma_raise_one_stronger(es, ancs[0], s);
        lemma_raise_along_stronger(next, ancs.drop_first(), s);
    }
}

/// Raising parent directories for the paths git reported keeps every entry's
/// path, kind and depth and never weakens a status.
pub proof fn law_git_paths_only_strengthen(es: Seq<FileEntry>, sts: Seq<(Seq<char>, GitStatus)>)
    ensures
        stronger_or_equal(es, apply_git_paths_spec(es, sts)),
    decreases sts.len(),
{
    if sts.len() > 0 {
        let st = sts[0];
        let next = if st.1 == GitStatus::Ignored {
            es
        } else {
            raise_along(es, named_ancestors(st.0), st.1)
        };
        if st.1 != GitStatus::Ignored {
            lemma_raise_along_stronger(es, named_ancestors(st.0), st.1);
        }
        law_git_paths_only_strengthen(next, sts.drop_first());
    }
}

// ---------------------------------------------------------------------------
// Directories dominate their children
// ---------------------------------------------------------------------------

/// Entry `c` lies directly inside the directory entry `i` (by path).
pub open spec fn child_of(es: Seq<FileEntry>, c: int, i: int) -> bool {
    parent_key(es[c].path@) == Some(es[i].path@)
}

/// Every entry lies deeper than the directory it is in, as the tree scan builds it.
pub open spec fn depths_consistent(es: Seq<FileEntry>) -> bool {
    forall|i: int, c: int|
        0 <= i < es.len() && 0 <= c < es.len() && #[trigger] child_of(es, c, i) ==> es[c].depth > es[i].depth
}

/// Depth never increases along `order`.
pub open spec fn deepest_first(es: Seq<FileEntry>, order: Seq<int>) -> bool {
    forall|p: int, q: int|
        0 <= p < q < order.len() ==> es[#[trigger] order[p]].depth >= es[#[trigger] order[q]].depth
}

proof fn lemma_strongest_covers(es: Seq<FileEntry>, t: Seq<char>, acc: GitStatus, n: int, c: int)
    requires
        0 <= c < n <= es.len(),
        parent_key(es[c].path@) == Some(t),
        es[c].status != GitStatus::Ignored,
    ensures
        priority_of(strongest_below(es, t, acc, n)) >= priority_of(es[c].status),
    decreases n,
{
    if c < n - 1 {
        lemma_strongest_covers(es, t, acc, n - 1, c);
    } else {
        lemma_strongest_at_least(es, t, acc, n - 1);
    }
}

proof fn lemma_propagate_seq_untouched(es: Seq<FileEntry>, order: Seq<int>, j: int)
    requires
        indices_within(order, es.len() as int),
        0 <= j < es.len(),
        !order.contains(j),
    ensures
        propagate_seq(es, order)[j] == es[j],
        propagate_seq(es, order).len() == es.len(),
    decreases order.len(),
{
    if order.len() > 0 {
        let next = propagate_one(es, order[0]);
        assert(order[0] != j);
        assert(indices_within(order.drop_first(), next.len() as int)) by {
            assert forall|k: int| 0 <= k < order.drop_first().len() implies 0 <= #[trigger] order.drop_first()[k] < next.len() by {
                assert(order.drop_first()[k] == order[k + 1]);
            }
        }
        assert(!order.drop_first().contains(j)) by {
            if order.drop_first().contains(j) {
                let k = choose|k: int| 0 <= k < order.drop_first().len() && order.drop_first()[k] == j;
                assert(order[k + 1] == j);
            }
        }
        lemma_propagate_seq_untouched(next, order.drop_first(), j);
    }
}

/// The dominance property along any order that visits each index once, deepest first.
proof fn lemma_dominance_along(es: Seq<FileEntry>, order: Seq<int>)
    requires
        indices_within(order, es.len() as int),
        order.no_duplicates(),
        deepest_first(es, order),
        depths_consistent(es),
    ensures
        forall|i: int, c: int|
            0 <= i < es.len() && 0 <= c < es.len() && order.contains(i) && es[i].is_dir && #[trigger] child_of(es, c, i)
                && (#[trigger] propagate_seq(es, order)[c]).status != GitStatus::Ignored ==> priority_of(
                propagate_seq(es, order)[i].status,
            ) >= priority_of(propagate_seq(es, order)[c].status),
    decreases order.len(),
{
    if order.len() > 0 {
        let i0 = order[0];
        let next = propagate_one(es, i0);
        let rest = order.drop_first();
        let fin = propagate_seq(es, order);
        assert(fin == propagate_seq(next, rest));
        assert(same_shape(es, next));
        assert(indices_within(rest, next.len() as int)) by {
            assert forall|k: int| 0 <= k < rest.len() implies 0 <= #[trigger] rest[k] < next.len() by {
                assert(rest[k] == order[k + 1]);
            }
        }
        assert(rest.no_duplicates()) by {
            assert forall|p: int, q: int| 0 <= p < rest.len() && 0 <= q < rest.len() && p != q implies rest[p] != rest[q] by {
                assert(rest[p] == order[p + 1] && rest[q] == order[q + 1]);
            }
        }
        assert(deepest_first(next, rest)) by {
            assert forall|p: int, q: int| 0 <= p < q < rest.len() implies next[#[trigger] rest[p]].depth >= next[#[trigger] rest[q]].depth by {
                assert(rest[p] == order[p + 1] && rest[q] == order[q + 1]);
                assert(es[order[p + 1]].depth >= es[order[q + 1]].depth);
            }
        }
        assert(depths_consistent(next)) by {
            assert forall|i: int, c: int| 0 <= i < next.len() && 0 <= c < next.len() && #[trigger] child_of(next, c, i) implies next[c].depth > next[i].depth by {
                assert(child_of(es, c, i));
            }
        }
        lemma_dominance_along(next, rest);
        assert forall|i: int, c: int|
            0 <= i < es.len() && 0 <= c < es.len() && order.contains(i) && es[i].is_dir && #[trigger] child_of(es, c, i)
                && (#[trigger] fin[c]).status != GitStatus::Ignored implies priority_of(fin[i].status) >= priority_of(fin[c].status) by {
            assert(child_of(next, c, i));
            if i == i0 {
                // Nothing after the first step touches `i0` or its children.
                assert(!rest.contains(i0)) by {
                    if rest.contains(i0) {
                        let k = choose|k: int| 0 <= k < rest.len() && rest[k] == i0;
                        assert(order[k + 1] == order[0]);
                    }
                }
                assert(!rest.contains(c)) by {
                    if rest.contains(c) {
                        let k = choose|k: int| 0 <= k < rest.len() && rest[k] == c;
                        assert(order[k + 1] == c);
                        assert(es[order[0]].depth >= es[order[k + 1]].depth);
                    }
                }
                assert(c != i0);
                lemma_propagate_seq_untouched(next, rest, i0);
                lemma_propagate_seq_untouched(next, rest, c);
                assert(next[c] == es[c]);
                lemma_strongest_covers(es, es[i0].path@, es[i0].status, es.len() as int, c);
            } else {
                assert(rest.contains(i)) by {
                    let k = choose|k: int| 0 <= k < order.len() && order[k] == i;
                    assert(k != 0);
                    assert(rest[k - 1] == i);
                }
                assert(next[i].is_dir == es[i].is_dir);
            }
        }
    }
}

proof fn lemma_strongest_agree(a: Seq<FileEntry>, b: Seq<FileEntry>, t: Seq<char>, acc: GitStatus, n: int)
    requires
        0 <= n <= a.len(),
        a.len() == b.len(),
        forall|c: int| 0 <= c < n ==> (#[trigger] a[c]).path == b[c].path,
        forall|c: int| 0 <= c < n && parent_key(a[c].path@) == Some(t) ==> (#[trigger] a[c]).status == b[c].status,
    ensures
        strongest_below(a, t, acc, n) == strongest_below(b, t, acc, n),
    decreases n,
{
    if n > 0 {
        lemma_strongest_agree(a, b, t, acc, n - 1);
        assert(a[n - 1].path == b[n - 1].path);
    }
}

/// The plain rule along any order that visits each index once, deepest first:
/// each visited directory ends with the strongest of its own first status and its
/// children's final statuses.
proof fn lemma_rule_along(es: Seq<FileEntry>, order: Seq<int>)
    requires
        indices_within(order, es.len() as int),
        order.no_duplicates(),
        deepest_first(es, order),
        depths_consistent(es),
    ensures
        forall|i: int|
            0 <= i < es.len() && order.contains(i) && es[i].is_dir ==> (#[trigger] propagate_seq(es, order)[i]).status
                == strongest_below(propagate_seq(es, order), es[i].path@, es[i].status, es.len() as int),
    decreases order.len(),
{
    if order.len() > 0 {
        let i0 = order[0];
        let next = propagate_one(es, i0);
        let rest = order.drop_first();
        let fin = propagate_seq(es, order);
        assert(fin == propagate_seq(next, rest));
        assert(same_shape(es, next));
        assert(indices_within(rest, next.len() as int)) by {
            assert forall|k: int| 0 <= k < rest.len() implies 0 <= #[trigger] rest[k] < next.len() by {
                assert(rest[k] == order[k + 1]);
            }
        }
        assert(rest.no_duplicates()) by {
            assert forall|p: int, q: int| 0 <= p < rest.len() && 0 <= q < rest.len() && p != q implies rest[p] != rest[q] by {
                assert(rest[p] == order[p + 1] && rest[q] == order[q + 1]);
            }
        }
        assert(deepest_first(next, rest)) by {
            assert forall|p: int, q: int| 0 <= p < q < rest.len() implies next[#[trigger] rest[p]].depth >= next[#[trigger] rest[q]].depth by {
                assert(rest[p] == order[p + 1] && rest[q] == order[q + 1]);
                assert(es[order[p + 1]].depth >= es[order[q + 1]].depth);
            }
        }
        assert(depths_consistent(next)) by {
            assert forall|i: int, c: int| 0 <= i < next.len() && 0 <= c < next.len() && #[trigger] child_of(next, c, i) implies next[c].depth > next[i].depth by {
                assert(child_of(es, c, i));
            }
        }
        lemma_rule_along(next, rest);
        lemma_propagate_seq_stronger(next, rest);
        assert forall|i: int| 0 <= i < es.len() && order.contains(i) && es[i].is_dir implies (#[trigger] fin[i]).status
            == strongest_below(fin, es[i].path@, es[i].status, es.len() as int) by {
            if i == i0 {
                assert(!rest.contains(i0)) by {
                    if rest.contains(i0) {
                        let k = choose|k: int| 0 <= k < rest.len() && rest[k] == i0;
                        assert(order[k + 1] == order[0]);
                    }
                }
                lemma_propagate_seq_untouched(next, rest, i0);
                assert forall|c: int| 0 <= c < es.len() && parent_key(es[c].path@) == Some(es[i0].path@) implies (
                #[trigger] es[c]).status == fin[c].status by {
                    assert(child_of(es, c, i0));
                    assert(!rest.contains(c)) by {
                        if rest.contains(c) {
                            let k = choose|k: int| 0 <= k < rest.len() && rest[k] == c;
                            assert(order[k + 1] == c);
                            assert(es[order[0]].depth >= es[order[k + 1]].depth);
                        }
                    }
                    assert(c != i0);
                    lemma_propagate_seq_untouched(next, rest, c);
                }
                assert forall|c: int| 0 <= c < es.len() implies (#[trigger] es[c]).path == fin[c].path by {
                    assert(next[c].path == fin[c].path);
                }
                lemma_strongest_agree(es, fin, es[i0].path@, es[i0].status, es.len() as int);
            } else {
                assert(rest.contains(i)) by {
                    let k = choose|k: int| 0 <= k < order.len() && order[k] == i;
                    assert(k != 0);
                    assert(rest[k - 1] == i);
                }
                assert(next[i] == es[i]);
            }
        }
    }
}

proof fn lemma_bucket_props(es: Seq<FileEntry>, d: int, n: int)
    requires
        n <= es.len(),
    ensures
        forall|k: int| 0 <= k < depth_bucket(es, d, n).len() ==> 0 <= #[trigger] depth_bucket(es, d, n)[k] < n
            && es[depth_bucket(es, d, n)[k]].depth == d,
        forall|p: int, q: int| 0 <= p < q < depth_bucket(es, d, n).len() ==> #[trigger] depth_bucket(es, d, n)[p]
            < #[trigger] depth_bucket(es, d, n)[q],
        forall|j: int| 0 <= j < n && es[j].depth == d ==> #[trigger] depth_bucket(es, d, n).contains(j),
    decreases n,
{
    if n > 0 {
        lemma_bucket_props(es, d, n - 1);
        let prev = depth_bucket(es, d, n - 1);
        if es[n - 1].depth == d {
            let b = prev.push(n - 1);
            assert forall|k: int| 0 <= k < b.len() implies 0 <= #[trigger] b[k] < n && es[b[k]].depth == d by {
                if k < prev.len() {
                    assert(b[k] == prev[k]);
                }
            }
            assert forall|p: int, q: int| 0 <= p < q < b.len() implies #[trigger] b[p] < #[trigger] b[q] by {
                assert(b[p] == prev[p]);
                if q < prev.len() {
                    assert(b[q] == prev[q]);
                }
            }
            assert forall|j: int| 0 <= j < n && es[j].depth == d implies #[trigger] b.contains(j) by {
                if j < n - 1 {
                    assert(prev.contains(j));
                    let k = choose|k: int| 0 <= k < prev.len() && prev[k] == j;
                    assert(b[k] == j);
                } else {
                    assert(b[prev.len() as int] == j);
                }
            }
        }
    }
}

proof fn lemma_order_props(es: Seq<FileEntry>, d: int)
    ensures
        indices_within(order_from_depth(es, d), es.len() as int),
        forall|k: int| 0 <= k < order_from_depth(es, d).len() ==> es[#[trigger] order_from_depth(es, d)[k]].depth <= d,
        order_from_depth(es, d).no_duplicates(),
        deepest_first(es, order_from_depth(es, d)),
        forall|j: int| 0 <= j < es.len() && es[j].depth <= d ==> #[trigger] order_from_depth(es, d).contains(j),
    decreases d + 1,
{
    lemma_order_within(es, d);
    if d >= 0 {
        lemma_order_props(es, d - 1);
        lemma_bucket_props(es, d, es.len() as int);
        let a = depth_bucket(es, d, es.len() as int);
        let b = order_from_depth(es, d - 1);
        let o = a + b;
        assert(o == order_from_depth(es, d));
        assert forall|k: int| 0 <= k < o.len() implies es[#[trigger] o[k]].depth <= d by {
            if k < a.len() {
                assert(o[k] == a[k]);
            } else {
                assert(o[k] == b[k - a.len()]);
            }
        }
        assert(o.no_duplicates()) by {
            assert forall|p: int, q: int| 0 <= p < o.len() && 0 <= q < o.len() && p != q implies o[p] != o[q] by {
                if p < a.len() && q < a.len() {
                    if p < q {
                        assert(a[p] < a[q]);
                    } else {
                        assert(a[q] < a[p]);
                    }
                } else if p < a.len() {
                    assert(o[p] == a[p]);
                    assert(o[q] == b[q - a.len()]);
                    assert(es[b[q - a.len()]].depth <= d - 1);
                } else if q < a.len() {
                    assert(o[q] == a[q]);
                    assert(o[p] == b[p - a.len()]);
                    assert(es[b[p - a.len()]].depth <= d - 1);
                } else {
                    assert(o[p] == b[p - a.len()]);
                    assert(o[q] == b[q - a.len()]);
                }
            }
        }
        assert forall|p: int, q: int| 0 <= p < q < o.len() implies es[#[trigger] o[p]].depth >= es[#[trigger] o[q]].depth by {
            if q < a.len() {
                assert(o[p] == a[p] && o[q] == a[q]);
            } else if p < a.len() {
                assert(o[p] == a[p]);
                assert(o[q] == b[q - a.len()]);
                assert(es[b[q - a.len()]].depth <= d - 1);
            } else {
                assert(o[p] == b[p - a.len()]);
                assert(o[q] == b[q - a.len()]);
            }
        }
        assert forall|j: int| 0 <= j < es.len() && es[j].depth <= d implies #[trigger] o.contains(j) by {
            if es[j].depth == d {
                assert(a.contains(j));
                let k = choose|k: int| 0 <= k < a.len() && a[k] == j;
                assert(o[k] == j);
            } else {
                assert(b.contains(j));
                let k = choose|k: int| 0 <= k < b.len() && b[k] == j;
                assert(o[k + a.len()] == j);
            }
        }
    } else {
        assert(order_from_depth(es, d) =~= Seq::<int>::empty());
    }
}

proof fn lemma_max_depth_bound(es: Seq<FileEntry>)
    ensures
        forall|j: int| 0 <= j < es.len() ==> es[j].depth <= max_depth(es),
    decreases es.len(),
{
    if es.len() > 0 {
        lemma_max_depth_bound(es.drop_last());
        assert forall|j: int| 0 <= j < es.len() implies es[j].depth <= max_depth(es) by {
            if j < es.len() - 1 {
                assert(es.drop_last()[j] == es[j]);
            }
        }
    }
}

/// Folder propagation by its plain rule, in a tree whose entries lie deeper than
/// their directories (as the scan builds it): each directory ends with the
/// strongest of its own status and the final statuses of its children that are
/// not ignored (a child replaces the status only with a strictly higher
/// priority); files keep their status.
pub proof fn law_directory_takes_strongest(es: Seq<FileEntry>)
    requires
        depths_consistent(es),
    ensures
        forall|i: int|
            0 <= i < es.len() && es[i].is_dir ==> (#[trigger] propagate_spec(es)[i]).status == strongest_below(
                propagate_spec(es),
                es[i].path@,
                es[i].status,
                es.len() as int,
            ),
        forall|i: int| 0 <= i < es.len() && !es[i].is_dir ==> (#[trigger] propagate_spec(es)[i]).status == es[i].status,
{
    let d = max_depth(es);
    lemma_order_props(es, d);
    lemma_max_depth_bound(es);
    lemma_rule_along(es, order_from_depth(es, d));
    law_propagation_only_strengthens(es);
}

/// In a tree whose entries lie deeper than their directories (as the scan
/// builds it), after propagation every directory is at least as strong as each
/// of its children that is not ignored.
pub proof fn law_directory_dominates_children(es: Seq<FileEntry>)
    requires
        depths_consistent(es),
    ensures
        forall|i: int, c: int|
            0 <= i < es.len() && 0 <= c < es.len() && es[i].is_dir && #[trigger] child_of(es, c, i)
                && (#[trigger] propagate_spec(es)[c]).status != GitStatus::Ignored ==> priority_of(
                propagate_spec(es)[i].status,
            ) >= priority_of(propagate_spec(es)[c].status),
{
    let d = max_depth(es);
    lemma_order_props(es, d);
    lemma_max_depth_bound(es);
    lemma_dominance_along(es, order_from_depth(es, d));
}

// ---------------------------------------------------------------------------
// Loading and saving
// ---------------------------------------------------------------------------

proof fn lemma_join_front(a: Seq<char>, ls: Seq<Seq<char>>)
    requires
        ls.len() >= 1,
    ensures
        join_lines(seq![a] + ls) == a + seq!['\n'] + join_lines(ls),
    decreases ls.len(),
{
    let whole = seq![a] + ls;
    assert(join_lines(whole) == join_lines(whole.drop_last()) + seq!['\n'] + whole.last());
    if ls.len() == 1 {
        assert(whole.drop_last() =~= seq![a]);
        assert(whole.last() == ls[0]);
        assert(join_lines(seq![a]) == a);
        assert(join_lines(ls) == ls[0]);
    } else {
        lemma_join_front(a, ls.drop_last());
        assert(whole.drop_last() =~= seq![a] + ls.drop_last());
        assert(whole.last() == ls.last());
        assert(join_lines(ls) == join_lines(ls.drop_last()) + seq!['\n'] + ls.last());
        assert(a + seq!['\n'] + join_lines(ls.drop_last()) + seq!['\n'] + ls.last() =~= a + seq!['\n'] + (
        join_lines(ls.drop_last()) + seq!['\n'] + ls.last()));
    }
}

/// Saving right after loading writes back the text that was loaded, when the
/// text has no carriage return and does not end with a line break (the editor
/// splits lines as `str::lines` does, which drops both).
pub proof fn law_load_then_save_gives_back_the_text(s: Seq<char>)
    requires
        forall|i: int| 0 <= i < s.len() ==> s[i] != '\r',
        s.len() == 0 || s.last() != '\n',
    ensures
        join_lines(lines_spec(s)) == s,
    decreases s.len(),
{
    if s.len() > 0 {
        lemma_find_char_bounds(s, '\n', 0);
        match find_char_from(s, '\n', 0) {
            None => {},
            Some(i) => {
                let front = s.take(i);
                let rest = s.skip(i + 1);
                assert(strip_cr(front) == front) by {
                    if front.len() > 0 {
                        assert(front.last() == s[i - 1]);
                    }
                }
                assert(rest.len() > 0);
                assert(rest.last() == s.last());
                law_load_then_save_gives_back_the_text(rest);
                assert(lines_spec(rest).len() >= 1) by {
                    lemma_find_char_bounds(rest, '\n', 0);
                }
                lemma_join_front(front, lines_spec(rest));
                assert(lines_spec(s) == seq![front] + lines_spec(rest));
                assert(front + seq!['\n'] + rest =~= s);
            },
        }
    }
}

// ---------------------------------------------------------------------------
// The directory walk
// ---------------------------------------------------------------------------

/// The walk's entries at depth `d`, in order.
pub open spec fn at_depth(s: Seq<(Seq<char>, bool, usize)>, d: usize) -> Seq<(Seq<char>, bool, usize)>
    decreases s.len(),
{
    if s.len() == 0 {
        seq![]
    } else {
        at_depth(s.drop_last(), d) + if s.last().2 == d {
            seq![s.last()]
        } else {
            seq![]
        }
    }
}

/// The kept children of a directory as the walk lists them at depth `d`.
pub open spec fn children_at(kids: Seq<(Seq<char>, Seq<char>, bool, bool)>, d: usize) -> Seq<(Seq<char>, bool, usize)> {
    kids.map_values(|k: (Seq<char>, Seq<char>, bool, bool)| (k.1, k.2, d))
}

proof fn lemma_at_depth_concat(a: Seq<(Seq<char>, bool, usize)>, b: Seq<(Seq<char>, bool, usize)>, d: usize)
    ensures
        at_depth(a + b, d) == at_depth(a, d) + at_depth(b, d),
    decreases b.len(),
{
    if b.len() == 0 {
        assert(a + b =~= a);
    } else {
        lemma_at_depth_concat(a, b.drop_last(), d);
        assert((a + b).drop_last() =~= a + b.drop_last());
        assert(at_depth(a, d) + at_depth(b.drop_last(), d) + (if b.last().2 == d {
            seq![b.last()]
        } else {
            seq![]
        }) =~= at_depth(a, d) + (at_depth(b.drop_last(), d) + (if b.last().2 == d {
            seq![b.last()]
        } else {
            seq![]
        })));
    }
}

proof fn lemma_at_depth_deeper(s: Seq<(Seq<char>, bool, usize)>, d: usize)
    requires
        forall|i: int| 0 <= i < s.len() ==> (#[trigger] s[i]).2 > d,
    ensures
        at_depth(s, d) == Seq::<(Seq<char>, bool, usize)>::empty(),
    decreases s.len(),
{
    if s.len() > 0 {
        lemma_at_depth_deeper(s.drop_last(), d);
        assert(s.last() == s[s.len() - 1]);
    }
}

proof fn lemma_walk_deep(t: DirTree, name: Seq<char>, rel: Seq<char>, d: usize, ex: Set<Seq<char>>)
    requires
        d + tree_height(t) <= usize::MAX,
    ensures
        forall|i: int| 0 <= i < walk_tree(t, name, rel, d, ex).len() ==> (#[trigger] walk_tree(t, name, rel, d, ex)[i]).2 >= d,
    decreases t, 1int, 0int,
{
    if name != git_dir_name() {
        let kids = tree_children(t, rel, d, ex);
        lemma_kids_deep(t, kids, kids.len() as int, d, ex);
        assert(walk_tree(t, name, rel, d, ex) == walk_kids(t, kids, kids.len() as int, d, ex));
    }
}

proof fn lemma_kids_deep(
    t: DirTree,
    kids: Seq<(Seq<char>, Seq<char>, bool, bool)>,
    n: int,
    d: usize,
    ex: Set<Seq<char>>,
)
    requires
        d + tree_height(t) <= usize::MAX,
    ensures
        forall|i: int| 0 <= i < walk_kids(t, kids, n, d, ex).len() ==> (#[trigger] walk_kids(t, kids, n, d, ex)[i]).2 >= d,
    decreases t, 0int, n,
{
    if 0 < n <= kids.len() {
        lemma_kids_deep(t, kids, n - 1, d, ex);
        let (name, path, is_dir, descend) = kids[n - 1];
        let prev = walk_kids(t, kids, n - 1, d, ex);
        let below = if descend {
            match crate::scan::find_subtree(t, name, t.subdirs@.len() as int) {
                Some(j) => if 0 <= j < t.subdirs@.len() {
                    walk_tree(t.subdirs@[j].tree, name, path, (d + 1) as usize, ex)
                } else {
                    seq![]
                },
                None => seq![],
            }
        } else {
            seq![]
        };
        if descend {
            match crate::scan::find_subtree(t, name, t.subdirs@.len() as int) {
                Some(j) => if 0 <= j < t.subdirs@.len() {
                    lemma_subs_height(t, t.subdirs@.len() as int, j);
                    assert(decreases_to!(t => t.subdirs@[j].tree));
                    lemma_walk_deep(t.subdirs@[j].tree, name, path, (d + 1) as usize, ex);
                },
                None => {},
            }
        }
        let w = walk_kids(t, kids, n, d, ex);
        assert(w == prev + seq![(path, is_dir, d)] + below);
        assert forall|i: int| 0 <= i < w.len() implies (#[trigger] w[i]).2 >= d by {
            if i < prev.len() {
                assert(w[i] == prev[i]);
            } else if i == prev.len() {
            } else {
                assert(w[i] == below[i - prev.len() - 1]);
            }
        }
    }
}

proof fn lemma_kids_top(
    t: DirTree,
    kids: Seq<(Seq<char>, Seq<char>, bool, bool)>,
    n: int,
    d: usize,
    ex: Set<Seq<char>>,
)
    requires
        d + tree_height(t) <= usize::MAX,
        0 <= n <= kids.len(),
    ensures
        at_depth(walk_kids(t, kids, n, d, ex), d) == children_at(kids.take(n), d),
    decreases n,
{
    if n == 0 {
        assert(children_at(kids.take(0), d) =~= Seq::<(Seq<char>, bool, usize)>::empty());
    } else {
        lemma_kids_top(t, kids, n - 1, d, ex);
        let (name, path, is_dir, descend) = kids[n - 1];
        let prev = walk_kids(t, kids, n - 1, d, ex);
        let below = if descend {
            match crate::scan::find_subtree(t, name, t.subdirs@.len() as int) {
                Some(j) => if 0 <= j < t.subdirs@.len() {
                    walk_tree(t.subdirs@[j].tree, name, path, (d + 1) as usize, ex)
                } else {
                    seq![]
                },
                None => seq![],
            }
        } else {
            seq![]
        };
        assert(forall|i: int| 0 <= i < below.len() ==> (#[trigger] below[i]).2 > d) by {
            if descend {
                match crate::scan::find_subtree(t, name, t.subdirs@.len() as int) {
                    Some(j) => if 0 <= j < t.subdirs@.len() {
                        lemma_subs_height(t, t.subdirs@.len() as int, j);
                        lemma_walk_deep(t.subdirs@[j].tree, name, path, (d + 1) as usize, ex);
                    },
                    None => {},
                }
            }
        }
        lemma_at_depth_deeper(below, d);
        lemma_at_depth_concat(prev + seq![(path, is_dir, d)], below, d);
        lemma_at_depth_concat(prev, seq![(path, is_dir, d)], d);
        let one = seq![(path, is_dir, d)];
        assert(at_depth(one, d) =~= one) by {
            assert(one.len() == 1);
            assert(one.last() == (path, is_dir, d));
            assert(one.drop_last() =~= Seq::<(Seq<char>, bool, usize)>::empty());
            assert(at_depth(one.drop_last(), d) =~= Seq::<(Seq<char>, bool, usize)>::empty());
        }
        assert(children_at(kids.take(n), d) =~= children_at(kids.take(n - 1), d).push((path, is_dir, d)));
        assert(walk_kids(t, kids, n, d, ex) == prev + seq![(path, is_dir, d)] + below);
        assert(at_depth(below, d) + Seq::<(Seq<char>, bool, usize)>::empty() =~= at_depth(below, d));
    }
}

/// The top level of the tree is exactly the kept children of the working
/// directory, in listing order.
pub proof fn law_walk_top_level(t: DirTree, root_name: Seq<char>, ex: Set<Seq<char>>)
    requires
        root_name != git_dir_name(),
        tree_height(t) <= usize::MAX,
    ensures
        at_depth(walk_tree(t, root_name, seq![], 0, ex), 0) == children_at(tree_children(t, seq![], 0, ex), 0),
{
    let kids = tree_children(t, seq![], 0, ex);
    lemma_kids_top(t, kids, kids.len() as int, 0, ex);
    assert(kids.take(kids.len() as int) =~= kids);
}

/// Number of `/` in `s`.
pub open spec fn slashes(s: Seq<char>) -> nat
    decreases s.len(),
{
    if s.len() == 0 {
        0
    } else {
        slashes(s.drop_last()) + if s.last() == '/' {
            1nat
        } else {
            0nat
        }
    }
}

/// `s` holds neither `/` nor `\`.
pub open spec fn free_of_separators(s: Seq<char>) -> bool {
    forall|i: int| 0 <= i < s.len() ==> s[i] != '/' && s[i] != '\\'
}

/// `s` holds no `\`.
pub open spec fn no_backslash(s: Seq<char>) -> bool {
    forall|i: int| 0 <= i < s.len() ==> s[i] != '\\'
}

/// Index of the last `/` in `p` below `n`.
pub open spec fn last_slash_below(p: Seq<char>, n: int) -> Option<int>
    decreases n,
{
    if n <= 0 {
        None
    } else if p[n - 1] == '/' {
        Some(n - 1)
    } else {
        last_slash_below(p, n - 1)
    }
}

/// The path of the directory an entry lies in: what comes before its last `/`.
pub open spec fn parent_dir(p: Seq<char>) -> Seq<char> {
    match last_slash_below(p, p.len() as int) {
        Some(k) => p.take(k),
        None => seq![],
    }
}

/// Every name in the tree and in the trees under it is free of separators.
pub open spec fn names_clean(t: DirTree) -> bool
    decreases t, 1int, 0int,
{
    &&& forall|i: int| 0 <= i < t.items@.len() ==> free_of_separators(#[trigger] t.items@[i].name@)
    &&& subs_clean(t, t.subdirs@.len() as int)
}

/// `names_clean` for the first `n` subdirectory trees of `t`.
pub open spec fn subs_clean(t: DirTree, n: int) -> bool
    decreases t, 0int, n,
{
    if n <= 0 || n > t.subdirs@.len() {
        true
    } else {
        names_clean(t.subdirs@[n - 1].tree) && subs_clean(t, n - 1)
    }
}

/// A directory the walk lists the children of, at path `rel`, whose children
/// lie at depth `d`.
pub open spec fn dir_ok(rel: Seq<char>, d: usize, ex: Set<Seq<char>>) -> bool {
    &&& d == 0 ==> rel.len() == 0
    &&& d > 0 ==> rel.len() > 0 && rel[0] != '/' && no_backslash(rel) && slashes(rel) + 1 == d
    &&& d >= 2 ==> ex.contains(rel)
}

/// A listed entry: a non-empty path not starting with `/`, with as many `/`
/// as its depth, and from depth 2 on a parent directory that was expanded.
pub open spec fn entry_ok(e: (Seq<char>, bool, usize), ex: Set<Seq<char>>) -> bool {
    &&& e.0.len() > 0
    &&& e.0[0] != '/'
    &&& no_backslash(e.0)
    &&& slashes(e.0) == e.2
    &&& e.2 >= 2 ==> ex.contains(parent_dir(e.0))
}

/// A kept child of the directory at `rel` whose children lie at depth `d`.
pub open spec fn kid_ok(k: (Seq<char>, Seq<char>, bool, bool), rel: Seq<char>, d: usize, ex: Set<Seq<char>>) -> bool {
    &&& k.1 == child_rel(rel, k.0)
    &&& free_of_separators(k.0)
    &&& k.1.len() > 0
    &&& k.3 ==> (d == 0 || ex.contains(k.1))
}

proof fn lemma_slashes_concat(a: Seq<char>, b: Seq<char>)
    ensures
        slashes(a + b) == slashes(a) + slashes(b),
    decreases b.len(),
{
    if b.len() == 0 {
        assert(a + b =~= a);
    } else {
        lemma_slashes_concat(a, b.drop_last());
        assert((a + b).drop_last() =~= a + b.drop_last());
    }
}

proof fn lemma_slashes_free(s: Seq<char>)
    requires
        free_of_separators(s),
    ensures
        slashes(s) == 0,
    decreases s.len(),
{
    if s.len() > 0 {
        lemma_slashes_free(s.drop_last());
    }
}

proof fn lemma_last_slash(p: Seq<char>, k: int, n: int)
    requires
        0 <= k < n <= p.len(),
        p[k] == '/',
        forall|j: int| k < j < n ==> p[j] != '/',
    ensures
        last_slash_below(p, n) == Some(k),
    decreases n,
{
    if n - 1 > k {
        lemma_last_slash(p, k, n - 1);
    }
}

/// Where a kept child of a well-formed directory lands.
proof fn lemma_child(rel: Seq<char>, name: Seq<char>, d: usize, ex: Set<Seq<char>>)
    requires
        dir_ok(rel, d, ex),
        free_of_separators(name),
        child_rel(rel, name).len() > 0,
    ensures
        entry_ok((child_rel(rel, name), true, d), ex),
        d < usize::MAX && (d == 0 || ex.contains(child_rel(rel, name))) ==> dir_ok(
            child_rel(rel, name),
            (d + 1) as usize,
            ex,
        ),
{
    let joined = if rel.len() == 0 {
        name
    } else {
        rel + seq!['/'] + name
    };
    assert(no_backslash(joined)) by {
        if rel.len() > 0 {
            assert forall|i: int| 0 <= i < joined.len() implies joined[i] != '\\' by {
                if i < rel.len() {
                    assert(joined[i] == rel[i]);
                } else if i > rel.len() {
                    assert(joined[i] == name[i - rel.len() - 1]);
                }
            }
        }
    }
    assert(replace_char(joined, '\\', '/') =~= joined);
    let p = child_rel(rel, name);
    assert(joined.len() > 0);
    assert(joined[0] != '/') by {
        if rel.len() > 0 {
            assert(joined[0] == rel[0]);
        }
    }
    assert(trim_start_char(joined, '/') == joined) by {
        assert(!eq_char('/')(joined[0]));
    }
    assert(p == joined);
    lemma_slashes_free(name);
    if rel.len() > 0 {
        lemma_slashes_concat(rel, seq!['/']);
        lemma_slashes_concat(rel + seq!['/'], name);
        assert(slashes(seq!['/']) == 1) by {
            let one = seq!['/'];
            assert(one.drop_last() =~= Seq::<char>::empty());
            assert(one.last() == '/');
            assert(slashes(one.drop_last()) == 0);
        }
        lemma_last_slash(p, rel.len() as int, p.len() as int);
        assert(p.take(rel.len() as int) =~= rel);
        assert(parent_dir(p) == rel);
    }
}

proof fn lemma_scan_kids(
    s: Seq<(bool, Seq<char>)>,
    parent: Seq<char>,
    depth: usize,
    ex: Set<Seq<char>>,
)
    ensures
        forall|i: int| 0 <= i < scan_spec(s, parent, depth, ex).len() ==> {
            let k = #[trigger] scan_spec(s, parent, depth, ex)[i];
            &&& k.1 == child_rel(parent, k.0)
            &&& k.1.len() > 0
            &&& s.contains((k.2, k.0))
            &&& k.3 ==> (depth == 0 || ex.contains(k.1))
        },
    decreases s.len(),
{
    if s.len() > 0 {
        lemma_scan_kids(s.drop_last(), parent, depth, ex);
        let prev = scan_spec(s.drop_last(), parent, depth, ex);
        let cur = scan_spec(s, parent, depth, ex);
        assert forall|i: int| 0 <= i < cur.len() implies {
            let k = #[trigger] cur[i];
            &&& k.1 == child_rel(parent, k.0)
            &&& k.1.len() > 0
            &&& s.contains((k.2, k.0))
            &&& k.3 ==> (depth == 0 || ex.contains(k.1))
        } by {
            if i < prev.len() {
                assert(cur[i] == prev[i]);
                let k = prev[i];
                let j = choose|j: int| 0 <= j < s.drop_last().len() && s.drop_last()[j] == (k.2, k.0);
                assert(s[j] == (k.2, k.0));
            } else {
                assert(s[s.len() - 1] == s.last());
            }
        }
    }
}

proof fn lemma_subs_clean(t: DirTree, n: int, j: int)
    requires
        subs_clean(t, n),
        0 <= j < n <= t.subdirs@.len(),
    ensures
        names_clean(t.subdirs@[j].tree),
    decreases n,
{
    if j < n - 1 {
        lemma_subs_clean(t, n - 1, j);
    }
}

proof fn lemma_walk_ok(t: DirTree, name: Seq<char>, rel: Seq<char>, d: usize, ex: Set<Seq<char>>)
    requires
        names_clean(t),
        dir_ok(rel, d, ex),
        d + tree_height(t) <= usize::MAX,
    ensures
        forall|i: int| 0 <= i < walk_tree(t, name, rel, d, ex).len() ==> entry_ok(#[trigger] walk_tree(t, name, rel, d, ex)[i], ex),
    decreases t, 1int, 0int,
{
    if name != git_dir_name() {
        let leq = |a: (bool, Seq<char>), b: (bool, Seq<char>)| item_le(a, b);
        let src = items_view(t.items@);
        let sorted = src.sort_by(leq);
        let kids = tree_children(t, rel, d, ex);
        lemma_item_order();
        src.lemma_sort_by_ensures(leq);
        lemma_scan_kids(sorted, rel, d, ex);
        assert forall|i: int| 0 <= i < kids.len() implies kid_ok(#[trigger] kids[i], rel, d, ex) by {
            let k = kids[i];
            assert(sorted.contains((k.2, k.0)));
            assert(src.contains((k.2, k.0)));
            let j = choose|j: int| 0 <= j < src.len() && src[j] == (k.2, k.0);
            assert(src[j] == crate::scan::item_view(t.items@[j]));
            assert(free_of_separators(t.items@[j].name@));
        }
        lemma_kids_ok(t, kids, kids.len() as int, rel, d, ex);
        assert(walk_tree(t, name, rel, d, ex) == walk_kids(t, kids, kids.len() as int, d, ex));
    }
}

proof fn lemma_kids_ok(
    t: DirTree,
    kids: Seq<(Seq<char>, Seq<char>, bool, bool)>,
    n: int,
    rel: Seq<char>,
    d: usize,
    ex: Set<Seq<char>>,
)
    requires
        names_clean(t),
        dir_ok(rel, d, ex),
        d + tree_height(t) <= usize::MAX,
        forall|i: int| 0 <= i < kids.len() ==> kid_ok(#[trigger] kids[i], rel, d, ex),
    ensures
        forall|i: int| 0 <= i < walk_kids(t, kids, n, d, ex).len() ==> entry_ok(#[trigger] walk_kids(t, kids, n, d, ex)[i], ex),
    decreases t, 0int, n,
{
    if 0 < n <= kids.len() {
        lemma_kids_ok(t, kids, n - 1, rel, d, ex);
        let (name, path, is_dir, descend) = kids[n - 1];
        assert(kid_ok(kids[n - 1], rel, d, ex));
        let prev = walk_kids(t, kids, n - 1, d, ex);
        let below = if descend {
            match crate::scan::find_subtree(t, name, t.subdirs@.len() as int) {
                Some(j) => if 0 <= j < t.subdirs@.len() {
                    walk_tree(t.subdirs@[j].tree, name, path, (d + 1) as usize, ex)
                } else {
                    seq![]
                },
                None => seq![],
            }
        } else {
            seq![]
        };
        if descend {
            match crate::scan::find_subtree(t, name, t.subdirs@.len() as int) {
                Some(j) => if 0 <= j < t.subdirs@.len() {
                    lemma_subs_height(t, t.subdirs@.len() as int, j);
                    lemma_subs_clean(t, t.subdirs@.len() as int, j);
                    lemma_child(rel, name, d, ex);
                    assert(decreases_to!(t => t.subdirs@[j].tree));
                    lemma_walk_ok(t.subdirs@[j].tree, name, path, (d + 1) as usize, ex);
                },
                None => {},
            }
        }
        let e = (path, is_dir, d);
        assert(entry_ok(e, ex)) by {
            lemma_child(rel, name, d, ex);
        }
        let w = walk_kids(t, kids, n, d, ex);
        assert(w == prev + seq![e] + below);
        assert forall|i: int| 0 <= i < w.len() implies entry_ok(#[trigger] w[i], ex) by {
            if i < prev.len() {
                assert(w[i] == prev[i]);
            } else if i == prev.len() {
                assert(w[i] == e);
            } else {
                assert(w[i] == below[i - prev.len() - 1]);
            }
        }
    }
}

/// With names free of `/` and `\`, every entry the walk lists from the working
/// directory has a non-empty path that does not start with `/`, as many `/` in
/// it as its depth, and, from depth 2 on, a parent directory that was expanded.
pub proof fn law_walk_paths(t: DirTree, root_name: Seq<char>, ex: Set<Seq<char>>)
    requires
        names_clean(t),
        tree_height(t) <= usize::MAX,
    ensures
        forall|i: int| 0 <= i < walk_tree(t, root_name, seq![], 0, ex).len() ==> entry_ok(
            #[trigger] walk_tree(t, root_name, seq![], 0, ex)[i],
            ex,
        ),
{
    lemma_walk_ok(t, root_name, seq![], 0, ex);
}

// ---------------------------------------------------------------------------
// What git reports, what the tree lists, what the screen shows
// ---------------------------------------------------------------------------

/// The reported (path, status) pairs whose status is not Ignored, in order.
pub open spec fn not_ignored(sts: Seq<(Seq<char>, GitStatus)>) -> Seq<(Seq<char>, GitStatus)>
    decreases sts.len(),
{
    if sts.len() == 0 {
        seq![]
    } else if sts[0].1 == GitStatus::Ignored {
        not_ignored(sts.drop_first())
    } else {
        seq![sts[0]] + not_ignored(sts.drop_first())
    }
}

/// Paths git reports as ignored raise no parent directory: raising parents for
/// the reported pairs gives the same entries as raising them for the pairs
/// with every ignored one taken out.
pub proof fn law_ignored_reports_raise_nothing(es: Seq<FileEntry>, sts: Seq<(Seq<char>, GitStatus)>)
    ensures
        apply_git_paths_spec(es, sts) == apply_git_paths_spec(es, not_ignored(sts)),
    decreases sts.len(),
{
    if sts.len() > 0 {
        let st = sts[0];
        if st.1 == GitStatus::Ignored {
            law_ignored_reports_raise_nothing(es, sts.drop_first());
        } else {
            let next = raise_along(es, named_ancestors(st.0), st.1);
            law_ignored_reports_raise_nothing(next, sts.drop_first());
            let kept = seq![st] + not_ignored(sts.drop_first());
            assert(kept[0] == st);
            assert(kept.drop_first() =~= not_ignored(sts.drop_first()));
        }
    }
}

/// When git reports nothing but ignored paths, every entry keeps the status it
/// was scanned with.
pub proof fn law_only_ignored_reports_change_nothing(es: Seq<FileEntry>, sts: Seq<(Seq<char>, GitStatus)>)
    requires
        forall|i: int| 0 <= i < sts.len() ==> (#[trigger] sts[i]).1 == GitStatus::Ignored,
    ensures
        apply_git_paths_spec(es, sts) == es,
    decreases sts.len(),
{
    if sts.len() > 0 {
        assert forall|i: int| 0 <= i < sts.drop_first().len() implies (#[trigger] sts.drop_first()[i]).1
            == GitStatus::Ignored by {
            assert(sts.drop_first()[i] == sts[i + 1]);
        }
        assert(sts[0].1 == GitStatus::Ignored);
        law_only_ignored_reports_change_nothing(es, sts.drop_first());
    }
}

/// In the Changed mode every listed path belongs to an entry that is neither
/// clean nor ignored.
pub proof fn law_changed_mode_lists_only_changes(files: Seq<FileEntry>, collapsed: Set<Seq<char>>, k: int)
    requires
        0 <= k < visible_paths(files, DisplayMode::Changed, collapsed).len(),
    ensures
        exists|j: int|
            0 <= j < files.len() && (#[trigger] files[j]).path@ == visible_paths(
                files,
                DisplayMode::Changed,
                collapsed,
            )[k] && files[j].status != GitStatus::Clean && files[j].status != GitStatus::Ignored,
{
    lemma_visible_member(files, DisplayMode::Changed, collapsed, k);
}

/// An application whose listing is current (every one the library makes or
/// changes keeps it so) lists in the Changed mode only entries that are
/// neither clean nor ignored; so does the listing right after the display mode
/// is cycled into the Changed mode.
pub proof fn law_changed_listing_has_no_clean_or_ignored(a: App, b: App, k: int)
    requires
        (a.listing_current() && a.display_mode == DisplayMode::Changed) || (display_mode_toggled(a, b)
            && b.display_mode == DisplayMode::Changed),
    ensures
        a.listing_current() && a.display_mode == DisplayMode::Changed && 0 <= k < a.filtered().len()
            ==> exists|j: int|
            0 <= j < a.files@.len() && (#[trigger] a.files@[j]).path@ == a.filtered()[k] && a.files@[j].status
                != GitStatus::Clean && a.files@[j].status != GitStatus::Ignored,
        display_mode_toggled(a, b) && b.display_mode == DisplayMode::Changed && 0 <= k < b.filtered().len()
            ==> exists|j: int|
            0 <= j < b.files@.len() && (#[trigger] b.files@[j]).path@ == b.filtered()[k] && b.files@[j].status
                != GitStatus::Clean && b.files@[j].status != GitStatus::Ignored,
{
    if a.listing_current() && a.display_mode == DisplayMode::Changed && 0 <= k < a.filtered().len() {
        law_changed_mode_lists_only_changes(a.files@, a.collapsed_set(), k);
    }
    if display_mode_toggled(a, b) && b.display_mode == DisplayMode::Changed && 0 <= k < b.filtered().len() {
        law_changed_mode_lists_only_changes(b.files@, b.collapsed_set(), k);
    }
}

/// A hunk that removes no line and adds `n >= 1` lines (a missing new count
/// reads as 1) marks each of the lines `new start .. new start + n - 1` as
/// added, whatever came before it.
pub proof fn law_pure_addition_marks_added(lines: Seq<Seq<char>>, line: usize)
    requires
        lines.len() > 0,
        has_prefix(lines.last(), hunk_marker()),
        hunk_numbers(lines.last()).0 == 0,
        hunk_numbers(lines.last()).2 >= 1,
        hunk_numbers(lines.last()).1 <= line < hunk_numbers(lines.last()).1 + hunk_numbers(lines.last()).2,
    ensures
        diff_marks(lines).contains_key(line),
        diff_marks(lines)[line] == DiffLineType::Added,
{
}

/// A hunk that both removes and adds lines marks each added line as modified.
pub proof fn law_replacement_marks_modified(lines: Seq<Seq<char>>, line: usize)
    requires
        lines.len() > 0,
        has_prefix(lines.last(), hunk_marker()),
        hunk_numbers(lines.last()).0 >= 1,
        hunk_numbers(lines.last()).1 <= line < hunk_numbers(lines.last()).1 + hunk_numbers(lines.last()).2,
    ensures
        diff_marks(lines).contains_key(line),
        diff_marks(lines)[line] == DiffLineType::Modified,
{
}

/// A decimal digit.
pub open spec fn is_digit(c: char) -> bool {
    '0' <= c <= '9'
}

/// `text` holds `label` followed at once by the number `n` written in decimal,
/// and the number ends there.
pub open spec fn shows_count(text: Seq<char>, label: Seq<char>, n: nat) -> bool {
    exists|i: int|
        0 <= i && i + label.len() + decimal(n).len() < text.len() && #[trigger] text.subrange(
            i,
            i + label.len(),
        ) == label && text.subrange(i + label.len(), i + label.len() + decimal(n).len()) == decimal(n)
            && !is_digit(text[i + label.len() + decimal(n).len()])
}

/// The status bar reads, after ` M:`, ` A:`, ` D:` and ` U:`, the numbers of
/// entries that are modified, added, deleted and untracked.
#[verifier::rlimit(40)]
pub proof fn law_status_bar_counts(a: App)
    ensures
        shows_count(stats_text_spec(a), " M:"@, count_status(a.files@, GitStatus::Modified)),
        shows_count(stats_text_spec(a), " A:"@, count_status(a.files@, GitStatus::Added)),
        shows_count(stats_text_spec(a), " D:"@, count_status(a.files@, GitStatus::Deleted)),
        shows_count(stats_text_spec(a), " U:"@, count_status(a.files@, GitStatus::Untracked)),
{
    reveal_strlit(" M:");
    reveal_strlit(" A:");
    reveal_strlit(" D:");
    reveal_strlit(" U:");
    reveal_strlit(" | 模式：");
    let fs = a.files@;
    let t = stats_text_spec(a);
    let dm = decimal(count_status(fs, GitStatus::Modified));
    let da = decimal(count_status(fs, GitStatus::Added));
    let dd = decimal(count_status(fs, GitStatus::Deleted));
    let du = decimal(count_status(fs, GitStatus::Untracked));
    let rest = " | 模式："@ + mode_label(a.display_mode) + " | 刷新："@ + decimal(a.refresh_interval as nat) + "s "@;
    let pm = " M:"@;
    let pa = " A:"@;
    let pd = " D:"@;
    let pu = " U:"@;
    assert(t =~= pm + dm + pa + da + pd + dd + pu + du + rest);
    let im: int = 0;
    let ia: int = 3 + dm.len() as int;
    let id: int = ia + 3 + da.len() as int;
    let iu: int = id + 3 + dd.len() as int;
    let ir: int = iu + 3 + du.len() as int;
    assert(t.subrange(im, im + 3) =~= pm);
    assert(t.subrange(im + 3, im + 3 + dm.len()) =~= dm);
    assert(t[im + 3 + dm.len()] == ' ');
    assert(t.subrange(ia, ia + 3) =~= pa);
    assert(t.subrange(ia + 3, ia + 3 + da.len()) =~= da);
    assert(t[ia + 3 + da.len()] == ' ');
    assert(t.subrange(id, id + 3) =~= pd);
    assert(t.subrange(id + 3, id + 3 + dd.len()) =~= dd);
    assert(t[id + 3 + dd.len()] == ' ');
    assert(t.subrange(iu, iu + 3) =~= pu);
    assert(t.subrange(iu + 3, iu + 3 + du.len()) =~= du);
    assert(t[ir] == ' ');
}

/// A line the diff marks as deleted shows a red `▸` in the gutter and a red
/// line number, unlike an added line, whose gutter is green.
pub proof fn law_deleted_line_gutter(a: App, i: int, b: App, j: int)
    requires
        a.editor_diff_lines@.contains_key((i + 1) as usize),
        a.editor_diff_lines@[(i + 1) as usize] == DiffLineType::Deleted,
        b.editor_diff_lines@.contains_key((j + 1) as usize),
        b.editor_diff_lines@[(j + 1) as usize] == DiffLineType::Added,
    ensures
        editor_row_spec(a, i).0 == "▸"@,
        editor_row_spec(a, i).1 == Tone::Red,
        editor_row_spec(a, i).3 == Tone::Red,
        editor_row_spec(b, j).1 == Tone::Green,
        editor_row_spec(a, i).1 != editor_row_spec(b, j).1,
{
}

/// Each diff mark has its own gutter: a green bar for an added line, a blue
/// bar for a modified one, a red `▸` for a deletion; the line number takes the
/// gutter's tone.
pub proof fn law_gutter_by_mark(a: App, i: int)
    requires
        a.editor_diff_lines@.contains_key((i + 1) as usize),
    ensures
        a.editor_diff_lines@[(i + 1) as usize] == DiffLineType::Added ==> editor_row_spec(a, i).0 == "┃"@
            && editor_row_spec(a, i).1 == Tone::Green,
        a.editor_diff_lines@[(i + 1) as usize] == DiffLineType::Modified ==> editor_row_spec(a, i).0 == "┃"@
            && editor_row_spec(a, i).1 == Tone::GutterBlue,
        a.editor_diff_lines@[(i + 1) as usize] == DiffLineType::Deleted ==> editor_row_spec(a, i).0 == "▸"@
            && editor_row_spec(a, i).1 == Tone::Red,
        editor_row_spec(a, i).3 == editor_row_spec(a, i).1,
{
}

/// A hunk that removes lines and adds none marks its new start (when it is not
/// 0) as deleted.
pub proof fn law_pure_deletion_marks_deleted(lines: Seq<Seq<char>>)
    requires
        lines.len() > 0,
        has_prefix(lines.last(), hunk_marker()),
        hunk_numbers(lines.last()).0 >= 1,
        hunk_numbers(lines.last()).2 == 0,
        hunk_numbers(lines.last()).1 > 0,
    ensures
        diff_marks(lines).contains_key(hunk_numbers(lines.last()).1),
        diff_marks(lines)[hunk_numbers(lines.last()).1] == DiffLineType::Deleted,
{
}

/// In the Tracked mode no untracked entry is listed, and in every mode a listed
/// path is hidden by no collapsed directory.
pub proof fn law_tracked_mode_lists_no_untracked(
    files: Seq<FileEntry>,
    mode: DisplayMode,
    collapsed: Set<Seq<char>>,
    k: int,
)
    requires
        0 <= k < visible_paths(files, mode, collapsed).len(),
    ensures
        !hidden_by(collapsed, visible_paths(files, mode, collapsed)[k]),
        mode == DisplayMode::TrackedOnly ==> exists|j: int|
            0 <= j < files.len() && (#[trigger] files[j]).path@ == visible_paths(files, mode, collapsed)[k]
                && files[j].status != GitStatus::Untracked,
{
    lemma_visible_member(files, mode, collapsed, k);
}

} // verus!
